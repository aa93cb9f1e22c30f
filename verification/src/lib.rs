//! Core logic of a terminal assistant that converses with a language model,
//! delegates work to tool-using sub-agent sessions, runs recurring or
//! event-triggered background tasks, and drives an OAuth handshake for
//! remote tool servers.
//!
//! This crate holds the verified orchestration core: trigger matching and
//! recipe parsing for background tasks, the scheduler's name registry and
//! timer model, the agent-window lifecycle and coordination store, the
//! bounded tool-call loop of a chat turn, the OAuth flow controller with its
//! credential cache, and the pure text utilities these share.  Terminal
//! rendering, file and network I/O, and the protocol clients live outside
//! the library and exchange plain values with it.

use vstd::prelude::*;

pub mod chat;
pub mod logging;
pub mod mcpconf;
pub mod oauth;
pub mod prompts;
pub mod recipes;
pub mod scheduler;
pub mod settings;
pub mod skills;
pub mod text;
pub mod windows;
pub mod workspace;

pub use logging::LogContent;
pub use logging::LogLevel;
pub use logging::LogLine;
pub use logging::mask_key;
pub use mcpconf::McpAuth;
pub use mcpconf::McpConfig;
pub use mcpconf::McpServer;
pub use mcpconf::McpSource;
pub use mcpconf::normalize_url;
pub use oauth::LocalMcpStore;
pub use oauth::OAuthController;
pub use oauth::PendingOAuth;
pub use prompts::custom_persona;
pub use prompts::daemon_briefing_persona;
pub use prompts::daemon_briefing_prompt;
pub use prompts::daemon_digest_persona;
pub use prompts::daemon_digest_prompt;
pub use prompts::default_memini_persona;
pub use prompts::main_chat_system_prompt;
pub use prompts::worker_system_prompt;
pub use recipes::AgentRecipe;
pub use recipes::NewAgentRecipe;
pub use recipes::RecipeTemplate;
pub use recipes::agents_dir;
pub use recipes::recipe_template_by_id;
pub use recipes::recipe_templates;
pub use skills::ImportResult;
pub use skills::ImportedSkillMeta;
pub use skills::LoadedSkill;
pub use skills::build_prompt_context;

verus! {

} // verus!
