//! Text utilities, URL normalization, server lookup, prompts, settings,
//! logging, and workspace paths.

use memini::chat::DEFAULT_MEMORY_LIMIT;
use memini::logging::push_log;
use memini::logging::MAX_LOGS;
use memini::mask_key;
use memini::mcpconf::McpConfig;
use memini::normalize_url;
use memini::prompts::select_prompt;
use memini::prompts::system_prompt;
use memini::settings::default_openai_model;
use memini::settings::first_nonblank;
use memini::settings::parse_reasoning_setting;
use memini::settings::trim_trailing_slash;
use memini::text::parse_u64;
use memini::text::split_str;
use memini::text::u64_to_string;
use memini::custom_persona;
use memini::main_chat_system_prompt;
use memini::worker_system_prompt;
use memini::workspace::normalize_path;
use memini::workspace::resolve_workspace_path;
use memini::workspace::to_workspace_relative;
use memini::LogContent;
use memini::LogLevel;
use memini::LogLine;
use memini::McpAuth;
use memini::McpServer;
use memini::McpSource;

#[test]
fn keys_are_masked_to_their_tail() {
    assert_eq!(mask_key("sk-1234567890"), "***7890");
    assert_eq!(mask_key("abc"), "***abc");
    assert_eq!(mask_key(""), "***");
}

#[test]
fn urls_get_schemes_by_host_kind() {
    assert_eq!(normalize_url("https://x.test/a"), "https://x.test/a");
    assert_eq!(normalize_url("localhost:3000"), "http://localhost:3000");
    assert_eq!(normalize_url("127.0.0.1:9000"), "http://127.0.0.1:9000");
    assert_eq!(normalize_url("host.test:9443"), "https://host.test:9443");
    assert_eq!(normalize_url("host.test:80"), "http://host.test:80");
    // An explicit :80 anywhere in the text counts as a local-style port.
    assert_eq!(normalize_url("host.test:8080"), "http://host.test:8080");
}

fn server(id: &str, name: Option<&str>) -> McpServer {
    McpServer {
        id: String::from(id),
        name: name.map(String::from),
        url: String::from("https://mcp.test"),
        sse_url: None,
        transport: None,
        auth: None,
    }
}

#[test]
fn servers_are_found_by_id_or_name_ignoring_case() {
    let config = McpConfig {
        servers: vec![server("alpha", None), server("beta", Some("Billing"))],
    };
    assert_eq!(config.find_by_id_or_name("ALPHA").unwrap().id, "alpha");
    assert_eq!(config.find_by_id_or_name("billing").unwrap().id, "beta");
    assert!(config.find_by_id_or_name("gamma").is_none());
    assert_eq!(server("x", Some("Nice")).display_name(), "Nice");
    assert_eq!(server("x", None).display_name(), "x");
    assert_eq!(McpSource::Embedded.label(), "embedded defaults");
    assert_eq!(
        McpSource::File(String::from("/etc/mcp.json")).label(),
        "/etc/mcp.json"
    );
    let auth = McpAuth {
        auth_type: String::from("oauth_browser"),
        login_url: None,
        notes: None,
        bearer_env: None,
        bearer_token: None,
        client_id: None,
        client_id_env: None,
        client_secret: None,
        client_secret_env: None,
        redirect_uri: Some(String::from("http://127.0.0.1:8976/cb")),
    };
    assert_eq!(auth.auth_type, "oauth_browser");
}

#[test]
fn numbers_round_trip_through_decimal_text() {
    assert_eq!(u64_to_string(0), "0");
    assert_eq!(u64_to_string(120), "120");
    assert_eq!(u64_to_string(u64::MAX), "18446744073709551615");
    assert_eq!(parse_u64("120"), Some(120));
    assert_eq!(parse_u64("18446744073709551615"), Some(u64::MAX));
    assert_eq!(parse_u64("18446744073709551616"), None);
    assert_eq!(parse_u64(""), None);
    assert_eq!(parse_u64("12a"), None);
    assert_eq!(parse_u64(&u64_to_string(987654321)), Some(987654321));
}

#[test]
fn prompts_assemble_their_parts() {
    assert_eq!(DEFAULT_MEMORY_LIMIT, 6);
    assert!(system_prompt(true).contains("tools"));
    assert!(system_prompt(false).contains("memory context"));
    let persona = custom_persona("Scout", "You research things.");
    assert!(persona.starts_with("You are Scout, "));
    assert!(persona.contains("You research things."));
    let main = main_chat_system_prompt("P", "2026-02-08 10:00", true, "STYLE", "RULES");
    assert_eq!(
        main,
        "P\nCurrent date and time: 2026-02-08 10:00.\nUse connected tools through delegated agents whenever tools are needed.\n\nSTYLE\n\nRULES"
    );
    let worker = worker_system_prompt("P", "now", false, "STYLE", "ASK");
    assert!(worker.contains("delegated worker agent"));
    assert!(worker.ends_with("STYLE\n\nASK"));
    let chosen = select_prompt(
        &vec![String::from("   "), String::from(" override ")],
        "bundled",
    );
    assert_eq!(chosen, "override");
    assert_eq!(select_prompt(&Vec::new(), " bundled "), "bundled");
}

#[test]
fn settings_parse_and_default() {
    assert_eq!(default_openai_model(), "gpt-4o-mini");
    assert_eq!(trim_trailing_slash("https://api.test/v1///"), "https://api.test/v1");
    assert_eq!(parse_reasoning_setting("off"), Some(None));
    assert_eq!(
        parse_reasoning_setting(" ON "),
        Some(Some(String::from("medium")))
    );
    assert_eq!(
        parse_reasoning_setting("high"),
        Some(Some(String::from("high")))
    );
    assert_eq!(parse_reasoning_setting("sideways"), None);
    assert_eq!(
        first_nonblank(&vec![String::new(), String::from("  "), String::from("x")]).as_deref(),
        Some("x")
    );
    assert_eq!(first_nonblank(&Vec::new()), None);
}

#[test]
fn activity_log_keeps_only_the_newest_entries() {
    let mut logs: Vec<LogLine> = Vec::new();
    for k in 0..(MAX_LOGS + 5) {
        push_log(
            &mut logs,
            LogLine {
                timestamp: String::from("00:00:00"),
                level: LogLevel::Info,
                content: LogContent::Plain(format!("entry {k}")),
            },
        );
    }
    assert_eq!(logs.len(), MAX_LOGS);
    match &logs[0].content {
        LogContent::Plain(text) => assert_eq!(text, "entry 5"),
        _ => panic!("expected a plain entry"),
    }
    assert_eq!(LogLevel::Warn.label(), "WARN");
    assert_eq!(LogLevel::Error.label(), "ERROR");
}

#[test]
fn workspace_paths_normalize_and_stay_inside_the_root() {
    assert_eq!(normalize_path("/w/./a/../b"), "/w/b");
    assert_eq!(normalize_path("a//b/./c"), "a/b/c");
    assert_eq!(normalize_path("."), ".");
    let resolved = resolve_workspace_path("/w", "src/lib.rs").expect("inside");
    assert_eq!(resolved, "/w/src/lib.rs");
    let root = resolve_workspace_path("/w", "   ").expect("root itself");
    assert_eq!(root, "/w");
    assert!(resolve_workspace_path("/w", "../etc/passwd").is_err());
    assert!(resolve_workspace_path("/w", "/other/place").is_err());
    assert_eq!(to_workspace_relative("/w/src/lib.rs", "/w"), "src/lib.rs");
    assert_eq!(to_workspace_relative("/w", "/w"), ".");
    assert_eq!(to_workspace_relative("/elsewhere/f", "/w"), "/elsewhere/f");
}

#[test]
fn splitting_keeps_empty_pieces_at_boundaries() {
    let pieces = split_str("a,,b,", ',');
    assert_eq!(pieces, vec!["a", "", "b", ""]);
    assert_eq!(split_str("", ','), vec![""]);
}
