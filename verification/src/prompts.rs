//! Prompt assembly for the orchestrator, the worker sessions, and the
//! built-in background tasks.
//!
//! Prompt templates can be overridden by files on disk; the caller reads
//! any override candidates and hands their contents in, and the selection
//! and assembly here are pure text.

use vstd::prelude::*;

use crate::text::trim_seq;
use crate::text::trim_str;

verus! {

/// The text a prompt resolves to: the first override candidate with
/// non-blank content, trimmed, or the bundled default, trimmed.
pub open spec fn spec_select_prompt(overrides: Seq<Seq<char>>, bundled: Seq<char>) -> Seq<char>
    decreases overrides.len(),
{
    if overrides.len() == 0 {
        trim_seq(bundled)
    } else if trim_seq(overrides[0]).len() > 0 {
        trim_seq(overrides[0])
    } else {
        spec_select_prompt(overrides.drop_first(), bundled)
    }
}

/// Pick a prompt's text from override file contents and its bundled
/// default.
pub fn select_prompt(overrides: &Vec<String>, bundled: &str) -> (r: String)
    ensures
        r@ == spec_select_prompt(overrides@.map_values(|p: String| p@), bundled@),
{
    let ghost ov = overrides@.map_values(|p: String| p@);
    let mut i: usize = 0;
    proof {
        assert(ov.subrange(0, ov.len() as int) =~= ov);
    }
    while i < overrides.len()
        invariant
            ov == overrides@.map_values(|p: String| p@),
            0 <= i <= overrides@.len(),
            spec_select_prompt(ov, bundled@) == spec_select_prompt(
                ov.subrange(i as int, ov.len() as int),
                bundled@,
            ),
        decreases overrides@.len() - i,
    {
        proof {
            let sub = ov.subrange(i as int, ov.len() as int);
            assert(sub[0] == ov[i as int]);
            assert(ov[i as int] == overrides@[i as int]@);
            assert(sub.drop_first() =~= ov.subrange(i + 1, ov.len() as int));
        }
        let t = trim_str(overrides[i].as_str());
        if t.as_str().unicode_len() > 0 {
            return t;
        }
        i = i + 1;
    }
    proof {
        assert(ov.subrange(ov.len() as int, ov.len() as int) =~= Seq::<Seq<char>>::empty());
    }
    trim_str(bundled)
}

/// The bundled default persona of the main assistant.
pub fn default_memini_persona(overrides: &Vec<String>) -> (r: String)
    ensures
        r@ == spec_select_prompt(
            overrides@.map_values(|p: String| p@),
            "You are Memini, an execution-first assistant with long-term memory. Deliver concrete, complete results, delegate independent sub-tasks, and keep the user informed in plain language."@,
        ),
{
    select_prompt(
        overrides,
        "You are Memini, an execution-first assistant with long-term memory. Deliver concrete, complete results, delegate independent sub-tasks, and keep the user informed in plain language.",
    )
}

/// The persona of the built-in briefing task.
pub fn daemon_briefing_persona(overrides: &Vec<String>) -> (r: String)
    ensures
        r@ == spec_select_prompt(
            overrides@.map_values(|p: String| p@),
            "You are a briefing agent. Survey recent activity and surface what needs attention, ordered by urgency."@,
        ),
{
    select_prompt(
        overrides,
        "You are a briefing agent. Survey recent activity and surface what needs attention, ordered by urgency.",
    )
}

/// The prompt of the built-in briefing task.
pub fn daemon_briefing_prompt(overrides: &Vec<String>) -> (r: String)
    ensures
        r@ == spec_select_prompt(
            overrides@.map_values(|p: String| p@),
            "Review recent variables, events, and notes, and produce a short briefing of open items and anything that changed."@,
        ),
{
    select_prompt(
        overrides,
        "Review recent variables, events, and notes, and produce a short briefing of open items and anything that changed.",
    )
}

/// The persona of the built-in digest task.
pub fn daemon_digest_persona(overrides: &Vec<String>) -> (r: String)
    ensures
        r@ == spec_select_prompt(
            overrides@.map_values(|p: String| p@),
            "You are a digest agent. Summarize a day of activity into a compact, readable report."@,
        ),
{
    select_prompt(
        overrides,
        "You are a digest agent. Summarize a day of activity into a compact, readable report.",
    )
}

/// The prompt of the built-in digest task.
pub fn daemon_digest_prompt(overrides: &Vec<String>) -> (r: String)
    ensures
        r@ == spec_select_prompt(
            overrides@.map_values(|p: String| p@),
            "Summarize the day's conversations, task runs, and stored results into one digest with follow-ups at the end."@,
        ),
{
    select_prompt(
        overrides,
        "Summarize the day's conversations, task runs, and stored results into one digest with follow-ups at the end.",
    )
}

/// The persona of a user-created agent.
pub fn custom_persona(name: &str, description: &str) -> (r: String)
    ensures
        r@ == "You are "@ + name@ + ", a specialized execution-first AI assistant. "@ + description@
            + " You have long-term memory and should deliver concrete, actionable outcomes with minimal back-and-forth."@,
{
    let mut out = String::from_str("You are ");
    out.append(name);
    out.append(", a specialized execution-first AI assistant. ");
    out.append(description);
    out.append(
        " You have long-term memory and should deliver concrete, actionable outcomes with minimal back-and-forth.",
    );
    out
}

/// The one-line system prompt of a plain chat turn, depending on whether
/// connected tools are required.
pub fn system_prompt(require_mcp: bool) -> (r: String)
    ensures
        require_mcp ==> r@
            == "You are Memini, a concise CLI assistant. Use available tools when needed to answer the user's request. Summarize results clearly."@,
        !require_mcp ==> r@
            == "You are Memini, a concise CLI assistant. Use any provided memory context when helpful and answer clearly."@,
{
    if require_mcp {
        String::from_str(
            "You are Memini, a concise CLI assistant. Use available tools when needed to answer the user's request. Summarize results clearly.",
        )
    } else {
        String::from_str(
            "You are Memini, a concise CLI assistant. Use any provided memory context when helpful and answer clearly.",
        )
    }
}

/// The system prompt of the main conversation: the persona, the current
/// time, a tools line depending on whether connected tools are required,
/// then the execution-style and orchestration-rules templates.
pub fn main_chat_system_prompt(
    persona: &str,
    now: &str,
    require_mcp: bool,
    execution_style: &str,
    orchestration_rules: &str,
) -> (r: String)
    ensures
        r@ == persona@ + "\nCurrent date and time: "@ + now@ + ".\n"@ + (if require_mcp {
            "Use connected tools through delegated agents whenever tools are needed."@
        } else {
            "Use memory context and delegated agents to complete tasks autonomously."@
        }) + "\n\n"@ + execution_style@ + "\n\n"@ + orchestration_rules@,
{
    let mut out = String::from_str(persona);
    out.append("\nCurrent date and time: ");
    out.append(now);
    out.append(".\n");
    if require_mcp {
        out.append("Use connected tools through delegated agents whenever tools are needed.");
    } else {
        out.append("Use memory context and delegated agents to complete tasks autonomously.");
    }
    out.append("\n\n");
    out.append(execution_style);
    out.append("\n\n");
    out.append(orchestration_rules);
    out
}

/// The system prompt of a delegated worker session: the persona, the
/// current time, the worker framing, a tools line depending on whether the
/// session has tool access, then the execution-style and needs-input
/// templates.
pub fn worker_system_prompt(
    persona: &str,
    now: &str,
    has_tools: bool,
    execution_style: &str,
    needs_input_rule: &str,
) -> (r: String)
    ensures
        r@ == persona@ + "\nCurrent date and time: "@ + now@
            + ".\nYou are a delegated worker agent in a CLI workflow.\n"@ + (if has_tools {
            "You have tool access. Use tools proactively to complete the task fully."@
        } else {
            "You may have limited tool access. Still produce final, ready-to-apply outputs."@
        }) + "\n\n"@ + execution_style@ + "\n\n"@ + needs_input_rule@,
{
    let mut out = String::from_str(persona);
    out.append("\nCurrent date and time: ");
    out.append(now);
    out.append(".\nYou are a delegated worker agent in a CLI workflow.\n");
    if has_tools {
        out.append("You have tool access. Use tools proactively to complete the task fully.");
    } else {
        out.append("You may have limited tool access. Still produce final, ready-to-apply outputs.");
    }
    out.append("\n\n");
    out.append(execution_style);
    out.append("\n\n");
    out.append(needs_input_rule);
    out
}

} // verus!
