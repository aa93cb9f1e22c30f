//! Recipe parsing and trigger matching.

use memini::recipes::parse_recipe_file;
use memini::recipes::parse_bool;
use memini::recipes::parse_csv;
use memini::recipes::recipe_template_by_id;
use memini::recipes::recipe_templates;
use memini::recipes::render_recipe_markdown;
use memini::recipes::sanitize_name;
use memini::recipes::split_front_matter;
use memini::recipes::strip_quotes;
use memini::recipes::yaml_quote;
use memini::recipes::RecipeError;
use memini::recipes::DEFAULT_AGENT_INTERVAL_SECS;
use memini::AgentRecipe;

#[test]
fn parse_recipe_front_matter_and_body() {
    let raw = "---\nname: repo-watch\ndescription: repo status\ninterval_secs: 120\nauto_start: true\ntrigger_events: VariableUpdate,Commit\ntrigger_variables: deploy.request,ci.*\ntools: workspace_read_file,workspace_run_command\npersona: You are a repo agent.\n---\nCheck git status and summarize changes.\n";
    let parsed = parse_recipe_file("repo-watch", "repo-watch.md", raw).expect("parse recipe");
    assert_eq!(parsed.name, "repo-watch");
    assert_eq!(parsed.description, "repo status");
    assert_eq!(parsed.interval_secs, 120);
    assert!(parsed.auto_start);
    assert_eq!(parsed.trigger_events, vec!["VariableUpdate", "Commit"]);
    assert_eq!(parsed.trigger_variables, vec!["deploy.request", "ci.*"]);
    assert_eq!(
        parsed.tools,
        vec!["workspace_read_file", "workspace_run_command"]
    );
    assert_eq!(parsed.persona, "You are a repo agent.");
    assert_eq!(parsed.instructions, "Check git status and summarize changes.");
}

#[test]
fn parse_recipe_without_front_matter_uses_body() {
    let raw = "Summarize unfinished tasks.";
    let parsed = parse_recipe_file("quick-check", "quick-check.md", raw).expect("parse recipe");
    assert_eq!(parsed.name, "quick-check");
    assert_eq!(parsed.instructions, "Summarize unfinished tasks.");
}

#[test]
fn trigger_matching_supports_exact_and_prefix() {
    let raw = "---\nname: trigger-agent\nauto_start: true\ntrigger_events: VariableUpdate\ntrigger_variables: deploy.request,ci.*\n---\nReact to deployment-related updates.\n";
    let parsed = parse_recipe_file("trigger-agent", "trigger-agent.md", raw).expect("parse recipe");
    assert!(parsed.matches_trigger("VariableUpdate", Some("deploy.request")));
    assert!(parsed.matches_trigger("VariableUpdate", Some("ci.build.42")));
    assert!(!parsed.matches_trigger("Commit", Some("deploy.request")));
    assert!(!parsed.matches_trigger("VariableUpdate", Some("other.key")));
}

fn recipe_with_triggers(events: Vec<&str>, variables: Vec<&str>) -> AgentRecipe {
    AgentRecipe {
        name: String::from("t"),
        description: String::new(),
        interval_secs: 60,
        auto_start: false,
        trigger_events: events.into_iter().map(String::from).collect(),
        trigger_variables: variables.into_iter().map(String::from).collect(),
        tools: Vec::new(),
        persona: String::from("p"),
        instructions: String::from("i"),
        path: String::from("t.md"),
    }
}

#[test]
fn no_trigger_never_fires_on_events() {
    let r = recipe_with_triggers(vec![], vec![]);
    assert!(!r.has_trigger());
    assert!(!r.matches_trigger("VariableUpdate", Some("deploy.request")));
    assert!(!r.matches_trigger("Commit", None));
    assert!(!r.matches_trigger("", Some("")));
}

#[test]
fn trigger_event_type_is_case_insensitive_and_defaults() {
    let r = recipe_with_triggers(vec![], vec!["deploy.request"]);
    assert!(r.matches_trigger("variableupdate", Some("Deploy.Request")));
    assert!(!r.matches_trigger("Commit", Some("deploy.request")));
    let star = recipe_with_triggers(vec!["Commit"], vec!["*"]);
    assert!(star.matches_trigger("commit", Some("anything.at.all")));
    assert!(!star.matches_trigger("commit", None));
}

#[test]
fn trigger_summary_reports_patterns() {
    let r = recipe_with_triggers(vec!["VariableUpdate", "Commit"], vec!["a", "b.*"]);
    assert_eq!(r.trigger_summary().unwrap(), "VariableUpdate|Commit:a,b.*");
    let d = recipe_with_triggers(vec![], vec!["x"]);
    assert_eq!(d.trigger_summary().unwrap(), "VariableUpdate:x");
    let none = recipe_with_triggers(vec![], vec![]);
    assert!(none.trigger_summary().is_none());
}

#[test]
fn front_matter_without_closing_fence_is_all_body() {
    let raw = "---\nname: x\nno closing fence here";
    let (entries, body) = split_front_matter(raw);
    assert!(entries.is_empty());
    assert_eq!(body, raw);
}

#[test]
fn small_parsers_behave() {
    assert_eq!(parse_bool(" Yes "), Some(true));
    assert_eq!(parse_bool("off"), Some(false));
    assert_eq!(parse_bool("maybe"), None);
    assert_eq!(parse_csv(" a, ,b , c"), vec!["a", "b", "c"]);
    assert_eq!(strip_quotes("  \"hello\"  "), "hello");
    assert_eq!(strip_quotes("'x'"), "x");
    assert_eq!(strip_quotes("plain"), "plain");
    assert_eq!(yaml_quote("a\"b\\c"), "\"a\\\"b\\\\c\"");
    assert_eq!(sanitize_name("  My Agent!! "), Ok(String::from("my-agent")));
    let err = sanitize_name("!!!").unwrap_err();
    assert_eq!(err, RecipeError::EmptyName);
    assert_eq!(err.message(), "name cannot be empty");
}

#[test]
fn missing_instructions_is_an_error() {
    let raw = "---\nname: empty-agent\n---\n   \n";
    let err = parse_recipe_file("empty-agent", "empty-agent.md", raw).unwrap_err();
    assert_eq!(err, RecipeError::MissingInstructions);
    assert_eq!(
        err.message(),
        "missing instructions: add markdown body or front matter `instructions`"
    );
}

#[test]
fn unparsable_interval_falls_back_to_default() {
    let raw = "---\ninterval_secs: soon\n---\nDo it.\n";
    let parsed = parse_recipe_file("a", "a.md", raw).expect("parse recipe");
    assert_eq!(parsed.interval_secs, DEFAULT_AGENT_INTERVAL_SECS);
}

#[test]
fn render_recipe_markdown_writes_front_matter() {
    let tools = vec![String::from("workspace_read_file")];
    let text = render_recipe_markdown("watcher", " keep an eye ", 120, true, &tools, " P ", " Do. ");
    assert_eq!(
        text,
        "---\nname: watcher\ndescription: \"keep an eye\"\ninterval_secs: 120\nauto_start: true\ntools: \"workspace_read_file\"\npersona: \"P\"\n---\nDo.\n"
    );
    let roundtrip = parse_recipe_file("watcher", "watcher.md", &text).expect("parse rendered");
    assert_eq!(roundtrip.name, "watcher");
    assert_eq!(roundtrip.description, "keep an eye");
    assert_eq!(roundtrip.interval_secs, 120);
    assert!(roundtrip.auto_start);
    assert_eq!(roundtrip.instructions, "Do.");
}

#[test]
fn templates_are_found_by_id_ignoring_case() {
    let all = recipe_templates();
    assert_eq!(all.len(), 3);
    assert_eq!(all[0].id, "repo-watch");
    assert_eq!(all[1].id, "release-notes");
    assert_eq!(all[2].id, "cleanup");
    let t = recipe_template_by_id("  Repo-Watch ").expect("template");
    assert_eq!(t.id, "repo-watch");
    assert_eq!(t.interval_secs, 1800);
    assert!(recipe_template_by_id("unknown").is_none());
}
