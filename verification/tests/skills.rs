//! Skill sources, file collection, and prompt context.

use memini::skills::collect_skill_files;
use memini::skills::ensure_safe_relative_path;
use memini::skills::infer_description;
use memini::skills::parse_frontmatter;
use memini::skills::parse_source;
use memini::skills::tokenize;
use memini::skills::trim_chars;
use memini::skills::GitHubTreeItem;
use memini::skills::SkillSource;
use memini::skills::SkillSourceError;
use memini::build_prompt_context;
use memini::ImportedSkillMeta;
use memini::LoadedSkill;

#[test]
fn parse_source_supports_skills_sh_without_scheme() {
    let parsed = parse_source("skills.sh/example/repo/skill").expect("parse");
    match parsed {
        SkillSource::SkillsSh {
            owner, repo, slug, ..
        } => {
            assert_eq!(owner, "example");
            assert_eq!(repo, "repo");
            assert_eq!(slug, "skill");
        }
        _ => panic!("expected skills.sh source"),
    }
}

#[test]
fn parse_source_supports_github_tree_urls() {
    let parsed =
        parse_source("https://github.com/example/repo/tree/main/skills/foo").expect("parse");
    match parsed {
        SkillSource::GitHubPath {
            owner,
            repo,
            ref_name,
            path,
            ..
        } => {
            assert_eq!(owner, "example");
            assert_eq!(repo, "repo");
            assert_eq!(ref_name.as_deref(), Some("main"));
            assert_eq!(path, "skills/foo");
        }
        _ => panic!("expected github path source"),
    }
}

fn demo_skill() -> LoadedSkill {
    LoadedSkill {
        meta: ImportedSkillMeta {
            name: String::from("demo"),
            title: String::from("Demo Skill"),
            description: String::from("Useful for tests"),
            source_url: String::from("https://skills.sh/example/repo/demo"),
            repository: String::from("https://github.com/example/repo"),
            repository_ref: String::from("main"),
            repository_path: String::from("skills/demo"),
            installed_at_utc: String::from("2026-02-08T00:00:00Z"),
        },
        content: String::from("# Demo\nDo the thing."),
    }
}

#[test]
fn prompt_context_includes_skill_name() {
    let skill = demo_skill();
    let context = build_prompt_context(&vec![skill], "please use demo");
    assert!(context.contains("demo"));
    assert!(context.contains("Instructions"));
}

#[test]
fn prompt_context_is_empty_without_skills() {
    let context = build_prompt_context(&Vec::new(), "anything");
    assert_eq!(context, "");
}

#[test]
fn parse_source_rejects_bad_references() {
    assert_eq!(parse_source("   ").unwrap_err(), SkillSourceError::Empty);
    assert_eq!(
        parse_source("https://example.com/a/b").unwrap_err(),
        SkillSourceError::UnsupportedHost
    );
    assert_eq!(
        parse_source("skills.sh/only/two").unwrap_err(),
        SkillSourceError::BadSkillsShFormat
    );
    assert_eq!(
        parse_source("github.com/owner").unwrap_err(),
        SkillSourceError::MissingOwnerRepo
    );
    assert_eq!(
        parse_source("github.com/owner/repo").unwrap_err(),
        SkillSourceError::MissingSkillPath
    );
    assert_eq!(
        parse_source("github.com/owner/repo/tree/main").unwrap_err(),
        SkillSourceError::BadTreeUrl
    );
}

#[test]
fn parse_source_strips_git_suffix() {
    let parsed = parse_source("github.com/example/repo.git/skills/foo").expect("parse");
    match parsed {
        SkillSource::GitHubPath { repo, path, .. } => {
            assert_eq!(repo, "repo");
            assert_eq!(path, "skills/foo");
        }
        _ => panic!("expected github path source"),
    }
}

fn item(path: &str, kind: &str) -> GitHubTreeItem {
    GitHubTreeItem {
        path: String::from(path),
        item_type: String::from(kind),
    }
}

#[test]
fn collect_skill_files_filters_and_sorts() {
    let tree = vec![
        item("skills/foo/b.md", "blob"),
        item("skills/foo/a.md", "blob"),
        item("skills/foo/sub", "tree"),
        item("skills/bar/c.md", "blob"),
        item("skills/foo/sub/c.md", "blob"),
    ];
    let files = collect_skill_files(&tree, "skills/foo");
    assert_eq!(
        files,
        vec!["skills/foo/a.md", "skills/foo/b.md", "skills/foo/sub/c.md"]
    );
}

#[test]
fn safe_relative_paths_are_checked() {
    assert!(ensure_safe_relative_path("a/b/c.md"));
    assert!(!ensure_safe_relative_path("/abs/path"));
    assert!(!ensure_safe_relative_path("a/../escape"));
}

#[test]
fn frontmatter_and_description_inference() {
    let md = "---\nname: \"demo\"\ndescription: \"Does things\"\n---\nBody.";
    let (name, description) = parse_frontmatter(md);
    assert_eq!(name.as_deref(), Some("demo"));
    assert_eq!(description.as_deref(), Some("Does things"));

    let md2 = "---\nname: x\nshort-description: Quick\n---\nBody.";
    let (_, description2) = parse_frontmatter(md2);
    assert_eq!(description2.as_deref(), Some("Quick"));

    let inferred = infer_description("# Title\n\nFirst real line here.\nMore.");
    assert_eq!(inferred, "First real line here.");
}

#[test]
fn tokenize_keeps_long_lowercased_terms() {
    assert_eq!(tokenize("Use the Demo, OK? yes42"), vec!["use", "the", "demo", "yes42"]);
    assert_eq!(tokenize("a b!!"), Vec::<String>::new());
}

#[test]
fn trim_chars_truncates_with_marker() {
    assert_eq!(trim_chars("hello", 10), "hello");
    assert_eq!(trim_chars("hello", 4), "hell\n...[truncated]");
}
