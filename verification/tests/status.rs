use rift_bus::envelope::{Category, CURRENT_VERSION};
use rift_bus::json::parse_json;
use rift_bus::status::{
    cc_status, cc_status_is_fresh, cc_text_fields, collapse_home, git_output_text, git_segment,
    repo_name, repo_root, usage_envelope, EffortSource,
};

#[test]
fn repo_is_basename() {
    assert_eq!(repo_name("/some/deep/path/MyProject"), "MyProject");
}

#[test]
fn repo_of_root_is_whole_path() {
    assert_eq!(repo_name("/"), "/");
}

#[test]
fn git_degrades_on_non_git_dir() {
    // Neither `symbolic-ref` nor `rev-parse` succeeds outside a repository.
    let result = git_segment(None, None, false);
    assert_eq!(result, "\u{2014}", "non-git dir must yield em-dash, got: {result:?}");
}

#[test]
fn git_branch_sha_and_dirty_marker() {
    assert_eq!(git_segment(Some("main".into()), None, false), "main");
    assert_eq!(git_segment(Some("main".into()), Some("abc123".into()), true), "main*");
    assert_eq!(git_segment(Some(String::new()), Some("abc123".into()), false), "abc123");
    assert_eq!(git_segment(None, Some(String::new()), true), "\u{2014}");
}

#[test]
fn dir_tilde_collapse() {
    let home = "/home/user";
    let result = collapse_home("/home/user/projects/MyProject", Some(home));
    assert!(result.starts_with('~'), "dir should start with ~ for paths under home; got: {result}");
    assert!(result.contains("MyProject"), "dir should contain the project name; got: {result}");
    assert_eq!(result, "~/projects/MyProject");
}

#[test]
fn dir_outside_home_and_windows_separators() {
    assert_eq!(collapse_home("/opt/x", Some("/home/user")), "/opt/x");
    assert_eq!(collapse_home("C:\\Users\\me\\proj", Some("C:\\Users\\me")), "~/proj");
    assert_eq!(collapse_home("C:\\w", None), "C:/w");
}

#[test]
fn git_output_is_trimmed() {
    assert_eq!(git_output_text(b"  main\n"), "main");
    assert_eq!(repo_root(Some(String::new())), None);
    assert_eq!(repo_root(Some("/r".into())), Some("/r".to_string()));
}

#[test]
fn status_envelope_shape() {
    let env = usage_envelope();
    assert_eq!(env.category, Category::Status, "category must be Status");
    assert_eq!(env.kind, "usage", "kind must be 'usage'");
}

#[test]
fn status_version_not_bumped() {
    assert_eq!(usage_envelope().version, CURRENT_VERSION);
}

#[test]
fn cc_fields_from_document() {
    let doc = parse_json(
        "{\"model\":{\"id\":\"m-id\",\"display_name\":\"Opus\"},\"workspace\":{\"repo\":{\"owner\":\"Critek\",\"name\":\"Rift\"}},\"session_name\":\"aegis:auto\",\"thinking\":{\"type\":\"enabled\"},\"effort\":{\"level\":\"high\"}}",
    )
    .unwrap();
    let t = cc_text_fields(&doc);
    assert_eq!(t.model.as_deref(), Some("Opus"));
    assert_eq!(t.github_owner.as_deref(), Some("Critek"));
    assert_eq!(t.github_repo.as_deref(), Some("Rift"));
    assert_eq!(t.skill.as_deref(), Some("aegis"));
    assert_eq!(t.thinking.as_deref(), Some("on"));
    assert!(matches!(t.effort, EffortSource::Level(ref l) if l == "high"));
}

#[test]
fn cc_fallbacks() {
    let doc = parse_json(
        "{\"model\":\"sonnet\",\"session_name\":\"default\",\"session\":{\"active_skill\":\"lore\"},\"thinking\":{\"type\":\"enabled\",\"budget_tokens\":20000}}",
    )
    .unwrap();
    let t = cc_text_fields(&doc);
    assert_eq!(t.model.as_deref(), Some("sonnet"));
    assert_eq!(t.skill.as_deref(), Some("lore"));
    assert_eq!(t.thinking.as_deref(), Some("on"));
    assert!(matches!(t.effort, EffortSource::FromBudget));
    let s = cc_status(t, Some(42), None, Some(65), "high");
    assert_eq!(s.effort.as_deref(), Some("high"));
    assert_eq!(s.ctx_pct, Some(42));
    let off = parse_json("{\"thinking\":{\"type\":\"disabled\"},\"primary_skill\":7,\"session\":{\"active_skill\":\"x\"}}").unwrap();
    let t = cc_text_fields(&off);
    assert_eq!(t.thinking.as_deref(), Some("off"));
    assert_eq!(t.skill, None);
    assert!(matches!(t.effort, EffortSource::Absent));
    assert_eq!(t.model, None);
}

#[test]
fn cc_freshness() {
    assert!(cc_status_is_fresh(Some(30_000_000_000)));
    assert!(!cc_status_is_fresh(Some(30_000_000_001)));
    assert!(!cc_status_is_fresh(None));
}
