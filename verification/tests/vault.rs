use rift_bus::frontmatter::{parse_frontmatter, vault_meta_from_yaml};
use rift_bus::vault::{derive_short_label, derive_vault_type, normalize_canon_str, normalize_path_str};
use rift_bus::yaml::{parse_yaml, YamlNode};

#[test]
fn derive_short_label_basic_cases() {
    assert_eq!(derive_short_label("Aegis"), "aegis");
    assert_eq!(derive_short_label("Rift Terminal Core"), "rift-terminal");
    assert_eq!(derive_short_label("Lessons / Gotchas"), "lessons-gotcha");
    assert_eq!(derive_short_label("Global Practices"), "global-practic");
}

#[test]
fn derive_short_label_strips_punctuation() {
    assert_eq!(derive_short_label("foo!@#bar"), "foo-bar");
    assert_eq!(derive_short_label("!!leading_punct"), "leading_punct");
    assert_eq!(derive_short_label("trailing!!!"), "trailing");
}

#[test]
fn derive_short_label_preserves_existing_separators() {
    assert_eq!(derive_short_label("terminal-emulator-rust"), "terminal-emula");
    assert_eq!(derive_short_label("p006"), "p006");
}

#[test]
fn telegraphic_label_field_extracted() {
    let content = "VAULT: r006 | label: terminal-emulator-rust | updated: 2026-04-20\n";
    let meta = parse_frontmatter(content).expect("should parse");
    assert_eq!(meta.id, "r006");
    assert_eq!(meta.short_label.as_deref(), Some("terminal-emulator-rust"));
}

#[test]
fn telegraphic_short_label_falls_back_to_name_derivation() {
    let content = "VAULT: p006 | Rift Terminal Core | updated: 2026-04-29\n";
    let meta = parse_frontmatter(content).expect("should parse");
    assert_eq!(meta.id, "p006");
    assert_eq!(meta.name, "Rift Terminal Core");
    assert_eq!(meta.short_label.as_deref(), Some("rift-terminal"));
}

#[test]
fn frontmatter_parse_valid() {
    let content = r#"---
id: p006
name: rift-terminal
type: project
updated: 2026-04-27
repo: C:\Users\Critek\Projects\Rift
source: src/
cross_refs: [pr001, pr003, r004]
---
Body text here.
"#;
    let meta = parse_frontmatter(content).expect("should parse valid frontmatter");
    assert_eq!(meta.id, "p006");
    assert_eq!(meta.name, "rift-terminal");
    assert_eq!(meta.vault_type, "project");
    assert_eq!(meta.updated, "2026-04-27");
    assert_eq!(meta.repo.as_deref(), Some(r"C:\Users\Critek\Projects\Rift"));
    assert_eq!(meta.source.as_deref(), Some("src/"));
    assert_eq!(meta.cross_refs, vec!["pr001", "pr003", "r004"]);
}

#[test]
fn frontmatter_parse_malformed() {
    let result = parse_frontmatter("Just some body text\nwith no frontmatter.");
    assert!(result.is_none(), "plain text must return None");

    let result = parse_frontmatter("---\nid: p006\nname: foo\n");
    assert!(result.is_none(), "unclosed frontmatter must return None");

    let result = parse_frontmatter("---\nid: p006\ntype: project\n\n---\nbody\n");
    assert!(result.is_none(), "missing required `name` field must return None");

    let result = parse_frontmatter("---\n: : :\n\n---\nbody\n");
    assert!(result.is_none(), "invalid YAML must return None");
}

#[test]
fn frontmatter_parse_telegraphic_basic() {
    let content = "VAULT: pr003 | Lessons + Gotchas | updated: 2026-04-28\n\nbody text\n";
    let meta = parse_frontmatter(content).expect("telegraphic header should parse");
    assert_eq!(meta.id, "pr003");
    assert_eq!(meta.name, "Lessons + Gotchas");
    assert_eq!(meta.vault_type, "practices");
    assert_eq!(meta.updated, "2026-04-28");
    assert!(meta.repo.is_none());
    assert!(meta.source.is_none());
    assert!(meta.cross_refs.is_empty());
}

#[test]
fn frontmatter_parse_telegraphic_with_repo() {
    let content = "VAULT: p006 | Rift Terminal Core | updated: 2026-04-27 (**REPO MIGRATION V1→V2** — V2 repo is now canonical)\n\nproject: Rift Terminal\ndesc: Rust cross-platform terminal\nrepo: C:/Users/Critek/Documents/Abyssal_Arts_main/Projects/Rift_TerminalV2\nremote: https://github.com/Critek-creator/Rift_TerminalV2.git\nstack: Tauri 2 + Svelte 5\n\nsynced: 2026-04-27T20:00:00Z\n";
    let meta = parse_frontmatter(content).expect("p006-style should parse");
    assert_eq!(meta.id, "p006");
    assert_eq!(meta.name, "Rift Terminal Core");
    assert_eq!(meta.vault_type, "project");
    assert_eq!(meta.updated, "2026-04-27", "updated must truncate at the opening paren");
    assert_eq!(
        meta.repo.as_deref(),
        Some("C:/Users/Critek/Documents/Abyssal_Arts_main/Projects/Rift_TerminalV2")
    );
}

#[test]
fn frontmatter_parse_telegraphic_with_heading_prefix() {
    let content = "# AGT006_PLUGIN_REGISTRY\n\nVAULT: agt006 | Plugin + Built-in Agent Registry | updated: 2026-04-19\n\nbody\n";
    let meta = parse_frontmatter(content).expect("heading-prefixed header should parse");
    assert_eq!(meta.id, "agt006");
    assert_eq!(meta.name, "Plugin + Built-in Agent Registry");
    assert_eq!(meta.vault_type, "agent");
    assert_eq!(meta.updated, "2026-04-19");
}

#[test]
fn frontmatter_parse_telegraphic_returns_none_on_no_header() {
    assert!(parse_frontmatter("Just body text\nno header here\n").is_none());
    assert!(parse_frontmatter("project: foo\nVAULT: p006 | x | updated: 2026-04-27\n").is_none());
}

#[test]
fn derive_vault_type_longest_prefix_wins() {
    assert_eq!(derive_vault_type("pr003"), "practices");
    assert_eq!(derive_vault_type("p006"), "project");
    assert_eq!(derive_vault_type("r004"), "research");
    assert_eq!(derive_vault_type("s001"), "skill");
    assert_eq!(derive_vault_type("lore005"), "lore");
    assert_eq!(derive_vault_type("agt006"), "agent");
    assert_eq!(derive_vault_type("h001"), "hook");
    assert_eq!(derive_vault_type("zzz999"), "");
}

#[test]
fn telegraphic_body_fields_and_stops() {
    let content = "VAULT: s001 | Skill Set | type: custom | cross_refs: [p006, r004]\r\nrepo: /srv/skills\r\n! rule marker\r\n# heading\r\nsource: lib/\r\n===\r\nlabel: late\r\n";
    let meta = parse_frontmatter(content).expect("should parse");
    assert_eq!(meta.vault_type, "custom");
    assert_eq!(meta.cross_refs, vec!["p006", "r004"]);
    assert_eq!(meta.repo.as_deref(), Some("/srv/skills"));
    assert_eq!(meta.source.as_deref(), Some("lib/"));
    assert_eq!(meta.short_label.as_deref(), Some("skill-set"));
    assert_eq!(meta.updated, "");
}

#[test]
fn telegraphic_rejects_unknown_prefix_and_empty_name() {
    assert!(parse_frontmatter("VAULT: zzz1 | Name\n").is_none());
    assert!(parse_frontmatter("VAULT: p001 |  | updated: 2026-01-01\n").is_none());
    assert!(parse_frontmatter("VAULT: p001\n").is_none());
    assert!(parse_frontmatter("VAULT:  | Name\n").is_none());
}

#[test]
fn yaml_quoted_cross_refs_and_label() {
    let content = "---\nid: r004\nname: Research Notes\ntype: research\nlabel: notes\ncross_refs: \"[a,  b , ,c]\"\n---\n";
    let meta = parse_frontmatter(content).expect("should parse");
    assert_eq!(meta.cross_refs, vec!["a", "b", "c"]);
    assert_eq!(meta.short_label.as_deref(), Some("notes"));
    assert_eq!(meta.updated, "");
    assert!(meta.repo.is_none());
}

#[test]
fn yaml_document_must_be_mapping() {
    let doc = parse_yaml("- a\n- b\n").expect("a list is YAML");
    assert!(matches!(doc, YamlNode::List(_)));
    assert!(vault_meta_from_yaml(&doc).is_none());
    let doc = parse_yaml("id: p1\nname: n\ntype: 7\n").expect("a mapping");
    assert!(vault_meta_from_yaml(&doc).is_none());
}

#[test]
fn path_normalization() {
    assert_eq!(normalize_path_str(r"C:\a\b"), "C:/a/b");
    assert_eq!(normalize_canon_str(r"C:\a\b\\"), "C:/a/b");
    assert_eq!(normalize_canon_str("/srv/x/"), "/srv/x");
}

#[test]
fn telegraphic_label_only_name_is_rejected() {
    assert!(parse_frontmatter("VAULT: p006 | label:\n").is_none());
    let m = parse_frontmatter("VAULT: p006 | label: Rift\n").unwrap();
    assert_eq!(m.name, "Rift");
    assert_eq!(m.short_label.as_deref(), Some("Rift"));
}
