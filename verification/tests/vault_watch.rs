use rift_bus::fs_events::{WatchEvent, WatchKind};
use rift_bus::vault_watch::{
    deleted_vault_id, derive_vault_ids, fallback_vault_id, is_md_file, vault_ids_under, DebounceTable, DebouncedKind,
    DEBOUNCE_WINDOW_MS,
};

#[test]
fn vault_ids_follow_the_directory_nesting() {
    assert_eq!(derive_vault_ids("pr003.md"), Some(("pr003".to_string(), None)));
    assert_eq!(
        derive_vault_ids("pr003/agentic-workflow.md"),
        Some(("pr003.agentic-workflow".to_string(), Some("pr003".to_string())))
    );
    assert_eq!(derive_vault_ids("pr003/x/y.md"), Some(("pr003.x.y".to_string(), Some("pr003.x".to_string()))));
    assert_eq!(derive_vault_ids("../x.md"), Some(("x".to_string(), None)));
    assert_eq!(derive_vault_ids(""), None);
    assert_eq!(
        vault_ids_under("/v/vaults", "/v/vaults/p006/notes.md"),
        Some(("p006.notes".to_string(), Some("p006".to_string())))
    );
    assert_eq!(vault_ids_under("/v/vaults", "/elsewhere/p006.md"), None);
}

#[test]
fn md_files_are_recognized_case_insensitively() {
    assert!(is_md_file("/v/vaults/p006.md"));
    assert!(is_md_file("/v/vaults/P006.MD"));
    assert!(!is_md_file("/v/.autoindex-state.json"));
    assert!(!is_md_file("/v/vaults/.md"));
    assert!(!is_md_file("/v/vaults/readme"));
}

#[test]
fn flushed_ids_fall_back_in_order() {
    assert_eq!(deleted_vault_id(Some("pr003".into()), Some("pr003-gotchas".into()), "/v/vaults/pr003-gotchas.md"), "pr003");
    assert_eq!(deleted_vault_id(None, Some("a.b".into()), "/v/vaults/a/b.md"), "a.b");
    assert_eq!(deleted_vault_id(None, None, "/v/other/x.md"), "x");
    assert_eq!(fallback_vault_id(None, "/v/other/y.md"), "y");
    assert_eq!(fallback_vault_id(None, "/"), "unknown");
}

fn ev(kind: WatchKind, paths: &[&str]) -> WatchEvent {
    WatchEvent { kind, paths: paths.iter().map(|s| s.to_string()).collect() }
}

#[test]
fn burst_collapses_to_one_flush_with_the_last_kind() {
    let mut t = DebounceTable::new();
    t.record_event(&ev(WatchKind::Create, &["/v/vaults/a.md", "/v/vaults/skip.json"]), 1000);
    t.record_event(&ev(WatchKind::Modify, &["/v/vaults/a.md"]), 1050);
    assert!(t.take_due(1090, DEBOUNCE_WINDOW_MS).is_empty());
    let due = t.take_due(1100, DEBOUNCE_WINDOW_MS);
    assert_eq!(due.len(), 1);
    assert_eq!(due[0].0, "/v/vaults/a.md");
    assert_eq!(due[0].1, DebouncedKind::Modified);
    assert_eq!(due[0].2, 1000);
    assert!(t.take_due(5000, DEBOUNCE_WINDOW_MS).is_empty());
}

#[test]
fn renames_flush_on_the_next_tick() {
    let mut t = DebounceTable::new();
    t.record_event(&ev(WatchKind::RenameBoth, &["/v/vaults/old.md", "/v/vaults/new.md"]), 10_000);
    let due = t.take_due(10_000, DEBOUNCE_WINDOW_MS);
    assert_eq!(due.len(), 2);
    assert_eq!(due[0].1, DebouncedKind::Deleted);
    assert_eq!(due[1].1, DebouncedKind::Created);
}

use rift_bus::index::VaultChangeKind;
use rift_bus::vault::VaultMeta;
use rift_bus::vault_watch::{project_enrichment, vault_update_record, walk_enters, walk_step, WalkStep};

fn meta(repo: Option<&str>) -> VaultMeta {
    VaultMeta {
        id: "p006".into(),
        name: "Rift".into(),
        short_label: Some("terminal".into()),
        vault_type: "project".into(),
        updated: "2026-01-01".into(),
        repo: repo.map(|r| r.to_string()),
        source: None,
        cross_refs: vec!["pr003".into()],
    }
}

#[test]
fn walk_steps() {
    assert!(walk_enters(4));
    assert!(!walk_enters(5));
    assert!(matches!(walk_step("/v", "/v/link.md", true, false), WalkStep::Skip));
    assert!(matches!(walk_step("/v", "/v/sub", false, true), WalkStep::Descend));
    assert!(matches!(walk_step("/v", "/v/notes.txt", false, false), WalkStep::Skip));
    match walk_step("/v", "/v/pr003/x/y.md", false, false) {
        WalkStep::Vault { vault_id, parent_id } => {
            assert_eq!(vault_id, "pr003.x.y");
            assert_eq!(parent_id.as_deref(), Some("pr003.x"));
        },
        _ => panic!("expected a vault"),
    }
    assert!(matches!(walk_step("/v", "/elsewhere/p.md", false, false), WalkStep::Skip));
}

#[test]
fn rich_and_minimal_updates() {
    let rich = vault_update_record("p006".into(), None, "C:\\v\\p006.md", VaultChangeKind::Created, Some(5), Some(meta(None)));
    assert_eq!(rich.path, "C:/v/p006.md");
    let f = rich.fields.unwrap();
    assert_eq!(f.name, "Rift");
    assert_eq!(f.cross_refs, vec!["pr003".to_string()]);
    let minimal = vault_update_record("p7".into(), Some("p".into()), "v/p7.md", VaultChangeKind::Created, None, None);
    assert!(minimal.fields.is_none());
    assert_eq!(minimal.parent_vault_id.as_deref(), Some("p"));
}

#[test]
fn walker_normalizes_backslash_and_trailing_slash() {
    let m = meta(Some("C:\\work\\rift\\"));
    let p = project_enrichment(&m, "C:\\work\\rift\\", "C:/work/rift").expect("match");
    assert_eq!(p.fs_path, "C:/work/rift");
    assert_eq!(p.vault_id, "p006");
    assert_eq!(p.vault_kind, "project");
    assert!(p.tags.is_empty());
}

#[test]
fn walker_no_enrichment_on_repo_mismatch() {
    let m = meta(Some("/other"));
    assert!(project_enrichment(&m, "/other", "/work/rift").is_none());
}
