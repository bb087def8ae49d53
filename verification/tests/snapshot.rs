use rift_bus::compaction::newest_session;
use rift_bus::config::SessionConfig;
use rift_bus::snapshot::{
    choose_snapshot, digest_from_sidecar, digest_text, new_session_snapshot, restore_payload,
    retention_cutoff_ms, snapshot_file_name, snapshot_id_of_name, summary_file_name, PaneSnapshot,
    SessionSnapshot,
};

fn cfg_restore(on: bool) -> SessionConfig {
    SessionConfig { restore_on_startup: on, ..SessionConfig::default() }
}

fn pane(id: u32) -> PaneSnapshot {
    PaneSnapshot {
        pane_id: id,
        serialized: format!("\x1b[32mhello from {id}\x1b[0m"),
        cwd: "C:/work".into(),
        rows: 40,
        cols: 120,
        project_root: Some("C:/work".into()),
    }
}

fn current_id(entries: &Vec<(String, Option<u64>)>) -> Option<String> {
    let logs: Vec<(String, Option<u128>)> =
        entries.iter().map(|(p, t)| (p.clone(), t.map(|v| v as u128))).collect();
    newest_session(&logs).map(|(id, _)| id)
}

#[test]
fn latest_returns_none_when_disabled() {
    let entries = vec![
        ("/s/2020-01-01_00-00-00.jsonl".to_string(), Some(1u64)),
        ("/s/2019-01-01_00-00-00.snapshot.json".to_string(), Some(1u64)),
    ];
    let cur = current_id(&entries);
    assert!(choose_snapshot(&cfg_restore(false), &entries, &cur).is_none());
}

#[test]
fn write_then_latest_skips_current_session() {
    let mut entries = vec![("/s/2026-06-02_00-00-00.jsonl".to_string(), Some(100u64))];
    let id = current_id(&entries).expect("active session");
    assert_eq!(id, "2026-06-02_00-00-00");
    let snap = new_session_snapshot(id.clone(), vec![pane(0)]);
    entries.push((format!("/s/{}", snapshot_file_name(&snap.session_id)), Some(200u64)));
    let cur = current_id(&entries);
    assert!(
        choose_snapshot(&cfg_restore(true), &entries, &cur).is_none(),
        "current session's own snapshot must be skipped"
    );
}

#[test]
fn latest_restores_prior_session_with_digest() {
    let prior = "2026-06-01_00-00-00";
    let entries = vec![
        (format!("/s/{prior}.jsonl"), Some(100u64)),
        (format!("/s/{}", snapshot_file_name(prior)), Some(150u64)),
        (format!("/s/{}", summary_file_name(prior)), Some(150u64)),
        ("/s/2026-06-02_00-00-00.jsonl".to_string(), Some(200u64)),
    ];
    let cur = current_id(&entries);
    let b = choose_snapshot(&cfg_restore(true), &entries, &cur).expect("prior snapshot should restore");
    assert_eq!(b, 1);
    let now = 1_780_000_000_000u64;
    let snap = SessionSnapshot { session_id: prior.into(), saved_ms: now, panes: vec![pane(7)] };
    let sidecar = "{\"summary\":\"ran cargo test\\nedited compaction.rs\",\"last_consolidated_offset\":10,\"created_ms\":1}";
    let digest = digest_from_sidecar(sidecar);
    let got = restore_payload(snap, retention_cutoff_ms(now, 7), digest).expect("within retention");
    assert_eq!(got.session_id, prior);
    assert_eq!(got.panes[0].pane_id, 7);
    let digest = got.digest.expect("digest attached from summary sidecar");
    assert!(digest.contains("cargo test"));
    assert!(!digest.contains('\n'), "digest collapsed to one line");
}

#[test]
fn snapshot_past_retention_is_not_offered() {
    let snap = SessionSnapshot { session_id: "a".into(), saved_ms: 10, panes: vec![] };
    assert!(restore_payload(snap, 11, None).is_none());
    assert_eq!(retention_cutoff_ms(86_400_000 * 3, 1), 86_400_000 * 2);
    assert_eq!(retention_cutoff_ms(5, 1), 0);
}

#[test]
fn newest_snapshot_wins_and_unreadable_times_are_skipped() {
    let entries = vec![
        ("/s/a.snapshot.json".to_string(), Some(5u64)),
        ("/s/b.snapshot.json".to_string(), None),
        ("/s/c.snapshot.json".to_string(), Some(9u64)),
        ("/s/d.snapshot.json".to_string(), Some(9u64)),
        ("/s/e.summary.json".to_string(), Some(50u64)),
    ];
    assert_eq!(choose_snapshot(&cfg_restore(true), &entries, &None), Some(2));
}

#[test]
fn snapshot_names_map_to_ids() {
    let n: Vec<char> = "2026-06-01_00-00-00.snapshot.json".chars().collect();
    let id: String = snapshot_id_of_name(&n).unwrap().into_iter().collect();
    assert_eq!(id, "2026-06-01_00-00-00");
    let twice: Vec<char> = "x.snapshot.json.snapshot.json".chars().collect();
    let id: String = snapshot_id_of_name(&twice).unwrap().into_iter().collect();
    assert_eq!(id, "x");
    let other: Vec<char> = "x.summary.json".chars().collect();
    assert!(snapshot_id_of_name(&other).is_none());
}

#[test]
fn digest_is_one_line_and_capped() {
    assert_eq!(digest_text("  a\r\nb  "), Some("a  b".to_string()));
    assert_eq!(digest_text("   "), None);
    let long: String = std::iter::repeat('x').take(300).collect();
    let d = digest_text(&long).unwrap();
    assert_eq!(d.chars().count(), 241);
    assert!(d.ends_with('\u{2026}'));
    let exact: String = std::iter::repeat('y').take(240).collect();
    assert_eq!(digest_text(&exact), Some(exact.clone()));
    assert_eq!(digest_from_sidecar("not json"), None);
    assert_eq!(digest_from_sidecar("{\"summary\": 3}"), None);
}
