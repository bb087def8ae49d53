use rift_bus::compaction::{
    compaction_prefix, digest_of_completion, idle_window_secs, lines_of, newest_index,
    newest_session, utf8_size, IdleAction, IdleCompactor, IdleEvent,
};
use rift_bus::config::SessionConfig;

#[test]
fn read_prefix_none_when_below_suffix() {
    assert!(compaction_prefix("a\nb\nc\n", 100).is_none());
}

#[test]
fn read_prefix_splits_at_suffix() {
    let body: String = (0..10).map(|i| format!("line{i}\n")).collect();
    let (prefix, offset) = compaction_prefix(&body, 3).unwrap();
    assert_eq!(offset, 7);
    assert!(prefix.contains("line0"));
    assert!(prefix.contains("line6"));
    assert!(!prefix.contains("line7"));
}

#[test]
fn prefix_is_joined_with_newlines() {
    let (prefix, offset) = compaction_prefix("a\r\nb\nc\nd", 1).unwrap();
    assert_eq!(prefix, "a\nb\nc");
    assert_eq!(offset, 3);
    // exactly as many lines as kept: nothing to compact
    assert!(compaction_prefix("a\nb", 2).is_none());
    // keep nothing: everything is the prefix
    assert_eq!(compaction_prefix("x\ny\n", 0).unwrap(), ("x\ny".to_string(), 2));
}

#[test]
fn long_prefix_keeps_its_tail_within_the_cap() {
    let mut body = String::new();
    for i in 0..3000 {
        body.push_str(&format!("{{\"n\":{i}}}\n"));
    }
    body.push_str("last\n");
    let (prefix, offset) = compaction_prefix(&body, 1).unwrap();
    assert_eq!(offset, 3000);
    let marker = "[older prefix truncated]\n";
    assert!(prefix.starts_with(marker));
    let tail = &prefix[marker.len()..];
    assert!(tail.len() <= 16000);
    assert!(tail.ends_with("{\"n\":2999}"));
    assert!(!prefix.contains("last"));
}

#[test]
fn capped_tail_never_splits_a_character() {
    // 'é' is two bytes: an odd cut point must move to the next boundary.
    let mut body = String::new();
    for _ in 0..9000 {
        body.push('é');
    }
    body.push_str("\nkeep\n");
    let (prefix, _) = compaction_prefix(&body, 1).unwrap();
    let tail = &prefix["[older prefix truncated]\n".len()..];
    assert_eq!(tail.len(), 16000);
    assert!(tail.chars().all(|c| c == 'é'));
}

#[test]
fn lines_follow_str_lines() {
    let text: Vec<char> = "a\r\n\nb\r\rc".chars().collect();
    let got = lines_of(&text);
    let want: Vec<String> = "a\r\n\nb\r\rc".lines().map(|s| s.to_string()).collect();
    assert_eq!(got, want);
    let empty: Vec<char> = Vec::new();
    assert!(lines_of(&empty).is_empty());
}

#[test]
fn utf8_size_counts_bytes() {
    let s: Vec<char> = "aé€😀".chars().collect();
    assert_eq!(utf8_size(&s), 10);
}

#[test]
fn newest_session_is_latest_jsonl() {
    let entries = vec![
        ("/s/2026-01-01_00-00-00.jsonl".to_string(), Some(10u128)),
        ("/s/2026-01-02_00-00-00.jsonl".to_string(), Some(30u128)),
        ("/s/2026-01-03_00-00-00.summary.json".to_string(), Some(99u128)),
        ("/s/2026-01-04_00-00-00.jsonl".to_string(), None),
        ("/s/2026-01-05_00-00-00.jsonl".to_string(), Some(30u128)),
    ];
    let (id, path) = newest_session(&entries).unwrap();
    assert_eq!(id, "2026-01-02_00-00-00");
    assert_eq!(path, "/s/2026-01-02_00-00-00.jsonl");
    assert!(newest_session(&vec![("/s/notes.txt".to_string(), Some(1u128))]).is_none());
}

#[test]
fn newest_index_keeps_first_of_equal_keys() {
    assert_eq!(newest_index(&[None, Some(5), Some(7), Some(7), Some(2)]), Some(2));
    assert_eq!(newest_index(&[None, None]), None);
}

#[test]
fn one_compaction_per_idle_stretch() {
    let mut w = IdleCompactor::new();
    assert_eq!(w.on_event(IdleEvent::IdleElapsed), IdleAction::Compact);
    assert_eq!(w.on_event(IdleEvent::IdleElapsed), IdleAction::Wait);
    assert_eq!(w.on_event(IdleEvent::IdleElapsed), IdleAction::Wait);
    assert_eq!(w.on_event(IdleEvent::Activity), IdleAction::Wait);
    assert_eq!(w.on_event(IdleEvent::IdleElapsed), IdleAction::Compact);
    assert_eq!(w.on_event(IdleEvent::BusClosed), IdleAction::Stop);
    assert_eq!(w.on_event(IdleEvent::Shutdown), IdleAction::Stop);
}

#[test]
fn idle_window_follows_config() {
    let mut cfg = SessionConfig::default();
    assert_eq!(idle_window_secs(&cfg), None);
    cfg.idle_compact_after_minutes = 5;
    assert_eq!(idle_window_secs(&cfg), Some(300));
    cfg.enabled = false;
    assert_eq!(idle_window_secs(&cfg), None);
}

#[test]
fn completion_digest_is_trimmed() {
    assert_eq!(digest_of_completion("  ran tests\n"), Some("ran tests".to_string()));
    assert_eq!(digest_of_completion(" \n\t "), None);
}
