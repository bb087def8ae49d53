use rift_bus::session_compare::{compare_summaries, summarise_lines, CategoryCount, SessionSummary};

fn lines(v: &[&str]) -> Vec<String> {
    v.iter().map(|s| s.to_string()).collect()
}

#[test]
fn summary_counts_errors_types_and_buckets() {
    let l = lines(&[
        r#"{"category":"pty","kind":"command.submitted","ts":1000}"#,
        "",
        "not json",
        r#"{"category":"system","kind":"system.error","ts":61000}"#,
        r#"{"category":"pty","kind":"pty.output","ts":121500}"#,
        r#"{"kind":"x"}"#,
    ]);
    let s = summarise_lines("s1", &l);
    assert_eq!(s.session_id, "s1");
    assert_eq!(s.event_count, 4);
    assert_eq!(s.error_count, 1);
    assert_eq!(s.duration_ms, 120500);
    assert_eq!(s.timeline_buckets, vec![1, 1, 1]);
    assert_eq!(s.category_counts[0].category, "pty");
    assert_eq!(s.category_counts[0].count, 2);
    assert_eq!(s.category_counts.len(), 3);
    assert_eq!(
        s.event_types,
        vec!["pty::command.submitted", "pty::pty.output", "system::system.error", "unknown::x"]
    );
}

#[test]
fn summary_without_timestamps_has_no_buckets() {
    let s = summarise_lines("s2", &lines(&[r#"{"category":"fs","kind":"write"}"#]));
    assert_eq!(s.duration_ms, 0);
    assert!(s.timeline_buckets.is_empty());
    let empty = summarise_lines("s3", &[]);
    assert_eq!(empty.event_count, 0);
    assert!(empty.category_counts.is_empty());
}

#[test]
fn buckets_are_capped_at_a_day() {
    let l = lines(&[r#"{"category":"fs","kind":"a","ts":1}"#, r#"{"category":"fs","kind":"a","ts":200000000}"#]);
    let s = summarise_lines("long", &l);
    assert_eq!(s.timeline_buckets.len(), 1440);
    assert_eq!(s.timeline_buckets[0], 1);
}

fn summary(types: &[&str], cats: &[(&str, u64)], errors: u64, dur: u64) -> SessionSummary {
    SessionSummary {
        session_id: "x".into(),
        event_count: 0,
        error_count: errors,
        duration_ms: dur,
        category_counts: cats.iter().map(|(c, n)| CategoryCount { category: c.to_string(), count: *n }).collect(),
        event_types: types.iter().map(|s| s.to_string()).collect(),
        timeline_buckets: vec![],
    }
}

#[test]
fn diff_reports_types_deltas_and_signed_changes() {
    let b = summary(&["fs::a", "pty::b"], &[("fs", 3), ("pty", 1)], 2, 500);
    let c = summary(&["fs::a", "llm::c"], &[("fs", 1), ("llm", 4)], 1, 800);
    let d = compare_summaries(b, c);
    assert_eq!(d.new_types, vec!["llm::c"]);
    assert_eq!(d.missing_types, vec!["pty::b"]);
    assert_eq!(d.error_delta, -1);
    assert_eq!(d.duration_delta, 300);
    assert_eq!(d.frequency_deltas.len(), 3);
    assert_eq!(d.frequency_deltas[0].category, "llm");
    assert_eq!(d.frequency_deltas[0].delta, 4);
    assert_eq!(d.frequency_deltas[1].category, "fs");
    assert_eq!(d.frequency_deltas[1].delta, -2);
    assert_eq!(d.frequency_deltas[2].category, "pty");
    assert_eq!(d.frequency_deltas[2].baseline_count, 1);
    assert_eq!(d.frequency_deltas[2].compare_count, 0);
}

#[test]
fn comparing_a_session_with_itself_is_empty() {
    let s = summary(&["a::b", "c::d"], &[("a", 2), ("c", 5)], 1, 10);
    let d = compare_summaries(s.clone(), s);
    assert!(d.new_types.is_empty());
    assert!(d.missing_types.is_empty());
    assert!(d.frequency_deltas.iter().all(|f| f.delta == 0));
    assert_eq!(d.error_delta, 0);
    assert_eq!(d.duration_delta, 0);
}
