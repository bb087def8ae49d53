use rift_bus::session_reader::{build_snippet, date_from_stem, search_lines, search_query, session_events, sort_ids_desc};
use rift_bus::timeline::{build_timeline_events, HistoryRecord, TimelineEntry, TimelineSources};

#[test]
fn snippet_centers_on_match_with_ellipses() {
    let line = format!("{}NEEDLE{}", "a".repeat(200), "b".repeat(200));
    let snip = build_snippet(&line, "needle");
    assert!(snip.contains("NEEDLE"));
    assert!(snip.starts_with('…'));
    assert!(snip.ends_with('…'));
    let short = build_snippet("just a needle here", "needle");
    assert_eq!(short, "just a needle here");
}

#[test]
fn snippet_is_utf8_safe_around_multibyte() {
    let line = format!("{}MATCH{}", "→".repeat(120), "✓".repeat(120));
    let snip = build_snippet(&line, "match");
    assert!(snip.contains("MATCH"));
}

#[test]
fn snippet_without_match_takes_the_head() {
    let line = "x".repeat(300);
    assert_eq!(build_snippet(&line, "zzz").chars().count(), 160);
}

#[test]
fn search_empty_query_returns_empty() {
    assert!(search_query("", 50).is_none());
    assert!(search_query("   ", 50).is_none());
    assert!(search_query("anything", 0).is_none());
    assert_eq!(search_query("  NeedLe ", 5).as_deref(), Some("needle"));
}

#[test]
fn search_counts_only_parseable_events_and_stops_at_room() {
    let lines: Vec<String> = vec![
        r#"{"ts":1,"category":"pty","kind":"a","payload":"needle one"}"#.into(),
        "".into(),
        "needle but not json".into(),
        r#"{"ts":2,"category":"fs","kind":"b"}"#.into(),
        r#"{"ts":3,"kind":"c","payload":"NEEDLE two"}"#.into(),
        r#"{"ts":4,"kind":"d","payload":"needle three"}"#.into(),
    ];
    let hits = search_lines("2026-05-01-abc", &lines, "needle", 2);
    assert_eq!(hits.len(), 2);
    assert_eq!(hits[0].event_idx, 0);
    assert_eq!(hits[0].date, "2026-05-01");
    assert_eq!(hits[0].category.as_deref(), Some("pty"));
    assert_eq!(hits[1].event_idx, 2);
    assert_eq!(hits[1].ts, Some(3));
    assert!(hits[1].category.is_none());
    assert_eq!(search_lines("s", &lines, "needle", 10).len(), 3);
}

#[test]
fn dates_and_newest_first_order() {
    assert_eq!(date_from_stem("2026-04-27-1714262400"), "2026-04-27");
    assert_eq!(date_from_stem("short"), "short");
    assert_eq!(date_from_stem("ééééééééééé"), "éééééééééé");
    let sorted = sort_ids_desc(vec!["2026-01-02-a".into(), "2026-03-01-b".into(), "2025-12-31-c".into()]);
    assert_eq!(sorted, vec!["2026-03-01-b", "2026-01-02-a", "2025-12-31-c"]);
}

fn core_only_sources() -> TimelineSources {
    TimelineSources {
        show_commands: true,
        show_errors: true,
        show_agents: false,
        show_hooks: false,
        show_fs: false,
        show_llm_cost: false,
        show_mcp: false,
    }
}

fn all_sources() -> TimelineSources {
    TimelineSources {
        show_commands: true,
        show_errors: true,
        show_agents: true,
        show_hooks: true,
        show_fs: true,
        show_llm_cost: true,
        show_mcp: true,
    }
}

fn build_timeline_from_lines(lines: &[&str], sources: &TimelineSources, history: &[HistoryRecord]) -> Vec<TimelineEntry> {
    let owned: Vec<String> = lines.iter().map(|l| l.to_string()).collect();
    let events = session_events(&owned);
    build_timeline_events(events, sources, &history.to_vec(), None)
}

#[test]
fn timeline_core_only_drops_agent_hook_fs() {
    let lines = [
        r#"{"ts":1000,"category":"pty","kind":"command.submitted","payload":{"session_id":1,"command":"ls","raw_len":2}}"#,
        r#"{"ts":2000,"category":"agent","kind":"agent.dispatch","payload":{"msg":"starting"}}"#,
        r#"{"ts":3000,"category":"hook","kind":"hook.run","payload":{"msg":"hook"}}"#,
        r#"{"ts":4000,"category":"fs","kind":"fs.change","payload":{"path":"/foo"}}"#,
        r#"{"ts":5000,"category":"system","kind":"system.error.crash","payload":{"message":"boom"}}"#,
    ];
    let entries = build_timeline_from_lines(&lines, &core_only_sources(), &[]);
    assert_eq!(entries.len(), 2);
    assert_eq!(entries[0].source, "command");
    assert_eq!(entries[1].source, "error");
}

#[test]
fn timeline_command_enriched_with_exit_code() {
    let lines = [
        r#"{"ts":1000,"category":"pty","kind":"command.submitted","payload":{"session_id":7,"command":"cargo build","raw_len":11}}"#,
    ];
    let history = vec![HistoryRecord {
        session_id: Some(7),
        command: "cargo build".to_string(),
        started_at_ms: Some(990),
        exit_code: Some(0),
        duration_ms: Some(5000),
    }];
    let entries = build_timeline_from_lines(&lines, &core_only_sources(), &history);
    assert_eq!(entries.len(), 1);
    assert_eq!(entries[0].source, "command");
    assert_eq!(entries[0].exit_code, Some(0));
    assert_eq!(entries[0].duration_ms, Some(5000));
    assert_eq!(entries[0].pane_session_id, Some(7));
}

#[test]
fn timeline_sorted_ascending_by_ts() {
    let lines = [
        r#"{"ts":9000,"category":"system","kind":"system.error.x","payload":{"message":"late"}}"#,
        r#"{"ts":1000,"category":"pty","kind":"command.submitted","payload":{"session_id":1,"command":"echo hi","raw_len":7}}"#,
        r#"{"ts":5000,"category":"system","kind":"system.error.y","payload":{"message":"mid"}}"#,
    ];
    let entries = build_timeline_from_lines(&lines, &core_only_sources(), &[]);
    assert_eq!(entries.len(), 3);
    assert!(entries[0].ts <= entries[1].ts);
    assert!(entries[1].ts <= entries[2].ts);
    assert_eq!(entries[0].ts, 1000);
    assert_eq!(entries[2].ts, 9000);
}

#[test]
fn timeline_noise_categories_always_excluded() {
    let lines = [
        r#"{"ts":100,"category":"status","kind":"status.snapshot","payload":{}}"#,
        r#"{"ts":200,"category":"index","kind":"index.update","payload":{}}"#,
        r#"{"ts":300,"category":"aegis","kind":"aegis.session.start","payload":{}}"#,
        r#"{"ts":400,"category":"sentinel","kind":"sentinel.check","payload":{}}"#,
        r#"{"ts":500,"category":"pty","kind":"command.submitted","payload":{"session_id":1,"command":"pwd","raw_len":3}}"#,
    ];
    let entries = build_timeline_from_lines(&lines, &all_sources(), &[]);
    assert_eq!(entries.len(), 1);
    assert_eq!(entries[0].source, "command");
    assert_eq!(entries[0].ts, 500);
}

#[test]
fn timeline_keeps_the_latest_under_the_cap_and_joins_closest_record() {
    let lines: Vec<String> = vec![
        r#"{"ts":30,"category":"pty","kind":"command.submitted","payload":{"session_id":2,"command":"make"}}"#.into(),
        r#"{"ts":10,"category":"PTY","kind":"pty.failed","payload":{"msg":"died"}}"#.into(),
        r#"{"ts":20,"category":"mcp","kind":"mcp.call","payload":{}}"#.into(),
    ];
    let history = vec![
        HistoryRecord { session_id: Some(2), command: "make".into(), started_at_ms: Some(0), exit_code: Some(1), duration_ms: None },
        HistoryRecord { session_id: Some(2), command: "make".into(), started_at_ms: Some(31), exit_code: Some(2), duration_ms: None },
        HistoryRecord { session_id: Some(2), command: "make".into(), started_at_ms: Some(29), exit_code: Some(3), duration_ms: None },
    ];
    let events = session_events(&lines);
    let entries = build_timeline_events(events, &all_sources(), &history, Some(2));
    assert_eq!(entries.len(), 2);
    assert_eq!(entries[0].ts, 20);
    assert_eq!(entries[0].summary, "mcp.call");
    assert_eq!(entries[1].ts, 30);
    assert_eq!(entries[1].exit_code, Some(2));
    let all = build_timeline_events(session_events(&lines), &all_sources(), &history, None);
    assert_eq!(all[0].category, "pty");
    assert_eq!(all[0].summary, "died");
}
