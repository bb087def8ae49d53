use rift_bus::session_logger::{days_to_ymd, generate_session_id, session_id_from_secs, ymd_to_days};

#[test]
fn session_id_format_is_filesystem_safe() {
    let id = generate_session_id();
    assert!(!id.contains(':'), "colons not allowed in filenames: {id}");
    assert!(id.len() >= 19, "expected YYYY-MM-DD_HH-MM-SS: {id}");
    assert_eq!(&id[4..5], "-");
    assert_eq!(&id[7..8], "-");
    assert_eq!(&id[10..11], "_");
}

#[test]
fn days_to_ymd_epoch() {
    let (y, m, d) = days_to_ymd(0);
    assert_eq!((y, m, d), (1970, 1, 1));
}

#[test]
fn days_ymd_round_trip() {
    for days in [0i64, 1, 365, 730, 10000, 20000] {
        let (y, m, d) = days_to_ymd(days);
        let back = ymd_to_days(y, m, d);
        assert_eq!(days, back, "round-trip failed for days={days} → ({y},{m},{d})");
    }
}

#[test]
fn known_dates() {
    assert_eq!(days_to_ymd(-1), (1969, 12, 31));
    assert_eq!(days_to_ymd(11016), (2000, 2, 29));
    assert_eq!(ymd_to_days(2024, 3, 1), 19783);
    assert_eq!(ymd_to_days(1600, 1, 1), -135140);
}

#[test]
fn session_id_for_fixed_instant() {
    assert_eq!(session_id_from_secs(0), "1970-01-01_00-00-00");
    assert_eq!(session_id_from_secs(1_700_000_000), "2023-11-14_22-13-20");
}

use rift_bus::envelope::{Category, Envelope};
use rift_bus::session_logger::{
    artifact_date, cleanup_cutoff_days, date_cut_is_safe, redact_envelope, should_reap, LineAction,
    LogBudget,
};

fn reaped(name: &str, retention_days: u32) -> bool {
    let now = 1_780_000_000u64; // mid-2026
    let cutoff = cleanup_cutoff_days(now, retention_days);
    let n: Vec<char> = name.chars().collect();
    should_reap(&n, cutoff)
}

#[test]
fn cleanup_skips_non_jsonl_files() {
    assert!(!reaped("not-a-session.txt", 0));
}

#[test]
fn cleanup_deletes_old_sessions() {
    assert!(reaped("2020-01-01_00-00-00.jsonl", 1));
    assert!(!reaped("2099-12-31_23-59-59.jsonl", 1));
}

#[test]
fn cleanup_reaps_summary_and_snapshot_sidecars() {
    for ext in ["jsonl", "summary.json", "snapshot.json"] {
        assert!(reaped(&format!("2020-01-01_00-00-00.{ext}"), 1));
    }
    assert!(!reaped("2099-12-31_23-59-59.summary.json", 1));
    assert!(!reaped("2099-12-31_23-59-59.snapshot.json", 1));
}

#[test]
fn cleanup_dates_need_three_numeric_parts() {
    let n: Vec<char> = "2020-01-01_x.jsonl".chars().collect();
    assert_eq!(artifact_date(&n), Some((2020, 1, 1)));
    let bad: Vec<char> = "20200101xx.jsonl".chars().collect();
    assert_eq!(artifact_date(&bad), None);
    let short: Vec<char> = "a.jsonl".chars().collect();
    assert_eq!(artifact_date(&short), None);
    let wide: Vec<char> = "2020-01-é1.jsonl".chars().collect();
    assert!(date_cut_is_safe(&wide));
    assert_eq!(artifact_date(&wide), None);
    let split: Vec<char> = "2020-01-0é.jsonl".chars().collect();
    assert!(!date_cut_is_safe(&split));
    assert_eq!(cleanup_cutoff_days(86_400 * 10 + 5, 3), 7);
    assert_eq!(cleanup_cutoff_days(5, 3), 0);
}

#[test]
fn redact_mcp_handshake_token() {
    let mut env = Envelope::new(Category::Mcp, "mcp.handshake");
    env.payload = serde_json::from_str("{\"server\":\"test-server\",\"token\":\"super-secret-token-12345\"}").unwrap();
    let redacted = redact_envelope(env);
    assert_eq!(redacted.payload["token"], "[REDACTED]");
    assert_eq!(redacted.payload["server"], "test-server");
}

#[test]
fn redact_leaves_non_handshake_unchanged() {
    let mut env = Envelope::new(Category::Mcp, "mcp.invoke");
    env.payload = serde_json::from_str("{\"tool\":\"read_file\",\"token\":\"should-stay\"}").unwrap();
    let redacted = redact_envelope(env);
    assert_eq!(redacted.payload["token"], "should-stay");
}

#[test]
fn redact_keeps_numbers_exact() {
    let mut env = Envelope::new(Category::Mcp, "mcp.handshake");
    env.payload = serde_json::from_str("{\"n\":1.5,\"big\":18446744073709551615,\"neg\":-3}").unwrap();
    let redacted = redact_envelope(env);
    assert_eq!(redacted.payload["n"], 1.5);
    assert_eq!(redacted.payload["big"], u64::MAX);
    assert_eq!(redacted.payload["neg"], -3);
    assert!(redacted.payload.get("token").is_none());
}

#[test]
fn log_stops_at_its_cap() {
    let mut b = LogBudget::new(1);
    assert_eq!(b.max_bytes, 1_048_576);
    assert_eq!(b.take_line(1_048_574), LineAction::Write);
    assert_eq!(b.written, 1_048_575);
    assert_eq!(b.take_line(0), LineAction::Write);
    assert_eq!(b.take_line(0), LineAction::Cap);
    assert!(b.capped);
    assert_eq!(b.take_line(0), LineAction::Skip);
    assert_eq!(b.written, 1_048_576);
}

#[test]
fn flush_when_crossing_64k() {
    let mut b = LogBudget::new(100);
    b.take_line(65535);
    assert!(b.should_flush(65536));
    b.take_line(9);
    assert!(!b.should_flush(10));
}
