use rift_bus::envelope::{Category, CURRENT_VERSION};
use rift_bus::errors::{error_envelope, error_payload};

#[test]
fn publish_shape_no_context() {
    let env = error_envelope();
    assert_eq!(env.category, Category::System);
    assert_eq!(env.kind, "error");
    let p = error_payload("tauri.command.pty_start", "spawn failed", None);
    assert_eq!(p.source, "tauri.command.pty_start");
    assert_eq!(p.message, "spawn failed");
    assert!(p.context.is_null(), "context should be null when None");
}

#[test]
fn publish_shape_with_context() {
    let ctx: serde_json::Value = serde_json::from_str("{\"session_id\":42,\"rows\":24}").unwrap();
    let p = error_payload("tauri.command.pty_resize", "resize failed", Some(ctx));
    assert_eq!(p.source, "tauri.command.pty_resize");
    assert_eq!(p.message, "resize failed");
    assert_eq!(p.context["session_id"], 42);
    assert_eq!(p.context["rows"], 24);
}

#[test]
fn errors_version_not_bumped() {
    assert_eq!(error_envelope().version, CURRENT_VERSION);
}
