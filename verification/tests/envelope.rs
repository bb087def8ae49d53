use rift_bus::envelope::{Category, Envelope, CURRENT_VERSION};

#[test]
fn current_version_stamped() {
    let env = Envelope::new(Category::System, "boot");
    assert_eq!(env.version, CURRENT_VERSION);
}

#[test]
fn new_envelope_has_kind_and_no_correlation() {
    let env = Envelope::new(Category::Fs, "create");
    assert_eq!(env.category, Category::Fs);
    assert_eq!(env.kind, "create");
    assert!(env.correlation_id.is_none());
    assert!(env.parent_id.is_none());
    assert!(env.payload.is_null());
}

#[test]
fn with_correlation_sets_both_fields() {
    let env = Envelope::new(Category::Fs, "create")
        .with_correlation("corr-abc-123".to_string(), Some("parent-xyz".to_string()));
    assert_eq!(env.correlation_id.as_deref(), Some("corr-abc-123"));
    assert_eq!(env.parent_id.as_deref(), Some("parent-xyz"));
    assert_eq!(env.kind, "create");
}

#[test]
fn category_wire_names_are_lowercase() {
    assert_eq!(Category::Pty.as_str(), "pty");
    assert_eq!(Category::Sentinel.as_str(), "sentinel");
    assert_eq!(Category::Mcp.as_str(), "mcp");
}

#[test]
fn duplicate_copies_every_field() {
    let env = Envelope::new(Category::Hook, "pre_edit").with_correlation("c".to_string(), None);
    let d = env.duplicate();
    assert_eq!(d.kind, env.kind);
    assert_eq!(d.ts, env.ts);
    assert_eq!(d.category, env.category);
    assert_eq!(d.correlation_id, env.correlation_id);
}
