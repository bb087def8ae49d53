use rift_bus::enrichment::{
    enrichment_attach_payload, enrichment_declare_payload, enrichment_envelope, enrichment_revoke_payload,
    EnrichmentOp,
};
use rift_bus::envelope::{Category, CURRENT_VERSION};

#[test]
fn declare_envelope_shape() {
    let env = enrichment_envelope(EnrichmentOp::Declare);
    assert_eq!(env.category, Category::System);
    assert_eq!(env.kind, "enrichment.declare");
    let p = enrichment_declare_payload("index", "Abyssal Index", Some("vault metadata"));
    assert_eq!(p.provider_id, "index");
    assert_eq!(p.label, "Abyssal Index");
    assert_eq!(p.description.as_deref(), Some("vault metadata"));
}

#[test]
fn attach_envelope_shape() {
    let env = enrichment_envelope(EnrichmentOp::Attach);
    assert_eq!(env.category, Category::System);
    assert_eq!(env.kind, "enrichment.attach");
    let data: serde_json::Value = serde_json::from_str("{\"vault_id\":\"p006\",\"vault_kind\":\"project\"}").unwrap();
    let p = enrichment_attach_payload("index", "p006", "C:/proj", Some("p006"), vec!["project".into()], data);
    assert_eq!(p.provider_id, "index");
    assert_eq!(p.entry_id, "p006");
    assert_eq!(p.fs_path, "C:/proj");
    assert_eq!(p.label.as_deref(), Some("p006"));
    assert_eq!(p.tags[0], "project");
    assert_eq!(p.data["vault_kind"], "project");
}

#[test]
fn attach_normalizes_backslashes() {
    let p = enrichment_attach_payload("git", "blame", "C:\\proj\\src", None, vec![], serde_json::Value::Null);
    assert_eq!(p.fs_path, "C:/proj/src");
    assert!(p.label.is_none());
}

#[test]
fn revoke_all_paths_has_null_fs_path() {
    let env = enrichment_envelope(EnrichmentOp::Revoke);
    assert_eq!(env.category, Category::System);
    assert_eq!(env.kind, "enrichment.revoke");
    let p = enrichment_revoke_payload("index", None);
    assert_eq!(p.provider_id, "index");
    assert!(p.fs_path.is_none());
    let one = enrichment_revoke_payload("index", Some("C:\\p"));
    assert_eq!(one.fs_path.as_deref(), Some("C:/p"));
}

#[test]
fn enrichment_version_not_bumped() {
    assert_eq!(enrichment_envelope(EnrichmentOp::Declare).version, CURRENT_VERSION);
}
