use rift_bus::envelope::{Category, CURRENT_VERSION};
use rift_bus::index::{
    index_enrichment_envelope, index_enrichment_payload, vault_update_envelope, vault_update_payload,
    VaultChangeKind,
};

#[test]
fn vault_update_envelope_shape() {
    let env = vault_update_envelope();
    assert_eq!(env.category, Category::Index);
    assert_eq!(env.kind, "vault.update");
    let p = vault_update_payload("p006", "vaults/p006.md", VaultChangeKind::Modified);
    assert_eq!(p.vault_id, "p006");
    assert_eq!(p.path, "vaults/p006.md");
    assert_eq!(p.change_kind.as_str(), "modified");
}

#[test]
fn enrichment_envelope_shape() {
    let env = index_enrichment_envelope();
    assert_eq!(env.category, Category::Index);
    assert_eq!(env.kind, "enrichment");
    let p = index_enrichment_payload("src/translators/index.rs", "p006", "p", vec!["phase8".into(), "index".into()]);
    assert_eq!(p.fs_path, "src/translators/index.rs");
    assert_eq!(p.vault_id, "p006");
    assert_eq!(p.vault_kind, "p");
    assert_eq!(p.tags[0], "phase8");
    assert_eq!(p.tags[1], "index");
}

#[test]
fn index_version_not_bumped() {
    assert_eq!(vault_update_envelope().version, CURRENT_VERSION);
}

#[test]
fn change_kinds_have_snake_case_names() {
    assert_eq!(VaultChangeKind::Created.as_str(), "created");
    assert_eq!(VaultChangeKind::Modified.as_str(), "modified");
    assert_eq!(VaultChangeKind::Deleted.as_str(), "deleted");
}

#[test]
fn update_path_gets_forward_slashes() {
    let p = vault_update_payload("p1", "vaults\\sub\\p1.md", VaultChangeKind::Deleted);
    assert_eq!(p.path, "vaults/sub/p1.md");
}
