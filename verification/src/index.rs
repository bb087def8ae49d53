//! Payloads of the `index` envelopes: vault file changes and the vault
//! metadata attached to filesystem paths.

use vstd::prelude::*;

use crate::fs_events::normalize_path;
use crate::vault::forward_slashes;

verus! {

/// The nature of the change to a vault file.
#[derive(Clone, Copy, Debug, PartialEq, Eq, Structural)]
pub enum VaultChangeKind {
    /// A new vault file was created.
    Created,
    /// An existing vault file was modified.
    Modified,
    /// A vault file was deleted.
    Deleted,
}

/// Wire name of a change kind (snake case).
pub open spec fn change_kind_name(k: VaultChangeKind) -> Seq<char> {
    match k {
        VaultChangeKind::Created => "created"@,
        VaultChangeKind::Modified => "modified"@,
        VaultChangeKind::Deleted => "deleted"@,
    }
}

impl VaultChangeKind {
    /// The kind's wire name: `"created"`, `"modified"` or `"deleted"`.
    pub fn as_str(&self) -> (s: &'static str)
        ensures
            s@ == change_kind_name(*self),
    {
        proof {
            reveal_strlit("created");
            reveal_strlit("modified");
            reveal_strlit("deleted");
        }
        match self {
            VaultChangeKind::Created => "created",
            VaultChangeKind::Modified => "modified",
            VaultChangeKind::Deleted => "deleted",
        }
    }
}

/// Payload of an `index` / `vault.update` envelope.
#[derive(Clone, Debug)]
pub struct VaultUpdatePayload {
    /// Vault identifier, e.g. `"p006"`.
    pub vault_id: String,
    /// Path of the vault file, with forward slashes.
    pub path: String,
    /// Nature of the change.
    pub change_kind: VaultChangeKind,
}

/// Payload of an `index` / `enrichment` envelope.
#[derive(Clone, Debug)]
pub struct IndexEnrichmentPayload {
    /// Filesystem path being enriched, with forward slashes.
    pub fs_path: String,
    /// Vault that supplies the enrichment.
    pub vault_id: String,
    /// Index category of the vault.
    pub vault_kind: String,
    /// Vault tags attached to the path.
    pub tags: Vec<String>,
}

/// Envelope kind of a vault change.
pub open spec fn vault_update_kind() -> Seq<char> {
    "vault.update"@
}

/// Envelope kind of a path enrichment.
pub open spec fn index_enrichment_kind() -> Seq<char> {
    "enrichment"@
}

/// The payload announcing a change of a vault file; backslashes in `path`
/// become forward slashes.
pub fn vault_update_payload(vault_id: &str, path: &str, change_kind: VaultChangeKind) -> (p: VaultUpdatePayload)
    ensures
        p.vault_id@ == vault_id@,
        p.path@ == forward_slashes(path@),
        p.change_kind == change_kind,
{
    VaultUpdatePayload { vault_id: vault_id.to_string(), path: normalize_path(path), change_kind }
}

/// The payload attaching a vault's metadata to a path; backslashes in
/// `fs_path` become forward slashes.
pub fn index_enrichment_payload(fs_path: &str, vault_id: &str, vault_kind: &str, tags: Vec<String>) -> (p: IndexEnrichmentPayload)
    ensures
        p.fs_path@ == forward_slashes(fs_path@),
        p.vault_id@ == vault_id@,
        p.vault_kind@ == vault_kind@,
        p.tags == tags,
{
    IndexEnrichmentPayload {
        fs_path: normalize_path(fs_path),
        vault_id: vault_id.to_string(),
        vault_kind: vault_kind.to_string(),
        tags,
    }
}

} // verus!

verus! {

/// A fresh `index` / `vault.update` envelope, its payload still to be set.
pub fn vault_update_envelope() -> (e: crate::envelope::Envelope)
    ensures
        e.version == crate::envelope::CURRENT_VERSION,
        e.category == crate::envelope::Category::Index,
        e.kind@ == vault_update_kind(),
{
    crate::envelope::Envelope::new(crate::envelope::Category::Index, "vault.update")
}

/// A fresh `index` / `enrichment` envelope, its payload still to be set.
pub fn index_enrichment_envelope() -> (e: crate::envelope::Envelope)
    ensures
        e.version == crate::envelope::CURRENT_VERSION,
        e.category == crate::envelope::Category::Index,
        e.kind@ == index_enrichment_kind(),
{
    crate::envelope::Envelope::new(crate::envelope::Category::Index, "enrichment")
}

} // verus!
