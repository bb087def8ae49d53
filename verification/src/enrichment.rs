//! Payloads of the generic enrichment protocol: a provider declares itself,
//! attaches metadata to a filesystem path, and revokes it again.

use vstd::prelude::*;

use crate::envelope::opt_string_view;
use crate::fs_events::normalize_path;
use crate::vault::forward_slashes;

verus! {

/// Payload of a `system` / `enrichment.declare` envelope.
#[derive(Clone, Debug)]
pub struct EnrichmentDeclarePayload {
    /// Stable integration namespace, e.g. `"index"`, `"git"`.
    pub provider_id: String,
    /// Human-readable provider label.
    pub label: String,
    /// Optional longer description.
    pub description: Option<String>,
}

/// Payload of a `system` / `enrichment.attach` envelope.
#[derive(Clone, Debug)]
pub struct EnrichmentAttachPayload {
    /// Integration namespace.
    pub provider_id: String,
    /// Unique within `(provider_id, fs_path)`: the slot that a later attach
    /// replaces.
    pub entry_id: String,
    /// Filesystem path being enriched, with forward slashes.
    pub fs_path: String,
    /// Display label of the row, if any.
    pub label: Option<String>,
    /// Provider tags attached to the path.
    pub tags: Vec<String>,
    /// Provider-specific data, passed through.
    pub data: serde_json::Value,
}

/// Payload of a `system` / `enrichment.revoke` envelope: one path's slot,
/// or every path of the provider when `fs_path` is `None`.
#[derive(Clone, Debug)]
pub struct EnrichmentRevokePayload {
    /// Integration namespace.
    pub provider_id: String,
    /// The path whose enrichment is removed, with forward slashes.
    pub fs_path: Option<String>,
}

fn opt_owned(o: Option<&str>) -> (r: Option<String>)
    ensures
        match o {
            Some(s) => opt_string_view(r) == Some(s@),
            None => r is None,
        },
{
    match o {
        Some(s) => Some(s.to_string()),
        None => None,
    }
}

/// The declaration of an enrichment provider.
pub fn enrichment_declare_payload(provider_id: &str, label: &str, description: Option<&str>) -> (p: EnrichmentDeclarePayload)
    ensures
        p.provider_id@ == provider_id@,
        p.label@ == label@,
        match description {
            Some(d) => opt_string_view(p.description) == Some(d@),
            None => p.description is None,
        },
{
    EnrichmentDeclarePayload {
        provider_id: provider_id.to_string(),
        label: label.to_string(),
        description: opt_owned(description),
    }
}

/// An attachment of metadata to a path; backslashes in `fs_path` become
/// forward slashes.
pub fn enrichment_attach_payload(
    provider_id: &str,
    entry_id: &str,
    fs_path: &str,
    label: Option<&str>,
    tags: Vec<String>,
    data: serde_json::Value,
) -> (p: EnrichmentAttachPayload)
    ensures
        p.provider_id@ == provider_id@,
        p.entry_id@ == entry_id@,
        p.fs_path@ == forward_slashes(fs_path@),
        match label {
            Some(l) => opt_string_view(p.label) == Some(l@),
            None => p.label is None,
        },
        p.tags == tags,
        p.data == data,
{
    EnrichmentAttachPayload {
        provider_id: provider_id.to_string(),
        entry_id: entry_id.to_string(),
        fs_path: normalize_path(fs_path),
        label: opt_owned(label),
        tags,
        data,
    }
}

/// A revocation of a provider's enrichment at one path, or at every path
/// when `fs_path` is `None`; backslashes become forward slashes.
pub fn enrichment_revoke_payload(provider_id: &str, fs_path: Option<&str>) -> (p: EnrichmentRevokePayload)
    ensures
        p.provider_id@ == provider_id@,
        match fs_path {
            Some(f) => opt_string_view(p.fs_path) == Some(forward_slashes(f@)),
            None => p.fs_path is None,
        },
{
    let path = match fs_path {
        Some(f) => Some(normalize_path(f)),
        None => None,
    };
    EnrichmentRevokePayload { provider_id: provider_id.to_string(), fs_path: path }
}

} // verus!

verus! {

/// The three messages of the protocol.
#[derive(Clone, Copy, Debug, PartialEq, Eq, Structural)]
pub enum EnrichmentOp {
    Declare,
    Attach,
    Revoke,
}

/// Envelope kind of each message.
pub open spec fn enrichment_kind(op: EnrichmentOp) -> Seq<char> {
    match op {
        EnrichmentOp::Declare => "enrichment.declare"@,
        EnrichmentOp::Attach => "enrichment.attach"@,
        EnrichmentOp::Revoke => "enrichment.revoke"@,
    }
}

/// A fresh `system` envelope of the message's kind, its payload still to be
/// set.
pub fn enrichment_envelope(op: EnrichmentOp) -> (e: crate::envelope::Envelope)
    ensures
        e.version == crate::envelope::CURRENT_VERSION,
        e.category == crate::envelope::Category::System,
        e.kind@ == enrichment_kind(op),
{
    let kind = match op {
        EnrichmentOp::Declare => "enrichment.declare",
        EnrichmentOp::Attach => "enrichment.attach",
        EnrichmentOp::Revoke => "enrichment.revoke",
    };
    crate::envelope::Envelope::new(crate::envelope::Category::System, kind)
}

} // verus!
