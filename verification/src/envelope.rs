use vstd::prelude::*;

verus! {

/// Current envelope schema version. Bumped only on schema breaks.
pub const CURRENT_VERSION: u16 = 1;

/// Coarse-grained event source. Translators publish to a single category;
/// subscribers filter by one or many.
#[derive(Clone, Copy, Debug, PartialEq, Eq, Hash, Structural)]
pub enum Category {
    Pty,
    Hook,
    Agent,
    Fs,
    Index,
    Aegis,
    Status,
    System,
    Mcp,
    Sentinel,
}

} // verus!

verus! {

/// Lowercase wire name of a category.
pub open spec fn category_name(c: Category) -> Seq<char> {
    match c {
        Category::Pty => "pty"@,
        Category::Hook => "hook"@,
        Category::Agent => "agent"@,
        Category::Fs => "fs"@,
        Category::Index => "index"@,
        Category::Aegis => "aegis"@,
        Category::Status => "status"@,
        Category::System => "system"@,
        Category::Mcp => "mcp"@,
        Category::Sentinel => "sentinel"@,
    }
}

impl Category {
    /// The category's lowercase wire name (`"pty"`, `"hook"`, ...).
    pub fn as_str(&self) -> (s: &'static str)
        ensures
            s@ == category_name(*self),
    {
        let s = match self {
            Category::Pty => "pty",
            Category::Hook => "hook",
            Category::Agent => "agent",
            Category::Fs => "fs",
            Category::Index => "index",
            Category::Aegis => "aegis",
            Category::Status => "status",
            Category::System => "system",
            Category::Mcp => "mcp",
            Category::Sentinel => "sentinel",
        };
        proof {
            reveal_strlit("pty");
            reveal_strlit("hook");
            reveal_strlit("agent");
            reveal_strlit("fs");
            reveal_strlit("index");
            reveal_strlit("aegis");
            reveal_strlit("status");
            reveal_strlit("system");
            reveal_strlit("mcp");
            reveal_strlit("sentinel");
        }
        s
    }
}

#[verifier::external_type_specification]
#[verifier::external_body]
pub struct ExJsonValue(serde_json::Value);

/// `serde_json::Value`'s `Clone` is derived: the copy equals the original.
pub assume_specification[ <serde_json::Value as Clone>::clone ](v: &serde_json::Value) -> (r: serde_json::Value)
    ensures
        r == *v,
;

/// The wire envelope. Every event on the bus and across the IPC boundary is
/// one of these.
#[derive(Clone, Debug)]
pub struct Envelope {
    /// Schema version; [`CURRENT_VERSION`] for newly built envelopes.
    pub version: u16,
    /// Source category.
    pub category: Category,
    /// Type within the category (e.g. `"pty.output"`).
    pub kind: String,
    /// Unix epoch milliseconds.
    pub ts: u64,
    /// Free-form JSON payload.
    pub payload: serde_json::Value,
    /// Root correlation identifier shared by a causal chain.
    pub correlation_id: Option<String>,
    /// Direct parent envelope identifier.
    pub parent_id: Option<String>,
}

/// Reads the system clock as Unix epoch milliseconds (`SystemTime::now`);
/// 0 when the clock is before the epoch. Nothing is promised of the value.
#[verifier::external_body]
pub fn now_unix_ms() -> u64 {
    std::time::SystemTime::now()
        .duration_since(std::time::UNIX_EPOCH)
        .map(|d| d.as_millis() as u64)
        .unwrap_or(0)
}

/// Builds `serde_json::Value::Null`, which [`crate::json::json_node_of`]
/// reads as `JsonNode::Null` (its first arm).
#[verifier::external_body]
pub fn json_null() -> (v: serde_json::Value)
    ensures
        crate::json::json_node_of(v) == crate::json::JsonNode::Null,
{
    serde_json::Value::Null
}

/// Mathematical form of an [`Envelope`].
pub struct EnvelopeView {
    pub version: u16,
    pub category: Category,
    pub kind: Seq<char>,
    pub ts: u64,
    pub payload: serde_json::Value,
    pub correlation_id: Option<Seq<char>>,
    pub parent_id: Option<Seq<char>>,
}

pub open spec fn opt_string_view(o: Option<String>) -> Option<Seq<char>> {
    match o {
        Some(s) => Some(s@),
        None => None,
    }
}

impl View for Envelope {
    type V = EnvelopeView;

    open spec fn view(&self) -> EnvelopeView {
        EnvelopeView {
            version: self.version,
            category: self.category,
            kind: self.kind@,
            ts: self.ts,
            payload: self.payload,
            correlation_id: opt_string_view(self.correlation_id),
            parent_id: opt_string_view(self.parent_id),
        }
    }
}

/// Copy of an optional string.
pub fn copy_opt_string(o: &Option<String>) -> (r: Option<String>)
    ensures
        opt_string_view(r) == opt_string_view(*o),
{
    match o {
        Some(s) => Some(s.clone()),
        None => None,
    }
}

impl Envelope {
    /// A field-by-field copy.
    pub fn duplicate(&self) -> (r: Self)
        ensures
            r@ == self@,
    {
        Envelope {
            version: self.version,
            category: self.category,
            kind: self.kind.clone(),
            ts: self.ts,
            payload: self.payload.clone(),
            correlation_id: copy_opt_string(&self.correlation_id),
            parent_id: copy_opt_string(&self.parent_id),
        }
    }

    /// A fresh envelope: current version, current time, `null` payload, no
    /// correlation.
    pub fn new(category: Category, kind: &str) -> (e: Self)
        ensures
            e.version == CURRENT_VERSION,
            e.category == category,
            e.kind@ == kind@,
            e.correlation_id is None,
            e.parent_id is None,
            crate::json::json_node_of(e.payload) == crate::json::JsonNode::Null,
    {
        Envelope {
            version: CURRENT_VERSION,
            category,
            kind: crate::text::string_of(crate::text::chars_of(kind).as_slice()),
            ts: now_unix_ms(),
            payload: json_null(),
            correlation_id: None,
            parent_id: None,
        }
    }

    /// Set the correlation fields for causal chain linking.
    pub fn with_correlation(self, correlation_id: String, parent_id: Option<String>) -> (e: Self)
        ensures
            e == (Envelope { correlation_id: Some(correlation_id), parent_id, ..self }),
    {
        Envelope { correlation_id: Some(correlation_id), parent_id, ..self }
    }
}

} // verus!
