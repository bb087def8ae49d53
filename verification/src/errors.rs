//! Payload of the `system` / `error` envelopes that report failed commands.

use vstd::prelude::*;

use crate::envelope::json_null;

verus! {

/// Payload of a `system` / `error` envelope.
#[derive(Clone, Debug)]
pub struct ErrorPayload {
    /// Structured source, e.g. `"tauri.command.pty_start"`.
    pub source: String,
    /// Human-readable error text.
    pub message: String,
    /// Structured context; JSON `null` when none was given.
    pub context: serde_json::Value,
}

/// The report of an error from `source`.
pub fn error_payload(source: &str, message: &str, context: Option<serde_json::Value>) -> (p: ErrorPayload)
    ensures
        p.source@ == source@,
        p.message@ == message@,
        context matches Some(c) ==> p.context == c,
{
    let ctx = match context {
        Some(c) => c,
        None => json_null(),
    };
    ErrorPayload { source: source.to_string(), message: message.to_string(), context: ctx }
}

} // verus!

verus! {

/// A fresh `system` / `error` envelope, its payload still to be set.
pub fn error_envelope() -> (e: crate::envelope::Envelope)
    ensures
        e.version == crate::envelope::CURRENT_VERSION,
        e.category == crate::envelope::Category::System,
        e.kind@ == "error"@,
{
    crate::envelope::Envelope::new(crate::envelope::Category::System, "error")
}

} // verus!
