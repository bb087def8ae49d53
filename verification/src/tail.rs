//! Tailing an append-only JSONL event file: when to read, what the new
//! bytes hold, and the offset to resume from. Polling and reading the file
//! is the caller's.

use vstd::prelude::*;
use vstd::utf8::{decode_utf8, valid_utf8};

use crate::compaction::{lines_of, str_lines};
use crate::json::{get_member, json_document, json_text, member, parse_json, JsonNode};
use crate::session_compare::line_views;
use crate::text::{chars_of, string_of, sub_chars};
use crate::vault::{trim_chars, trim_ws};

verus! {

/// Calls `std::str::from_utf8`: the decoded text exactly when the bytes are
/// well-formed UTF-8, `None` otherwise.
#[verifier::external_body]
pub(crate) fn utf8_text(bytes: &[u8]) -> (r: Option<Vec<char>>)
    ensures
        match r {
            Some(t) => valid_utf8(bytes@) && t@ == decode_utf8(bytes@),
            None => !valid_utf8(bytes@),
        },
{
    match std::str::from_utf8(bytes) {
        Ok(s) => Some(s.chars().collect()),
        Err(_) => None,
    }
}

/// What a poll does given the resume offset and the file's current length
/// (`None` when its metadata could not be read).
#[derive(Clone, Copy, Debug, PartialEq, Eq, Structural)]
pub enum TailCheck {
    /// Nothing to read; resume from this offset next time (the file shrank,
    /// did not grow, or could not be examined).
    Done(u64),
    /// The file grew: read it.
    Read,
}

/// A file that shrank resets the offset to its new length; one that did not
/// grow, or whose length is unknown, keeps the offset.
pub fn tail_check(offset: u64, current_len: Option<u64>) -> (r: TailCheck)
    ensures
        r == match current_len {
            None => TailCheck::Done(offset),
            Some(n) => if n < offset {
                TailCheck::Done(n)
            } else if n == offset {
                TailCheck::Done(offset)
            } else {
                TailCheck::Read
            },
        },
{
    match current_len {
        None => TailCheck::Done(offset),
        Some(n) => if n < offset {
            TailCheck::Done(n)
        } else if n == offset {
            TailCheck::Done(offset)
        } else {
            TailCheck::Read
        },
    }
}

/// The text appended after `offset`: the bytes from there on, when there
/// are any and they are well-formed UTF-8.
pub open spec fn appended_text(bytes: Seq<u8>, offset: u64) -> Option<Seq<char>> {
    if offset < bytes.len() {
        let nd = bytes.subrange(offset as int, bytes.len() as int);
        if valid_utf8(nd) {
            Some(decode_utf8(nd))
        } else {
            None
        }
    } else {
        None
    }
}

/// One event read from the file.
#[derive(Debug)]
pub struct TailEvent {
    /// Envelope kind: the event's `kind` string, else the file's default.
    pub kind: String,
    /// Envelope payload.
    pub payload: JsonNode,
}

/// [`TailEvent`] with its kind as text.
pub struct TailEventSpec {
    pub kind: Seq<char>,
    pub payload: JsonNode,
}

/// The event of a JSON document: its `kind` string (else `default_kind`),
/// and as payload either the whole document or, with `payload_member`, its
/// `payload` member when it has one.
pub open spec fn event_of(doc: JsonNode, default_kind: Seq<char>, payload_member: bool) -> TailEventSpec {
    TailEventSpec {
        kind: match json_text(member(doc, "kind"@)) {
            Some(k) => k,
            None => default_kind,
        },
        payload: if payload_member {
            match member(doc, "payload"@) {
                Some(p) => p,
                None => doc,
            }
        } else {
            doc
        },
    }
}

/// The events of the first `n` lines: each line trimmed; blank lines and
/// lines that are not JSON are skipped.
pub open spec fn events_upto(lines: Seq<Seq<char>>, n: int, default_kind: Seq<char>, payload_member: bool) -> Seq<TailEventSpec>
    decreases n,
{
    if n <= 0 || n > lines.len() {
        Seq::empty()
    } else {
        let prev = events_upto(lines, n - 1, default_kind, payload_member);
        let t = trim_ws(lines[n - 1]);
        if t.len() == 0 {
            prev
        } else {
            match json_document(t) {
                Some(doc) => prev.push(event_of(doc, default_kind, payload_member)),
                None => prev,
            }
        }
    }
}

pub open spec fn event_views(v: Seq<TailEvent>) -> Seq<TailEventSpec> {
    v.map_values(|e: TailEvent| TailEventSpec { kind: e.kind@, payload: e.payload })
}

/// The events in the text appended after `offset` to a file of
/// `current_len` bytes, whose contents are `bytes`, and the offset to resume
/// from: `current_len`. No events when nothing was appended or the appended
/// bytes are not UTF-8.
pub fn tail_events(bytes: &[u8], offset: u64, current_len: u64, default_kind: &str, payload_member: bool) -> (r: (Vec<TailEvent>, u64))
    ensures
        r.1 == current_len,
        match appended_text(bytes@, offset) {
            Some(text) => event_views(r.0@) == events_upto(
                str_lines(text),
                str_lines(text).len() as int,
                default_kind@,
                payload_member,
            ),
            None => r.0@.len() == 0,
        },
{
    let mut out: Vec<TailEvent> = Vec::new();
    if offset >= bytes.len() as u64 {
        return (out, current_len);
    }
    let start = offset as usize;
    let tail = sub_bytes(bytes, start);
    let text = match utf8_text(tail.as_slice()) {
        Some(t) => t,
        None => return (out, current_len),
    };
    let lines = lines_of(text.as_slice());
    let ghost lv = line_views(lines@);
    proof {
        reveal_strlit("kind");
        reveal_strlit("payload");
    }
    let mut i: usize = 0;
    while i < lines.len()
        invariant
            i <= lines.len(),
            lv == line_views(lines@),
            event_views(out@) == events_upto(lv, i as int, default_kind@, payload_member),
        decreases lines.len() - i,
    {
        let c = chars_of(lines[i].as_str());
        let t = trim_chars(c.as_slice());
        let ghost before = out@;
        if t.len() > 0 {
            let ts = string_of(t.as_slice());
            match parse_json(ts.as_str()) {
                Some(doc) => {
                    let kind = match get_member(&doc, "kind") {
                        Some(JsonNode::Text(k)) => k.clone(),
                        _ => default_kind.to_string(),
                    };
                    let payload = if payload_member {
                        crate::json::member_or_self(doc, "payload")
                    } else {
                        doc
                    };
                    out.push(TailEvent { kind, payload });
                    proof {
                        assert(event_views(out@) =~= event_views(before).push(
                            event_of(json_document(t@).unwrap(), default_kind@, payload_member),
                        ));
                    }
                },
                None => {},
            }
        }
        i += 1;
    }
    (out, current_len)
}

/// `bytes[start..]`.
fn sub_bytes(bytes: &[u8], start: usize) -> (r: Vec<u8>)
    requires
        start <= bytes.len(),
    ensures
        r@ == bytes@.subrange(start as int, bytes.len() as int),
{
    let mut r: Vec<u8> = Vec::new();
    let mut i = start;
    while i < bytes.len()
        invariant
            start <= i <= bytes.len(),
            r@ == bytes@.subrange(start as int, i as int),
        decreases bytes.len() - i,
    {
        r.push(bytes[i]);
        i += 1;
        assert(r@ =~= bytes@.subrange(start as int, i as int));
    }
    r
}

} // verus!
