//! The wire formats of the LLM providers: the messages sent to each, and the
//! streamed lines and error bodies read back. Sending and receiving is the
//! caller's.
//!
//! A reply is read as its wire record would be: a member typed as text or
//! number must have that type when present, `null` counts as absent for
//! optional members, and a required member must be there; otherwise the
//! whole reply is unreadable.

use vstd::prelude::*;

use crate::json::{get_member, json_document, member, parse_json, JsonNode};
use crate::llm::{reason_text, Message, Role, StopReason, StreamChunk};
use crate::llm_providers::{
    anthropic_map_role, anthropic_map_stop_reason, gemini_map_finish_reason, gemini_map_role,
    server_map_finish_reason, server_map_role,
};
use crate::status::deref_opt;
use crate::text::{chars_eq_str, chars_of, has_prefix, starts_with_str, string_of, sub_chars};
use crate::vault::{opt_str, trim_chars, trim_ws};

verus! {

// ---------------------------------------------------------------------------
// Reading typed members
// ---------------------------------------------------------------------------

/// An optional text member: `Some(None)` when absent or `null`,
/// `Some(Some(text))` for a string, `None` (unreadable) otherwise.
pub open spec fn opt_text(n: Option<JsonNode>) -> Option<Option<Seq<char>>> {
    match n {
        None => Some(None),
        Some(JsonNode::Null) => Some(None),
        Some(JsonNode::Text(s)) => Some(Some(s@)),
        _ => None,
    }
}

/// An optional `u64` member, read like [`opt_text`].
pub open spec fn opt_u64(n: Option<JsonNode>) -> Option<Option<u64>> {
    match n {
        None => Some(None),
        Some(JsonNode::Null) => Some(None),
        Some(JsonNode::Number { as_u64: Some(v), .. }) => Some(Some(v)),
        _ => None,
    }
}

/// A required text member.
pub open spec fn req_text(n: Option<JsonNode>) -> Option<Seq<char>> {
    match n {
        Some(JsonNode::Text(s)) => Some(s@),
        _ => None,
    }
}

fn read_opt_text(n: Option<&JsonNode>) -> (r: Option<Option<String>>)
    ensures
        match r {
            Some(o) => opt_text(deref_opt(n)) == Some(opt_str(o)),
            None => opt_text(deref_opt(n)) is None,
        },
{
    match n {
        None => Some(None),
        Some(JsonNode::Null) => Some(None),
        Some(JsonNode::Text(s)) => Some(Some(s.clone())),
        _ => None,
    }
}

fn read_opt_u64(n: Option<&JsonNode>) -> (r: Option<Option<u64>>)
    ensures
        r == opt_u64(deref_opt(n)),
{
    match n {
        None => Some(None),
        Some(JsonNode::Null) => Some(None),
        Some(JsonNode::Number { as_u64: Some(v), .. }) => Some(Some(*v)),
        _ => None,
    }
}

/// The text after `data: ` of a trimmed server-sent-events line; `None`
/// for blank lines, comments and other fields.
pub open spec fn sse_data(line: Seq<char>) -> Option<Seq<char>> {
    let t = trim_ws(line);
    if t.len() == 0 || t[0] == ':' || !has_prefix(t, "data: "@) {
        None
    } else {
        Some(t.subrange(6, t.len() as int))
    }
}

fn sse_data_of(line: &str) -> (r: Option<Vec<char>>)
    ensures
        match r {
            Some(d) => sse_data(line@) == Some(d@),
            None => sse_data(line@) is None,
        },
{
    proof {
        reveal_strlit("data: ");
    }
    let c = chars_of(line);
    let t = trim_chars(c.as_slice());
    if t.len() == 0 || t[0] == ':' || !starts_with_str(t.as_slice(), "data: ") {
        None
    } else {
        Some(sub_chars(t.as_slice(), 6, t.len()))
    }
}

/// The running token count after a chunk: one more when the chunk carries
/// text.
pub open spec fn bumped(tokens: u32, text: Seq<char>) -> u32 {
    if text.len() > 0 { (tokens + 1) as u32 } else { tokens }
}

// ---------------------------------------------------------------------------
// llama-server (OpenAI-compatible) streaming
// ---------------------------------------------------------------------------

/// One streamed choice: its delta's content and its finish reason.
pub open spec fn chunk_choice(c: JsonNode) -> Option<(Option<Seq<char>>, Option<Seq<char>>)> {
    match c {
        JsonNode::Object(_) => {
            let content = match member(c, "delta"@) {
                None => Some(None),
                Some(JsonNode::Null) => Some(None),
                Some(d) => match d {
                    JsonNode::Object(_) => opt_text(member(d, "content"@)),
                    _ => None,
                },
            };
            match (content, opt_text(member(c, "finish_reason"@))) {
                (Some(t), Some(f)) => Some((t, f)),
                _ => None,
            }
        },
        _ => None,
    }
}

/// Whether every one of the first `n` choices can be read.
pub open spec fn choices_readable(items: Seq<JsonNode>, n: int) -> bool
    decreases n,
{
    n <= 0 || (choices_readable(items, n - 1) && chunk_choice(items[n - 1]) is Some)
}

/// The first choice of a streamed chunk document: `None` when the document
/// or any of its choices cannot be read, or it has no choice.
pub open spec fn first_chunk_choice(doc: JsonNode) -> Option<(Option<Seq<char>>, Option<Seq<char>>)> {
    match doc {
        JsonNode::Object(_) => match member(doc, "choices"@) {
            Some(JsonNode::Array(items)) => if items@.len() > 0 && choices_readable(items@, items@.len() as int) {
                chunk_choice(items@[0])
            } else {
                None
            },
            _ => None,
        },
        _ => None,
    }
}

/// A streamed chunk from its text and finish reason; `None` when it has
/// neither.
pub open spec fn chunk_of(text: Seq<char>, finish: Option<Seq<char>>, tokens: u32, stop: StopReason) -> Option<(Seq<char>, bool, u32, Option<StopReason>)> {
    if text.len() == 0 && finish is None {
        None
    } else {
        Some((text, finish is Some, bumped(tokens, text), if finish is Some { Some(stop) } else { None }))
    }
}

/// A chunk as plain values: text, final flag, token count, stop reason.
pub open spec fn chunk_view(c: StreamChunk) -> (Seq<char>, bool, Option<u32>, Option<StopReason>) {
    (c.text@, c.is_final, c.token_count, c.stop_reason)
}

fn readable_choices(items: &Vec<JsonNode>) -> (r: bool)
    ensures
        r == choices_readable(items@, items@.len() as int),
{
    let mut i: usize = 0;
    while i < items.len()
        invariant
            i <= items.len(),
            choices_readable(items@, i as int),
        decreases items.len() - i,
    {
        if read_chunk_choice(&items[i]).is_none() {
            proof {
                lemma_choices_unreadable(items@, i as int, items@.len() as int);
            }
            return false;
        }
        i += 1;
    }
    true
}

proof fn lemma_choices_unreadable(items: Seq<JsonNode>, i: int, n: int)
    requires
        0 <= i < n,
        chunk_choice(items[i]) is None,
    ensures
        !choices_readable(items, n),
    decreases n,
{
    if n > i + 1 {
        lemma_choices_unreadable(items, i, n - 1);
    }
}

fn read_chunk_choice(c: &JsonNode) -> (r: Option<(Option<String>, Option<String>)>)
    ensures
        match r {
            Some((t, f)) => chunk_choice(*c) == Some((opt_str(t), opt_str(f))),
            None => chunk_choice(*c) is None,
        },
{
    proof {
        reveal_strlit("delta");
        reveal_strlit("content");
        reveal_strlit("finish_reason");
    }
    match c {
        JsonNode::Object(_) => {},
        _ => return None,
    }
    let content: Option<Option<String>> = match get_member(c, "delta") {
        None => Some(None),
        Some(JsonNode::Null) => Some(None),
        Some(d) => match d {
            JsonNode::Object(_) => read_opt_text(get_member(d, "content")),
            _ => None,
        },
    };
    let finish = read_opt_text(get_member(c, "finish_reason"));
    match (content, finish) {
        (Some(t), Some(f)) => Some((t, f)),
        _ => None,
    }
}

/// What a llama-server streaming line gives, with the running count of
/// text chunks before it.
pub open spec fn server_line_spec(line: Seq<char>, tokens: u32) -> Option<(Seq<char>, bool, u32, Option<StopReason>)> {
    match sse_data(line) {
        None => None,
        Some(data) => if data == "[DONE]"@ {
            Some((Seq::empty(), true, tokens, Some(StopReason::EndTurn)))
        } else {
            match json_document(data) {
                None => None,
                Some(doc) => match first_chunk_choice(doc) {
                    None => None,
                    Some((t, f)) => {
                        let text = match t { Some(x) => x, None => Seq::empty() };
                        chunk_of(text, f, tokens, server_stop(f))
                    },
                },
            }
        },
    }
}

/// [`server_map_finish_reason`] over a reason text.
pub open spec fn server_stop(f: Option<Seq<char>>) -> StopReason {
    if f == Some("length"@) || f == Some("max_tokens"@) {
        StopReason::MaxTokens
    } else if f == Some("stop_sequence"@) {
        StopReason::StopSequence
    } else if f == Some("tool_calls"@) {
        StopReason::ToolUse
    } else {
        StopReason::EndTurn
    }
}

fn make_chunk(text: String, finish: Option<String>, tokens: &mut u32, stop: StopReason) -> (r: Option<StreamChunk>)
    requires
        *old(tokens) < u32::MAX,
    ensures
        match chunk_of(text@, opt_str(finish), *old(tokens), stop) {
            Some((t, fin, n, s)) => r matches Some(c) && chunk_view(c) == (t, fin, Some(n), s) && *final(tokens) == n,
            None => r is None && *final(tokens) == *old(tokens),
        },
{
    if text.as_str().is_empty() && finish.is_none() {
        return None;
    }
    let is_final = finish.is_some();
    if !text.as_str().is_empty() {
        *tokens = *tokens + 1;
    }
    let stop_reason = if is_final { Some(stop) } else { None };
    Some(StreamChunk { text, is_final, token_count: Some(*tokens), stop_reason })
}

/// One line of a llama-server stream: a chunk with text or a finish reason,
/// the final chunk for `[DONE]`, and `None` for anything else. `tokens`
/// counts the chunks with text so far.
pub fn server_sse_line(line: &str, tokens: &mut u32) -> (r: Option<StreamChunk>)
    requires
        *old(tokens) < u32::MAX,
    ensures
        match server_line_spec(line@, *old(tokens)) {
            Some((t, fin, n, s)) => r matches Some(c) && chunk_view(c) == (t, fin, Some(n), s) && *final(tokens) == n,
            None => r is None && *final(tokens) == *old(tokens),
        },
{
    proof {
        reveal_strlit("[DONE]");
        reveal_strlit("choices");
    }
    let data = match sse_data_of(line) {
        Some(d) => d,
        None => return None,
    };
    if chars_eq_str(data.as_slice(), "[DONE]") {
        return Some(StreamChunk {
            text: String::new(),
            is_final: true,
            token_count: Some(*tokens),
            stop_reason: Some(StopReason::EndTurn),
        });
    }
    let ds = string_of(data.as_slice());
    let doc = match parse_json(ds.as_str()) {
        Some(d) => d,
        None => return None,
    };
    match &doc {
        JsonNode::Object(_) => {},
        _ => return None,
    }
    let items = match get_member(&doc, "choices") {
        Some(JsonNode::Array(items)) => items,
        _ => return None,
    };
    if items.len() == 0 || !readable_choices(items) {
        return None;
    }
    let (t, f) = match read_chunk_choice(&items[0]) {
        Some(tf) => tf,
        None => return None,
    };
    let text = match t {
        Some(x) => x,
        None => String::new(),
    };
    let stop = server_map_finish_reason(&f);
    make_chunk(text, f, tokens, stop)
}

} // verus!

verus! {

// ---------------------------------------------------------------------------
// Anthropic
// ---------------------------------------------------------------------------

/// [`anthropic_map_stop_reason`] over a reason text.
pub open spec fn anthropic_stop(f: Option<Seq<char>>) -> StopReason {
    if f == Some("max_tokens"@) {
        StopReason::MaxTokens
    } else if f == Some("stop_sequence"@) {
        StopReason::StopSequence
    } else {
        StopReason::EndTurn
    }
}

/// A streamed Anthropic event: its type, its delta (text and stop reason)
/// when present, and the output token count of its usage when present.
pub open spec fn anthropic_event(doc: JsonNode) -> Option<(Seq<char>, Option<(Option<Seq<char>>, Option<Seq<char>>)>, Option<u64>)> {
    match doc {
        JsonNode::Object(_) => {
            let ty = req_text(member(doc, "type"@));
            let delta: Option<Option<(Option<Seq<char>>, Option<Seq<char>>)>> = match member(doc, "delta"@) {
                None => Some(None),
                Some(JsonNode::Null) => Some(None),
                Some(d) => match d {
                    JsonNode::Object(_) => match (
                        opt_text(member(d, "type"@)),
                        opt_text(member(d, "text"@)),
                        opt_text(member(d, "stop_reason"@)),
                    ) {
                        (Some(_), Some(t), Some(s)) => Some(Some((t, s))),
                        _ => None,
                    },
                    _ => None,
                },
            };
            let message_ok = match member(doc, "message"@) {
                None => true,
                Some(JsonNode::Null) => true,
                Some(m) => match m {
                    JsonNode::Object(_) => opt_text(member(m, "model"@)) is Some,
                    _ => false,
                },
            };
            let usage: Option<Option<u64>> = match member(doc, "usage"@) {
                None => Some(None),
                Some(JsonNode::Null) => Some(None),
                Some(u) => match u {
                    JsonNode::Object(_) => match (opt_u64(member(u, "input_tokens"@)), opt_u64(member(u, "output_tokens"@))) {
                        (Some(_), Some(o)) => Some(o),
                        _ => None,
                    },
                    _ => None,
                },
            };
            match (ty, delta, usage) {
                (Some(t), Some(d), Some(o)) => if message_ok { Some((t, d, o)) } else { None },
                _ => None,
            }
        },
        _ => None,
    }
}

/// What an Anthropic streaming line gives, with the running token count
/// before it: text deltas count one each; a message delta reports the
/// authoritative output count when it has one.
pub open spec fn anthropic_line_spec(line: Seq<char>, tokens: u32) -> Option<(Seq<char>, bool, u32, Option<StopReason>)> {
    match sse_data(line) {
        None => None,
        Some(data) => match json_document(data) {
            None => None,
            Some(doc) => match anthropic_event(doc) {
                None => None,
                Some((ty, delta, output)) => if ty == "content_block_delta"@ {
                    match delta {
                        None => None,
                        Some((t, _)) => {
                            let text = match t { Some(x) => x, None => Seq::empty() };
                            if text.len() == 0 {
                                None
                            } else {
                                Some((text, false, (tokens + 1) as u32, None))
                            }
                        },
                    }
                } else if ty == "message_delta"@ {
                    let stop = match delta { Some((_, s)) => s, None => None };
                    let n = match output { Some(o) => o as u32, None => tokens };
                    Some((Seq::empty(), true, n, Some(anthropic_stop(stop))))
                } else if ty == "message_stop"@ {
                    Some((Seq::empty(), true, tokens, Some(StopReason::EndTurn)))
                } else {
                    None
                },
            },
        },
    }
}

fn read_anthropic_event(doc: &JsonNode) -> (r: Option<(String, Option<(Option<String>, Option<String>)>, Option<u64>)>)
    ensures
        match r {
            Some((t, d, o)) => anthropic_event(*doc) == Some((t@, match d {
                Some((x, y)) => Some((opt_str(x), opt_str(y))),
                None => None,
            }, o)),
            None => anthropic_event(*doc) is None,
        },
{
    proof {
        reveal_strlit("type");
        reveal_strlit("delta");
        reveal_strlit("text");
        reveal_strlit("stop_reason");
        reveal_strlit("message");
        reveal_strlit("model");
        reveal_strlit("usage");
        reveal_strlit("input_tokens");
        reveal_strlit("output_tokens");
    }
    match doc {
        JsonNode::Object(_) => {},
        _ => return None,
    }
    let ty = match get_member(doc, "type") {
        Some(JsonNode::Text(s)) => s.clone(),
        _ => return None,
    };
    let delta: Option<(Option<String>, Option<String>)> = match get_member(doc, "delta") {
        None => None,
        Some(JsonNode::Null) => None,
        Some(d) => match d {
            JsonNode::Object(_) => {
                if read_opt_text(get_member(d, "type")).is_none() {
                    return None;
                }
                let t = match read_opt_text(get_member(d, "text")) {
                    Some(t) => t,
                    None => return None,
                };
                let s = match read_opt_text(get_member(d, "stop_reason")) {
                    Some(s) => s,
                    None => return None,
                };
                Some((t, s))
            },
            _ => return None,
        },
    };
    match get_member(doc, "message") {
        None => {},
        Some(JsonNode::Null) => {},
        Some(m) => match m {
            JsonNode::Object(_) => {
                if read_opt_text(get_member(m, "model")).is_none() {
                    return None;
                }
            },
            _ => return None,
        },
    }
    let output: Option<u64> = match get_member(doc, "usage") {
        None => None,
        Some(JsonNode::Null) => None,
        Some(u) => match u {
            JsonNode::Object(_) => {
                if read_opt_u64(get_member(u, "input_tokens")).is_none() {
                    return None;
                }
                match read_opt_u64(get_member(u, "output_tokens")) {
                    Some(o) => o,
                    None => return None,
                }
            },
            _ => return None,
        },
    };
    Some((ty, delta, output))
}

/// One line of an Anthropic stream (see [`anthropic_line_spec`]); `tokens`
/// is the running count.
pub fn anthropic_sse_line(line: &str, tokens: &mut u32) -> (r: Option<StreamChunk>)
    requires
        *old(tokens) < u32::MAX,
    ensures
        match anthropic_line_spec(line@, *old(tokens)) {
            Some((t, fin, n, s)) => r matches Some(c) && chunk_view(c) == (t, fin, Some(n), s) && *final(tokens) == n,
            None => r is None && *final(tokens) == *old(tokens),
        },
{
    proof {
        reveal_strlit("content_block_delta");
        reveal_strlit("message_delta");
        reveal_strlit("message_stop");
    }
    let data = match sse_data_of(line) {
        Some(d) => d,
        None => return None,
    };
    let ds = string_of(data.as_slice());
    let doc = match parse_json(ds.as_str()) {
        Some(d) => d,
        None => return None,
    };
    let (ty, delta, output) = match read_anthropic_event(&doc) {
        Some(e) => e,
        None => return None,
    };
    let tc = chars_of(ty.as_str());
    if chars_eq_str(tc.as_slice(), "content_block_delta") {
        let text = match delta {
            None => return None,
            Some((t, _)) => match t {
                Some(x) => x,
                None => String::new(),
            },
        };
        if text.as_str().is_empty() {
            return None;
        }
        *tokens = *tokens + 1;
        Some(StreamChunk { text, is_final: false, token_count: Some(*tokens), stop_reason: None })
    } else if chars_eq_str(tc.as_slice(), "message_delta") {
        let stop = match delta {
            Some((_, s)) => s,
            None => None,
        };
        match output {
            Some(o) => {
                *tokens = o as u32;
            },
            None => {},
        }
        let sr = anthropic_map_stop_reason(&stop);
        Some(StreamChunk { text: String::new(), is_final: true, token_count: Some(*tokens), stop_reason: Some(sr) })
    } else if chars_eq_str(tc.as_slice(), "message_stop") {
        Some(StreamChunk {
            text: String::new(),
            is_final: true,
            token_count: Some(*tokens),
            stop_reason: Some(StopReason::EndTurn),
        })
    } else {
        None
    }
}

/// Largest reply requested from Anthropic when the request names none.
pub const ANTHROPIC_DEFAULT_MAX_TOKENS: u32 = 4096;

/// The conversation turns sent to Anthropic: every non-system message, with
/// its Anthropic role.
pub open spec fn anthropic_turns_spec(ms: Seq<Message>) -> Seq<(Seq<char>, Seq<char>)>
    decreases ms.len(),
{
    if ms.len() == 0 {
        Seq::empty()
    } else {
        let rest = anthropic_turns_spec(ms.drop_last());
        let m = ms.last();
        if m.role == Role::System {
            rest
        } else {
            rest.push((if m.role == Role::Assistant { "assistant"@ } else { "user"@ }, m.content@))
        }
    }
}

/// The non-empty contents of the system messages, in order.
pub open spec fn system_parts(ms: Seq<Message>) -> Seq<Seq<char>>
    decreases ms.len(),
{
    if ms.len() == 0 {
        Seq::empty()
    } else {
        let rest = system_parts(ms.drop_last());
        let m = ms.last();
        if m.role == Role::System && m.content@.len() > 0 {
            rest.push(m.content@)
        } else {
            rest
        }
    }
}

/// `parts` joined with a blank line between each.
pub open spec fn join_blank(parts: Seq<Seq<char>>) -> Seq<char>
    decreases parts.len(),
{
    if parts.len() == 0 {
        Seq::empty()
    } else if parts.len() == 1 {
        parts[0]
    } else {
        join_blank(parts.drop_last()) + seq!['\n', '\n'] + parts.last()
    }
}

/// The Anthropic `system` field: the request's system prompt, else the
/// non-empty system messages joined with blank lines, else none.
pub open spec fn anthropic_system_spec(system_prompt: Option<Seq<char>>, ms: Seq<Message>) -> Option<Seq<char>> {
    match system_prompt {
        Some(s) => Some(s),
        None => if system_parts(ms).len() == 0 {
            None
        } else {
            Some(join_blank(system_parts(ms)))
        },
    }
}

pub open spec fn turn_views(v: Seq<(String, String)>) -> Seq<(Seq<char>, Seq<char>)> {
    v.map_values(|t: (String, String)| (t.0@, t.1@))
}

/// The turns of an Anthropic request (see [`anthropic_turns_spec`]).
pub fn anthropic_turns(messages: &Vec<Message>) -> (r: Vec<(String, String)>)
    ensures
        turn_views(r@) == anthropic_turns_spec(messages@),
{
    let mut r: Vec<(String, String)> = Vec::new();
    let mut i: usize = 0;
    assert(messages@.subrange(0, 0) =~= Seq::<Message>::empty());
    while i < messages.len()
        invariant
            i <= messages.len(),
            turn_views(r@) == anthropic_turns_spec(messages@.subrange(0, i as int)),
        decreases messages.len() - i,
    {
        let ghost before = r@;
        let m = &messages[i];
        if m.role != Role::System {
            let role = anthropic_map_role(&m.role);
            r.push((role.to_string(), m.content.clone()));
        }
        proof {
            let s = messages@.subrange(0, i + 1);
            assert(s.drop_last() =~= messages@.subrange(0, i as int));
            assert(s.last() == messages@[i as int]);
            assert(turn_views(r@) =~= anthropic_turns_spec(s));
        }
        i += 1;
    }
    assert(messages@.subrange(0, messages.len() as int) =~= messages@);
    r
}

/// The Anthropic `system` field (see [`anthropic_system_spec`]).
pub fn anthropic_system(system_prompt: &Option<String>, messages: &Vec<Message>) -> (r: Option<String>)
    ensures
        opt_str(r) == anthropic_system_spec(opt_str(*system_prompt), messages@),
{
    match system_prompt {
        Some(s) => return Some(s.clone()),
        None => {},
    }
    let mut out: Vec<char> = Vec::new();
    let mut count: usize = 0;
    let mut i: usize = 0;
    assert(messages@.subrange(0, 0) =~= Seq::<Message>::empty());
    while i < messages.len()
        invariant
            i <= messages.len(),
            count <= i,
            count == system_parts(messages@.subrange(0, i as int)).len(),
            out@ == join_blank(system_parts(messages@.subrange(0, i as int))),
        decreases messages.len() - i,
    {
        let m = &messages[i];
        proof {
            let s = messages@.subrange(0, i + 1);
            assert(s.drop_last() =~= messages@.subrange(0, i as int));
            assert(s.last() == messages@[i as int]);
        }
        let ghost prev_parts = system_parts(messages@.subrange(0, i as int));
        let ghost prev_out = out@;
        if m.role == Role::System && !m.content.as_str().is_empty() {
            if count > 0 {
                out.push('\n');
                out.push('\n');
            }
            let mut c = chars_of(m.content.as_str());
            out.append(&mut c);
            count = count + 1;
            proof {
                let s = messages@.subrange(0, i + 1);
                let np = prev_parts.push(m.content@);
                assert(system_parts(s) == np);
                assert(np.drop_last() =~= prev_parts);
                if prev_parts.len() == 0 {
                    assert(out@ =~= m.content@);
                } else {
                    assert(out@ =~= prev_out + seq!['\n', '\n'] + m.content@);
                }
            }
        }
        i += 1;
    }
    assert(messages@.subrange(0, messages.len() as int) =~= messages@);
    if count == 0 {
        None
    } else {
        Some(string_of(out.as_slice()))
    }
}

} // verus!

verus! {

// ---------------------------------------------------------------------------
// Gemini
// ---------------------------------------------------------------------------

/// [`gemini_map_finish_reason`] over a reason text.
pub open spec fn gemini_stop(f: Option<Seq<char>>) -> StopReason {
    if f == Some("MAX_TOKENS"@) {
        StopReason::MaxTokens
    } else if f == Some("STOP_SEQUENCE"@) {
        StopReason::StopSequence
    } else {
        StopReason::EndTurn
    }
}

/// The text of one content part (a required string).
pub open spec fn part_text(p: JsonNode) -> Option<Seq<char>> {
    match p {
        JsonNode::Object(_) => req_text(member(p, "text"@)),
        _ => None,
    }
}

/// The texts of the first `n` parts, when all can be read.
pub open spec fn part_texts(items: Seq<JsonNode>, n: int) -> Option<Seq<Seq<char>>>
    decreases n,
{
    if n <= 0 {
        Some(Seq::empty())
    } else {
        match (part_texts(items, n - 1), part_text(items[n - 1])) {
            (Some(p), Some(t)) => Some(p.push(t)),
            _ => None,
        }
    }
}

/// A content record: a role text and an array of parts.
pub open spec fn content_texts(c: JsonNode) -> Option<Seq<Seq<char>>> {
    match c {
        JsonNode::Object(_) => if req_text(member(c, "role"@)) is Some {
            match member(c, "parts"@) {
                Some(JsonNode::Array(items)) => part_texts(items@, items@.len() as int),
                _ => None,
            }
        } else {
            None
        },
        _ => None,
    }
}

/// A candidate: its content's part texts (when it has content) and its
/// finish reason.
pub open spec fn candidate_spec(c: JsonNode) -> Option<(Option<Seq<Seq<char>>>, Option<Seq<char>>)> {
    match c {
        JsonNode::Object(_) => {
            let content: Option<Option<Seq<Seq<char>>>> = match member(c, "content"@) {
                None => Some(None),
                Some(JsonNode::Null) => Some(None),
                Some(x) => match content_texts(x) {
                    Some(t) => Some(Some(t)),
                    None => None,
                },
            };
            match (content, opt_text(member(c, "finishReason"@))) {
                (Some(t), Some(f)) => Some((t, f)),
                _ => None,
            }
        },
        _ => None,
    }
}

/// Whether the first `n` candidates can all be read.
pub open spec fn candidates_readable(items: Seq<JsonNode>, n: int) -> bool
    decreases n,
{
    n <= 0 || (candidates_readable(items, n - 1) && candidate_spec(items[n - 1]) is Some)
}

/// The texts joined with nothing between them.
pub open spec fn concat_all(parts: Seq<Seq<char>>) -> Seq<char>
    decreases parts.len(),
{
    if parts.len() == 0 {
        Seq::empty()
    } else {
        concat_all(parts.drop_last()) + parts.last()
    }
}

/// A Gemini reply: the text of the first candidate (its parts joined), the
/// first candidate's finish reason, the prompt and candidate token counts,
/// and the model version.
pub struct GeminiReplySpec {
    pub text: Seq<char>,
    pub finish: Option<Seq<char>>,
    pub prompt_tokens: Option<u64>,
    pub candidates_tokens: Option<u64>,
    pub model_version: Option<Seq<char>>,
}

pub open spec fn gemini_reply_spec(doc: JsonNode) -> Option<GeminiReplySpec> {
    match doc {
        JsonNode::Object(_) => {
            let first: Option<Option<(Option<Seq<Seq<char>>>, Option<Seq<char>>)>> = match member(doc, "candidates"@) {
                None => Some(None),
                Some(JsonNode::Null) => Some(None),
                Some(JsonNode::Array(items)) => if candidates_readable(items@, items@.len() as int) {
                    if items@.len() == 0 {
                        Some(None)
                    } else {
                        Some(candidate_spec(items@[0]))
                    }
                } else {
                    None
                },
                _ => None,
            };
            let usage: Option<(Option<u64>, Option<u64>)> = match member(doc, "usageMetadata"@) {
                None => Some((None, None)),
                Some(JsonNode::Null) => Some((None, None)),
                Some(u) => match u {
                    JsonNode::Object(_) => match (
                        opt_u64(member(u, "promptTokenCount"@)),
                        opt_u64(member(u, "candidatesTokenCount"@)),
                    ) {
                        (Some(p), Some(c)) => Some((p, c)),
                        _ => None,
                    },
                    _ => None,
                },
            };
            match (first, usage, opt_text(member(doc, "modelVersion"@))) {
                (Some(f), Some((p, c)), Some(m)) => Some(GeminiReplySpec {
                    text: match f {
                        Some((Some(parts), _)) => concat_all(parts),
                        _ => Seq::empty(),
                    },
                    finish: match f {
                        Some((_, fr)) => fr,
                        None => None,
                    },
                    prompt_tokens: p,
                    candidates_tokens: c,
                    model_version: m,
                }),
                _ => None,
            }
        },
        _ => None,
    }
}

/// A Gemini reply as read (see [`gemini_reply_spec`]).
pub struct GeminiReply {
    pub text: String,
    pub finish: Option<String>,
    pub prompt_tokens: Option<u64>,
    pub candidates_tokens: Option<u64>,
    pub model_version: Option<String>,
}

pub open spec fn gemini_reply_view(r: GeminiReply) -> GeminiReplySpec {
    GeminiReplySpec {
        text: r.text@,
        finish: opt_str(r.finish),
        prompt_tokens: r.prompt_tokens,
        candidates_tokens: r.candidates_tokens,
        model_version: opt_str(r.model_version),
    }
}

fn read_part_texts(items: &Vec<JsonNode>) -> (r: Option<Vec<char>>)
    ensures
        match r {
            Some(t) => part_texts(items@, items@.len() as int) matches Some(p) && t@ == concat_all(p),
            None => part_texts(items@, items@.len() as int) is None,
        },
{
    proof {
        reveal_strlit("text");
    }
    let mut out: Vec<char> = Vec::new();
    let mut i: usize = 0;
    let ghost mut acc: Seq<Seq<char>> = Seq::empty();
    while i < items.len()
        invariant
            i <= items.len(),
            part_texts(items@, i as int) == Some(acc),
            out@ == concat_all(acc),
        decreases items.len() - i,
    {
        let p = &items[i];
        let t = match p {
            JsonNode::Object(_) => match get_member(p, "text") {
                Some(JsonNode::Text(s)) => s,
                _ => {
                    proof {
                        lemma_parts_unreadable(items@, i as int, items@.len() as int);
                    }
                    return None;
                },
            },
            _ => {
                proof {
                    lemma_parts_unreadable(items@, i as int, items@.len() as int);
                }
                return None;
            },
        };
        let mut c = chars_of(t.as_str());
        out.append(&mut c);
        proof {
            let next = acc.push(t@);
            assert(next.drop_last() =~= acc);
            acc = next;
        }
        i += 1;
    }
    Some(out)
}

proof fn lemma_parts_unreadable(items: Seq<JsonNode>, i: int, n: int)
    requires
        0 <= i < n,
        part_text(items[i]) is None,
    ensures
        part_texts(items, n) is None,
    decreases n,
{
    if n > i + 1 {
        lemma_parts_unreadable(items, i, n - 1);
    }
}

fn read_candidate(c: &JsonNode) -> (r: Option<(Option<Vec<char>>, Option<String>)>)
    ensures
        match r {
            Some((t, f)) => candidate_spec(*c) matches Some((ct, cf)) && cf == opt_str(f) && match t {
                Some(x) => ct matches Some(p) && x@ == concat_all(p),
                None => ct is None,
            },
            None => candidate_spec(*c) is None,
        },
{
    proof {
        reveal_strlit("content");
        reveal_strlit("role");
        reveal_strlit("parts");
        reveal_strlit("finishReason");
    }
    match c {
        JsonNode::Object(_) => {},
        _ => return None,
    }
    let content: Option<Vec<char>> = match get_member(c, "content") {
        None => None,
        Some(JsonNode::Null) => None,
        Some(x) => {
            match x {
                JsonNode::Object(_) => {},
                _ => return None,
            }
            match get_member(x, "role") {
                Some(JsonNode::Text(_)) => {},
                _ => return None,
            }
            match get_member(x, "parts") {
                Some(JsonNode::Array(items)) => match read_part_texts(items) {
                    Some(t) => Some(t),
                    None => return None,
                },
                _ => return None,
            }
        },
    };
    let finish = match read_opt_text(get_member(c, "finishReason")) {
        Some(f) => f,
        None => return None,
    };
    Some((content, finish))
}

proof fn lemma_candidates_unreadable(items: Seq<JsonNode>, i: int, n: int)
    requires
        0 <= i < n,
        candidate_spec(items[i]) is None,
    ensures
        !candidates_readable(items, n),
    decreases n,
{
    if n > i + 1 {
        lemma_candidates_unreadable(items, i, n - 1);
    }
}

fn all_candidates_readable(items: &Vec<JsonNode>) -> (r: bool)
    ensures
        r == candidates_readable(items@, items@.len() as int),
{
    let mut i: usize = 0;
    while i < items.len()
        invariant
            i <= items.len(),
            candidates_readable(items@, i as int),
        decreases items.len() - i,
    {
        if read_candidate(&items[i]).is_none() {
            proof {
                lemma_candidates_unreadable(items@, i as int, items@.len() as int);
            }
            return false;
        }
        i += 1;
    }
    true
}

proof fn lemma_candidates_readable_at(items: Seq<JsonNode>, i: int, n: int)
    requires
        0 <= i < n,
        candidates_readable(items, n),
    ensures
        candidate_spec(items[i]) is Some,
    decreases n,
{
    if n > i + 1 {
        lemma_candidates_readable_at(items, i, n - 1);
    }
}

/// Reads a Gemini reply document (see [`gemini_reply_spec`]).
pub fn read_gemini_reply(doc: &JsonNode) -> (r: Option<GeminiReply>)
    ensures
        match r {
            Some(g) => gemini_reply_spec(*doc) == Some(gemini_reply_view(g)),
            None => gemini_reply_spec(*doc) is None,
        },
{
    proof {
        reveal_strlit("candidates");
        reveal_strlit("usageMetadata");
        reveal_strlit("promptTokenCount");
        reveal_strlit("candidatesTokenCount");
        reveal_strlit("modelVersion");
    }
    match doc {
        JsonNode::Object(_) => {},
        _ => return None,
    }
    let first: Option<(Option<Vec<char>>, Option<String>)> = match get_member(doc, "candidates") {
        None => None,
        Some(JsonNode::Null) => None,
        Some(JsonNode::Array(items)) => {
            if !all_candidates_readable(items) {
                return None;
            }
            if items.len() == 0 {
                None
            } else {
                proof {
                    lemma_candidates_readable_at(items@, 0, items@.len() as int);
                }
                match read_candidate(&items[0]) {
                    Some(c) => Some(c),
                    None => return None,
                }
            }
        },
        _ => return None,
    };
    let (prompt_tokens, candidates_tokens) = match get_member(doc, "usageMetadata") {
        None => (None, None),
        Some(JsonNode::Null) => (None, None),
        Some(u) => match u {
            JsonNode::Object(_) => {
                let p = match read_opt_u64(get_member(u, "promptTokenCount")) {
                    Some(p) => p,
                    None => return None,
                };
                let c = match read_opt_u64(get_member(u, "candidatesTokenCount")) {
                    Some(c) => c,
                    None => return None,
                };
                (p, c)
            },
            _ => return None,
        },
    };
    let model_version = match read_opt_text(get_member(doc, "modelVersion")) {
        Some(m) => m,
        None => return None,
    };
    let (text, finish) = match first {
        Some((Some(t), f)) => (string_of(t.as_slice()), f),
        Some((None, f)) => (String::new(), f),
        None => (String::new(), None),
    };
    Some(GeminiReply { text, finish, prompt_tokens, candidates_tokens, model_version })
}

/// `s` without its leading commas (`trim_start_matches(',')`).
pub open spec fn strip_commas(s: Seq<char>) -> Seq<char>
    decreases s.len(),
{
    if s.len() > 0 && s[0] == ',' {
        strip_commas(s.drop_first())
    } else {
        s
    }
}

/// What a line of Gemini's streamed JSON array gives: blank lines and the
/// array's own brackets and commas are skipped; a reply with text or a
/// finish reason is a chunk.
pub open spec fn gemini_line_spec(line: Seq<char>, tokens: u32) -> Option<(Seq<char>, bool, u32, Option<StopReason>)> {
    let t = trim_ws(line);
    if t.len() == 0 || t == seq!['['] || t == seq![']'] || t == seq![','] {
        None
    } else {
        match json_document(strip_commas(t)) {
            None => None,
            Some(doc) => match gemini_reply_spec(doc) {
                None => None,
                Some(g) => chunk_of(g.text, g.finish, tokens, gemini_stop(g.finish)),
            },
        }
    }
}

/// One line of a Gemini stream (see [`gemini_line_spec`]); `tokens` is the
/// running count of text chunks.
pub fn gemini_stream_line(line: &str, tokens: &mut u32) -> (r: Option<StreamChunk>)
    requires
        *old(tokens) < u32::MAX,
    ensures
        match gemini_line_spec(line@, *old(tokens)) {
            Some((t, fin, n, s)) => r matches Some(c) && chunk_view(c) == (t, fin, Some(n), s) && *final(tokens) == n,
            None => r is None && *final(tokens) == *old(tokens),
        },
{
    let c = chars_of(line);
    let t = trim_chars(c.as_slice());
    if t.len() == 0 || (t.len() == 1 && (t[0] == '[' || t[0] == ']' || t[0] == ',')) {
        proof {
            if t.len() == 1 {
                assert(t@ =~= seq![t@[0]]);
            }
        }
        return None;
    }
    proof {
        if t.len() == 1 {
            assert(t@ != seq!['['] && t@ != seq![']'] && t@ != seq![',']);
        }
    }
    let mut k: usize = 0;
    assert(t@.subrange(0, t.len() as int) =~= t@);
    while k < t.len() && t[k] == ','
        invariant
            k <= t.len(),
            strip_commas(t@.subrange(k as int, t.len() as int)) == strip_commas(t@),
        decreases t.len() - k,
    {
        assert(t@.subrange(k as int, t.len() as int).drop_first() =~= t@.subrange(k + 1, t.len() as int));
        k += 1;
    }
    let rest = sub_chars(t.as_slice(), k, t.len());
    let rs = string_of(rest.as_slice());
    let doc = match parse_json(rs.as_str()) {
        Some(d) => d,
        None => return None,
    };
    let g = match read_gemini_reply(&doc) {
        Some(g) => g,
        None => return None,
    };
    let stop = gemini_map_finish_reason(&g.finish);
    make_chunk(g.text, g.finish, tokens, stop)
}

/// The turns sent to Gemini: every non-system message with its Gemini role.
pub open spec fn gemini_turns_spec(ms: Seq<Message>) -> Seq<(Seq<char>, Seq<char>)>
    decreases ms.len(),
{
    if ms.len() == 0 {
        Seq::empty()
    } else {
        let rest = gemini_turns_spec(ms.drop_last());
        let m = ms.last();
        if m.role == Role::System {
            rest
        } else {
            rest.push((if m.role == Role::Assistant { "model"@ } else { "user"@ }, m.content@))
        }
    }
}

/// The turns of a Gemini request (see [`gemini_turns_spec`]).
pub fn gemini_turns(messages: &Vec<Message>) -> (r: Vec<(String, String)>)
    ensures
        turn_views(r@) == gemini_turns_spec(messages@),
{
    let mut r: Vec<(String, String)> = Vec::new();
    let mut i: usize = 0;
    assert(messages@.subrange(0, 0) =~= Seq::<Message>::empty());
    while i < messages.len()
        invariant
            i <= messages.len(),
            turn_views(r@) == gemini_turns_spec(messages@.subrange(0, i as int)),
        decreases messages.len() - i,
    {
        let m = &messages[i];
        if m.role != Role::System {
            let role = gemini_map_role(&m.role);
            r.push((role.to_string(), m.content.clone()));
        }
        proof {
            let s = messages@.subrange(0, i + 1);
            assert(s.drop_last() =~= messages@.subrange(0, i as int));
            assert(s.last() == messages@[i as int]);
            assert(turn_views(r@) =~= gemini_turns_spec(s));
        }
        i += 1;
    }
    assert(messages@.subrange(0, messages.len() as int) =~= messages@);
    r
}

/// The content of the first system message, if any.
pub open spec fn first_system(ms: Seq<Message>) -> Option<Seq<char>>
    decreases ms.len(),
{
    if ms.len() == 0 {
        None
    } else if ms[0].role == Role::System {
        Some(ms[0].content@)
    } else {
        first_system(ms.drop_first())
    }
}

/// Gemini's system instruction: the request's system prompt, else the
/// first system message (even an empty one), else none.
pub fn gemini_system(system_prompt: &Option<String>, messages: &Vec<Message>) -> (r: Option<String>)
    ensures
        opt_str(r) == match opt_str(*system_prompt) {
            Some(s) => Some(s),
            None => first_system(messages@),
        },
{
    match system_prompt {
        Some(s) => return Some(s.clone()),
        None => {},
    }
    let mut i: usize = 0;
    assert(messages@.subrange(0, messages.len() as int) =~= messages@);
    while i < messages.len()
        invariant
            i <= messages.len(),
            first_system(messages@.subrange(i as int, messages.len() as int)) == first_system(messages@),
            system_prompt is None,
        decreases messages.len() - i,
    {
        assert(messages@.subrange(i as int, messages.len() as int).drop_first() =~= messages@.subrange(
            i + 1,
            messages.len() as int,
        ));
        if messages[i].role == Role::System {
            assert(messages@.subrange(i as int, messages.len() as int)[0] == messages@[i as int]);
            return Some(messages[i].content.clone());
        }
        i += 1;
    }
    None
}

} // verus!

verus! {

// ---------------------------------------------------------------------------
// HTTP error replies and health
// ---------------------------------------------------------------------------

/// The first 200 characters of `s`.
pub open spec fn head200(s: Seq<char>) -> Seq<char> {
    if s.len() <= 200 { s } else { s.subrange(0, 200) }
}

fn head_chars(s: &str) -> (r: String)
    ensures
        r@ == head200(s@),
{
    let c = chars_of(s);
    if c.len() <= 200 {
        string_of(c.as_slice())
    } else {
        string_of(sub_chars(c.as_slice(), 0, 200).as_slice())
    }
}

/// The `error.message` of an error body whose `error` object (when present)
/// has a text `message` and a text `type`; `None` when the body is not such
/// a record or has no message.
pub open spec fn anthropic_error_message(body: Seq<char>) -> Option<Seq<char>> {
    match json_document(body) {
        Some(doc) => match doc {
            JsonNode::Object(_) => match member(doc, "error"@) {
                Some(e) => match e {
                    JsonNode::Object(_) => match (opt_text(member(e, "message"@)), opt_text(member(e, "type"@))) {
                        (Some(m), Some(_)) => m,
                        _ => None,
                    },
                    _ => None,
                },
                None => None,
            },
            _ => None,
        },
        None => None,
    }
}

/// An error reply's message: the one the body states, else the start of
/// the body.
pub open spec fn error_text(stated: Option<Seq<char>>, body: Seq<char>) -> Seq<char> {
    match stated {
        Some(m) => m,
        None => head200(body),
    }
}

/// The error of a failed Anthropic request with HTTP status `status`
/// (shown as `status_text`) and reply `body`.
pub fn anthropic_http_error(status: u16, status_text: &str, body: &str) -> (e: crate::llm::LlmError)
    ensures
        status == 401 ==> (e matches crate::llm::LlmError::AuthFailed { provider } && provider@ == "anthropic"@),
        status == 429 ==> (e matches crate::llm::LlmError::RateLimited { retry_after } && retry_after is None),
        status == 529 || status == 503 ==> e is Overloaded,
        status != 401 && status != 429 && status != 529 && status != 503 ==> (e matches crate::llm::LlmError::Internal {
            message,
        } && message@ == "HTTP "@ + status_text@ + ": "@ + error_text(anthropic_error_message(body@), body@)),
{
    proof {
        reveal_strlit("anthropic");
    }
    if status == 401 {
        return crate::llm::LlmError::AuthFailed { provider: "anthropic".to_string() };
    }
    if status == 429 {
        return crate::llm::LlmError::RateLimited { retry_after: None };
    }
    if status == 529 || status == 503 {
        return crate::llm::LlmError::Overloaded;
    }
    let stated = stated_anthropic_message(body);
    let msg = match stated {
        Some(m) => m,
        None => head_chars(body),
    };
    crate::llm::LlmError::Internal { message: http_message(status_text, msg.as_str()) }
}

fn http_message(status_text: &str, msg: &str) -> (r: String)
    ensures
        r@ == "HTTP "@ + status_text@ + ": "@ + msg@,
{
    let mut v = chars_of("HTTP ");
    let mut a = chars_of(status_text);
    let mut b = chars_of(": ");
    let mut c = chars_of(msg);
    v.append(&mut a);
    v.append(&mut b);
    v.append(&mut c);
    string_of(v.as_slice())
}

fn stated_anthropic_message(body: &str) -> (r: Option<String>)
    ensures
        opt_str(r) == anthropic_error_message(body@),
{
    proof {
        reveal_strlit("error");
        reveal_strlit("message");
        reveal_strlit("type");
    }
    let doc = match parse_json(body) {
        Some(d) => d,
        None => return None,
    };
    match &doc {
        JsonNode::Object(_) => {},
        _ => return None,
    }
    let e = match get_member(&doc, "error") {
        Some(e) => e,
        None => return None,
    };
    match e {
        JsonNode::Object(_) => {},
        _ => return None,
    }
    let m = match read_opt_text(get_member(e, "message")) {
        Some(m) => m,
        None => return None,
    };
    if read_opt_text(get_member(e, "type")).is_none() {
        return None;
    }
    m
}

/// The `error.message` of a Gemini error body whose `error` object (when
/// present) has a text `message` and a `code` that fits 16 bits.
pub open spec fn gemini_error_message(body: Seq<char>) -> Option<Seq<char>> {
    match json_document(body) {
        Some(doc) => match doc {
            JsonNode::Object(_) => match member(doc, "error"@) {
                Some(e) => match e {
                    JsonNode::Object(_) => {
                        let code_ok = match opt_u64(member(e, "code"@)) {
                            Some(Some(c)) => c <= 65535,
                            Some(None) => true,
                            None => false,
                        };
                        match opt_text(member(e, "message"@)) {
                            Some(m) => if code_ok { m } else { None },
                            None => None,
                        }
                    },
                    _ => None,
                },
                None => None,
            },
            _ => None,
        },
        None => None,
    }
}

fn stated_gemini_message(body: &str) -> (r: Option<String>)
    ensures
        opt_str(r) == gemini_error_message(body@),
{
    proof {
        reveal_strlit("error");
        reveal_strlit("message");
        reveal_strlit("code");
    }
    let doc = match parse_json(body) {
        Some(d) => d,
        None => return None,
    };
    match &doc {
        JsonNode::Object(_) => {},
        _ => return None,
    }
    let e = match get_member(&doc, "error") {
        Some(e) => e,
        None => return None,
    };
    match e {
        JsonNode::Object(_) => {},
        _ => return None,
    }
    let code_ok = match read_opt_u64(get_member(e, "code")) {
        Some(Some(c)) => c <= 65535,
        Some(None) => true,
        None => false,
    };
    let m = match read_opt_text(get_member(e, "message")) {
        Some(m) => m,
        None => return None,
    };
    if code_ok { m } else { None }
}

/// The error of a failed Gemini request with HTTP status `status` (shown as
/// `status_text`) and reply `body`.
pub fn gemini_http_error(status: u16, status_text: &str, body: &str) -> (e: crate::llm::LlmError)
    ensures
        status == 400 ==> (e matches crate::llm::LlmError::InvalidRequest { message } && message@ == error_text(
            gemini_error_message(body@),
            body@,
        )),
        status == 401 || status == 403 ==> (e matches crate::llm::LlmError::AuthFailed { provider } && provider@
            == "google"@),
        status == 429 ==> (e matches crate::llm::LlmError::RateLimited { retry_after } && retry_after is None),
        status == 503 ==> e is Overloaded,
        status != 400 && status != 401 && status != 403 && status != 429 && status != 503 ==> (e matches crate::llm::LlmError::Internal {
            message,
        } && message@ == "HTTP "@ + status_text@ + ": "@ + error_text(gemini_error_message(body@), body@)),
{
    proof {
        reveal_strlit("google");
    }
    let stated = stated_gemini_message(body);
    let msg = match stated {
        Some(m) => m,
        None => head_chars(body),
    };
    if status == 400 {
        crate::llm::LlmError::InvalidRequest { message: msg }
    } else if status == 401 || status == 403 {
        crate::llm::LlmError::AuthFailed { provider: "google".to_string() }
    } else if status == 429 {
        crate::llm::LlmError::RateLimited { retry_after: None }
    } else if status == 503 {
        crate::llm::LlmError::Overloaded
    } else {
        crate::llm::LlmError::Internal { message: http_message(status_text, msg.as_str()) }
    }
}

/// The error of a failed llama-server request with HTTP status `status`
/// (shown as `status_text`) and reply `body`, for the provider `tag`.
pub fn server_http_error(status: u16, status_text: &str, body: &str, tag: &str) -> (e: crate::llm::LlmError)
    ensures
        status == 401 || status == 403 ==> (e matches crate::llm::LlmError::AuthFailed { provider } && provider@
            == tag@),
        status == 429 ==> (e matches crate::llm::LlmError::RateLimited { retry_after } && retry_after is None),
        status == 503 ==> e is Overloaded,
        status != 401 && status != 403 && status != 429 && status != 503 ==> (e matches crate::llm::LlmError::Internal {
            message,
        } && message@ == "HTTP "@ + status_text@ + ": "@ + body@),
{
    if status == 401 || status == 403 {
        crate::llm::LlmError::AuthFailed { provider: tag.to_string() }
    } else if status == 429 {
        crate::llm::LlmError::RateLimited { retry_after: None }
    } else if status == 503 {
        crate::llm::LlmError::Overloaded
    } else {
        crate::llm::LlmError::Internal { message: http_message(status_text, body) }
    }
}

/// What a health probe found.
#[derive(Debug, PartialEq, Eq)]
pub enum HealthVerdict {
    /// Serving requests.
    Ready,
    /// Loading its model.
    Loading,
    /// Rate limited.
    RateLimited,
    /// Failing, with a message; whether retrying may help.
    Failed { message: String, retryable: bool },
}

/// llama-server's health: a failed status is an error; a `status` of `ok`,
/// `ready` or none (or a body that is not a health record) is ready;
/// `loading model` or `loading` is loading; any other is an error.
pub fn server_health(success: bool, status_text: &str, body: &str) -> (r: HealthVerdict)
    ensures
        !success ==> (r matches HealthVerdict::Failed { message, retryable } && retryable && message@ == "HTTP "@
            + status_text@),
        success ==> match json_document(body@) {
            Some(doc) => match doc {
                JsonNode::Object(_) => match opt_text(member(doc, "status"@)) {
                    Some(Some(s)) => if s == "ok"@ || s == "ready"@ {
                        r is Ready
                    } else if s == "loading model"@ || s == "loading"@ {
                        r is Loading
                    } else {
                        r matches HealthVerdict::Failed { message, retryable } && retryable && message@ == s
                    },
                    _ => r is Ready,
                },
                _ => r is Ready,
            },
            None => r is Ready,
        },
{
    if !success {
        let mut v = chars_of("HTTP ");
        let mut a = chars_of(status_text);
        v.append(&mut a);
        return HealthVerdict::Failed { message: string_of(v.as_slice()), retryable: true };
    }
    proof {
        reveal_strlit("status");
    }
    let doc = match parse_json(body) {
        Some(d) => d,
        None => return HealthVerdict::Ready,
    };
    match &doc {
        JsonNode::Object(_) => {},
        _ => return HealthVerdict::Ready,
    }
    match read_opt_text(get_member(&doc, "status")) {
        Some(Some(s)) => {
            let c = chars_of(s.as_str());
            if chars_eq_str(c.as_slice(), "ok") || chars_eq_str(c.as_slice(), "ready") {
                HealthVerdict::Ready
            } else if chars_eq_str(c.as_slice(), "loading model") || chars_eq_str(c.as_slice(), "loading") {
                HealthVerdict::Loading
            } else {
                HealthVerdict::Failed { message: s, retryable: true }
            }
        },
        _ => HealthVerdict::Ready,
    }
}

/// Anthropic's health from the status of a one-token probe.
pub fn anthropic_health(status: u16) -> (r: HealthVerdict)
    ensures
        status == 200 ==> r is Ready,
        status == 401 ==> (r matches HealthVerdict::Failed { message, retryable } && !retryable && message@
            == "invalid API key"@),
        status == 429 ==> r is RateLimited,
        status == 529 || status == 503 ==> (r matches HealthVerdict::Failed { message, retryable } && retryable
            && message@ == "overloaded"@),
        status != 200 && status != 401 && status != 429 && status != 529 && status != 503 ==> (r matches HealthVerdict::Failed {
            message,
            retryable,
        } && retryable && message@ == "HTTP "@ + crate::text::decimal(status as nat)),
{
    if status == 200 {
        HealthVerdict::Ready
    } else if status == 401 {
        HealthVerdict::Failed { message: "invalid API key".to_string(), retryable: false }
    } else if status == 429 {
        HealthVerdict::RateLimited
    } else if status == 529 || status == 503 {
        HealthVerdict::Failed { message: "overloaded".to_string(), retryable: true }
    } else {
        let mut v = chars_of("HTTP ");
        let mut d = crate::text::decimal_chars(status as u64);
        v.append(&mut d);
        HealthVerdict::Failed { message: string_of(v.as_slice()), retryable: true }
    }
}

} // verus!

verus! {

// ---------------------------------------------------------------------------
// llama-server requests and replies
// ---------------------------------------------------------------------------

/// The messages sent to llama-server: the system prompt first when there
/// is one, then every message with its OpenAI role.
pub open spec fn server_messages_spec(system_prompt: Option<Seq<char>>, ms: Seq<Message>) -> Seq<(Seq<char>, Seq<char>)> {
    let first: Seq<(Seq<char>, Seq<char>)> = match system_prompt {
        Some(s) => seq![("system"@, s)],
        None => Seq::empty(),
    };
    first + ms.map_values(|m: Message| server_turn(m))
}

/// One message as sent to llama-server: its OpenAI role and its content.
pub open spec fn server_turn(m: Message) -> (Seq<char>, Seq<char>) {
    (match m.role {
        Role::System => "system"@,
        Role::User => "user"@,
        Role::Assistant => "assistant"@,
    }, m.content@)
}

/// The messages of a llama-server request (see [`server_messages_spec`]).
pub fn server_messages(system_prompt: &Option<String>, messages: &Vec<Message>) -> (r: Vec<(String, String)>)
    ensures
        turn_views(r@) == server_messages_spec(opt_str(*system_prompt), messages@),
{
    proof {
        reveal_strlit("system");
    }
    let mut r: Vec<(String, String)> = Vec::new();
    match system_prompt {
        Some(s) => r.push(("system".to_string(), s.clone())),
        None => {},
    }
    let ghost first = turn_views(r@);
    let mut i: usize = 0;
    while i < messages.len()
        invariant
            i <= messages.len(),
            turn_views(r@) == first + server_messages_spec(None, messages@.subrange(0, i as int)),
            first == server_messages_spec(opt_str(*system_prompt), Seq::empty()),
        decreases messages.len() - i,
    {
        let m = &messages[i];
        let role = server_map_role(&m.role);
        let ghost prev = turn_views(r@);
        r.push((role.to_string(), m.content.clone()));
        proof {
            assert(turn_views(r@) =~= prev.push(server_turn(messages@[i as int])));
            let a = messages@.subrange(0, i + 1);
            let b = messages@.subrange(0, i as int);
            assert(a.map_values(|m: Message| server_turn(m)) =~= b.map_values(|m: Message| server_turn(m)).push(
                server_turn(messages@[i as int]),
            ));
            assert(turn_views(r@) =~= first + server_messages_spec(None, messages@.subrange(0, i + 1)));
        }
        i += 1;
    }
    proof {
        assert(messages@.subrange(0, messages.len() as int) =~= messages@);
        assert(server_messages_spec(opt_str(*system_prompt), messages@) =~= first + server_messages_spec(None, messages@));
    }
    r
}

/// Log-probabilities are asked for (one candidate per token) only when the
/// reply is not streamed.
pub fn logprob_request(stream: bool) -> (r: (bool, u32))
    ensures
        r == (if stream { (false, 0u32) } else { (true, 1u32) }),
{
    if stream { (false, 0) } else { (true, 1) }
}

/// The GBNF grammar among the provider options: their `grammar` string.
pub fn server_grammar(options: &JsonNode) -> (r: Option<String>)
    ensures
        opt_str(r) == crate::json::json_text(member(*options, "grammar"@)),
{
    crate::json::member_text(options, "grammar")
}

/// A tool call the model asked for.
#[derive(Debug)]
pub struct ToolCall {
    pub id: String,
    pub name: String,
    pub arguments: JsonNode,
}

/// A reply's tool call can be read: an object with an optional text `id`
/// and a `function` object with a text `name` and some `arguments`.
pub open spec fn call_readable(c: JsonNode) -> bool {
    &&& c is Object
    &&& opt_text(member(c, "id"@)) is Some
    &&& match member(c, "function"@) {
        Some(f) => f is Object && req_text(member(f, "name"@)) is Some && member(f, "arguments"@) is Some,
        None => false,
    }
}

/// The tool call at position `idx`: its id (else `call_<idx>`), its name,
/// and its arguments, which when given as text are read as JSON (kept as
/// the text when that fails).
pub open spec fn call_spec(c: JsonNode, idx: nat) -> (Seq<char>, Seq<char>, JsonNode) {
    let f = member(c, "function"@).unwrap();
    let id = match opt_text(member(c, "id"@)) {
        Some(Some(x)) => x,
        _ => "call_"@ + crate::text::decimal(idx),
    };
    let args = match member(f, "arguments"@) {
        Some(JsonNode::Text(s)) => match json_document(s@) {
            Some(v) => v,
            None => JsonNode::Text(s),
        },
        Some(other) => other,
        None => JsonNode::Null,
    };
    (id, req_text(member(f, "name"@)).unwrap(), args)
}

/// Reads the tool call `c` at position `idx`, moving its arguments out.
pub fn tool_call_of(c: JsonNode, idx: u64) -> (r: ToolCall)
    requires
        call_readable(c),
    ensures
        (r.id@, r.name@, r.arguments) == call_spec(c, idx as nat),
{
    proof {
        reveal_strlit("id");
        reveal_strlit("function");
        reveal_strlit("name");
        reveal_strlit("arguments");
        reveal_strlit("call_");
    }
    let id = match read_opt_text(get_member(&c, "id")) {
        Some(Some(x)) => x,
        _ => {
            let mut v = chars_of("call_");
            let mut d = crate::text::decimal_chars(idx);
            v.append(&mut d);
            string_of(v.as_slice())
        },
    };
    let f = crate::json::take_member(c, "function").unwrap();
    let name = match get_member(&f, "name") {
        Some(JsonNode::Text(s)) => s.clone(),
        _ => String::new(),
    };
    let args = match crate::json::take_member(f, "arguments") {
        Some(JsonNode::Text(s)) => match parse_json(s.as_str()) {
            Some(v) => v,
            None => JsonNode::Text(s),
        },
        Some(other) => other,
        None => JsonNode::Null,
    };
    ToolCall { id, name, arguments: args }
}

} // verus!

verus! {

/// A reply choice's log-probabilities: absent, or an object whose optional
/// `content` array holds records with a numeric `logprob` (their number
/// texts).
pub open spec fn logprobs_spec(l: Option<JsonNode>) -> Option<Option<Seq<Seq<char>>>> {
    match l {
        None => Some(None),
        Some(JsonNode::Null) => Some(None),
        Some(x) => match x {
            JsonNode::Object(_) => match member(x, "content"@) {
                None => Some(Some(Seq::empty())),
                Some(JsonNode::Array(items)) => match logprob_texts(items@, items@.len() as int) {
                    Some(t) => Some(Some(t)),
                    None => None,
                },
                _ => None,
            },
            _ => None,
        },
    }
}

/// The number texts of the first `n` token records.
pub open spec fn logprob_texts(items: Seq<JsonNode>, n: int) -> Option<Seq<Seq<char>>>
    decreases n,
{
    if n <= 0 {
        Some(Seq::empty())
    } else {
        match (logprob_texts(items, n - 1), logprob_of(items[n - 1])) {
            (Some(p), Some(t)) => Some(p.push(t)),
            _ => None,
        }
    }
}

pub open spec fn logprob_of(t: JsonNode) -> Option<Seq<char>> {
    match t {
        JsonNode::Object(_) => match member(t, "logprob"@) {
            Some(JsonNode::Number { text, .. }) => Some(text@),
            _ => None,
        },
        _ => None,
    }
}

/// Whether the first `n` tool calls can be read.
pub open spec fn calls_readable(items: Seq<JsonNode>, n: int) -> bool
    decreases n,
{
    n <= 0 || (calls_readable(items, n - 1) && call_readable(items[n - 1]))
}

/// A reply choice: its message (content and tool calls), finish reason and
/// log-probabilities.
pub open spec fn choice_spec(c: JsonNode) -> Option<(Option<(Option<Seq<char>>, Option<Seq<JsonNode>>)>, Option<Seq<char>>, Option<Seq<Seq<char>>>)> {
    match c {
        JsonNode::Object(_) => {
            let message: Option<Option<(Option<Seq<char>>, Option<Seq<JsonNode>>)>> = match member(c, "message"@) {
                None => Some(None),
                Some(JsonNode::Null) => Some(None),
                Some(m) => match m {
                    JsonNode::Object(_) => {
                        let calls: Option<Option<Seq<JsonNode>>> = match member(m, "tool_calls"@) {
                            None => Some(None),
                            Some(JsonNode::Null) => Some(None),
                            Some(JsonNode::Array(items)) => if calls_readable(items@, items@.len() as int) {
                                Some(Some(items@))
                            } else {
                                None
                            },
                            _ => None,
                        };
                        match (opt_text(member(m, "content"@)), calls) {
                            (Some(t), Some(k)) => Some(Some((t, k))),
                            _ => None,
                        }
                    },
                    _ => None,
                },
            };
            match (message, opt_text(member(c, "finish_reason"@)), logprobs_spec(member(c, "logprobs"@))) {
                (Some(m), Some(f), Some(l)) => Some((m, f, l)),
                _ => None,
            }
        },
        _ => None,
    }
}

/// Whether the first `n` choices can be read.
pub open spec fn reply_choices_readable(items: Seq<JsonNode>, n: int) -> bool
    decreases n,
{
    n <= 0 || (reply_choices_readable(items, n - 1) && choice_spec(items[n - 1]) is Some)
}

/// The tool calls of a message, each with its position.
pub open spec fn calls_spec(items: Seq<JsonNode>) -> Seq<(Seq<char>, Seq<char>, JsonNode)> {
    Seq::new(items.len(), |i: int| call_spec(items[i], i as nat))
}

/// A llama-server completion as read from its reply.
#[derive(Debug)]
pub struct ServerReply {
    pub content: String,
    /// The tool calls requested, when there is at least one.
    pub tool_calls: Option<Vec<ToolCall>>,
    pub stop_reason: StopReason,
    pub tokens_in: u64,
    pub tokens_out: u64,
    pub model_used: String,
    /// The token log-probabilities of the first choice, as number texts.
    pub logprobs: Option<Vec<String>>,
}

/// What a llama-server completion reply holds.
#[derive(Debug)]
pub enum ReplyOutcome {
    /// The body is not a chat completion record.
    Unreadable,
    /// The record has no choice.
    NoChoices,
    Reply(ServerReply),
}

pub open spec fn call_views(v: Seq<ToolCall>) -> Seq<(Seq<char>, Seq<char>, JsonNode)> {
    v.map_values(|c: ToolCall| (c.id@, c.name@, c.arguments))
}

/// The reply record's usage (prompt and completion tokens) and model,
/// when they can be read.
pub open spec fn reply_meta(doc: JsonNode) -> Option<(Option<u64>, Option<u64>, Option<Seq<char>>)> {
    let usage: Option<(Option<u64>, Option<u64>)> = match member(doc, "usage"@) {
        None => Some((None, None)),
        Some(JsonNode::Null) => Some((None, None)),
        Some(u) => match u {
            JsonNode::Object(_) => match (opt_u64(member(u, "prompt_tokens"@)), opt_u64(member(u, "completion_tokens"@))) {
                (Some(p), Some(c)) => Some((p, c)),
                _ => None,
            },
            _ => None,
        },
    };
    match (usage, opt_text(member(doc, "model"@))) {
        (Some((p, c)), Some(m)) => Some((p, c, m)),
        _ => None,
    }
}

/// The choices of a readable reply record.
pub open spec fn reply_choices(doc: JsonNode) -> Option<Seq<JsonNode>> {
    match doc {
        JsonNode::Object(_) => match member(doc, "choices"@) {
            Some(JsonNode::Array(items)) => if reply_choices_readable(items@, items@.len() as int) && reply_meta(doc) is Some {
                Some(items@)
            } else {
                None
            },
            _ => None,
        },
        _ => None,
    }
}

fn read_logprobs(l: Option<&JsonNode>) -> (r: Option<Option<Vec<String>>>)
    ensures
        match r {
            Some(Some(v)) => logprobs_spec(deref_opt(l)) == Some(Some(v@.map_values(|s: String| s@))),
            Some(None) => logprobs_spec(deref_opt(l)) == Some(None::<Seq<Seq<char>>>),
            None => logprobs_spec(deref_opt(l)) is None,
        },
{
    proof {
        reveal_strlit("content");
        reveal_strlit("logprob");
    }
    let x = match l {
        None => return Some(None),
        Some(JsonNode::Null) => return Some(None),
        Some(x) => x,
    };
    match x {
        JsonNode::Object(_) => {},
        _ => return None,
    }
    let items = match get_member(x, "content") {
        None => {
            let v: Vec<String> = Vec::new();
            assert(v@.map_values(|s: String| s@) =~= Seq::<Seq<char>>::empty());
            return Some(Some(v));
        },
        Some(JsonNode::Array(items)) => items,
        _ => return None,
    };
    let mut out: Vec<String> = Vec::new();
    let mut i: usize = 0;
    while i < items.len()
        invariant
            i <= items.len(),
            logprob_texts(items@, i as int) == Some(out@.map_values(|s: String| s@)),
            deref_opt(l) == Some(*x),
            *x is Object,
            member(*x, "content"@) == Some(JsonNode::Array(*items)),
        decreases items.len() - i,
    {
        let t = &items[i];
        let text = match t {
            JsonNode::Object(_) => match get_member(t, "logprob") {
                Some(JsonNode::Number { text, .. }) => text.clone(),
                _ => {
                    proof {
                        lemma_logprobs_unreadable(items@, i as int, items@.len() as int);
                    }
                    return None;
                },
            },
            _ => {
                proof {
                    lemma_logprobs_unreadable(items@, i as int, items@.len() as int);
                }
                return None;
            },
        };
        let ghost before = out@;
        out.push(text);
        proof {
            assert(out@.map_values(|s: String| s@) =~= before.map_values(|s: String| s@).push(text@));
        }
        i += 1;
    }
    Some(Some(out))
}

proof fn lemma_logprobs_unreadable(items: Seq<JsonNode>, i: int, n: int)
    requires
        0 <= i < n,
        logprob_of(items[i]) is None,
    ensures
        logprob_texts(items, n) is None,
    decreases n,
{
    if n > i + 1 {
        lemma_logprobs_unreadable(items, i, n - 1);
    }
}

} // verus!

verus! {

/// [`ServerReply`] as plain values.
pub struct ServerReplySpec {
    pub content: Seq<char>,
    pub tool_calls: Option<Seq<(Seq<char>, Seq<char>, JsonNode)>>,
    pub stop_reason: StopReason,
    pub tokens_in: u64,
    pub tokens_out: u64,
    pub model_used: Seq<char>,
    pub logprobs: Option<Seq<Seq<char>>>,
}

pub enum ReplyOutcomeSpec {
    Unreadable,
    NoChoices,
    Reply(ServerReplySpec),
}

pub open spec fn reply_outcome_view(r: ReplyOutcome) -> ReplyOutcomeSpec {
    match r {
        ReplyOutcome::Unreadable => ReplyOutcomeSpec::Unreadable,
        ReplyOutcome::NoChoices => ReplyOutcomeSpec::NoChoices,
        ReplyOutcome::Reply(s) => ReplyOutcomeSpec::Reply(ServerReplySpec {
            content: s.content@,
            tool_calls: match s.tool_calls {
                Some(v) => Some(call_views(v@)),
                None => None,
            },
            stop_reason: s.stop_reason,
            tokens_in: s.tokens_in,
            tokens_out: s.tokens_out,
            model_used: s.model_used@,
            logprobs: match s.logprobs {
                Some(v) => Some(v@.map_values(|x: String| x@)),
                None => None,
            },
        }),
    }
}

/// What a llama-server completion reply says: the first choice's content
/// (empty when absent) and tool calls (only when there is at least one,
/// which also makes the stop reason a tool use), the token counts (0 when
/// absent), the model (else `default_model`) and the log-probabilities.
pub open spec fn server_reply_spec(body: Seq<char>, default_model: Seq<char>) -> ReplyOutcomeSpec {
    match json_document(body) {
        None => ReplyOutcomeSpec::Unreadable,
        Some(doc) => match reply_choices(doc) {
            None => ReplyOutcomeSpec::Unreadable,
            Some(items) => if items.len() == 0 {
                ReplyOutcomeSpec::NoChoices
            } else {
                let (msg, finish, lp) = choice_spec(items[0]).unwrap();
                let (p, c, m) = reply_meta(doc).unwrap();
                let content = match msg {
                    Some((Some(t), _)) => t,
                    _ => Seq::empty(),
                };
                let calls = match msg {
                    Some((_, Some(k))) => if k.len() > 0 { Some(calls_spec(k)) } else { None },
                    _ => None,
                };
                ReplyOutcomeSpec::Reply(ServerReplySpec {
                    content,
                    tool_calls: calls,
                    stop_reason: if calls is Some { StopReason::ToolUse } else { server_stop(finish) },
                    tokens_in: match p { Some(x) => x, None => 0 },
                    tokens_out: match c { Some(x) => x, None => 0 },
                    model_used: match m { Some(x) => x, None => default_model },
                    logprobs: lp,
                })
            },
        },
    }
}

fn check_call(c: &JsonNode) -> (r: bool)
    ensures
        r == call_readable(*c),
{
    proof {
        reveal_strlit("id");
        reveal_strlit("function");
        reveal_strlit("name");
        reveal_strlit("arguments");
    }
    match c {
        JsonNode::Object(_) => {},
        _ => return false,
    }
    if read_opt_text(get_member(c, "id")).is_none() {
        return false;
    }
    match get_member(c, "function") {
        Some(f) => match f {
            JsonNode::Object(_) => {
                let name_ok = match get_member(f, "name") {
                    Some(JsonNode::Text(_)) => true,
                    _ => false,
                };
                name_ok && get_member(f, "arguments").is_some()
            },
            _ => false,
        },
        None => false,
    }
}

proof fn lemma_calls_readable_at(items: Seq<JsonNode>, i: int, n: int)
    requires
        0 <= i < n,
        calls_readable(items, n),
    ensures
        call_readable(items[i]),
    decreases n,
{
    if n > i + 1 {
        lemma_calls_readable_at(items, i, n - 1);
    }
}

fn check_calls(items: &Vec<JsonNode>) -> (r: bool)
    ensures
        r == calls_readable(items@, items@.len() as int),
{
    let mut i: usize = 0;
    while i < items.len()
        invariant
            i <= items.len(),
            calls_readable(items@, i as int),
        decreases items.len() - i,
    {
        if !check_call(&items[i]) {
            proof {
                lemma_calls_unreadable(items@, i as int, items@.len() as int);
            }
            return false;
        }
        i += 1;
    }
    true
}

proof fn lemma_calls_unreadable(items: Seq<JsonNode>, i: int, n: int)
    requires
        0 <= i < n,
        !call_readable(items[i]),
    ensures
        !calls_readable(items, n),
    decreases n,
{
    if n > i + 1 {
        lemma_calls_unreadable(items, i, n - 1);
    }
}

fn check_choice(c: &JsonNode) -> (r: bool)
    ensures
        r == choice_spec(*c) is Some,
{
    proof {
        reveal_strlit("message");
        reveal_strlit("tool_calls");
        reveal_strlit("content");
        reveal_strlit("finish_reason");
        reveal_strlit("logprobs");
    }
    match c {
        JsonNode::Object(_) => {},
        _ => return false,
    }
    let msg_ok = match get_member(c, "message") {
        None => true,
        Some(JsonNode::Null) => true,
        Some(m) => match m {
            JsonNode::Object(_) => {
                let calls_ok = match get_member(m, "tool_calls") {
                    None => true,
                    Some(JsonNode::Null) => true,
                    Some(JsonNode::Array(items)) => check_calls(items),
                    _ => false,
                };
                read_opt_text(get_member(m, "content")).is_some() && calls_ok
            },
            _ => false,
        },
    };
    msg_ok && read_opt_text(get_member(c, "finish_reason")).is_some() && read_logprobs(get_member(c, "logprobs")).is_some()
}

proof fn lemma_reply_choices_unreadable(items: Seq<JsonNode>, i: int, n: int)
    requires
        0 <= i < n,
        choice_spec(items[i]) is None,
    ensures
        !reply_choices_readable(items, n),
    decreases n,
{
    if n > i + 1 {
        lemma_reply_choices_unreadable(items, i, n - 1);
    }
}

proof fn lemma_reply_choices_at(items: Seq<JsonNode>, i: int, n: int)
    requires
        0 <= i < n,
        reply_choices_readable(items, n),
    ensures
        choice_spec(items[i]) is Some,
    decreases n,
{
    if n > i + 1 {
        lemma_reply_choices_at(items, i, n - 1);
    }
}

fn check_choices(items: &Vec<JsonNode>) -> (r: bool)
    ensures
        r == reply_choices_readable(items@, items@.len() as int),
{
    let mut i: usize = 0;
    while i < items.len()
        invariant
            i <= items.len(),
            reply_choices_readable(items@, i as int),
        decreases items.len() - i,
    {
        if !check_choice(&items[i]) {
            proof {
                lemma_reply_choices_unreadable(items@, i as int, items@.len() as int);
            }
            return false;
        }
        i += 1;
    }
    true
}

fn read_meta(doc: &JsonNode) -> (r: Option<(Option<u64>, Option<u64>, Option<String>)>)
    ensures
        match r {
            Some((p, c, m)) => reply_meta(*doc) == Some((p, c, opt_str(m))),
            None => reply_meta(*doc) is None,
        },
{
    proof {
        reveal_strlit("usage");
        reveal_strlit("prompt_tokens");
        reveal_strlit("completion_tokens");
        reveal_strlit("model");
    }
    let (p, c) = match get_member(doc, "usage") {
        None => (None, None),
        Some(JsonNode::Null) => (None, None),
        Some(u) => match u {
            JsonNode::Object(_) => {
                let p = match read_opt_u64(get_member(u, "prompt_tokens")) {
                    Some(p) => p,
                    None => return None,
                };
                let c = match read_opt_u64(get_member(u, "completion_tokens")) {
                    Some(c) => c,
                    None => return None,
                };
                (p, c)
            },
            _ => return None,
        },
    };
    match read_opt_text(get_member(doc, "model")) {
        Some(m) => Some((p, c, m)),
        None => None,
    }
}

/// Reads a llama-server completion reply (see [`server_reply_spec`]).
pub fn read_server_reply(body: &str, default_model: &str) -> (r: ReplyOutcome)
    ensures
        reply_outcome_view(r) == server_reply_spec(body@, default_model@),
{
    proof {
        reveal_strlit("choices");
        reveal_strlit("message");
        reveal_strlit("tool_calls");
        reveal_strlit("content");
        reveal_strlit("finish_reason");
        reveal_strlit("logprobs");
    }
    let doc = match parse_json(body) {
        Some(d) => d,
        None => return ReplyOutcome::Unreadable,
    };
    match &doc {
        JsonNode::Object(_) => {},
        _ => return ReplyOutcome::Unreadable,
    }
    let n = match get_member(&doc, "choices") {
        Some(JsonNode::Array(items)) => {
            if !check_choices(items) {
                return ReplyOutcome::Unreadable;
            }
            items.len()
        },
        _ => return ReplyOutcome::Unreadable,
    };
    let (p, c, m) = match read_meta(&doc) {
        Some(x) => x,
        None => return ReplyOutcome::Unreadable,
    };
    if n == 0 {
        return ReplyOutcome::NoChoices;
    }
    let ghost d0 = doc;
    let mut items = match crate::json::take_member(doc, "choices") {
        Some(JsonNode::Array(items)) => items,
        _ => return ReplyOutcome::Unreadable,
    };
    let ghost all = items@;
    proof {
        lemma_reply_choices_at(all, 0, all.len() as int);
    }
    let c0 = items.remove(0);
    let finish = read_opt_text(get_member(&c0, "finish_reason")).unwrap();
    let logprobs = read_logprobs(get_member(&c0, "logprobs")).unwrap();
    let msg = crate::json::take_member(c0, "message");
    let (content, calls): (String, Option<Vec<ToolCall>>) = match msg {
        None => (String::new(), None),
        Some(JsonNode::Null) => (String::new(), None),
        Some(mnode) => {
            let content = match read_opt_text(get_member(&mnode, "content")) {
                Some(Some(t)) => t,
                _ => String::new(),
            };
            let ghost mn = mnode;
            let calls = match crate::json::take_member(mnode, "tool_calls") {
                Some(JsonNode::Array(mut cs)) => {
                    let ghost cs0 = cs@;
                    let total = cs.len();
                    let mut out: Vec<ToolCall> = Vec::new();
                    let mut k: usize = 0;
                    while k < total
                        invariant
                            k <= total == cs0.len(),
                            calls_readable(cs0, cs0.len() as int),
                            cs@ == cs0.subrange(k as int, cs0.len() as int),
                            call_views(out@) == calls_spec(cs0).subrange(0, k as int),
                        decreases total - k,
                    {
                        proof {
                            lemma_calls_readable_at(cs0, k as int, cs0.len() as int);
                        }
                        let call = cs.remove(0);
                        let ghost g = call;
                        assert(g == cs0[k as int]);
                        let ghost before = out@;
                        let tc = tool_call_of(call, k as u64);
                        out.push(tc);
                        proof {
                            assert(calls_spec(cs0)[k as int] == call_spec(cs0[k as int], k as nat));
                            assert(call_views(out@) =~= call_views(before).push(call_spec(g, k as nat)));
                            assert(cs@ =~= cs0.subrange(k + 1, cs0.len() as int));
                            assert(call_views(out@) =~= calls_spec(cs0).subrange(0, k + 1));
                        }
                        k += 1;
                    }
                    proof {
                        assert(calls_spec(cs0).subrange(0, total as int) =~= calls_spec(cs0));
                    }
                    if total == 0 {
                        None
                    } else {
                        Some(out)
                    }
                },
                _ => None,
            };
            (content, calls)
        },
    };
    let stop_reason = if calls.is_some() {
        StopReason::ToolUse
    } else {
        server_map_finish_reason(&finish)
    };
    let model_used = match m {
        Some(x) => x,
        None => default_model.to_string(),
    };
    ReplyOutcome::Reply(ServerReply {
        content,
        tool_calls: calls,
        stop_reason,
        tokens_in: match p { Some(x) => x, None => 0 },
        tokens_out: match c { Some(x) => x, None => 0 },
        model_used,
        logprobs,
    })
}

} // verus!

verus! {

/// Gemini's health from the status of a model lookup (`status_text` is
/// the status as shown).
pub fn gemini_health(status: u16, status_text: &str) -> (r: HealthVerdict)
    ensures
        status == 200 ==> r is Ready,
        status == 401 || status == 403 ==> (r matches HealthVerdict::Failed { message, retryable } && !retryable
            && message@ == "invalid API key"@),
        status == 429 ==> r is RateLimited,
        status != 200 && status != 401 && status != 403 && status != 429 ==> (r matches HealthVerdict::Failed {
            message,
            retryable,
        } && retryable && message@ == "HTTP "@ + status_text@),
{
    if status == 200 {
        HealthVerdict::Ready
    } else if status == 401 || status == 403 {
        HealthVerdict::Failed { message: "invalid API key".to_string(), retryable: false }
    } else if status == 429 {
        HealthVerdict::RateLimited
    } else {
        let mut v = chars_of("HTTP ");
        let mut a = chars_of(status_text);
        v.append(&mut a);
        HealthVerdict::Failed { message: string_of(v.as_slice()), retryable: true }
    }
}

// ---------------------------------------------------------------------------
// Anthropic replies
// ---------------------------------------------------------------------------

/// A content block: its type and its optional text.
pub open spec fn block_spec(b: JsonNode) -> Option<(Seq<char>, Option<Seq<char>>)> {
    match b {
        JsonNode::Object(_) => match (req_text(member(b, "type"@)), opt_text(member(b, "text"@))) {
            (Some(t), Some(x)) => Some((t, x)),
            _ => None,
        },
        _ => None,
    }
}

/// The joined texts of the `text` blocks among the first `n`, when all
/// blocks can be read.
pub open spec fn blocks_text(items: Seq<JsonNode>, n: int) -> Option<Seq<char>>
    decreases n,
{
    if n <= 0 {
        Some(Seq::empty())
    } else {
        match (blocks_text(items, n - 1), block_spec(items[n - 1])) {
            (Some(acc), Some((ty, t))) => Some(if ty == "text"@ {
                match t {
                    Some(x) => acc + x,
                    None => acc,
                }
            } else {
                acc
            }),
            _ => None,
        }
    }
}

/// An Anthropic completion: its text, token counts, model and stop reason.
pub struct AnthropicReplySpec {
    pub content: Seq<char>,
    pub tokens_in: u64,
    pub tokens_out: u64,
    pub model_used: Seq<char>,
    pub stop_reason: StopReason,
}

/// What an Anthropic completion reply says: the texts of its `text` blocks
/// joined, the token counts (0 when absent), the model (else
/// `default_model`) and the stop reason; `None` when the body is not a
/// messages record.
pub open spec fn anthropic_reply_spec(body: Seq<char>, default_model: Seq<char>) -> Option<AnthropicReplySpec> {
    match json_document(body) {
        Some(doc) => match doc {
            JsonNode::Object(_) => {
                let text = match member(doc, "content"@) {
                    Some(JsonNode::Array(items)) => blocks_text(items@, items@.len() as int),
                    _ => None,
                };
                let usage: Option<(Option<u64>, Option<u64>)> = match member(doc, "usage"@) {
                    None => Some((None, None)),
                    Some(JsonNode::Null) => Some((None, None)),
                    Some(u) => match u {
                        JsonNode::Object(_) => match (opt_u64(member(u, "input_tokens"@)), opt_u64(member(u, "output_tokens"@))) {
                            (Some(i), Some(o)) => Some((i, o)),
                            _ => None,
                        },
                        _ => None,
                    },
                };
                match (text, usage, opt_text(member(doc, "model"@)), opt_text(member(doc, "stop_reason"@))) {
                    (Some(t), Some((i, o)), Some(m), Some(s)) => Some(AnthropicReplySpec {
                        content: t,
                        tokens_in: match i { Some(x) => x, None => 0 },
                        tokens_out: match o { Some(x) => x, None => 0 },
                        model_used: match m { Some(x) => x, None => default_model },
                        stop_reason: anthropic_stop(s),
                    }),
                    _ => None,
                }
            },
            _ => None,
        },
        None => None,
    }
}

/// An Anthropic completion as read.
#[derive(Debug)]
pub struct AnthropicReply {
    pub content: String,
    pub tokens_in: u64,
    pub tokens_out: u64,
    pub model_used: String,
    pub stop_reason: StopReason,
}

proof fn lemma_blocks_unreadable(items: Seq<JsonNode>, i: int, n: int)
    requires
        0 <= i < n,
        block_spec(items[i]) is None,
    ensures
        blocks_text(items, n) is None,
    decreases n,
{
    if n > i + 1 {
        lemma_blocks_unreadable(items, i, n - 1);
    }
}

fn read_blocks(items: &Vec<JsonNode>) -> (r: Option<Vec<char>>)
    ensures
        match r {
            Some(t) => blocks_text(items@, items@.len() as int) == Some(t@),
            None => blocks_text(items@, items@.len() as int) is None,
        },
{
    proof {
        reveal_strlit("type");
        reveal_strlit("text");
    }
    let mut out: Vec<char> = Vec::new();
    let mut i: usize = 0;
    while i < items.len()
        invariant
            i <= items.len(),
            blocks_text(items@, i as int) == Some(out@),
        decreases items.len() - i,
    {
        let b = &items[i];
        let ok = match b {
            JsonNode::Object(_) => true,
            _ => false,
        };
        if !ok {
            proof {
                lemma_blocks_unreadable(items@, i as int, items@.len() as int);
            }
            return None;
        }
        let ty = match get_member(b, "type") {
            Some(JsonNode::Text(t)) => t,
            _ => {
                proof {
                    lemma_blocks_unreadable(items@, i as int, items@.len() as int);
                }
                return None;
            },
        };
        let text = match read_opt_text(get_member(b, "text")) {
            Some(t) => t,
            None => {
                proof {
                    lemma_blocks_unreadable(items@, i as int, items@.len() as int);
                }
                return None;
            },
        };
        let tc = chars_of(ty.as_str());
        if chars_eq_str(tc.as_slice(), "text") {
            match text {
                Some(x) => {
                    let mut xc = chars_of(x.as_str());
                    out.append(&mut xc);
                },
                None => {},
            }
        }
        i += 1;
    }
    Some(out)
}

/// Reads an Anthropic completion reply (see [`anthropic_reply_spec`]).
pub fn read_anthropic_reply(body: &str, default_model: &str) -> (r: Option<AnthropicReply>)
    ensures
        match r {
            Some(a) => anthropic_reply_spec(body@, default_model@) == Some(AnthropicReplySpec {
                content: a.content@,
                tokens_in: a.tokens_in,
                tokens_out: a.tokens_out,
                model_used: a.model_used@,
                stop_reason: a.stop_reason,
            }),
            None => anthropic_reply_spec(body@, default_model@) is None,
        },
{
    proof {
        reveal_strlit("content");
        reveal_strlit("usage");
        reveal_strlit("input_tokens");
        reveal_strlit("output_tokens");
        reveal_strlit("model");
        reveal_strlit("stop_reason");
    }
    let doc = match parse_json(body) {
        Some(d) => d,
        None => return None,
    };
    match &doc {
        JsonNode::Object(_) => {},
        _ => return None,
    }
    let text = match get_member(&doc, "content") {
        Some(JsonNode::Array(items)) => match read_blocks(items) {
            Some(t) => t,
            None => return None,
        },
        _ => return None,
    };
    let (i, o) = match get_member(&doc, "usage") {
        None => (None, None),
        Some(JsonNode::Null) => (None, None),
        Some(u) => match u {
            JsonNode::Object(_) => {
                let i = match read_opt_u64(get_member(u, "input_tokens")) {
                    Some(x) => x,
                    None => return None,
                };
                let o = match read_opt_u64(get_member(u, "output_tokens")) {
                    Some(x) => x,
                    None => return None,
                };
                (i, o)
            },
            _ => return None,
        },
    };
    let m = match read_opt_text(get_member(&doc, "model")) {
        Some(m) => m,
        None => return None,
    };
    let s = match read_opt_text(get_member(&doc, "stop_reason")) {
        Some(s) => s,
        None => return None,
    };
    let stop_reason = anthropic_map_stop_reason(&s);
    Some(AnthropicReply {
        content: string_of(text.as_slice()),
        tokens_in: match i { Some(x) => x, None => 0 },
        tokens_out: match o { Some(x) => x, None => 0 },
        model_used: match m {
            Some(x) => x,
            None => default_model.to_string(),
        },
        stop_reason,
    })
}

} // verus!

verus! {

/// Gemini gets a generation config when the request limits the reply,
/// sets a temperature or names stop sequences.
pub fn gemini_needs_generation_config(max_tokens: Option<u32>, has_temperature: bool, stop_sequences: usize) -> (r: bool)
    ensures
        r == (max_tokens is Some || has_temperature || stop_sequences > 0),
{
    max_tokens.is_some() || has_temperature || stop_sequences > 0
}

} // verus!
