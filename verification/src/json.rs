//! JSON documents as the session readers see them: a tree of plain values
//! produced by `serde_json`, with field lookups.
use vstd::prelude::*;
use crate::text::{chars_eq, chars_of};
use crate::vault::opt_str;

verus! {

/// A JSON value. A number keeps what `Number::as_u64` and `Number::as_i64`
/// give for it, and its text (`Number`'s `Display`), from which it can be
/// rebuilt; object members come in the order `serde_json`'s map walks them
/// (sorted by key, as the crate is built here without `preserve_order`).
#[derive(Debug)]
pub enum JsonNode {
    Null,
    Bool(bool),
    Number { as_u64: Option<u64>, as_i64: Option<i64>, text: String },
    Text(String),
    Array(Vec<JsonNode>),
    Object(Vec<(String, JsonNode)>),
}

/// What `serde_json::from_str::<serde_json::Value>` makes of a text, as a
/// [`JsonNode`]; `None` where it reports an error.
pub uninterp spec fn json_document(text: Seq<char>) -> Option<JsonNode>;

/// The [`JsonNode`] that [`node_of_json`] makes of a value (a function of
/// the value alone).
pub uninterp spec fn json_node_of(v: serde_json::Value) -> JsonNode;

/// The value that [`value_of_node`] makes of a node (a function of the
/// node alone).
pub uninterp spec fn json_value_of(n: JsonNode) -> serde_json::Value;

/// Moves a `serde_json::Value` into a [`JsonNode`], variant by variant.
#[verifier::external_body]
pub(crate) fn node_of_json(v: serde_json::Value) -> (r: JsonNode)
    ensures
        r == json_node_of(v),
{
    match v {
        serde_json::Value::Null => JsonNode::Null,
        serde_json::Value::Bool(b) => JsonNode::Bool(b),
        serde_json::Value::Number(n) => JsonNode::Number { as_u64: n.as_u64(), as_i64: n.as_i64(), text: n.to_string() },
        serde_json::Value::String(s) => JsonNode::Text(s),
        serde_json::Value::Array(a) => JsonNode::Array(a.into_iter().map(node_of_json).collect()),
        serde_json::Value::Object(m) => JsonNode::Object(
            m.into_iter().map(|(k, v)| (k, node_of_json(v))).collect(),
        ),
    }
}

/// Moves a [`JsonNode`] back into a `serde_json::Value`, variant by
/// variant; a number is rebuilt from its text (JSON `null` if that text is
/// not a number).
#[verifier::external_body]
pub(crate) fn value_of_node(n: JsonNode) -> (r: serde_json::Value)
    ensures
        r == json_value_of(n),
{
    match n {
        JsonNode::Null => serde_json::Value::Null,
        JsonNode::Bool(b) => serde_json::Value::Bool(b),
        JsonNode::Number { text, .. } => match text.parse::<serde_json::Number>() {
            Ok(num) => serde_json::Value::Number(num),
            Err(_) => serde_json::Value::Null,
        },
        JsonNode::Text(s) => serde_json::Value::String(s),
        JsonNode::Array(a) => serde_json::Value::Array(a.into_iter().map(value_of_node).collect()),
        JsonNode::Object(m) => serde_json::Value::Object(m.into_iter().map(|(k, v)| (k, value_of_node(v))).collect()),
    }
}

/// Calls `serde_json::from_str::<serde_json::Value>`: the document of the
/// text, named by [`json_document`], or `None` on a parse error.
#[verifier::external_body]
pub fn parse_json(text: &str) -> (r: Option<JsonNode>)
    ensures
        r == json_document(text@),
{
    match serde_json::from_str::<serde_json::Value>(text) {
        Ok(v) => Some(node_of_json(v)),
        Err(_) => None,
    }
}

/// `Value::get` with a string key: the member named `key` of an object.
pub open spec fn member_from(e: Seq<(String, JsonNode)>, key: Seq<char>, i: int) -> Option<JsonNode>
    decreases e.len() - i,
{
    if i < 0 || i >= e.len() {
        None
    } else if e[i].0@ == key {
        Some(e[i].1)
    } else {
        member_from(e, key, i + 1)
    }
}

/// The member `key` of `n`, when `n` is an object that has one.
pub open spec fn member(n: JsonNode, key: Seq<char>) -> Option<JsonNode> {
    match n {
        JsonNode::Object(e) => member_from(e@, key, 0),
        _ => None,
    }
}

/// `Value::as_str`.
pub open spec fn json_text(n: Option<JsonNode>) -> Option<Seq<char>> {
    match n {
        Some(JsonNode::Text(s)) => Some(s@),
        _ => None,
    }
}

/// `Value::as_u64`.
pub open spec fn json_u64(n: Option<JsonNode>) -> Option<u64> {
    match n {
        Some(JsonNode::Number { as_u64, .. }) => as_u64,
        _ => None,
    }
}

/// `Value::as_i64`.
pub open spec fn json_i64(n: Option<JsonNode>) -> Option<i64> {
    match n {
        Some(JsonNode::Number { as_i64, .. }) => as_i64,
        _ => None,
    }
}

/// The member `key` of `n`, if `n` is an object that has one.
pub fn get_member<'a>(n: &'a JsonNode, key: &str) -> (r: Option<&'a JsonNode>)
    ensures
        match r {
            Some(v) => member(*n, key@) == Some(*v),
            None => member(*n, key@) is None,
        },
{
    let e = match n {
        JsonNode::Object(e) => e,
        _ => return None,
    };
    let kc = chars_of(key);
    let mut i: usize = 0;
    while i < e.len()
        invariant
            i <= e.len(),
            kc@ == key@,
            *n == JsonNode::Object(*e),
            member_from(e@, key@, i as int) == member_from(e@, key@, 0),
        decreases e.len() - i,
    {
        let c = chars_of(e[i].0.as_str());
        if chars_eq(c.as_slice(), kc.as_slice()) {
            return Some(&e[i].1);
        }
        i += 1;
    }
    None
}

/// The member `key` of `n`, moved out of it.
pub fn take_member(n: JsonNode, key: &str) -> (r: Option<JsonNode>)
    ensures
        r == member(n, key@),
{
    let ghost n0 = n;
    match n {
        JsonNode::Object(mut e) => {
            let ghost e0 = e@;
            let kc = chars_of(key);
            let mut i: usize = 0;
            while i < e.len()
                invariant
                    i <= e.len(),
                    kc@ == key@,
                    e@ == e0,
                    n0 == JsonNode::Object(e),
                    n0 == n,
                    member_from(e0, key@, i as int) == member_from(e0, key@, 0),
                decreases e.len() - i,
            {
                let c = chars_of(e[i].0.as_str());
                if chars_eq(c.as_slice(), kc.as_slice()) {
                    assert(e0[i as int].0@ == key@);
                    assert(member_from(e0, key@, i as int) == Some(e0[i as int].1));
                    assert(member(n0, key@) == member_from(e0, key@, 0));
                    let (_, v) = e.remove(i);
                    assert(v == e0[i as int].1);
                    return Some(v);
                }
                i += 1;
            }
            None
        },
        _ => None,
    }
}

/// The member `key` of `n` moved out of it, or `n` itself when it has no
/// such member (`get(key).cloned().unwrap_or(n)`).
pub fn member_or_self(n: JsonNode, key: &str) -> (r: JsonNode)
    ensures
        r == match member(n, key@) {
            Some(m) => m,
            None => n,
        },
{
    let ghost n0 = n;
    match n {
        JsonNode::Object(mut e) => {
            let ghost e0 = e@;
            let kc = chars_of(key);
            let mut i: usize = 0;
            while i < e.len()
                invariant
                    i <= e.len(),
                    kc@ == key@,
                    e@ == e0,
                    n0 == JsonNode::Object(e),
                    n0 == n,
                    member_from(e0, key@, i as int) == member_from(e0, key@, 0),
                decreases e.len() - i,
            {
                let c = chars_of(e[i].0.as_str());
                if chars_eq(c.as_slice(), kc.as_slice()) {
                    assert(e0[i as int].0@ == key@);
                    assert(member_from(e0, key@, i as int) == Some(e0[i as int].1));
                    assert(member(n0, key@) == member_from(e0, key@, 0));
                    let (_, v) = e.remove(i);
                    assert(v == e0[i as int].1);
                    return v;
                }
                i += 1;
            }
            JsonNode::Object(e)
        },
        other => other,
    }
}

/// `get(key).and_then(as_str)`, copied.
pub fn member_text(n: &JsonNode, key: &str) -> (r: Option<String>)
    ensures
        opt_str(r) == json_text(member(*n, key@)),
{
    match get_member(n, key) {
        Some(JsonNode::Text(s)) => Some(s.clone()),
        _ => None,
    }
}

/// `get(key).and_then(as_u64)`.
pub fn member_u64(n: &JsonNode, key: &str) -> (r: Option<u64>)
    ensures
        r == json_u64(member(*n, key@)),
{
    match get_member(n, key) {
        Some(JsonNode::Number { as_u64, .. }) => *as_u64,
        _ => None,
    }
}

/// `get(key).and_then(as_i64)`.
pub fn member_i64(n: &JsonNode, key: &str) -> (r: Option<i64>)
    ensures
        r == json_i64(member(*n, key@)),
{
    match get_member(n, key) {
        Some(JsonNode::Number { as_i64, .. }) => *as_i64,
        _ => None,
    }
}

} // verus!
