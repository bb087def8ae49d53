//! YAML documents as the vault parser reads them: a tree of plain values
//! produced by `serde_yaml`, with lookups by key.
use vstd::prelude::*;
use crate::text::{chars_eq, chars_of};
use crate::vault::opt_str;

verus! {

/// A YAML value. Numbers are kept only as such; a tag is kept as a wrapper
/// around the tagged value.
#[derive(Debug)]
pub enum YamlNode {
    Null,
    Bool(bool),
    Number,
    Text(String),
    List(Vec<YamlNode>),
    Mapping(Vec<(YamlNode, YamlNode)>),
    Tagged(Box<YamlNode>),
}

#[verifier::external_type_specification]
#[verifier::external_body]
pub struct ExYamlValue(serde_yaml::Value);

/// What `serde_yaml::from_str::<serde_yaml::Value>` makes of a text, as a
/// [`YamlNode`]; `None` where it reports an error.
pub uninterp spec fn yaml_document(text: Seq<char>) -> Option<YamlNode>;

/// Moves a `serde_yaml::Value` into a [`YamlNode`], one variant for one
/// variant (mapping entries keep their order).
#[verifier::external_body]
fn node_of_value(v: serde_yaml::Value) -> YamlNode {
    match v {
        serde_yaml::Value::Null => YamlNode::Null,
        serde_yaml::Value::Bool(b) => YamlNode::Bool(b),
        serde_yaml::Value::Number(_) => YamlNode::Number,
        serde_yaml::Value::String(s) => YamlNode::Text(s),
        serde_yaml::Value::Sequence(items) => YamlNode::List(items.into_iter().map(node_of_value).collect()),
        serde_yaml::Value::Mapping(m) => YamlNode::Mapping(
            m.into_iter().map(|(k, v)| (node_of_value(k), node_of_value(v))).collect(),
        ),
        serde_yaml::Value::Tagged(t) => YamlNode::Tagged(Box::new(node_of_value(t.value))),
    }
}

/// Calls `serde_yaml::from_str::<serde_yaml::Value>`: the document of the
/// text, named by [`yaml_document`], or `None` on a parse error.
#[verifier::external_body]
pub fn parse_yaml(text: &str) -> (r: Option<YamlNode>)
    ensures
        r == yaml_document(text@),
{
    match serde_yaml::from_str::<serde_yaml::Value>(text) {
        Ok(v) => Some(node_of_value(v)),
        Err(_) => None,
    }
}

/// The value under any number of tags.
pub open spec fn untag(n: YamlNode) -> YamlNode
    decreases n,
{
    match n {
        YamlNode::Tagged(b) => untag(*b),
        _ => n,
    }
}

/// `Value::as_str`: the text of an (untagged) string value.
pub open spec fn node_text(n: YamlNode) -> Option<Seq<char>> {
    match untag(n) {
        YamlNode::Text(s) => Some(s@),
        _ => None,
    }
}

/// The value of the first entry from `i` whose key is the untagged string
/// `key` (`Mapping::get` with a `&str`).
pub open spec fn lookup_from(e: Seq<(YamlNode, YamlNode)>, key: Seq<char>, i: int) -> Option<YamlNode>
    decreases e.len() - i,
{
    if i < 0 || i >= e.len() {
        None
    } else if e[i].0 matches YamlNode::Text(k) && k@ == key {
        Some(e[i].1)
    } else {
        lookup_from(e, key, i + 1)
    }
}

/// The text under `key` in a mapping's entries, when it is a string.
pub open spec fn field_text(e: Seq<(YamlNode, YamlNode)>, key: Seq<char>) -> Option<Seq<char>> {
    match lookup_from(e, key, 0) {
        Some(v) => node_text(v),
        None => None,
    }
}

/// The texts among the first `n` items, in order (non-strings dropped).
pub open spec fn texts_upto(items: Seq<YamlNode>, n: int) -> Seq<Seq<char>>
    decreases n,
{
    if n <= 0 || n > items.len() {
        Seq::empty()
    } else {
        match node_text(items[n - 1]) {
            Some(t) => texts_upto(items, n - 1).push(t),
            None => texts_upto(items, n - 1),
        }
    }
}

/// The value under any number of tags.
pub fn untag_node(n: &YamlNode) -> (r: &YamlNode)
    ensures
        *r == untag(*n),
    decreases n,
{
    match n {
        YamlNode::Tagged(b) => untag_node(b),
        _ => n,
    }
}

/// `Value::as_str`, copied.
pub fn text_of(n: &YamlNode) -> (r: Option<String>)
    ensures
        opt_str(r) == node_text(*n),
{
    match untag_node(n) {
        YamlNode::Text(s) => Some(s.clone()),
        _ => None,
    }
}

/// `Mapping::get` with a `&str` key.
pub fn lookup<'a>(e: &'a Vec<(YamlNode, YamlNode)>, key: &str) -> (r: Option<&'a YamlNode>)
    ensures
        match r {
            Some(v) => lookup_from(e@, key@, 0) == Some(*v),
            None => lookup_from(e@, key@, 0) is None,
        },
{
    let kc = chars_of(key);
    let mut i: usize = 0;
    while i < e.len()
        invariant
            i <= e.len(),
            kc@ == key@,
            lookup_from(e@, key@, i as int) == lookup_from(e@, key@, 0),
        decreases e.len() - i,
    {
        let hit = match &e[i].0 {
            YamlNode::Text(k) => {
                let c = chars_of(k.as_str());
                chars_eq(c.as_slice(), kc.as_slice())
            },
            _ => false,
        };
        if hit {
            return Some(&e[i].1);
        }
        i += 1;
    }
    None
}

/// The string value under `key`, if any.
pub fn field_text_of(e: &Vec<(YamlNode, YamlNode)>, key: &str) -> (r: Option<String>)
    ensures
        opt_str(r) == field_text(e@, key@),
{
    match lookup(e, key) {
        Some(v) => text_of(v),
        None => None,
    }
}

/// The string items of a list, in order.
pub fn texts_of(items: &Vec<YamlNode>) -> (r: Vec<String>)
    ensures
        crate::vault::strs(r) == texts_upto(items@, items@.len() as int),
{
    let mut r: Vec<String> = Vec::new();
    let mut i: usize = 0;
    assert(crate::vault::strs(r) =~= texts_upto(items@, 0));
    while i < items.len()
        invariant
            i <= items.len(),
            crate::vault::strs(r) == texts_upto(items@, i as int),
        decreases items.len() - i,
    {
        let ghost before = crate::vault::strs(r);
        match text_of(&items[i]) {
            Some(t) => {
                r.push(t);
                assert(crate::vault::strs(r) =~= before.push(t@));
            },
            None => {},
        }
        i += 1;
    }
    r
}

} // verus!
