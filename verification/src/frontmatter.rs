//! The two frontmatter formats of a vault file: the telegraphic `VAULT:`
//! header with bare `key: value` lines after it, and `---`-fenced YAML.
use vstd::prelude::*;
use crate::lane::{find_char, index_of_from, lemma_index_of_from, split_once, split_once_chars};
use crate::path::copy_chars;
use crate::text::{
    char_is_alphanumeric, chars_eq_str, chars_of, find_chars, first_occurrence, has_prefix,
    is_unicode_alphanumeric, starts_with_str, string_of, sub_chars,
};
use crate::yaml::{
    field_text, field_text_of, lookup, lookup_from, parse_yaml, texts_of, texts_upto, untag,
    untag_node, yaml_document, YamlNode,
};
use crate::vault::{
    cross_refs_spec, derive_short_label, parse_cross_refs_inline,
    sanitize_updated, sanitize_updated_spec, short_label_spec, strs, trim_chars,
    trim_start_chars, trim_start_ws, trim_ws, vault_type_spec, VaultMeta, VaultMetaView,
};

verus! {

// ---------------------------------------------------------------------------
// Lines
// ---------------------------------------------------------------------------

/// Index of the `\n` that ends the line starting at `i`, or the length of
/// `s` for the last line.
pub open spec fn line_end(s: Seq<char>, i: int) -> int {
    match index_of_from(s, '\n', i) {
        Some(k) => k,
        None => s.len() as int,
    }
}

/// The line starting at `i`, as `str::lines` yields it: without its `\n`,
/// and without a `\r` just before that `\n`.
pub open spec fn line_text(s: Seq<char>, i: int) -> Seq<char> {
    let e = line_end(s, i);
    if e < s.len() && e > i && s[e - 1] == '\r' {
        s.subrange(i, e - 1)
    } else {
        s.subrange(i, e)
    }
}

/// The end of the line starting at `i` lies between `i` and the end of `s`.
pub proof fn lemma_line_end(s: Seq<char>, i: int)
    requires
        0 <= i <= s.len(),
    ensures
        i <= line_end(s, i) <= s.len(),
{
    lemma_index_of_from(s, '\n', i);
}

/// The line starting at `i` and the index of its end.
pub fn line_at(s: &[char], i: usize) -> (r: (Vec<char>, usize))
    requires
        i <= s.len(),
    ensures
        r.1 == line_end(s@, i as int),
        r.0@ == line_text(s@, i as int),
{
    proof {
        lemma_line_end(s@, i as int);
    }
    let e = match find_char(s, '\n', i) {
        Some(k) => k,
        None => s.len(),
    };
    if e < s.len() && e > i && s[e - 1] == '\r' {
        (sub_chars(s, i, e - 1), e)
    } else {
        (sub_chars(s, i, e), e)
    }
}

// ---------------------------------------------------------------------------
// Pipe-separated header parts
// ---------------------------------------------------------------------------

/// The pieces of `s[i..]` between occurrences of `c`, as `str::split` gives
/// them (an empty piece where two separators meet or at either end).
pub open spec fn split_pieces(s: Seq<char>, c: char, i: int) -> Seq<Seq<char>>
    decreases s.len() - i,
{
    if i < 0 || i > s.len() {
        Seq::empty()
    } else {
        match index_of_from(s, c, i) {
            Some(k) => {
                proof {
                    lemma_index_of_from(s, c, i);
                }
                seq![s.subrange(i, k)] + split_pieces(s, c, k + 1)
            },
            None => seq![s.subrange(i, s.len() as int)],
        }
    }
}

pub open spec fn trims(p: Seq<Seq<char>>) -> Seq<Seq<char>> {
    p.map_values(|x: Seq<char>| trim_ws(x))
}

pub open spec fn char_views(v: Seq<Vec<char>>) -> Seq<Seq<char>> {
    v.map_values(|x: Vec<char>| x@)
}

/// `s.split(c).map(str::trim)`.
fn split_trimmed(s: &[char], c: char) -> (r: Vec<Vec<char>>)
    ensures
        char_views(r@) == trims(split_pieces(s@, c, 0)),
{
    let mut r: Vec<Vec<char>> = Vec::new();
    let mut i: usize = 0;
    assert(char_views(r@) + trims(split_pieces(s@, c, 0)) =~= trims(split_pieces(s@, c, 0)));
    loop
        invariant
            i <= s.len(),
            char_views(r@) + trims(split_pieces(s@, c, i as int)) == trims(split_pieces(s@, c, 0)),
        decreases s.len() - i,
    {
        proof {
            lemma_index_of_from(s@, c, i as int);
        }
        let ghost before = r@;
        match find_char(s, c, i) {
            Some(k) => {
                let piece = trim_chars(sub_chars(s, i, k).as_slice());
                r.push(piece);
                proof {
                    let rest = split_pieces(s@, c, k + 1);
                    assert(split_pieces(s@, c, i as int) == seq![s@.subrange(i as int, k as int)] + rest);
                    assert(trims(seq![s@.subrange(i as int, k as int)] + rest) =~= seq![
                        trim_ws(s@.subrange(i as int, k as int)),
                    ] + trims(rest));
                    assert(char_views(r@) =~= char_views(before).push(piece@));
                    assert(char_views(r@) + trims(rest) =~= char_views(before) + trims(
                        split_pieces(s@, c, i as int),
                    ));
                }
                i = k + 1;
            },
            None => {
                let piece = trim_chars(sub_chars(s, i, s.len()).as_slice());
                r.push(piece);
                proof {
                    assert(split_pieces(s@, c, i as int) == seq![s@.subrange(i as int, s.len() as int)]);
                    assert(trims(seq![s@.subrange(i as int, s.len() as int)]) =~= seq![
                        trim_ws(s@.subrange(i as int, s.len() as int)),
                    ]);
                    assert(char_views(r@) =~= char_views(before).push(piece@));
                    assert(char_views(r@) =~= char_views(before) + trims(
                        split_pieces(s@, c, i as int),
                    ));
                }
                return r;
            },
        }
    }
}

// ---------------------------------------------------------------------------
// Field accumulation
// ---------------------------------------------------------------------------

/// Optional fields gathered from the header extras and the lines after it.
pub struct TeleFields {
    pub updated: Seq<char>,
    pub repo: Option<Seq<char>>,
    pub source: Option<Seq<char>>,
    pub cross_refs: Seq<Seq<char>>,
    pub explicit_type: Option<Seq<char>>,
    pub label: Option<Seq<char>>,
}

pub open spec fn no_fields() -> TeleFields {
    TeleFields {
        updated: Seq::empty(),
        repo: None,
        source: None,
        cross_refs: Seq::empty(),
        explicit_type: None,
        label: None,
    }
}

/// The fields after one `key: raw` pair: each recognized key is taken the
/// first time it comes with a non-empty value (`updated` the first time
/// at all), trimmed; anything else is ignored.
pub open spec fn absorb(f: TeleFields, key: Seq<char>, raw: Seq<char>) -> TeleFields {
    let val = trim_ws(raw);
    if key == "updated"@ && f.updated.len() == 0 {
        TeleFields { updated: sanitize_updated_spec(val), ..f }
    } else if key == "repo"@ && f.repo is None && val.len() > 0 {
        TeleFields { repo: Some(val), ..f }
    } else if key == "source"@ && f.source is None && val.len() > 0 {
        TeleFields { source: Some(val), ..f }
    } else if key == "cross_refs"@ && f.cross_refs.len() == 0 && val.len() > 0 {
        TeleFields { cross_refs: cross_refs_spec(val), ..f }
    } else if key == "type"@ && f.explicit_type is None && val.len() > 0 {
        TeleFields { explicit_type: Some(val), ..f }
    } else if key == "label"@ && f.label is None && val.len() > 0 {
        TeleFields { label: Some(val), ..f }
    } else {
        f
    }
}

/// The fields after the `key: value` extras among `parts[j..]`.
pub open spec fn absorb_parts(parts: Seq<Seq<char>>, j: int, f: TeleFields) -> TeleFields
    decreases parts.len() - j,
{
    if j < 0 || j >= parts.len() {
        f
    } else {
        let f2 = match split_once(parts[j], ':') {
            Some((k, v)) => absorb(f, trim_ws(k), v),
            None => f,
        };
        absorb_parts(parts, j + 1, f2)
    }
}

/// A body key: non-empty, of letters, digits, `_` and `-`.
pub open spec fn is_field_key(k: Seq<char>) -> bool {
    k.len() > 0 && forall|i: int|
        0 <= i < k.len() ==> (is_unicode_alphanumeric(#[trigger] k[i]) || k[i] == '_' || k[i]
            == '-')
}

/// The fields after scanning the lines from `i`: `===` / `---` lines and the
/// first line that is not a `key: value` pair end the scan; blank lines and
/// lines starting with `#` or `!` are skipped.
pub open spec fn body_scan(s: Seq<char>, i: int, f: TeleFields) -> TeleFields
    decreases s.len() + 1 - i,
    via body_scan_decreases
{
    if i < 0 || i >= s.len() {
        f
    } else {
        let lead = trim_start_ws(line_text(s, i));
        let next = line_end(s, i) + 1;
        if has_prefix(lead, "==="@) || has_prefix(lead, "---"@) {
            f
        } else if lead.len() == 0 || lead[0] == '#' || lead[0] == '!' {
            body_scan(s, next, f)
        } else {
            match split_once(lead, ':') {
                Some((k, v)) => if is_field_key(trim_ws(k)) {
                    body_scan(s, next, absorb(f, trim_ws(k), v))
                } else {
                    f
                },
                None => f,
            }
        }
    }
}

#[via_fn]
proof fn body_scan_decreases(s: Seq<char>, i: int, f: TeleFields) {
    if 0 <= i < s.len() {
        lemma_line_end(s, i);
    }
}

#[via_fn]
proof fn header_search_decreases(s: Seq<char>, i: int) {
    if 0 <= i < s.len() {
        lemma_line_end(s, i);
    }
}

/// Start of the `VAULT:` header line at or after `i`, passing over blank
/// lines and markdown headings; `None` once any other line comes first.
pub open spec fn header_search(s: Seq<char>, i: int) -> Option<int>
    decreases s.len() + 1 - i,
    via header_search_decreases
{
    if i < 0 || i >= s.len() {
        None
    } else {
        let t = trim_start_ws(line_text(s, i));
        if has_prefix(t, "VAULT:"@) {
            Some(i)
        } else if t.len() == 0 || t[0] == '#' {
            header_search(s, line_end(s, i) + 1)
        } else {
            None
        }
    }
}

/// What the telegraphic format gives for a file: `None` without a header,
/// with an empty id or name (also a name that is only a `label:` prefix),
/// or when no index type can be had; otherwise
/// the header's id and name with the gathered fields.
pub open spec fn telegraphic_spec(s: Seq<char>) -> Option<VaultMetaView> {
    match header_search(s, 0) {
        None => None,
        Some(h) => {
            let header = trim_start_ws(line_text(s, h));
            let parts = trims(split_pieces(trim_ws(header.subrange(6, header.len() as int)), '|', 0));
            if parts.len() < 2 || parts[0].len() == 0 || parts[1].len() == 0 {
                None
            } else {
                let id = parts[0];
                let name = parts[1];
                let f = body_scan(s, line_end(s, h) + 1, absorb_parts(parts, 2, no_fields()));
                let vault_type = match f.explicit_type {
                    Some(t) => t,
                    None => vault_type_spec(id),
                };
                let from_name = has_prefix(name, "label:"@);
                let final_name = if from_name {
                    trim_ws(name.subrange(6, name.len() as int))
                } else {
                    name
                };
                let short_label = match f.label {
                    Some(l) => l,
                    None => if from_name {
                        final_name
                    } else {
                        short_label_spec(final_name)
                    },
                };
                if vault_type.len() == 0 || final_name.len() == 0 {
                    None
                } else {
                    Some(
                        VaultMetaView {
                            id,
                            name: final_name,
                            short_label: Some(short_label),
                            vault_type,
                            updated: f.updated,
                            repo: f.repo,
                            source: f.source,
                            cross_refs: f.cross_refs,
                        },
                    )
                }
            }
        },
    }
}

/// Executable form of [`TeleFields`].
struct FieldAcc {
    updated: Vec<char>,
    repo: Option<Vec<char>>,
    source: Option<Vec<char>>,
    cross_refs: Vec<String>,
    explicit_type: Option<Vec<char>>,
    label: Option<Vec<char>>,
}

pub open spec fn opt_chars(o: Option<Vec<char>>) -> Option<Seq<char>> {
    match o {
        Some(v) => Some(v@),
        None => None,
    }
}

impl View for FieldAcc {
    type V = TeleFields;

    closed spec fn view(&self) -> TeleFields {
        TeleFields {
            updated: self.updated@,
            repo: opt_chars(self.repo),
            source: opt_chars(self.source),
            cross_refs: strs(self.cross_refs),
            explicit_type: opt_chars(self.explicit_type),
            label: opt_chars(self.label),
        }
    }
}

fn absorb_field(f: &mut FieldAcc, key: &[char], raw: &[char])
    ensures
        final(f)@ == absorb(old(f)@, key@, raw@),
{
    let val = trim_chars(raw);
    if chars_eq_str(key, "updated") && f.updated.len() == 0 {
        f.updated = sanitize_updated(val.as_slice());
    } else if chars_eq_str(key, "repo") && f.repo.is_none() && val.len() > 0 {
        f.repo = Some(val);
    } else if chars_eq_str(key, "source") && f.source.is_none() && val.len() > 0 {
        f.source = Some(val);
    } else if chars_eq_str(key, "cross_refs") && f.cross_refs.len() == 0 && val.len() > 0 {
        f.cross_refs = parse_cross_refs_inline(val.as_slice());
    } else if chars_eq_str(key, "type") && f.explicit_type.is_none() && val.len() > 0 {
        f.explicit_type = Some(val);
    } else if chars_eq_str(key, "label") && f.label.is_none() && val.len() > 0 {
        f.label = Some(val);
    }
}

} // verus!

verus! {

/// Start of the header line, and that line with its leading whitespace
/// trimmed.
fn find_header(s: &[char]) -> (r: Option<(usize, Vec<char>)>)
    ensures
        match r {
            Some((h, t)) => {
                &&& header_search(s@, 0) == Some(h as int)
                &&& h < s.len()
                &&& t@ == trim_start_ws(line_text(s@, h as int))
                &&& has_prefix(t@, "VAULT:"@)
            },
            None => header_search(s@, 0) is None,
        },
{
    let mut i: usize = 0;
    while i < s.len()
        invariant
            i <= s.len(),
            header_search(s@, i as int) == header_search(s@, 0),
        decreases s.len() - i,
    {
        proof {
            lemma_line_end(s@, i as int);
        }
        let (line, e) = line_at(s, i);
        let t = trim_start_chars(line.as_slice());
        if starts_with_str(t.as_slice(), "VAULT:") {
            return Some((i, t));
        }
        if t.len() == 0 || t[0] == '#' {
            if e < s.len() {
                i = e + 1;
            } else {
                assert(header_search(s@, e + 1) is None);
                i = s.len();
            }
        } else {
            return None;
        }
    }
    None
}

/// Whether `k` is a body key ([`is_field_key`]).
fn is_key_chars(k: &[char]) -> (r: bool)
    ensures
        r == is_field_key(k@),
{
    if k.len() == 0 {
        return false;
    }
    let mut i: usize = 0;
    while i < k.len()
        invariant
            i <= k.len(),
            k.len() > 0,
            forall|j: int|
                0 <= j < i ==> (is_unicode_alphanumeric(#[trigger] k@[j]) || k@[j] == '_' || k@[j]
                    == '-'),
        decreases k.len() - i,
    {
        let c = k[i];
        if !(char_is_alphanumeric(c) || c == '_' || c == '-') {
            return false;
        }
        i += 1;
    }
    true
}

/// Absorb the `key: value` lines from `start` into `f` ([`body_scan`]).
fn scan_body(s: &[char], start: usize, f: &mut FieldAcc)
    requires
        start <= s.len(),
    ensures
        final(f)@ == body_scan(s@, start as int, old(f)@),
{
    let ghost f0 = f@;
    let mut i = start;
    while i < s.len()
        invariant
            i <= s.len(),
            f0 == old(f)@,
            body_scan(s@, i as int, f@) == body_scan(s@, start as int, f0),
        decreases s.len() - i,
    {
        proof {
            lemma_line_end(s@, i as int);
        }
        let (line, e) = line_at(s, i);
        let lead = trim_start_chars(line.as_slice());
        if starts_with_str(lead.as_slice(), "===") || starts_with_str(lead.as_slice(), "---") {
            return;
        }
        if !(lead.len() == 0 || lead[0] == '#' || lead[0] == '!') {
            match split_once_chars(lead.as_slice(), ':') {
                Some((k, v)) => {
                    let key = trim_chars(k.as_slice());
                    if is_key_chars(key.as_slice()) {
                        absorb_field(f, key.as_slice(), v.as_slice());
                    } else {
                        return;
                    }
                },
                None => {
                    return;
                },
            }
        }
        if e < s.len() {
            i = e + 1;
        } else {
            assert(body_scan(s@, e + 1, f@) == f@);
            return;
        }
    }
}

/// Absorb the `key: value` extras among `parts[2..]` into `f`.
fn absorb_extras(parts: &Vec<Vec<char>>, f: &mut FieldAcc)
    ensures
        final(f)@ == absorb_parts(char_views(parts@), 2, old(f)@),
{
    let ghost f0 = f@;
    let ghost p = char_views(parts@);
    let mut j: usize = 2;
    while j < parts.len()
        invariant
            2 <= j,
            f0 == old(f)@,
            p == char_views(parts@),
            absorb_parts(p, j as int, f@) == absorb_parts(p, 2, f0),
        decreases parts.len() - j,
    {
        assert(p[j as int] == parts@[j as int]@);
        match split_once_chars(parts[j].as_slice(), ':') {
            Some((k, v)) => {
                let key = trim_chars(k.as_slice());
                absorb_field(f, key.as_slice(), v.as_slice());
            },
            None => {},
        }
        j += 1;
    }
}

fn opt_string(o: Option<Vec<char>>) -> (r: Option<String>)
    ensures
        crate::vault::opt_str(r) == opt_chars(o),
{
    match o {
        Some(v) => Some(string_of(v.as_slice())),
        None => None,
    }
}

/// Parse the telegraphic format: a `VAULT: <id> | <name> | <key>: <value>
/// ...` header (after blank lines or markdown headings only), then bare
/// `key: value` lines.
pub fn parse_frontmatter_telegraphic(content: &str) -> (r: Option<VaultMeta>)
    ensures
        match r {
            Some(m) => telegraphic_spec(content@) == Some(m@),
            None => telegraphic_spec(content@) is None,
        },
{
    let chars = chars_of(content);
    let s = chars.as_slice();
    let (h, header) = match find_header(s) {
        Some(found) => found,
        None => return None,
    };
    proof {
        reveal_strlit("VAULT:");
        reveal_strlit("label:");
    }
    let after = trim_chars(sub_chars(header.as_slice(), 6, header.len()).as_slice());
    let parts = split_trimmed(after.as_slice(), '|');
    let ghost p = char_views(parts@);
    if parts.len() < 2 || parts[0].len() == 0 || parts[1].len() == 0 {
        assert(p.len() == parts.len());
        assert(parts.len() >= 2 ==> p[0] == parts@[0]@ && p[1] == parts@[1]@);
        return None;
    }
    assert(p[0] == parts@[0]@ && p[1] == parts@[1]@);
    let mut f = FieldAcc {
        updated: Vec::new(),
        repo: None,
        source: None,
        cross_refs: Vec::new(),
        explicit_type: None,
        label: None,
    };
    assert(strs(f.cross_refs) =~= Seq::<Seq<char>>::empty());
    assert(f@ == no_fields());
    absorb_extras(&parts, &mut f);
    let (_, e) = line_at(s, h);
    proof {
        lemma_line_end(s@, h as int);
    }
    if e < s.len() {
        scan_body(s, e + 1, &mut f);
    }
    let FieldAcc { updated, repo, source, cross_refs, explicit_type, label } = f;
    let id = parts[0].as_slice();
    let name = parts[1].as_slice();
    let vault_type = match explicit_type {
        Some(t) => t,
        None => crate::vault::vault_type_chars(id),
    };
    if vault_type.len() == 0 {
        return None;
    }
    let from_name = starts_with_str(name, "label:");
    let final_name = if from_name {
        trim_chars(sub_chars(name, 6, name.len()).as_slice())
    } else {
        copy_chars(name)
    };
    if final_name.len() == 0 {
        return None;
    }
    let short_label = match label {
        Some(l) => string_of(l.as_slice()),
        None => if from_name {
            string_of(final_name.as_slice())
        } else {
            let n = string_of(final_name.as_slice());
            derive_short_label(n.as_str())
        },
    };
    Some(
        VaultMeta {
            id: string_of(id),
            name: string_of(final_name.as_slice()),
            short_label: Some(short_label),
            vault_type: string_of(vault_type.as_slice()),
            updated: string_of(updated.as_slice()),
            repo: opt_string(repo),
            source: opt_string(source),
            cross_refs,
        },
    )
}

} // verus!

verus! {

// ---------------------------------------------------------------------------
// `---`-fenced YAML
// ---------------------------------------------------------------------------

/// `s` without leading `\r` / `\n` characters.
pub open spec fn trim_start_newlines(s: Seq<char>) -> Seq<char>
    decreases s.len(),
{
    if s.len() > 0 && (s[0] == '\r' || s[0] == '\n') {
        trim_start_newlines(s.drop_first())
    } else {
        s
    }
}

/// The YAML text between the opening `---` and the next line that starts
/// with `---`; `None` when that closing line is missing.
pub open spec fn yaml_body_spec(s: Seq<char>) -> Option<Seq<char>> {
    let rest = trim_start_newlines(s.subrange(3, s.len() as int));
    match first_occurrence(rest, "\n---"@, 0) {
        Some(p) => Some(rest.subrange(0, p)),
        None => None,
    }
}

pub open spec fn is_bracket_trim(c: char) -> bool {
    c == '[' || c == ']' || c == ' '
}

pub open spec fn trim_start_brackets(s: Seq<char>) -> Seq<char>
    decreases s.len(),
{
    if s.len() > 0 && is_bracket_trim(s[0]) {
        trim_start_brackets(s.drop_first())
    } else {
        s
    }
}

pub open spec fn trim_end_brackets(s: Seq<char>) -> Seq<char>
    decreases s.len(),
{
    if s.len() > 0 && is_bracket_trim(s.last()) {
        trim_end_brackets(s.drop_last())
    } else {
        s
    }
}

/// The non-empty pieces among the first `n` of `p`, in order.
pub open spec fn nonempty_upto(p: Seq<Seq<char>>, n: int) -> Seq<Seq<char>>
    decreases n,
{
    if n <= 0 || n > p.len() {
        Seq::empty()
    } else if p[n - 1].len() > 0 {
        nonempty_upto(p, n - 1).push(p[n - 1])
    } else {
        nonempty_upto(p, n - 1)
    }
}

/// Ids of a `cross_refs` value written as one string `"[a, b, c]"`:
/// brackets and spaces trimmed from the ends, split at `,`, each piece
/// trimmed, empty pieces dropped.
pub open spec fn quoted_refs_spec(s: Seq<char>) -> Seq<Seq<char>> {
    let p = trims(split_pieces(trim_end_brackets(trim_start_brackets(s)), ',', 0));
    nonempty_upto(p, p.len() as int)
}

/// Ids of a `cross_refs` value: the string items of a list, or the ids of
/// a quoted list; nothing for any other value.
pub open spec fn yaml_refs(v: YamlNode) -> Seq<Seq<char>> {
    match untag(v) {
        YamlNode::List(items) => texts_upto(items@, items@.len() as int),
        YamlNode::Text(s) => quoted_refs_spec(s@),
        _ => Seq::empty(),
    }
}

/// What a YAML document gives: `None` unless it is a mapping with string
/// `id`, `name` and `type`; `updated` defaults to empty, the label to one
/// derived from the name.
pub open spec fn yaml_meta_spec(doc: YamlNode) -> Option<VaultMetaView> {
    match untag(doc) {
        YamlNode::Mapping(m) => {
            let e = m@;
            match (field_text(e, "id"@), field_text(e, "name"@), field_text(e, "type"@)) {
                (Some(id), Some(name), Some(t)) => Some(
                    VaultMetaView {
                        id,
                        name,
                        short_label: Some(
                            match field_text(e, "label"@) {
                                Some(l) => l,
                                None => short_label_spec(name),
                            },
                        ),
                        vault_type: t,
                        updated: match field_text(e, "updated"@) {
                            Some(u) => u,
                            None => Seq::empty(),
                        },
                        repo: field_text(e, "repo"@),
                        source: field_text(e, "source"@),
                        cross_refs: match lookup_from(e, "cross_refs"@, 0) {
                            Some(v) => yaml_refs(v),
                            None => Seq::empty(),
                        },
                    },
                ),
                _ => None,
            }
        },
        _ => None,
    }
}

/// What the YAML format gives for a file that starts with `---`.
pub open spec fn yaml_frontmatter_spec(s: Seq<char>) -> Option<VaultMetaView> {
    if !has_prefix(s, "---"@) {
        None
    } else {
        match yaml_body_spec(s) {
            None => None,
            Some(body) => match yaml_document(body) {
                None => None,
                Some(doc) => yaml_meta_spec(doc),
            },
        }
    }
}

/// What a vault file's frontmatter gives: YAML when the file starts with
/// `---`, the telegraphic format otherwise.
pub open spec fn frontmatter_spec(s: Seq<char>) -> Option<VaultMetaView> {
    if has_prefix(s, "---"@) {
        yaml_frontmatter_spec(s)
    } else {
        telegraphic_spec(s)
    }
}

fn yaml_body(s: &[char]) -> (r: Option<Vec<char>>)
    requires
        s.len() >= 3,
    ensures
        match r {
            Some(b) => yaml_body_spec(s@) == Some(b@),
            None => yaml_body_spec(s@) is None,
        },
{
    let mut i: usize = 3;
    assert(s@.subrange(3, s.len() as int).subrange(0, s.len() - 3) =~= s@.subrange(3, s.len() as int));
    while i < s.len() && (s[i] == '\r' || s[i] == '\n')
        invariant
            3 <= i <= s.len(),
            trim_start_newlines(s@.subrange(i as int, s.len() as int)) == trim_start_newlines(
                s@.subrange(3, s.len() as int),
            ),
        decreases s.len() - i,
    {
        assert(s@.subrange(i as int, s.len() as int).drop_first() =~= s@.subrange(i + 1, s.len() as int));
        i += 1;
    }
    let rest = sub_chars(s, i, s.len());
    let pat = chars_of("\n---");
    match find_chars(rest.as_slice(), pat.as_slice()) {
        Some(p) => Some(sub_chars(rest.as_slice(), 0, p)),
        None => None,
    }
}

/// `trim_matches(['[', ']', ' ']).split(',').map(str::trim)`, empty
/// pieces dropped.
fn quoted_refs(s: &[char]) -> (r: Vec<String>)
    ensures
        strs(r) == quoted_refs_spec(s@),
{
    let mut lo: usize = 0;
    assert(s@.subrange(0, s.len() as int) =~= s@);
    while lo < s.len() && (s[lo] == '[' || s[lo] == ']' || s[lo] == ' ')
        invariant
            lo <= s.len(),
            trim_start_brackets(s@.subrange(lo as int, s.len() as int)) == trim_start_brackets(s@),
        decreases s.len() - lo,
    {
        assert(s@.subrange(lo as int, s.len() as int).drop_first() =~= s@.subrange(lo + 1, s.len() as int));
        lo += 1;
    }
    let t = sub_chars(s, lo, s.len());
    let mut hi = t.len();
    assert(t@.subrange(0, hi as int) =~= t@);
    while hi > 0 && (t[hi - 1] == '[' || t[hi - 1] == ']' || t[hi - 1] == ' ')
        invariant
            hi <= t.len(),
            trim_end_brackets(t@.subrange(0, hi as int)) == trim_end_brackets(t@),
        decreases hi,
    {
        assert(t@.subrange(0, hi as int).drop_last() =~= t@.subrange(0, hi - 1));
        hi -= 1;
    }
    let body = sub_chars(t.as_slice(), 0, hi);
    let pieces = split_trimmed(body.as_slice(), ',');
    let ghost p = char_views(pieces@);
    let mut r: Vec<String> = Vec::new();
    let mut j: usize = 0;
    assert(strs(r) =~= nonempty_upto(p, 0));
    while j < pieces.len()
        invariant
            j <= pieces.len(),
            p == char_views(pieces@),
            strs(r) == nonempty_upto(p, j as int),
        decreases pieces.len() - j,
    {
        assert(p[j as int] == pieces@[j as int]@);
        if pieces[j].len() > 0 {
            let ghost before = strs(r);
            r.push(string_of(pieces[j].as_slice()));
            assert(strs(r) =~= before.push(p[j as int]));
        }
        j += 1;
    }
    r
}

/// Ids of a `cross_refs` value ([`yaml_refs`]).
fn refs_of(v: &YamlNode) -> (r: Vec<String>)
    ensures
        strs(r) == yaml_refs(*v),
{
    match untag_node(v) {
        YamlNode::List(items) => texts_of(items),
        YamlNode::Text(s) => {
            let c = chars_of(s.as_str());
            quoted_refs(c.as_slice())
        },
        _ => {
            let r: Vec<String> = Vec::new();
            assert(strs(r) =~= Seq::<Seq<char>>::empty());
            r
        },
    }
}

/// The vault fields of a parsed YAML document: `None` unless it is a
/// mapping with string `id`, `name` and `type`.
pub fn vault_meta_from_yaml(doc: &YamlNode) -> (r: Option<VaultMeta>)
    ensures
        match r {
            Some(m) => yaml_meta_spec(*doc) == Some(m@),
            None => yaml_meta_spec(*doc) is None,
        },
{
    let e = match untag_node(doc) {
        YamlNode::Mapping(e) => e,
        _ => return None,
    };
    let id = match field_text_of(e, "id") {
        Some(v) => v,
        None => return None,
    };
    let name = match field_text_of(e, "name") {
        Some(v) => v,
        None => return None,
    };
    let vault_type = match field_text_of(e, "type") {
        Some(v) => v,
        None => return None,
    };
    let updated = match field_text_of(e, "updated") {
        Some(u) => u,
        None => String::new(),
    };
    let repo = field_text_of(e, "repo");
    let source = field_text_of(e, "source");
    let cross_refs = match lookup(e, "cross_refs") {
        Some(v) => refs_of(v),
        None => {
            let r: Vec<String> = Vec::new();
            assert(strs(r) =~= Seq::<Seq<char>>::empty());
            r
        },
    };
    let short_label = match field_text_of(e, "label") {
        Some(l) => l,
        None => derive_short_label(name.as_str()),
    };
    Some(
        VaultMeta {
            id,
            name,
            short_label: Some(short_label),
            vault_type,
            updated,
            repo,
            source,
            cross_refs,
        },
    )
}

/// Parse `---`-fenced YAML frontmatter.
fn parse_frontmatter_yaml(content: &str) -> (r: Option<VaultMeta>)
    ensures
        match r {
            Some(m) => yaml_frontmatter_spec(content@) == Some(m@),
            None => yaml_frontmatter_spec(content@) is None,
        },
{
    let chars = chars_of(content);
    if !starts_with_str(chars.as_slice(), "---") {
        return None;
    }
    proof {
        reveal_strlit("---");
    }
    let body = match yaml_body(chars.as_slice()) {
        Some(b) => b,
        None => return None,
    };
    let text = string_of(body.as_slice());
    let doc = match parse_yaml(text.as_str()) {
        Some(d) => d,
        None => return None,
    };
    vault_meta_from_yaml(&doc)
}

/// Parse a vault file's frontmatter: `---`-fenced YAML when the file starts
/// with `---`, the telegraphic `VAULT:` format otherwise; `None` when the
/// format's parser finds nothing usable.
pub fn parse_frontmatter(content: &str) -> (r: Option<VaultMeta>)
    ensures
        match r {
            Some(m) => frontmatter_spec(content@) == Some(m@),
            None => frontmatter_spec(content@) is None,
        },
{
    let chars = chars_of(content);
    if starts_with_str(chars.as_slice(), "---") {
        parse_frontmatter_yaml(content)
    } else {
        parse_frontmatter_telegraphic(content)
    }
}

} // verus!
