//! Vault frontmatter parsing for the Abyssal Index vault walker.
use vstd::prelude::*;
use crate::text::{
    char_is_whitespace, chars_eq_str, chars_of, is_unicode_whitespace, lowercase, has_prefix,
    starts_with_str, string_of, sub_chars, to_lowercase,
};

verus! {

/// Parsed fields of a vault file's frontmatter.
#[derive(Debug, Clone)]
pub struct VaultMeta {
    /// Vault identifier, e.g. `"p006"`.
    pub id: String,
    /// Human-readable vault name.
    pub name: String,
    /// Short tagline for the graph node label.
    pub short_label: Option<String>,
    /// Index type, e.g. `"project"`, `"practices"`.
    pub vault_type: String,
    /// Last-updated date text.
    pub updated: String,
    /// Optional repository path.
    pub repo: Option<String>,
    /// Optional source subdirectory within the repository.
    pub source: Option<String>,
    /// Cross-referenced vault ids.
    pub cross_refs: Vec<String>,
}

/// [`VaultMeta`] with its texts as character sequences.
pub struct VaultMetaView {
    pub id: Seq<char>,
    pub name: Seq<char>,
    pub short_label: Option<Seq<char>>,
    pub vault_type: Seq<char>,
    pub updated: Seq<char>,
    pub repo: Option<Seq<char>>,
    pub source: Option<Seq<char>>,
    pub cross_refs: Seq<Seq<char>>,
}

pub open spec fn opt_str(o: Option<String>) -> Option<Seq<char>> {
    match o {
        Some(s) => Some(s@),
        None => None,
    }
}

impl View for VaultMeta {
    type V = VaultMetaView;

    open spec fn view(&self) -> VaultMetaView {
        VaultMetaView {
            id: self.id@,
            name: self.name@,
            short_label: opt_str(self.short_label),
            vault_type: self.vault_type@,
            updated: self.updated@,
            repo: opt_str(self.repo),
            source: opt_str(self.source),
            cross_refs: strs(self.cross_refs),
        }
    }
}

// ---------------------------------------------------------------------------
// Short labels
// ---------------------------------------------------------------------------

pub open spec fn is_ascii_alnum(c: char) -> bool {
    ('a' <= c && c <= 'z') || ('A' <= c && c <= 'Z') || ('0' <= c && c <= '9')
}

/// Lowercased name with each run of characters other than ASCII letters,
/// digits and `_` replaced by one `-` (none at the start), scanning from `i`.
pub open spec fn hyphenate_from(s: Seq<char>, i: int, out: Seq<char>, prev_hyphen: bool) -> Seq<char>
    decreases s.len() - i,
{
    if i < 0 || i >= s.len() {
        out
    } else if is_ascii_alnum(s[i]) || s[i] == '_' {
        hyphenate_from(s, i + 1, out.push(crate::text::ascii_lower(s[i])), false)
    } else if !prev_hyphen {
        hyphenate_from(s, i + 1, out.push('-'), true)
    } else {
        hyphenate_from(s, i + 1, out, prev_hyphen)
    }
}

/// `s` without its trailing `c` characters.
pub open spec fn trim_trailing(s: Seq<char>, c: char) -> Seq<char>
    decreases s.len(),
{
    if s.len() > 0 && s.last() == c {
        trim_trailing(s.drop_last(), c)
    } else {
        s
    }
}

/// The short label derived from a vault name: hyphenated lowercase, trailing
/// hyphens dropped, cut to 14 characters (and trailing hyphens dropped
/// again) when longer.
pub open spec fn short_label_spec(name: Seq<char>) -> Seq<char> {
    let out = trim_trailing(hyphenate_from(name, 0, Seq::empty(), true), '-');
    if out.len() <= 14 {
        out
    } else {
        trim_trailing(out.subrange(0, 14), '-')
    }
}

/// A character a short label may hold: a lower-case ASCII letter, a digit,
/// `_` or `-`.
pub open spec fn label_char(c: char) -> bool {
    ('a' <= c && c <= 'z') || ('0' <= c && c <= '9') || c == '_' || c == '-'
}

/// The shape of a short label: label characters only, no `-` first, no
/// two `-` in a row.
pub open spec fn label_shape(o: Seq<char>) -> bool {
    &&& forall|k: int| 0 <= k < o.len() ==> label_char(#[trigger] o[k])
    &&& o.len() > 0 ==> o[0] != '-'
    &&& forall|k: int| 0 < k < o.len() && #[trigger] o[k] == '-' ==> o[k - 1] != '-'
}

proof fn lemma_hyphenate_shape(s: Seq<char>, i: int, out: Seq<char>, prev: bool)
    requires
        0 <= i,
        label_shape(out),
        prev == (out.len() == 0 || out.last() == '-'),
    ensures
        label_shape(hyphenate_from(s, i, out, prev)),
    decreases s.len() - i,
{
    if i < s.len() {
        if is_ascii_alnum(s[i]) || s[i] == '_' {
            let c = crate::text::ascii_lower(s[i]);
            assert(label_char(c));
            let o2 = out.push(c);
            assert(label_shape(o2)) by {
                assert forall|k: int| 0 < k < o2.len() && #[trigger] o2[k] == '-' implies o2[k - 1] != '-' by {
                    if k < out.len() {
                        assert(o2[k] == out[k] && o2[k - 1] == out[k - 1]);
                    }
                }
            }
            lemma_hyphenate_shape(s, i + 1, o2, false);
        } else if !prev {
            let o2 = out.push('-');
            assert(label_shape(o2)) by {
                assert forall|k: int| 0 < k < o2.len() && #[trigger] o2[k] == '-' implies o2[k - 1] != '-' by {
                    if k < out.len() {
                        assert(o2[k] == out[k] && o2[k - 1] == out[k - 1]);
                    } else {
                        assert(o2[k - 1] == out.last());
                    }
                }
            }
            lemma_hyphenate_shape(s, i + 1, o2, true);
        } else {
            lemma_hyphenate_shape(s, i + 1, out, prev);
        }
    }
}

proof fn lemma_prefix_shape(o: Seq<char>, n: int)
    requires
        label_shape(o),
        0 <= n <= o.len(),
    ensures
        label_shape(o.subrange(0, n)),
{
    let p = o.subrange(0, n);
    assert forall|k: int| 0 < k < p.len() && #[trigger] p[k] == '-' implies p[k - 1] != '-' by {
        assert(p[k] == o[k] && p[k - 1] == o[k - 1]);
    }
    assert forall|k: int| 0 <= k < p.len() implies label_char(#[trigger] p[k]) by {
        assert(p[k] == o[k]);
    }
}

proof fn lemma_trim_trailing_shape(o: Seq<char>)
    requires
        label_shape(o),
    ensures
        label_shape(trim_trailing(o, '-')),
        trim_trailing(o, '-').len() <= o.len(),
        trim_trailing(o, '-').len() == 0 || trim_trailing(o, '-').last() != '-',
    decreases o.len(),
{
    if o.len() > 0 && o.last() == '-' {
        lemma_prefix_shape(o, o.len() - 1);
        assert(o.drop_last() == o.subrange(0, o.len() - 1));
        lemma_trim_trailing_shape(o.drop_last());
    }
}

/// Hyphenating a label that is already in shape gives it back.
proof fn lemma_hyphenate_fixed(r: Seq<char>, i: int)
    requires
        label_shape(r),
        0 <= i <= r.len(),
    ensures
        hyphenate_from(r, i, r.subrange(0, i), i == 0 || r[i - 1] == '-') == r,
    decreases r.len() - i,
{
    if i == r.len() {
        assert(r.subrange(0, i) =~= r);
    } else {
        let c = r[i];
        assert(label_char(c));
        let prev = i == 0 || r[i - 1] == '-';
        if c == '-' {
            assert(i > 0);
            assert(!prev);
            assert(r.subrange(0, i).push('-') =~= r.subrange(0, i + 1));
        } else {
            assert(is_ascii_alnum(c) || c == '_');
            assert(crate::text::ascii_lower(c) == c);
            assert(r.subrange(0, i).push(c) =~= r.subrange(0, i + 1));
        }
        lemma_hyphenate_fixed(r, i + 1);
    }
}

/// Law of short labels: at most 14 characters, each a lower-case ASCII
/// letter, a digit, `_` or `-`; no `-` first or last and no two in a row;
/// and deriving a label from a label gives it back.
pub proof fn lemma_short_label_laws(name: Seq<char>)
    ensures
        ({
            let r = short_label_spec(name);
            &&& r.len() <= 14
            &&& label_shape(r)
            &&& r.len() > 0 ==> r.last() != '-'
            &&& short_label_spec(r) == r
        }),
{
    let h = hyphenate_from(name, 0, Seq::empty(), true);
    lemma_hyphenate_shape(name, 0, Seq::empty(), true);
    lemma_trim_trailing_shape(h);
    let out = trim_trailing(h, '-');
    let r = short_label_spec(name);
    if out.len() > 14 {
        lemma_prefix_shape(out, 14);
        lemma_trim_trailing_shape(out.subrange(0, 14));
    }
    lemma_hyphenate_fixed(r, 0);
    assert(r.subrange(0, 0) =~= Seq::<char>::empty());
    assert(trim_trailing(r, '-') == r);
}

fn trim_trailing_chars(s: &mut Vec<char>, c: char)
    ensures
        final(s)@ == trim_trailing(old(s)@, c),
{
    while s.len() > 0 && s[s.len() - 1] == c
        invariant
            trim_trailing(s@, c) == trim_trailing(old(s)@, c),
        decreases s.len(),
    {
        let ghost before = s@;
        s.pop();
        assert(s@ =~= before.drop_last());
    }
}

/// Fabricate a short tagline from a vault name when no explicit `label:`
/// is declared.
pub fn derive_short_label(name: &str) -> (r: String)
    ensures
        r@ == short_label_spec(name@),
{
    let s = chars_of(name);
    let mut out: Vec<char> = Vec::new();
    let mut prev_hyphen = true;
    let mut i: usize = 0;
    while i < s.len()
        invariant
            i <= s.len(),
            hyphenate_from(s@, i as int, out@, prev_hyphen) == hyphenate_from(s@, 0, Seq::empty(), true),
        decreases s.len() - i,
    {
        let ch = s[i];
        if (ch >= 'a' && ch <= 'z') || (ch >= 'A' && ch <= 'Z') || (ch >= '0' && ch <= '9') || ch == '_' {
            out.push(crate::text::to_ascii_lower(ch));
            prev_hyphen = false;
        } else if !prev_hyphen {
            out.push('-');
            prev_hyphen = true;
        }
        i += 1;
    }
    trim_trailing_chars(&mut out, '-');
    if out.len() <= 14 {
        return string_of(out.as_slice());
    }
    let mut truncated = sub_chars(out.as_slice(), 0, 14);
    trim_trailing_chars(&mut truncated, '-');
    string_of(truncated.as_slice())
}

// ---------------------------------------------------------------------------
// Field helpers
// ---------------------------------------------------------------------------

/// Index of the first character of `s` (from `i`) that is whitespace or `(`.
pub open spec fn date_end_from(s: Seq<char>, i: int) -> int
    decreases s.len() - i,
{
    if i < 0 || i >= s.len() {
        s.len() as int
    } else if is_unicode_whitespace(s[i]) || s[i] == '(' {
        i
    } else {
        date_end_from(s, i + 1)
    }
}

/// The end of a date token lies between its start and the end of the text.
pub proof fn lemma_date_end(s: Seq<char>, i: int)
    requires
        0 <= i <= s.len(),
    ensures
        i <= date_end_from(s, i) <= s.len(),
    decreases s.len() - i,
{
    if i < s.len() && !(is_unicode_whitespace(s[i]) || s[i] == '(') {
        lemma_date_end(s, i + 1);
    }
}

/// The text of an `updated:` value up to its first whitespace or `(`.
pub open spec fn sanitize_updated_spec(raw: Seq<char>) -> Seq<char> {
    raw.subrange(0, date_end_from(raw, 0))
}

/// Take an `updated:` value up to the first whitespace or `(`.
pub fn sanitize_updated(raw: &[char]) -> (r: Vec<char>)
    ensures
        r@ == sanitize_updated_spec(raw@),
{
    let mut i: usize = 0;
    while i < raw.len() && !(char_is_whitespace(raw[i]) || raw[i] == '(')
        invariant
            i <= raw.len(),
            date_end_from(raw@, i as int) == date_end_from(raw@, 0),
        decreases raw.len() - i,
    {
        i += 1;
    }
    sub_chars(raw, 0, i)
}

/// `s` without leading characters satisfying `is_unicode_whitespace`.
pub open spec fn trim_start_ws(s: Seq<char>) -> Seq<char>
    decreases s.len(),
{
    if s.len() > 0 && is_unicode_whitespace(s[0]) {
        trim_start_ws(s.drop_first())
    } else {
        s
    }
}

/// `s` without trailing whitespace.
pub open spec fn trim_end_ws(s: Seq<char>) -> Seq<char>
    decreases s.len(),
{
    if s.len() > 0 && is_unicode_whitespace(s.last()) {
        trim_end_ws(s.drop_last())
    } else {
        s
    }
}

/// `str::trim`.
pub open spec fn trim_ws(s: Seq<char>) -> Seq<char> {
    trim_end_ws(trim_start_ws(s))
}

/// `str::trim_start` over characters.
pub fn trim_start_chars(s: &[char]) -> (r: Vec<char>)
    ensures
        r@ == trim_start_ws(s@),
{
    let mut i: usize = 0;
    assert(s@.subrange(0, s.len() as int) =~= s@);
    while i < s.len() && char_is_whitespace(s[i])
        invariant
            i <= s.len(),
            trim_start_ws(s@.subrange(i as int, s.len() as int)) == trim_start_ws(s@),
        decreases s.len() - i,
    {
        assert(s@.subrange(i as int, s.len() as int).drop_first() =~= s@.subrange(i + 1, s.len() as int));
        i += 1;
    }
    sub_chars(s, i, s.len())
}

/// `str::trim` over characters.
pub fn trim_chars(s: &[char]) -> (r: Vec<char>)
    ensures
        r@ == trim_ws(s@),
{
    let t = trim_start_chars(s);
    let mut end = t.len();
    assert(t@.subrange(0, end as int) =~= t@);
    while end > 0 && char_is_whitespace(t[end - 1])
        invariant
            end <= t.len(),
            trim_end_ws(t@.subrange(0, end as int)) == trim_end_ws(t@),
        decreases end,
    {
        assert(t@.subrange(0, end as int).drop_last() =~= t@.subrange(0, end - 1));
        end -= 1;
    }
    sub_chars(t.as_slice(), 0, end)
}

/// Whether `c` separates inline cross references.
pub open spec fn is_ref_sep(c: char) -> bool {
    c == ',' || is_unicode_whitespace(c)
}

/// Whether `c` is trimmed from the ends of an inline cross-reference list.
pub open spec fn is_ref_trim(c: char) -> bool {
    c == '[' || c == ']' || is_unicode_whitespace(c)
}

pub open spec fn trim_start_ref(s: Seq<char>) -> Seq<char>
    decreases s.len(),
{
    if s.len() > 0 && is_ref_trim(s[0]) {
        trim_start_ref(s.drop_first())
    } else {
        s
    }
}

pub open spec fn trim_end_ref(s: Seq<char>) -> Seq<char>
    decreases s.len(),
{
    if s.len() > 0 && is_ref_trim(s.last()) {
        trim_end_ref(s.drop_last())
    } else {
        s
    }
}

/// Pieces of `s[i..]` between separators, continuing `cur`, appended to
/// `acc` when non-empty.
pub open spec fn ref_pieces_from(s: Seq<char>, i: int, cur: Seq<char>, acc: Seq<Seq<char>>) -> Seq<Seq<char>>
    decreases s.len() - i,
{
    if i < 0 || i >= s.len() {
        if trim_ws(cur).len() > 0 { acc.push(trim_ws(cur)) } else { acc }
    } else if is_ref_sep(s[i]) {
        ref_pieces_from(s, i + 1, Seq::empty(), if trim_ws(cur).len() > 0 { acc.push(trim_ws(cur)) } else { acc })
    } else {
        ref_pieces_from(s, i + 1, cur.push(s[i]), acc)
    }
}

/// The ids of an inline `cross_refs:` value: `[a, b, c]`, `a, b, c` or
/// `a b c`.
pub open spec fn cross_refs_spec(raw: Seq<char>) -> Seq<Seq<char>> {
    ref_pieces_from(trim_end_ref(trim_start_ref(raw)), 0, Seq::empty(), Seq::empty())
}

pub open spec fn strs(v: Vec<String>) -> Seq<Seq<char>> {
    v@.map_values(|a: String| a@)
}

/// Parse an inline `cross_refs:` value.
pub fn parse_cross_refs_inline(raw: &[char]) -> (r: Vec<String>)
    ensures
        strs(r) == cross_refs_spec(raw@),
{
    let mut lo: usize = 0;
    assert(raw@.subrange(0, raw.len() as int) =~= raw@);
    while lo < raw.len() && (raw[lo] == '[' || raw[lo] == ']' || char_is_whitespace(raw[lo]))
        invariant
            lo <= raw.len(),
            trim_start_ref(raw@.subrange(lo as int, raw.len() as int)) == trim_start_ref(raw@),
        decreases raw.len() - lo,
    {
        assert(raw@.subrange(lo as int, raw.len() as int).drop_first() =~= raw@.subrange(lo + 1, raw.len() as int));
        lo += 1;
    }
    let t = sub_chars(raw, lo, raw.len());
    let mut hi = t.len();
    assert(t@.subrange(0, hi as int) =~= t@);
    while hi > 0 && (t[hi - 1] == '[' || t[hi - 1] == ']' || char_is_whitespace(t[hi - 1]))
        invariant
            hi <= t.len(),
            trim_end_ref(t@.subrange(0, hi as int)) == trim_end_ref(t@),
        decreases hi,
    {
        assert(t@.subrange(0, hi as int).drop_last() =~= t@.subrange(0, hi - 1));
        hi -= 1;
    }
    let body = sub_chars(t.as_slice(), 0, hi);
    let mut acc: Vec<String> = Vec::new();
    let mut cur: Vec<char> = Vec::new();
    let mut i: usize = 0;
    assert(strs(acc) =~= Seq::<Seq<char>>::empty());
    assert(cur@ =~= Seq::<char>::empty());
    while i < body.len()
        invariant
            i <= body.len(),
            ref_pieces_from(body@, i as int, cur@, strs(acc)) == cross_refs_spec(raw@),
        decreases body.len() - i,
    {
        if body[i] == ',' || char_is_whitespace(body[i]) {
            let piece = trim_chars(cur.as_slice());
            if piece.len() > 0 {
                let ghost a0 = strs(acc);
                acc.push(string_of(piece.as_slice()));
                assert(strs(acc) =~= a0.push(piece@));
            }
            cur = Vec::new();
        } else {
            cur.push(body[i]);
        }
        i += 1;
    }
    let piece = trim_chars(cur.as_slice());
    if piece.len() > 0 {
        let ghost a0 = strs(acc);
        acc.push(string_of(piece.as_slice()));
        assert(strs(acc) =~= a0.push(piece@));
    }
    acc
}

/// Index type derived from the id's lowercase prefix (longest prefix wins);
/// empty for unrecognized prefixes.
pub open spec fn vault_type_spec(id: Seq<char>) -> Seq<char> {
    let l = lowercase(id);
    if has_prefix(l, "lore"@) {
        "lore"@
    } else if has_prefix(l, "agt"@) {
        "agent"@
    } else if has_prefix(l, "pr"@) {
        "practices"@
    } else if has_prefix(l, "p"@) {
        "project"@
    } else if has_prefix(l, "r"@) {
        "research"@
    } else if has_prefix(l, "s"@) {
        "skill"@
    } else if has_prefix(l, "h"@) {
        "hook"@
    } else {
        Seq::empty()
    }
}

/// [`derive_vault_type`] over characters.
pub fn vault_type_chars(id: &[char]) -> (r: Vec<char>)
    ensures
        r@ == vault_type_spec(id@),
{
    let l = to_lowercase(id);
    let l = l.as_slice();
    if starts_with_str(l, "lore") {
        chars_of("lore")
    } else if starts_with_str(l, "agt") {
        chars_of("agent")
    } else if starts_with_str(l, "pr") {
        chars_of("practices")
    } else if starts_with_str(l, "p") {
        chars_of("project")
    } else if starts_with_str(l, "r") {
        chars_of("research")
    } else if starts_with_str(l, "s") {
        chars_of("skill")
    } else if starts_with_str(l, "h") {
        chars_of("hook")
    } else {
        Vec::new()
    }
}

/// Derive the index type from the id prefix (longest prefix wins); empty
/// for an unrecognized prefix.
pub fn derive_vault_type(id: &str) -> (r: String)
    ensures
        r@ == vault_type_spec(id@),
{
    let c = chars_of(id);
    let t = vault_type_chars(c.as_slice());
    string_of(t.as_slice())
}

/// `s` with every `\` replaced by `/`.
pub open spec fn forward_slashes(s: Seq<char>) -> Seq<char> {
    s.map_values(|c: char| if c == '\\' { '/' } else { c })
}

/// Replace backslashes with forward slashes.
pub fn normalize_path_str(raw: &str) -> (r: String)
    ensures
        r@ == forward_slashes(raw@),
{
    let s = chars_of(raw);
    let mut out: Vec<char> = Vec::new();
    let mut i: usize = 0;
    while i < s.len()
        invariant
            i <= s.len(),
            out@ == forward_slashes(s@.subrange(0, i as int)),
        decreases s.len() - i,
    {
        out.push(if s[i] == '\\' { '/' } else { s[i] });
        i += 1;
        assert(out@ =~= forward_slashes(s@.subrange(0, i as int)));
    }
    assert(s@.subrange(0, s.len() as int) =~= s@);
    string_of(out.as_slice())
}

/// Forward slashes, no trailing slash.
pub fn normalize_canon_str(s: &str) -> (r: String)
    ensures
        r@ == trim_trailing(forward_slashes(s@), '/'),
{
    let n = normalize_path_str(s);
    let mut c = chars_of(n.as_str());
    trim_trailing_chars(&mut c, '/');
    string_of(c.as_slice())
}

} // verus!
