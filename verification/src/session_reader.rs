//! Reading persisted sessions: the events of a session log, full-text
//! search hits with snippets, and the newest-first order of session ids.
use vstd::prelude::*;
use crate::json::{json_document, json_text, json_u64, member, member_text, member_u64, parse_json, JsonNode};
use crate::sorted::{lemma_lex_asymmetric, lemma_lex_total, lemma_lex_transitive, lex_lt, lex_order};
use crate::text::{
    chars_of, contains_chars, contains_seq, first_occurrence, find_chars, lowercase, string_of,
    sub_chars, to_lowercase,
};
use crate::vault::{strs, trim_chars, trim_ws};

verus! {

/// Listing entry of one persisted session.
#[derive(Debug, Clone)]
pub struct SessionMeta {
    pub id: String,
    pub date: String,
    pub event_count: u64,
    pub size_bytes: u64,
}

/// One full-text match inside a persisted session log.
#[derive(Debug, Clone)]
pub struct SessionSearchHit {
    pub session_id: String,
    pub date: String,
    /// Index of the matched event among the session's events.
    pub event_idx: u64,
    pub ts: Option<u64>,
    pub category: Option<String>,
    pub kind: Option<String>,
    /// Excerpt of the matched line, centered on the first match.
    pub snippet: String,
}

/// Characters of snippet context on each side of a match.
pub const SNIPPET_HALF: usize = 80;

/// Length of a snippet without a match.
pub const SNIPPET_WINDOW: usize = 160;

/// The display date of a session id: its first 10 characters.
pub open spec fn date_spec(stem: Seq<char>) -> Seq<char> {
    if stem.len() <= 10 {
        stem
    } else {
        stem.subrange(0, 10)
    }
}

/// Display date from a date-prefixed session id (`YYYY-MM-DD-...`).
pub fn date_from_stem(stem: &str) -> (r: String)
    ensures
        r@ == date_spec(stem@),
{
    let c = chars_of(stem);
    let n = if c.len() <= 10 {
        c.len()
    } else {
        10
    };
    if c.len() <= 10 {
        assert(c@.subrange(0, c@.len() as int) =~= c@);
    }
    string_of(sub_chars(c.as_slice(), 0, n).as_slice())
}

pub open spec fn min_int(a: int, b: int) -> int {
    if a < b {
        a
    } else {
        b
    }
}

/// A snippet of `line` around the first match of `q` in its lowercase
/// form: up to 80 characters of context on each side, with `…` where the
/// line goes on; the first 160 characters when there is no match.
pub open spec fn snippet_spec(line: Seq<char>, q: Seq<char>) -> Seq<char> {
    match first_occurrence(lowercase(line), q, 0) {
        None => line.subrange(0, min_int(SNIPPET_WINDOW as int, line.len() as int)),
        Some(k) => {
            let end = min_int(k + q.len() + SNIPPET_HALF, line.len() as int);
            let start = min_int(
                if k >= SNIPPET_HALF {
                    k - SNIPPET_HALF
                } else {
                    0
                },
                end,
            );
            (if start > 0 {
                seq!['…']
            } else {
                Seq::empty()
            }) + line.subrange(start, end) + (if end < line.len() {
                seq!['…']
            } else {
                Seq::empty()
            })
        },
    }
}

/// Build the snippet of `line` for the lowercase query `q_lower`.
pub fn build_snippet(line: &str, q_lower: &str) -> (r: String)
    ensures
        r@ == snippet_spec(line@, q_lower@),
{
    let chars = chars_of(line);
    let lower = to_lowercase(chars.as_slice());
    let q = chars_of(q_lower);
    match find_chars(lower.as_slice(), q.as_slice()) {
        None => {
            let n = if chars.len() < SNIPPET_WINDOW {
                chars.len()
            } else {
                SNIPPET_WINDOW
            };
            string_of(sub_chars(chars.as_slice(), 0, n).as_slice())
        },
        Some(k) => {
            let len = chars.len();
            let end = if k <= len && q.len() <= len - k && SNIPPET_HALF <= len - k - q.len() {
                k + q.len() + SNIPPET_HALF
            } else {
                len
            };
            let lo = if k >= SNIPPET_HALF {
                k - SNIPPET_HALF
            } else {
                0
            };
            let start = if lo < end {
                lo
            } else {
                end
            };
            let mut out: Vec<char> = Vec::new();
            if start > 0 {
                out.push('…');
            }
            let ghost head = out@;
            let mut i = start;
            while i < end
                invariant
                    start <= i <= end <= len,
                    len == chars@.len(),
                    out@ == head + chars@.subrange(start as int, i as int),
                decreases end - i,
            {
                out.push(chars[i]);
                i += 1;
                assert(out@ =~= head + chars@.subrange(start as int, i as int));
            }
            if end < len {
                out.push('…');
            }
            string_of(out.as_slice())
        },
    }
}

// ---------------------------------------------------------------------------
// Session events
// ---------------------------------------------------------------------------

/// The events of the first `n` lines of a session log: blank lines and
/// lines that are not JSON are skipped.
pub open spec fn events_upto(lines: Seq<Seq<char>>, n: int) -> Seq<JsonNode>
    decreases n,
{
    if n <= 0 || n > lines.len() {
        Seq::empty()
    } else if trim_ws(lines[n - 1]).len() == 0 {
        events_upto(lines, n - 1)
    } else {
        match json_document(lines[n - 1]) {
            Some(v) => events_upto(lines, n - 1).push(v),
            None => events_upto(lines, n - 1),
        }
    }
}

/// The events of a session log, given its lines.
pub fn session_events(lines: &[String]) -> (r: Vec<JsonNode>)
    ensures
        r@ == events_upto(strs_of(lines@), lines@.len() as int),
{
    let ghost lv = strs_of(lines@);
    let mut r: Vec<JsonNode> = Vec::new();
    let mut i: usize = 0;
    while i < lines.len()
        invariant
            i <= lines.len(),
            lv == strs_of(lines@),
            r@ == events_upto(lv, i as int),
        decreases lines.len() - i,
    {
        assert(lv[i as int] == lines@[i as int]@);
        let c = chars_of(lines[i].as_str());
        if trim_chars(c.as_slice()).len() > 0 {
            match parse_json(lines[i].as_str()) {
                Some(v) => r.push(v),
                None => {},
            }
        }
        i += 1;
    }
    r
}

pub open spec fn strs_of(v: Seq<String>) -> Seq<Seq<char>> {
    v.map_values(|s: String| s@)
}

// ---------------------------------------------------------------------------
// Search
// ---------------------------------------------------------------------------

/// The search text of a query: trimmed and lowercased; `None` when it is
/// empty or no hit is wanted.
pub open spec fn query_spec(query: Seq<char>, limit: usize) -> Option<Seq<char>> {
    let q = lowercase(trim_ws(query));
    if q.len() == 0 || limit == 0 {
        None
    } else {
        Some(q)
    }
}

/// [`query_spec`].
pub fn search_query(query: &str, limit: usize) -> (r: Option<String>)
    ensures
        crate::vault::opt_str(r) == query_spec(query@, limit),
{
    let c = chars_of(query);
    let t = trim_chars(c.as_slice());
    let q = to_lowercase(t.as_slice());
    if q.len() == 0 || limit == 0 {
        None
    } else {
        Some(string_of(q.as_slice()))
    }
}

/// [`SessionSearchHit`] with its texts as character sequences.
pub struct HitSpec {
    pub session_id: Seq<char>,
    pub date: Seq<char>,
    pub event_idx: u64,
    pub ts: Option<u64>,
    pub category: Option<Seq<char>>,
    pub kind: Option<Seq<char>>,
    pub snippet: Seq<char>,
}

impl View for SessionSearchHit {
    type V = HitSpec;

    open spec fn view(&self) -> HitSpec {
        HitSpec {
            session_id: self.session_id@,
            date: self.date@,
            event_idx: self.event_idx,
            ts: self.ts,
            category: crate::vault::opt_str(self.category),
            kind: crate::vault::opt_str(self.kind),
            snippet: self.snippet@,
        }
    }
}

/// The hit for event `idx` of session `stem`, read from line `line`.
pub open spec fn hit_spec(stem: Seq<char>, line: Seq<char>, v: JsonNode, idx: nat, q: Seq<char>) -> HitSpec {
    HitSpec {
        session_id: stem,
        date: date_spec(stem),
        event_idx: idx as u64,
        ts: json_u64(member(v, "ts"@)),
        category: json_text(member(v, "category"@)),
        kind: json_text(member(v, "kind"@)),
        snippet: snippet_spec(line, q),
    }
}

/// The hits among the first `n` lines of session `stem`, and the number of
/// events among them (blank and non-JSON lines count as no event).
pub open spec fn hits_upto(stem: Seq<char>, lines: Seq<Seq<char>>, q: Seq<char>, n: int) -> (Seq<HitSpec>, nat)
    decreases n,
{
    if n <= 0 || n > lines.len() {
        (Seq::empty(), 0)
    } else {
        let (hs, idx) = hits_upto(stem, lines, q, n - 1);
        let line = lines[n - 1];
        if trim_ws(line).len() == 0 {
            (hs, idx)
        } else {
            match json_document(line) {
                None => (hs, idx),
                Some(v) => (
                    if contains_seq(lowercase(line), q) {
                        hs.push(hit_spec(stem, line, v, idx, q))
                    } else {
                        hs
                    },
                    idx + 1,
                ),
            }
        }
    }
}

pub open spec fn hit_views(v: Seq<SessionSearchHit>) -> Seq<HitSpec> {
    v.map_values(|h: SessionSearchHit| h@)
}

proof fn lemma_hits_idx(stem: Seq<char>, lines: Seq<Seq<char>>, q: Seq<char>, n: int)
    requires
        0 <= n <= lines.len(),
    ensures
        hits_upto(stem, lines, q, n).1 <= n,
    decreases n,
{
    if n > 0 {
        lemma_hits_idx(stem, lines, q, n - 1);
    }
}

/// The first `room` hits of session `stem` for the lowercase query `q`, in
/// log order.
pub fn search_lines(stem: &str, lines: &[String], q: &str, room: usize) -> (r: Vec<SessionSearchHit>)
    ensures
        ({
            let all = hits_upto(stem@, strs_of(lines@), q@, lines@.len() as int).0;
            hit_views(r@) == all.subrange(0, min_int(all.len() as int, room as int))
        }),
{
    let ghost lv = strs_of(lines@);
    let qc = chars_of(q);
    let date = date_from_stem(stem);
    let mut hits: Vec<SessionSearchHit> = Vec::new();
    let mut idx: u64 = 0;
    let mut i: usize = 0;
    if room == 0 {
        assert(hits_upto(stem@, lv, q@, lv.len() as int).0.subrange(0, 0) =~= hit_views(hits@));
        return hits;
    }
    while i < lines.len()
        invariant
            i <= lines.len(),
            room > 0,
            lv == strs_of(lines@),
            qc@ == q@,
            date@ == date_spec(stem@),
            hit_views(hits@) == hits_upto(stem@, lv, q@, i as int).0,
            idx == hits_upto(stem@, lv, q@, i as int).1,
            hits@.len() < room,
        decreases lines.len() - i,
    {
        proof {
            lemma_hits_idx(stem@, lv, q@, i as int);
        }
        assert(lv[i as int] == lines@[i as int]@);
        let c = chars_of(lines[i].as_str());
        if trim_chars(c.as_slice()).len() > 0 {
            match parse_json(lines[i].as_str()) {
                Some(v) => {
                    let lower = to_lowercase(c.as_slice());
                    if contains_chars(lower.as_slice(), qc.as_slice()) {
                        let ghost before = hit_views(hits@);
                        let hit = SessionSearchHit {
                            session_id: stem.to_string(),
                            date: date.clone(),
                            event_idx: idx,
                            ts: member_u64(&v, "ts"),
                            category: member_text(&v, "category"),
                            kind: member_text(&v, "kind"),
                            snippet: build_snippet(lines[i].as_str(), q),
                        };
                        hits.push(hit);
                        assert(hit_views(hits@) =~= before.push(hit_spec(stem@, lv[i as int], v, idx as nat, q@)));
                        if hits.len() >= room {
                            proof {
                                lemma_hits_prefix(stem@, lv, q@, i + 1, lv.len() as int);
                            }
                            return hits;
                        }
                    }
                    idx += 1;
                },
                None => {},
            }
        }
        i += 1;
    }
    assert(hit_views(hits@) =~= hits_upto(stem@, lv, q@, lv.len() as int).0.subrange(0, hits@.len() as int));
    hits
}

/// Hits only accumulate: those of a prefix of the lines begin those of a
/// longer prefix.
proof fn lemma_hits_prefix(stem: Seq<char>, lines: Seq<Seq<char>>, q: Seq<char>, m: int, n: int)
    requires
        0 <= m <= n <= lines.len(),
    ensures
        hits_upto(stem, lines, q, m).0.len() <= hits_upto(stem, lines, q, n).0.len(),
        hits_upto(stem, lines, q, n).0.subrange(0, hits_upto(stem, lines, q, m).0.len() as int)
            == hits_upto(stem, lines, q, m).0,
    decreases n - m,
{
    if m < n {
        lemma_hits_prefix(stem, lines, q, m, n - 1);
        let a = hits_upto(stem, lines, q, m).0;
        let b = hits_upto(stem, lines, q, n - 1).0;
        let c = hits_upto(stem, lines, q, n).0;
        assert(c == b || (c.len() == b.len() + 1 && c.subrange(0, b.len() as int) == b));
        assert(c.subrange(0, a.len() as int) =~= b.subrange(0, a.len() as int));
    } else {
        let a = hits_upto(stem, lines, q, m).0;
        assert(a.subrange(0, a.len() as int) =~= a);
    }
}

} // verus!

verus! {

/// No later text comes before an earlier one.
pub open spec fn descending(s: Seq<Seq<char>>) -> bool {
    forall|i: int, j: int| 0 <= i < j < s.len() ==> !lex_lt(#[trigger] s[i], #[trigger] s[j])
}

/// Session ids newest first: sorted descending (ids are date-prefixed).
pub fn sort_ids_desc(ids: Vec<String>) -> (r: Vec<String>)
    ensures
        strs(r).to_multiset() == strs(ids).to_multiset(),
        descending(strs(r)),
{
    let ghost inp = strs(ids);
    let mut ids = ids;
    let mut rev: Vec<String> = Vec::new();
    let n = ids.len();
    while ids.len() > 0
        invariant
            ids@.len() <= n,
            n == inp.len(),
            strs(ids) == inp.subrange(0, ids@.len() as int),
            strs(rev) == inp.subrange(ids@.len() as int, n as int).reverse(),
        decreases ids@.len(),
    {
        let ghost k = ids@.len() - 1;
        let ghost before = strs(rev);
        let ghost ids_before = ids@;
        assert(strs(ids)[k] == ids_before[k]@);
        let x = ids.pop().unwrap();
        assert(x == ids_before[k]);
        assert(ids@ =~= ids_before.drop_last());
        let ghost xv = x@;
        rev.push(x);
        assert(strs(rev) =~= before.push(xv));
        assert(strs(ids) =~= inp.subrange(0, k));
        assert(strs(rev) =~= inp.subrange(k, n as int).reverse());
    }
    let mut out: Vec<String> = Vec::new();
    let mut i: usize = 0;
    assert(strs(out) =~= inp.subrange(0, 0));
    while i < n
        invariant
            i <= n,
            n == inp.len(),
            strs(rev) == inp.subrange(i as int, n as int).reverse(),
            strs(out).to_multiset() == inp.subrange(0, i as int).to_multiset(),
            descending(strs(out)),
        decreases n - i,
    {
        let ghost r_before = rev@;
        assert(strs(rev)[strs(rev).len() - 1] == r_before[r_before.len() - 1]@);
        assert(strs(rev)[strs(rev).len() - 1] == inp[i as int]);
        let x = rev.pop().unwrap();
        assert(x == r_before[r_before.len() - 1]);
        assert(rev@ =~= r_before.drop_last());
        assert(x@ == inp[i as int]);
        assert(strs(rev) =~= strs_of(r_before).drop_last());
        assert(strs(rev) =~= inp.subrange(i + 1, n as int).reverse());
        let xc = chars_of(x.as_str());
        let ghost o0 = strs(out);
        let mut p: usize = 0;
        while p < out.len()
            invariant
                p <= out@.len(),
                o0 == strs(out),
                xc@ == x@,
                descending(o0),
                forall|k: int| 0 <= k < p ==> !lex_lt(#[trigger] o0[k], x@),
            ensures
                p <= out@.len(),
                forall|k: int| 0 <= k < p ==> !lex_lt(#[trigger] o0[k], x@),
                p < out@.len() ==> lex_lt(o0[p as int], x@),
            decreases out@.len() - p,
        {
            let c = chars_of(out[p].as_str());
            assert(o0[p as int] == out@[p as int]@);
            if lex_order(c.as_slice(), xc.as_slice()) < 0 {
                break;
            }
            p += 1;
        }
        proof {
            if p < o0.len() {
                assert forall|k: int| p <= k < o0.len() implies lex_lt(#[trigger] o0[k], x@) by {
                    if k > p {
                        lemma_lex_total(o0[k], o0[p as int]);
                        if lex_lt(o0[k], o0[p as int]) {
                            lemma_lex_transitive(o0[k], o0[p as int], x@);
                        }
                    }
                }
            }
        }
        let ghost xv = x@;
        out.insert(p, x);
        proof {
            let o1 = strs(out);
            assert(o1 =~= o0.insert(p as int, xv));
            assert(inp.subrange(0, i + 1) =~= inp.subrange(0, i as int).push(xv));
            vstd::seq_lib::to_multiset_insert(o0, p as int, xv);
            vstd::seq_lib::to_multiset_build(inp.subrange(0, i as int), xv);
            assert forall|a: int, b: int| 0 <= a < b < o1.len() implies !lex_lt(#[trigger] o1[a], #[trigger] o1[b]) by {
                if a < p && b < p {
                } else if a < p && b == p {
                } else if a < p && b > p {
                    assert(o1[b] == o0[b - 1]);
                    if lex_lt(o0[a], o0[b - 1]) {
                    }
                } else if a == p {
                    assert(o1[b] == o0[b - 1]);
                    lemma_lex_asymmetric(o0[b - 1], xv);
                } else {
                    assert(o1[a] == o0[a - 1]);
                    assert(o1[b] == o0[b - 1]);
                }
            }
        }
        i += 1;
    }
    assert(inp.subrange(0, n as int) =~= inp);
    out
}

} // verus!
