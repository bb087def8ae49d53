//! Cross-session event pattern comparison: per-session statistics computed
//! from the lines of a session log, and the structural diff of two of them.
use vstd::prelude::*;
use crate::json::{json_document, json_text, json_u64, member, member_text, member_u64, parse_json};
use crate::sorted::{insert_sorted_distinct, strictly_sorted};
use crate::text::{chars_eq_str, chars_of, contains_chars, contains_seq, string_of};
use crate::vault::{strs, trim_chars, trim_ws};

verus! {

/// Per-category event count.
#[derive(Debug, Clone)]
pub struct CategoryCount {
    pub category: String,
    pub count: u64,
}

/// Summary statistics for a single session.
#[derive(Debug, Clone)]
pub struct SessionSummary {
    pub session_id: String,
    pub event_count: u64,
    pub error_count: u64,
    pub duration_ms: u64,
    pub category_counts: Vec<CategoryCount>,
    /// Distinct `category::kind` texts present in the session, ascending.
    pub event_types: Vec<String>,
    /// Per-minute event counts (index 0 = first minute of the session).
    pub timeline_buckets: Vec<u64>,
}

/// A frequency delta for a single event category.
#[derive(Debug, Clone)]
pub struct FrequencyDelta {
    pub category: String,
    pub baseline_count: u64,
    pub compare_count: u64,
    /// Signed difference: compare - baseline.
    pub delta: i64,
}

/// The full diff between a baseline and a comparison session.
#[derive(Debug, Clone)]
pub struct SessionDiff {
    pub baseline: SessionSummary,
    pub compare: SessionSummary,
    /// Event types present in compare but absent in baseline, ascending.
    pub new_types: Vec<String>,
    /// Event types present in baseline but absent in compare, ascending.
    pub missing_types: Vec<String>,
    /// Per-category frequency deltas, by absolute delta descending.
    pub frequency_deltas: Vec<FrequencyDelta>,
    /// compare.error_count - baseline.error_count.
    pub error_delta: i64,
    /// compare.duration_ms - baseline.duration_ms.
    pub duration_delta: i64,
}

/// Bucket granularity: one minute.
pub const BUCKET_MS: u64 = 60000;

/// Cap on the number of buckets (24 hours).
pub const MAX_BUCKETS: u64 = 1440;

// ---------------------------------------------------------------------------
// Records
// ---------------------------------------------------------------------------

/// What the statistics read of one logged event.
pub struct EventRec {
    pub category: Seq<char>,
    pub kind: Seq<char>,
    pub ts: u64,
}

/// The fields of one event, as read from its log line.
pub struct EventRecord {
    pub category: String,
    pub kind: String,
    pub ts: u64,
}

impl View for EventRecord {
    type V = EventRec;

    open spec fn view(&self) -> EventRec {
        EventRec { category: self.category@, kind: self.kind@, ts: self.ts }
    }
}

pub open spec fn text_or_unknown(t: Option<Seq<char>>) -> Seq<char> {
    match t {
        Some(s) => s,
        None => "unknown"@,
    }
}

/// The record of a log line: `None` for a blank line or one that is not
/// JSON; a missing `category` or `kind` reads `"unknown"`, a missing `ts`
/// reads 0.
pub open spec fn line_record(line: Seq<char>) -> Option<EventRec> {
    if trim_ws(line).len() == 0 {
        None
    } else {
        match json_document(line) {
            None => None,
            Some(v) => Some(
                EventRec {
                    category: text_or_unknown(json_text(member(v, "category"@))),
                    kind: text_or_unknown(json_text(member(v, "kind"@))),
                    ts: match json_u64(member(v, "ts"@)) {
                        Some(t) => t,
                        None => 0,
                    },
                },
            ),
        }
    }
}

/// The records of the first `n` lines, in order.
pub open spec fn records_upto(lines: Seq<Seq<char>>, n: int) -> Seq<EventRec>
    decreases n,
{
    if n <= 0 || n > lines.len() {
        Seq::empty()
    } else {
        match line_record(lines[n - 1]) {
            Some(r) => records_upto(lines, n - 1).push(r),
            None => records_upto(lines, n - 1),
        }
    }
}

pub open spec fn records_of(lines: Seq<Seq<char>>) -> Seq<EventRec> {
    records_upto(lines, lines.len() as int)
}

pub open spec fn rec_views(v: Seq<EventRecord>) -> Seq<EventRec> {
    v.map_values(|r: EventRecord| r@)
}

// ---------------------------------------------------------------------------
// Statistics
// ---------------------------------------------------------------------------

/// An error event: category `system` with `error` in its kind.
pub open spec fn is_error(r: EventRec) -> bool {
    r.category == "system"@ && contains_seq(r.kind, "error"@)
}

/// Number of errors among the first `n` records.
pub open spec fn errors_upto(recs: Seq<EventRec>, n: int) -> nat
    decreases n,
{
    if n <= 0 || n > recs.len() {
        0
    } else {
        errors_upto(recs, n - 1) + if is_error(recs[n - 1]) { 1nat } else { 0nat }
    }
}

/// The first positive timestamp among the first `n` records.
pub open spec fn first_ts_upto(recs: Seq<EventRec>, n: int) -> Option<u64>
    decreases n,
{
    if n <= 0 || n > recs.len() {
        None
    } else {
        match first_ts_upto(recs, n - 1) {
            Some(t) => Some(t),
            None => if recs[n - 1].ts > 0 {
                Some(recs[n - 1].ts)
            } else {
                None
            },
        }
    }
}

/// The largest timestamp among the first `n` records (0 when none).
pub open spec fn max_ts_upto(recs: Seq<EventRec>, n: int) -> u64
    decreases n,
{
    if n <= 0 || n > recs.len() {
        0
    } else {
        let m = max_ts_upto(recs, n - 1);
        if recs[n - 1].ts > m {
            recs[n - 1].ts
        } else {
            m
        }
    }
}

/// Time from the first to the last positive timestamp.
pub open spec fn duration_spec(recs: Seq<EventRec>) -> u64 {
    match first_ts_upto(recs, recs.len() as int) {
        Some(f) => if max_ts_upto(recs, recs.len() as int) >= f {
            (max_ts_upto(recs, recs.len() as int) - f) as u64
        } else {
            0
        },
        None => 0,
    }
}

/// The minute bucket of timestamp `t` in a session starting at `base`.
pub open spec fn bucket_of(t: u64, base: u64) -> int {
    (if t >= base {
        t - base
    } else {
        0
    }) / (BUCKET_MS as int)
}

/// Number of records among the first `n` with a positive timestamp in
/// bucket `b`.
pub open spec fn bucket_hits(recs: Seq<EventRec>, n: int, base: u64, b: int) -> nat
    decreases n,
{
    if n <= 0 || n > recs.len() {
        0
    } else {
        bucket_hits(recs, n - 1, base, b) + if recs[n - 1].ts > 0 && bucket_of(
            recs[n - 1].ts,
            base,
        ) == b {
            1nat
        } else {
            0nat
        }
    }
}

/// One bucket per minute of the session (at least one, at most
/// [`MAX_BUCKETS`]).
pub open spec fn bucket_total(duration: u64) -> int {
    let n = duration / BUCKET_MS + 1;
    if n < MAX_BUCKETS {
        n as int
    } else {
        MAX_BUCKETS as int
    }
}

/// The per-minute timeline; empty when no record has a timestamp.
pub open spec fn buckets_spec(recs: Seq<EventRec>) -> Seq<u64> {
    match first_ts_upto(recs, recs.len() as int) {
        None => Seq::empty(),
        Some(base) => Seq::new(
            bucket_total(duration_spec(recs)) as nat,
            |b: int| bucket_hits(recs, recs.len() as int, base, b) as u64,
        ),
    }
}

/// Number of the first `n` records in category `c`.
pub open spec fn cat_hits(recs: Seq<EventRec>, n: int, c: Seq<char>) -> nat
    decreases n,
{
    if n <= 0 || n > recs.len() {
        0
    } else {
        cat_hits(recs, n - 1, c) + if recs[n - 1].category == c {
            1nat
        } else {
            0nat
        }
    }
}

/// The `category::kind` text of a record.
pub open spec fn type_of(r: EventRec) -> Seq<char> {
    r.category + "::"@ + r.kind
}

pub open spec fn count_pairs(v: Seq<CategoryCount>) -> Seq<(Seq<char>, u64)> {
    v.map_values(|c: CategoryCount| (c.category@, c.count))
}

/// What the category counts of a summary of `recs` are: one entry per
/// category that occurs, with its number of records, by count descending
/// (the order among equal counts is not fixed).
pub open spec fn category_counts_ok(out: Seq<(Seq<char>, u64)>, recs: Seq<EventRec>) -> bool {
    &&& forall|a: int, b: int| 0 <= a < b < out.len() ==> (#[trigger] out[a]).0 != (#[trigger] out[b]).0
    &&& forall|a: int| 0 <= a < out.len() ==> (#[trigger] out[a]).1 == cat_hits(recs, recs.len() as int, out[a].0)
    &&& forall|a: int| 0 <= a < out.len() ==> (#[trigger] out[a]).1 > 0
    &&& forall|k: int| 0 <= k < recs.len() ==> exists|a: int| 0 <= a < out.len() && (#[trigger] out[a]).0 == (#[trigger] recs[k]).category
    &&& forall|a: int, b: int| 0 <= a < b < out.len() ==> (#[trigger] out[a]).1 >= (#[trigger] out[b]).1
}

/// Whether some record among the first `n` has type `t`.
pub open spec fn has_type(recs: Seq<EventRec>, n: int, t: Seq<char>) -> bool {
    exists|k: int| 0 <= k < n && type_of(#[trigger] recs[k]) == t
}

/// The summary of `recs` under `session_id`.
pub open spec fn summary_ok(s: SessionSummary, session_id: Seq<char>, recs: Seq<EventRec>) -> bool {
    &&& s.session_id@ == session_id
    &&& s.event_count == recs.len()
    &&& s.error_count == errors_upto(recs, recs.len() as int)
    &&& s.duration_ms == duration_spec(recs)
    &&& s.timeline_buckets@ == buckets_spec(recs)
    &&& category_counts_ok(count_pairs(s.category_counts@), recs)
    &&& strictly_sorted(strs(s.event_types))
    &&& forall|t: Seq<char>| strs(s.event_types).contains(t) <==> has_type(recs, recs.len() as int, t)
}

/// The sum of the counts of a list of category counts.
pub open spec fn counts_total(p: Seq<(Seq<char>, u64)>) -> int
    decreases p.len(),
{
    if p.len() == 0 {
        0
    } else {
        counts_total(p.drop_last()) + p.last().1
    }
}

/// The records among the first `n` whose category is one of `p`'s, counted
/// once per entry of `p`.
pub open spec fn hits_sum(recs: Seq<EventRec>, n: int, p: Seq<(Seq<char>, u64)>) -> int
    decreases p.len(),
{
    if p.len() == 0 {
        0
    } else {
        hits_sum(recs, n, p.drop_last()) + cat_hits(recs, n, p.last().0)
    }
}

/// How many entries of `p` are for category `c`.
pub open spec fn entries_for(p: Seq<(Seq<char>, u64)>, c: Seq<char>) -> int
    decreases p.len(),
{
    if p.len() == 0 {
        0
    } else {
        entries_for(p.drop_last(), c) + if p.last().0 == c {
            1int
        } else {
            0int
        }
    }
}

proof fn lemma_hits_sum_step(recs: Seq<EventRec>, n: int, p: Seq<(Seq<char>, u64)>)
    requires
        1 <= n <= recs.len(),
    ensures
        hits_sum(recs, n, p) == hits_sum(recs, n - 1, p) + entries_for(p, recs[n - 1].category),
    decreases p.len(),
{
    if p.len() > 0 {
        lemma_hits_sum_step(recs, n, p.drop_last());
    }
}

proof fn lemma_entries_for_absent(p: Seq<(Seq<char>, u64)>, c: Seq<char>)
    requires
        forall|a: int| 0 <= a < p.len() ==> (#[trigger] p[a]).0 != c,
    ensures
        entries_for(p, c) == 0,
    decreases p.len(),
{
    if p.len() > 0 {
        let q = p.drop_last();
        assert forall|a: int| 0 <= a < q.len() implies (#[trigger] q[a]).0 != c by {
            assert(q[a] == p[a]);
        }
        lemma_entries_for_absent(q, c);
    }
}

proof fn lemma_entries_for_once(p: Seq<(Seq<char>, u64)>, c: Seq<char>, k: int)
    requires
        forall|a: int, b: int| 0 <= a < b < p.len() ==> (#[trigger] p[a]).0 != (#[trigger] p[b]).0,
        0 <= k < p.len(),
        p[k].0 == c,
    ensures
        entries_for(p, c) == 1,
    decreases p.len(),
{
    let q = p.drop_last();
    if k == p.len() - 1 {
        assert forall|a: int| 0 <= a < q.len() implies (#[trigger] q[a]).0 != c by {
            assert(q[a] == p[a]);
        }
        lemma_entries_for_absent(q, c);
    } else {
        assert forall|a: int, b: int| 0 <= a < b < q.len() implies (#[trigger] q[a]).0 != (#[trigger] q[b]).0 by {
            assert(q[a] == p[a] && q[b] == p[b]);
        }
        assert(q[k] == p[k]);
        lemma_entries_for_once(q, c, k);
        assert(p.last() == p[p.len() - 1]);
    }
}

/// Every record's category has an entry in `p`.
pub open spec fn categories_covered(recs: Seq<EventRec>, p: Seq<(Seq<char>, u64)>) -> bool {
    forall|k: int| 0 <= k < recs.len() ==> exists|a: int| 0 <= a < p.len() && (#[trigger] p[a]).0 == (#[trigger] recs[k]).category
}

proof fn lemma_hits_sum_covers(recs: Seq<EventRec>, n: int, p: Seq<(Seq<char>, u64)>)
    requires
        0 <= n <= recs.len(),
        forall|a: int, b: int| 0 <= a < b < p.len() ==> (#[trigger] p[a]).0 != (#[trigger] p[b]).0,
        categories_covered(recs, p),
    ensures
        hits_sum(recs, n, p) == n,
    decreases n,
{
    if n == 0 {
        lemma_hits_sum_zero(recs, p);
    } else {
        lemma_hits_sum_covers(recs, n - 1, p);
        lemma_hits_sum_step(recs, n, p);
        let c = recs[n - 1].category;
        assert(exists|a: int| 0 <= a < p.len() && (#[trigger] p[a]).0 == recs[n - 1].category);
        let a = choose|a: int| 0 <= a < p.len() && (#[trigger] p[a]).0 == recs[n - 1].category;
        lemma_entries_for_once(p, c, a);
    }
}

proof fn lemma_hits_sum_zero(recs: Seq<EventRec>, p: Seq<(Seq<char>, u64)>)
    ensures
        hits_sum(recs, 0, p) == 0,
    decreases p.len(),
{
    if p.len() > 0 {
        lemma_hits_sum_zero(recs, p.drop_last());
    }
}

proof fn lemma_total_is_hits(recs: Seq<EventRec>, p: Seq<(Seq<char>, u64)>)
    requires
        forall|a: int| 0 <= a < p.len() ==> (#[trigger] p[a]).1 == cat_hits(recs, recs.len() as int, p[a].0),
    ensures
        counts_total(p) == hits_sum(recs, recs.len() as int, p),
    decreases p.len(),
{
    if p.len() > 0 {
        let q = p.drop_last();
        assert forall|a: int| 0 <= a < q.len() implies (#[trigger] q[a]).1 == cat_hits(recs, recs.len() as int, q[a].0) by {
            assert(q[a] == p[a]);
        }
        lemma_total_is_hits(recs, q);
        assert(p.last() == p[p.len() - 1]);
    }
}

/// The number of errors among the first `n` records is the number of those
/// that are `system` events whose kind mentions `error`.
proof fn lemma_errors_are_filtered(recs: Seq<EventRec>, n: int)
    requires
        0 <= n <= recs.len(),
    ensures
        errors_upto(recs, n) == recs.subrange(0, n).filter(
            |r: EventRec| r.category == "system"@ && contains_seq(r.kind, "error"@),
        ).len(),
    decreases n,
{
    reveal(Seq::filter);
    let pred = |r: EventRec| r.category == "system"@ && contains_seq(r.kind, "error"@);
    let t = recs.subrange(0, n);
    if n > 0 {
        lemma_errors_are_filtered(recs, n - 1);
        assert(t.drop_last() =~= recs.subrange(0, n - 1));
        assert(t.last() == recs[n - 1]);
    } else {
        assert(t.len() == 0);
    }
}

/// Law: the error count of a summary is the number of its events whose
/// category is `system` and whose kind contains `error`; an event of any
/// other category, or whose kind does not contain `error`, never counts.
pub proof fn lemma_error_count_counts_system_errors(s: SessionSummary, session_id: Seq<char>, recs: Seq<EventRec>)
    requires
        summary_ok(s, session_id, recs),
    ensures
        s.error_count == recs.filter(|r: EventRec| r.category == "system"@ && contains_seq(r.kind, "error"@)).len(),
{
    lemma_errors_are_filtered(recs, recs.len() as int);
    assert(recs.subrange(0, recs.len() as int) =~= recs);
}

/// `max_ts_upto` is the largest timestamp among the first `n` records: none
/// is larger, and (when there are records) one of them has it.
proof fn lemma_max_ts(recs: Seq<EventRec>, n: int)
    requires
        0 <= n <= recs.len(),
    ensures
        forall|j: int| 0 <= j < n ==> recs[j].ts <= max_ts_upto(recs, n),
        n > 0 ==> exists|j: int| 0 <= j < n && recs[j].ts == max_ts_upto(recs, n),
        n == 0 ==> max_ts_upto(recs, n) == 0,
    decreases n,
{
    if n > 0 {
        lemma_max_ts(recs, n - 1);
        if n - 1 == 0 {
            assert(recs[0].ts >= 0);
        }
    }
}

/// `first_ts_upto` is the timestamp of the first record with a positive
/// one, or none when there is no such record.
proof fn lemma_first_ts(recs: Seq<EventRec>, n: int)
    requires
        0 <= n <= recs.len(),
    ensures
        first_ts_upto(recs, n) is None <==> forall|j: int| 0 <= j < n ==> recs[j].ts == 0,
        first_ts_upto(recs, n) matches Some(f) ==> exists|i: int|
            0 <= i < n && recs[i].ts == f && f > 0 && forall|j: int| 0 <= j < i ==> recs[j].ts == 0,
    decreases n,
{
    if n > 0 {
        lemma_first_ts(recs, n - 1);
        if first_ts_upto(recs, n - 1) is None && recs[n - 1].ts > 0 {
            assert(forall|j: int| 0 <= j < n - 1 ==> recs[j].ts == 0);
        }
    }
}

/// Law of the session's duration: with no positive timestamp it is 0 and
/// the timeline is empty; otherwise it runs from the first positive
/// timestamp (in log order) to the largest one: every record's time lies
/// within it, and some record ends it.
pub proof fn lemma_duration(recs: Seq<EventRec>)
    ensures
        (forall|j: int| 0 <= j < recs.len() ==> recs[j].ts == 0) ==> duration_spec(recs) == 0 && buckets_spec(recs).len() == 0,
        forall|i: int|
            0 <= i < recs.len() && recs[i].ts > 0 && (forall|j: int| 0 <= j < i ==> recs[j].ts == 0) ==> {
                &&& forall|j: int| 0 <= j < recs.len() ==> recs[j].ts <= recs[i].ts + duration_spec(recs)
                &&& exists|j: int| 0 <= j < recs.len() && recs[j].ts == recs[i].ts + duration_spec(recs)
                &&& 1 <= buckets_spec(recs).len() <= 1440
            },
{
    let n = recs.len() as int;
    lemma_first_ts(recs, n);
    lemma_max_ts(recs, n);
    assert forall|i: int|
        0 <= i < recs.len() && recs[i].ts > 0 && (forall|j: int| 0 <= j < i ==> recs[j].ts == 0) implies {
            &&& forall|j: int| 0 <= j < recs.len() ==> recs[j].ts <= recs[i].ts + duration_spec(recs)
            &&& exists|j: int| 0 <= j < recs.len() && recs[j].ts == recs[i].ts + duration_spec(recs)
            &&& 1 <= buckets_spec(recs).len() <= 1440
        } by {
        assert(first_ts_upto(recs, n) is Some);
        let f = first_ts_upto(recs, n)->0;
        let i2 = choose|i2: int| 0 <= i2 < n && recs[i2].ts == f && f > 0 && forall|j: int| 0 <= j < i2 ==> recs[j].ts == 0;
        if i2 < i {
            assert(recs[i2].ts == 0);
        } else if i < i2 {
            assert(recs[i].ts == 0);
        }
        assert(recs[i].ts <= max_ts_upto(recs, n));
        let jm = choose|j: int| 0 <= j < n && recs[j].ts == max_ts_upto(recs, n);
        assert(recs[jm].ts == recs[i].ts + duration_spec(recs));
    }
}

/// Law: the category counts of a summary add up to its event count.
pub proof fn lemma_category_counts_sum(s: SessionSummary, session_id: Seq<char>, recs: Seq<EventRec>)
    requires
        summary_ok(s, session_id, recs),
    ensures
        counts_total(count_pairs(s.category_counts@)) == s.event_count,
{
    let p = count_pairs(s.category_counts@);
    lemma_total_is_hits(recs, p);
    assert(categories_covered(recs, p));
    lemma_hits_sum_covers(recs, recs.len() as int, p);
}


} // verus!

verus! {

/// At most `n` of the first `n` records are errors.
pub proof fn lemma_errors_le(recs: Seq<EventRec>, n: int)
    ensures
        errors_upto(recs, n) <= if n < 0 { 0 } else { n },
    decreases n,
{
    if n > 0 && n <= recs.len() {
        lemma_errors_le(recs, n - 1);
    }
}

/// At most `n` of the first `n` records fall in a bucket.
pub proof fn lemma_bucket_hits_le(recs: Seq<EventRec>, n: int, base: u64, b: int)
    ensures
        bucket_hits(recs, n, base, b) <= if n < 0 { 0 } else { n },
    decreases n,
{
    if n > 0 && n <= recs.len() {
        lemma_bucket_hits_le(recs, n - 1, base, b);
    }
}

/// At most `n` of the first `n` records have a given category.
pub proof fn lemma_cat_hits_le(recs: Seq<EventRec>, n: int, c: Seq<char>)
    ensures
        cat_hits(recs, n, c) <= if n < 0 { 0 } else { n },
    decreases n,
{
    if n > 0 && n <= recs.len() {
        lemma_cat_hits_le(recs, n - 1, c);
    }
}

/// A category none of the first `n` records has is counted zero times.
pub proof fn lemma_cat_hits_absent(recs: Seq<EventRec>, n: int, c: Seq<char>)
    requires
        0 <= n <= recs.len(),
        forall|k: int| 0 <= k < n ==> (#[trigger] recs[k]).category != c,
    ensures
        cat_hits(recs, n, c) == 0,
    decreases n,
{
    if n > 0 {
        lemma_cat_hits_absent(recs, n - 1, c);
    }
}

/// The record of one log line ([`line_record`]).
pub fn record_of_line(line: &str) -> (r: Option<EventRecord>)
    ensures
        match r {
            Some(e) => line_record(line@) == Some(e@),
            None => line_record(line@) is None,
        },
{
    let c = chars_of(line);
    if trim_chars(c.as_slice()).len() == 0 {
        return None;
    }
    let v = match parse_json(line) {
        Some(v) => v,
        None => return None,
    };
    let category = match member_text(&v, "category") {
        Some(s) => s,
        None => "unknown".to_string(),
    };
    let kind = match member_text(&v, "kind") {
        Some(s) => s,
        None => "unknown".to_string(),
    };
    let ts = match member_u64(&v, "ts") {
        Some(t) => t,
        None => 0,
    };
    Some(EventRecord { category, kind, ts })
}

pub open spec fn line_views(lines: Seq<String>) -> Seq<Seq<char>> {
    lines.map_values(|s: String| s@)
}

/// The records of the lines that hold one, in order.
pub fn records_of_lines(lines: &[String]) -> (r: Vec<EventRecord>)
    ensures
        rec_views(r@) == records_of(line_views(lines@)),
{
    let ghost lv = line_views(lines@);
    let mut r: Vec<EventRecord> = Vec::new();
    let mut i: usize = 0;
    assert(rec_views(r@) =~= records_upto(lv, 0));
    while i < lines.len()
        invariant
            i <= lines.len(),
            lv == line_views(lines@),
            rec_views(r@) == records_upto(lv, i as int),
        decreases lines.len() - i,
    {
        assert(lv[i as int] == lines@[i as int]@);
        let ghost before = rec_views(r@);
        match record_of_line(lines[i].as_str()) {
            Some(e) => {
                r.push(e);
                assert(rec_views(r@) =~= before.push(r@[r@.len() - 1]@));
            },
            None => {},
        }
        i += 1;
    }
    r
}

/// Error count, first timestamp and largest timestamp of the records.
fn scan_totals(recs: &Vec<EventRecord>) -> (r: (u64, Option<u64>, u64))
    ensures
        r.0 == errors_upto(rec_views(recs@), recs@.len() as int),
        r.1 == first_ts_upto(rec_views(recs@), recs@.len() as int),
        r.2 == max_ts_upto(rec_views(recs@), recs@.len() as int),
{
    let ghost rv = rec_views(recs@);
    let pat = chars_of("error");
    let mut errors: u64 = 0;
    let mut first: Option<u64> = None;
    let mut last: u64 = 0;
    let mut i: usize = 0;
    while i < recs.len()
        invariant
            i <= recs.len(),
            rv == rec_views(recs@),
            pat@ == "error"@,
            errors == errors_upto(rv, i as int),
            first == first_ts_upto(rv, i as int),
            last == max_ts_upto(rv, i as int),
        decreases recs.len() - i,
    {
        proof {
            lemma_errors_le(rv, i as int);
        }
        let r = &recs[i];
        assert(rv[i as int] == r@);
        let cat = chars_of(r.category.as_str());
        let kind = chars_of(r.kind.as_str());
        if chars_eq_str(cat.as_slice(), "system") && contains_chars(kind.as_slice(), pat.as_slice()) {
            errors += 1;
        }
        if r.ts > 0 && first.is_none() {
            first = Some(r.ts);
        }
        if r.ts > last {
            last = r.ts;
        }
        i += 1;
    }
    (errors, first, last)
}

/// The per-minute timeline of the records, for a session starting at
/// `base` and lasting `duration` ms.
fn timeline(recs: &Vec<EventRecord>, base: u64, duration: u64) -> (r: Vec<u64>)
    ensures
        r@ == Seq::new(
            bucket_total(duration) as nat,
            |b: int| bucket_hits(rec_views(recs@), recs@.len() as int, base, b) as u64,
        ),
{
    let ghost rv = rec_views(recs@);
    let q = duration / BUCKET_MS + 1;
    let total: usize = if q < MAX_BUCKETS {
        q as usize
    } else {
        MAX_BUCKETS as usize
    };
    assert(total == bucket_total(duration));
    let mut r: Vec<u64> = Vec::new();
    while r.len() < total
        invariant
            r.len() <= total,
            forall|b: int| 0 <= b < r.len() ==> r@[b] == 0,
        decreases total - r.len(),
    {
        r.push(0);
    }
    let mut i: usize = 0;
    while i < recs.len()
        invariant
            i <= recs.len(),
            rv == rec_views(recs@),
            r.len() == total,
            total == bucket_total(duration),
            forall|b: int| 0 <= b < total ==> r@[b] == bucket_hits(rv, i as int, base, b),
        decreases recs.len() - i,
    {
        let t = recs[i].ts;
        assert(rv[i as int] == recs@[i as int]@);
        if t > 0 {
            let off = if t >= base {
                t - base
            } else {
                0
            };
            let idx = off / BUCKET_MS;
            if idx < total as u64 {
                proof {
                    lemma_bucket_hits_le(rv, i as int, base, idx as int);
                }
                let k = idx as usize;
                let old_v = r[k];
                r.set(k, old_v + 1);
            }
        }
        i += 1;
    }
    proof {
        assert forall|b: int| 0 <= b < total implies bucket_hits(rv, recs@.len() as int, base, b) <= u64::MAX by {
            lemma_bucket_hits_le(rv, recs@.len() as int, base, b);
        }
    }
    assert(r@ =~= Seq::new(
        bucket_total(duration) as nat,
        |b: int| bucket_hits(rv, recs@.len() as int, base, b) as u64,
    ));
    r
}

} // verus!

verus! {

/// The categories of the records, each once with its number of records, in
/// order of first appearance.
fn tally_categories(recs: &Vec<EventRecord>) -> (r: Vec<CategoryCount>)
    ensures
        ({
            let rv = rec_views(recs@);
            let out = count_pairs(r@);
            &&& forall|a: int, b: int| 0 <= a < b < out.len() ==> (#[trigger] out[a]).0 != (#[trigger] out[b]).0
            &&& forall|a: int| 0 <= a < out.len() ==> (#[trigger] out[a]).1 == cat_hits(rv, rv.len() as int, out[a].0)
            &&& forall|a: int| 0 <= a < out.len() ==> (#[trigger] out[a]).1 > 0
            &&& forall|k: int| 0 <= k < rv.len() ==> exists|a: int| 0 <= a < out.len() && (#[trigger] out[a]).0 == (#[trigger] rv[k]).category
        }),
{
    let ghost rv = rec_views(recs@);
    let mut cs: Vec<CategoryCount> = Vec::new();
    let mut i: usize = 0;
    while i < recs.len()
        invariant
            i <= recs.len(),
            rv == rec_views(recs@),
            forall|a: int, b: int| 0 <= a < b < cs@.len() ==> (#[trigger] cs@[a]).category@ != (#[trigger] cs@[b]).category@,
            forall|a: int| 0 <= a < cs@.len() ==> (#[trigger] cs@[a]).count == cat_hits(rv, i as int, cs@[a].category@),
            forall|a: int| 0 <= a < cs@.len() ==> (#[trigger] cs@[a]).count > 0,
            forall|k: int| 0 <= k < i ==> exists|a: int| 0 <= a < cs@.len() && (#[trigger] cs@[a]).category@ == (#[trigger] rv[k]).category,
        decreases recs.len() - i,
    {
        let ghost c = rv[i as int].category;
        assert(rv[i as int] == recs@[i as int]@);
        let rc = chars_of(recs[i].category.as_str());
        let mut found: usize = cs.len();
        let mut j: usize = 0;
        while j < cs.len()
            invariant_except_break
                found == cs.len(),
            invariant
                j <= cs.len(),
                found <= cs.len(),
                rc@ == c,
                forall|a: int| 0 <= a < j ==> (#[trigger] cs@[a]).category@ != c,
            ensures
                found == cs.len() ==> forall|a: int| 0 <= a < cs.len() ==> (#[trigger] cs@[a]).category@ != c,
                found < cs.len() ==> cs@[found as int].category@ == c,
            decreases cs.len() - j,
        {
            let cc = chars_of(cs[j].category.as_str());
            if crate::text::chars_eq(cc.as_slice(), rc.as_slice()) {
                found = j;
                break;
            }
            j += 1;
        }
        let ghost before = cs@;
        proof {
            lemma_cat_hits_le(rv, i as int, c);
        }
        if found < cs.len() {
            let entry = CategoryCount { category: cs[found].category.clone(), count: cs[found].count + 1 };
            cs.set(found, entry);
            proof {
                assert forall|k: int| 0 <= k < i + 1 implies exists|a: int| 0 <= a < cs@.len() && (#[trigger] cs@[a]).category@ == (#[trigger] rv[k]).category by {
                    if k < i {
                        let a = choose|a: int| 0 <= a < before.len() && (#[trigger] before[a]).category@ == rv[k].category;
                        assert(cs@[a].category@ == before[a].category@);
                    } else {
                        assert(cs@[found as int].category@ == rv[k].category);
                    }
                }
                assert forall|a: int| 0 <= a < cs@.len() implies (#[trigger] cs@[a]).count == cat_hits(rv, i + 1, cs@[a].category@) by {
                    if a != found {
                        assert(before[a].category@ != c);
                    }
                }
            }
        } else {
            proof {
                assert forall|k: int| 0 <= k < i implies (#[trigger] rv[k]).category != c by {
                    let a = choose|a: int| 0 <= a < before.len() && (#[trigger] before[a]).category@ == rv[k].category;
                    assert(before[a].category@ != c);
                }
                lemma_cat_hits_absent(rv, i as int, c);
            }
            cs.push(CategoryCount { category: recs[i].category.clone(), count: 1 });
            proof {
                assert forall|k: int| 0 <= k < i + 1 implies exists|a: int| 0 <= a < cs@.len() && (#[trigger] cs@[a]).category@ == (#[trigger] rv[k]).category by {
                    if k < i {
                        let a = choose|a: int| 0 <= a < before.len() && (#[trigger] before[a]).category@ == rv[k].category;
                        assert(cs@[a] == before[a]);
                    } else {
                        assert(cs@[before.len() as int].category@ == rv[k].category);
                    }
                }
                assert forall|a: int| 0 <= a < cs@.len() implies (#[trigger] cs@[a]).count == cat_hits(rv, i + 1, cs@[a].category@) by {
                    if a < before.len() {
                        assert(cs@[a] == before[a]);
                        assert(before[a].category@ != c);
                    }
                }
            }
        }
        i += 1;
    }
    proof {
        let out = count_pairs(cs@);
        assert forall|k: int| 0 <= k < rv.len() implies exists|a: int| 0 <= a < out.len() && (#[trigger] out[a]).0 == (#[trigger] rv[k]).category by {
            let a = choose|a: int| 0 <= a < cs@.len() && (#[trigger] cs@[a]).category@ == rv[k].category;
            assert(out[a].0 == cs@[a].category@);
        }
    }
    cs
}

} // verus!

verus! {

pub open spec fn distinct_firsts(p: Seq<(Seq<char>, u64)>) -> bool {
    forall|a: int, b: int| 0 <= a < b < p.len() ==> (#[trigger] p[a]).0 != (#[trigger] p[b]).0
}

pub open spec fn counts_descending(p: Seq<(Seq<char>, u64)>) -> bool {
    forall|a: int, b: int| 0 <= a < b < p.len() ==> (#[trigger] p[a]).1 >= (#[trigger] p[b]).1
}

/// Stable sort by count, largest first.
fn sort_counts(cs: &Vec<CategoryCount>) -> (r: Vec<CategoryCount>)
    requires
        distinct_firsts(count_pairs(cs@)),
    ensures
        r@.len() == cs@.len(),
        forall|x: (Seq<char>, u64)| count_pairs(r@).contains(x) <==> count_pairs(cs@).contains(x),
        distinct_firsts(count_pairs(r@)),
        counts_descending(count_pairs(r@)),
{
    let ghost inp = count_pairs(cs@);
    let mut out: Vec<CategoryCount> = Vec::new();
    let mut i: usize = 0;
    while i < cs.len()
        invariant
            i <= cs.len(),
            inp == count_pairs(cs@),
            distinct_firsts(inp),
            out@.len() == i,
            forall|x: (Seq<char>, u64)| count_pairs(out@).contains(x) <==> inp.subrange(0, i as int).contains(x),
            distinct_firsts(count_pairs(out@)),
            counts_descending(count_pairs(out@)),
        decreases cs.len() - i,
    {
        let e = CategoryCount { category: cs[i].category.clone(), count: cs[i].count };
        let ghost ev = (e.category@, e.count);
        assert(ev == inp[i as int]);
        let ghost o0 = count_pairs(out@);
        let mut p: usize = 0;
        while p < out.len()
            invariant
                p <= out.len(),
                o0 == count_pairs(out@),
                ev.1 == e.count,
                forall|k: int| 0 <= k < p ==> (#[trigger] o0[k]).1 >= ev.1,
            ensures
                p <= out.len(),
                forall|k: int| 0 <= k < p ==> (#[trigger] o0[k]).1 >= ev.1,
                p < out.len() ==> o0[p as int].1 < ev.1,
            decreases out.len() - p,
        {
            assert(o0[p as int].1 == out@[p as int].count);
            if out[p].count < e.count {
                break;
            }
            p += 1;
        }
        out.insert(p, e);
        proof {
            let o1 = count_pairs(out@);
            assert(o1 =~= o0.insert(p as int, ev));
            let pre0 = inp.subrange(0, i as int);
            let pre1 = inp.subrange(0, i + 1);
            assert forall|x: (Seq<char>, u64)| o1.contains(x) <==> pre1.contains(x) by {
                if o1.contains(x) {
                    let k = choose|k: int| 0 <= k < o1.len() && o1[k] == x;
                    if k < p {
                        assert(o0[k] == x);
                        assert(o0.contains(x));
                        let m = choose|m: int| 0 <= m < pre0.len() && pre0[m] == x;
                        assert(pre1[m] == x);
                    } else if k > p {
                        assert(o0[k - 1] == x);
                        assert(o0.contains(x));
                        let m = choose|m: int| 0 <= m < pre0.len() && pre0[m] == x;
                        assert(pre1[m] == x);
                    } else {
                        assert(pre1[i as int] == x);
                    }
                }
                if pre1.contains(x) {
                    let m = choose|m: int| 0 <= m < pre1.len() && pre1[m] == x;
                    if m < i {
                        assert(pre0[m] == x);
                        assert(pre0.contains(x));
                        assert(o0.contains(x));
                        let k = choose|k: int| 0 <= k < o0.len() && o0[k] == x;
                        if k < p {
                            assert(o1[k] == x);
                        } else {
                            assert(o1[k + 1] == x);
                        }
                    } else {
                        assert(o1[p as int] == x);
                    }
                }
            }
            assert forall|k: int| 0 <= k < o0.len() implies (#[trigger] o0[k]).0 != ev.0 by {
                assert(o0.contains(o0[k]));
                let m = choose|m: int| 0 <= m < pre0.len() && pre0[m] == o0[k];
                assert(inp[m] == o0[k]);
            }
            assert forall|a: int, b: int| 0 <= a < b < o1.len() implies (#[trigger] o1[a]).0 != (#[trigger] o1[b]).0 by {
                if a < p && b < p {
                } else if a < p && b == p {
                } else if a < p && b > p {
                    assert(o1[b] == o0[b - 1]);
                } else if a == p {
                    assert(o1[b] == o0[b - 1]);
                } else {
                    assert(o1[a] == o0[a - 1]);
                    assert(o1[b] == o0[b - 1]);
                }
            }
            assert forall|a: int, b: int| 0 <= a < b < o1.len() implies (#[trigger] o1[a]).1 >= (#[trigger] o1[b]).1 by {
                if a < p && b < p {
                } else if a < p && b == p {
                } else if a < p && b > p {
                    assert(o1[b] == o0[b - 1]);
                    assert(o0[a].1 >= o0[b - 1].1);
                } else if a == p {
                    assert(o1[b] == o0[b - 1]);
                    assert(o0[p as int].1 >= o0[b - 1].1);
                } else {
                    assert(o1[a] == o0[a - 1]);
                    assert(o1[b] == o0[b - 1]);
                }
            }
        }
        i += 1;
    }
    assert(inp.subrange(0, cs@.len() as int) =~= inp);
    out
}

} // verus!

verus! {

/// `v` followed by `s`.
fn append_chars(v: &mut Vec<char>, s: &[char])
    ensures
        final(v)@ == old(v)@ + s@,
{
    let ghost v0 = v@;
    let mut i: usize = 0;
    while i < s.len()
        invariant
            i <= s.len(),
            v@ == v0 + s@.subrange(0, i as int),
        decreases s.len() - i,
    {
        v.push(s[i]);
        i += 1;
        assert(v@ =~= v0 + s@.subrange(0, i as int));
    }
    assert(s@.subrange(0, s.len() as int) =~= s@);
}

/// The distinct `category::kind` texts of the records, ascending.
fn collect_types(recs: &Vec<EventRecord>) -> (r: Vec<String>)
    ensures
        strictly_sorted(strs(r)),
        forall|t: Seq<char>| strs(r).contains(t) <==> has_type(rec_views(recs@), recs@.len() as int, t),
{
    let ghost rv = rec_views(recs@);
    let sep = chars_of("::");
    let mut r: Vec<String> = Vec::new();
    let mut i: usize = 0;
    assert(strs(r) =~= Seq::<Seq<char>>::empty());
    while i < recs.len()
        invariant
            i <= recs.len(),
            rv == rec_views(recs@),
            sep@ == "::"@,
            strictly_sorted(strs(r)),
            forall|t: Seq<char>| strs(r).contains(t) <==> has_type(rv, i as int, t),
        decreases recs.len() - i,
    {
        assert(rv[i as int] == recs@[i as int]@);
        let mut t = chars_of(recs[i].category.as_str());
        append_chars(&mut t, sep.as_slice());
        let k = chars_of(recs[i].kind.as_str());
        append_chars(&mut t, k.as_slice());
        assert(t@ == type_of(rv[i as int]));
        let ghost s0 = strs(r);
        insert_sorted_distinct(&mut r, t.as_slice());
        proof {
            assert forall|u: Seq<char>| strs(r).contains(u) <==> has_type(rv, i + 1, u) by {
                if has_type(rv, i + 1, u) {
                    let k = choose|k: int| 0 <= k < i + 1 && type_of(#[trigger] rv[k]) == u;
                    if k < i {
                        assert(has_type(rv, i as int, u));
                    }
                }
                if has_type(rv, i as int, u) {
                    let k = choose|k: int| 0 <= k < i && type_of(#[trigger] rv[k]) == u;
                    assert(has_type(rv, i + 1, u));
                }
                if u == t@ {
                    assert(has_type(rv, i + 1, u));
                }
            }
        }
        i += 1;
    }
    r
}

/// Statistics of a session from its records.
pub fn summarise_records(session_id: &str, recs: &Vec<EventRecord>) -> (s: SessionSummary)
    ensures
        summary_ok(s, session_id@, rec_views(recs@)),
{
    let ghost rv = rec_views(recs@);
    let (errors, first, last) = scan_totals(recs);
    let duration: u64 = match first {
        Some(f) => if last >= f {
            last - f
        } else {
            0
        },
        None => 0,
    };
    let buckets = match first {
        Some(base) => timeline(recs, base, duration),
        None => Vec::new(),
    };
    let cs = tally_categories(recs);
    let sorted = sort_counts(&cs);
    let types = collect_types(recs);
    proof {
        let inp = count_pairs(cs@);
        let out = count_pairs(sorted@);
        assert forall|a: int| 0 <= a < out.len() implies (#[trigger] out[a]).1 == cat_hits(rv, rv.len() as int, out[a].0) && out[a].1 > 0 by {
            assert(out.contains(out[a]));
            let m = choose|m: int| 0 <= m < inp.len() && inp[m] == out[a];
        }
        assert forall|k: int| 0 <= k < rv.len() implies exists|a: int| 0 <= a < out.len() && (#[trigger] out[a]).0 == (#[trigger] rv[k]).category by {
            let m = choose|m: int| 0 <= m < inp.len() && (#[trigger] inp[m]).0 == rv[k].category;
            assert(inp.contains(inp[m]));
            let a = choose|a: int| 0 <= a < out.len() && out[a] == inp[m];
        }
        assert(first is None ==> buckets@ =~= buckets_spec(rv));
    }
    SessionSummary {
        session_id: session_id.to_string(),
        event_count: recs.len() as u64,
        error_count: errors,
        duration_ms: duration,
        category_counts: sorted,
        event_types: types,
        timeline_buckets: buckets,
    }
}

/// Statistics of a session from the lines of its log (blank and non-JSON
/// lines are skipped).
pub fn summarise_lines(session_id: &str, lines: &[String]) -> (s: SessionSummary)
    ensures
        summary_ok(s, session_id@, records_of(line_views(lines@))),
{
    let recs = records_of_lines(lines);
    summarise_records(session_id, &recs)
}

} // verus!

verus! {

// ---------------------------------------------------------------------------
// Comparison
// ---------------------------------------------------------------------------

/// The count of the last entry for category `c` (later entries override
/// earlier ones), or 0 when there is none.
pub open spec fn last_count(p: Seq<(Seq<char>, u64)>, c: Seq<char>) -> u64
    decreases p.len(),
{
    if p.len() == 0 {
        0
    } else if p.last().0 == c {
        p.last().1
    } else {
        last_count(p.drop_last(), c)
    }
}

pub open spec fn has_cat(p: Seq<(Seq<char>, u64)>, c: Seq<char>) -> bool {
    exists|a: int| 0 <= a < p.len() && (#[trigger] p[a]).0 == c
}

pub open spec fn abs_delta(d: i64) -> int {
    if d < 0 {
        -d
    } else {
        d as int
    }
}

pub open spec fn delta_tuples(v: Seq<FrequencyDelta>) -> Seq<(Seq<char>, u64, u64, i64)> {
    v.map_values(|f: FrequencyDelta| (f.category@, f.baseline_count, f.compare_count, f.delta))
}

/// Counts and differences small enough for `i64`.
pub open spec fn fits_i64(s: SessionSummary) -> bool {
    &&& s.error_count <= i64::MAX
    &&& s.duration_ms <= i64::MAX
    &&& forall|a: int| 0 <= a < s.category_counts@.len() ==> (#[trigger] s.category_counts@[a]).count <= i64::MAX
}

/// The diff of `b` (baseline) and `c` (compare).
pub open spec fn diff_ok(d: SessionDiff, b: SessionSummary, c: SessionSummary) -> bool {
    let bp = count_pairs(b.category_counts@);
    let cp = count_pairs(c.category_counts@);
    let f = delta_tuples(d.frequency_deltas@);
    &&& d.baseline == b
    &&& d.compare == c
    &&& strictly_sorted(strs(d.new_types))
    &&& forall|t: Seq<char>| strs(d.new_types).contains(t) <==> (strs(c.event_types).contains(t) && !strs(b.event_types).contains(t))
    &&& strictly_sorted(strs(d.missing_types))
    &&& forall|t: Seq<char>| strs(d.missing_types).contains(t) <==> (strs(b.event_types).contains(t) && !strs(c.event_types).contains(t))
    &&& forall|a: int, z: int| 0 <= a < z < f.len() ==> (#[trigger] f[a]).0 != (#[trigger] f[z]).0
    &&& forall|a: int| 0 <= a < f.len() ==> {
        &&& (#[trigger] f[a]).1 == last_count(bp, f[a].0)
        &&& f[a].2 == last_count(cp, f[a].0)
        &&& f[a].3 == f[a].2 - f[a].1
        &&& (has_cat(bp, f[a].0) || has_cat(cp, f[a].0))
    }
    &&& forall|x: Seq<char>| (has_cat(bp, x) || has_cat(cp, x)) ==> exists|a: int| 0 <= a < f.len() && (#[trigger] f[a]).0 == x
    &&& forall|a: int, z: int| 0 <= a < z < f.len() ==> abs_delta((#[trigger] f[a]).3) >= abs_delta((#[trigger] f[z]).3)
    &&& d.error_delta == c.error_count - b.error_count
    &&& d.duration_delta == c.duration_ms - b.duration_ms
}

/// Whether `t` is one of the texts of `v`.
fn contains_text(v: &Vec<String>, t: &[char]) -> (r: bool)
    ensures
        r == strs(*v).contains(t@),
{
    let mut i: usize = 0;
    while i < v.len()
        invariant
            i <= v.len(),
            forall|k: int| 0 <= k < i ==> strs(*v)[k] != t@,
        decreases v.len() - i,
    {
        let c = chars_of(v[i].as_str());
        if crate::text::chars_eq(c.as_slice(), t) {
            assert(strs(*v)[i as int] == t@);
            return true;
        }
        i += 1;
    }
    false
}

/// The texts of `c` that `b` lacks, ascending and without repeats.
fn types_missing_from(c: &Vec<String>, b: &Vec<String>) -> (r: Vec<String>)
    ensures
        strictly_sorted(strs(r)),
        forall|t: Seq<char>| strs(r).contains(t) <==> (strs(*c).contains(t) && !strs(*b).contains(t)),
{
    let mut r: Vec<String> = Vec::new();
    let mut i: usize = 0;
    assert(strs(r) =~= Seq::<Seq<char>>::empty());
    while i < c.len()
        invariant
            i <= c.len(),
            strictly_sorted(strs(r)),
            forall|t: Seq<char>| strs(r).contains(t) <==> (strs(*c).subrange(0, i as int).contains(t) && !strs(*b).contains(t)),
        decreases c.len() - i,
    {
        let t = chars_of(c[i].as_str());
        let ghost pre0 = strs(*c).subrange(0, i as int);
        let ghost pre1 = strs(*c).subrange(0, i + 1);
        assert(pre1 =~= pre0.push(t@));
        if !contains_text(b, t.as_slice()) {
            insert_sorted_distinct(&mut r, t.as_slice());
        }
        proof {
            assert forall|u: Seq<char>| pre1.contains(u) <==> (pre0.contains(u) || u == t@) by {
                if pre1.contains(u) {
                    let k = choose|k: int| 0 <= k < pre1.len() && pre1[k] == u;
                    if k < i {
                        assert(pre0[k] == u);
                    }
                }
                if pre0.contains(u) {
                    let k = choose|k: int| 0 <= k < pre0.len() && pre0[k] == u;
                    assert(pre1[k] == u);
                }
                if u == t@ {
                    assert(pre1[i as int] == u);
                }
            }
        }
        i += 1;
    }
    assert(strs(*c).subrange(0, c.len() as int) =~= strs(*c));
    r
}

/// [`last_count`] of a tally.
fn last_count_of(v: &Vec<CategoryCount>, c: &[char]) -> (r: u64)
    ensures
        r == last_count(count_pairs(v@), c@),
        has_cat(count_pairs(v@), c@) || r == 0,
{
    let ghost p = count_pairs(v@);
    let mut i = v.len();
    assert(p.subrange(0, p.len() as int) =~= p);
    while i > 0
        invariant
            i <= v.len(),
            p == count_pairs(v@),
            last_count(p, c@) == last_count(p.subrange(0, i as int), c@),
            forall|a: int| i <= a < p.len() ==> (#[trigger] p[a]).0 != c@,
        decreases i,
    {
        let cc = chars_of(v[i - 1].category.as_str());
        assert(p.subrange(0, i as int).last() == p[i - 1]);
        assert(p.subrange(0, i as int).drop_last() =~= p.subrange(0, i - 1));
        if crate::text::chars_eq(cc.as_slice(), c) {
            assert(p[i - 1].0 == c@);
            return v[i - 1].count;
        }
        i -= 1;
    }
    assert(p.subrange(0, 0) =~= Seq::<(Seq<char>, u64)>::empty());
    proof {
        if has_cat(p, c@) {
            let a = choose|a: int| 0 <= a < p.len() && (#[trigger] p[a]).0 == c@;
        }
    }
    0
}

} // verus!

verus! {

pub open spec fn delta_facts(
    f: Seq<(Seq<char>, u64, u64, i64)>,
    bp: Seq<(Seq<char>, u64)>,
    cp: Seq<(Seq<char>, u64)>,
) -> bool {
    &&& forall|a: int, z: int| 0 <= a < z < f.len() ==> (#[trigger] f[a]).0 != (#[trigger] f[z]).0
    &&& forall|a: int| 0 <= a < f.len() ==> {
        &&& (#[trigger] f[a]).1 == last_count(bp, f[a].0)
        &&& f[a].2 == last_count(cp, f[a].0)
        &&& f[a].3 == f[a].2 - f[a].1
        &&& (has_cat(bp, f[a].0) || has_cat(cp, f[a].0))
    }
}

pub open spec fn counts_fit(p: Seq<(Seq<char>, u64)>) -> bool {
    forall|a: int| 0 <= a < p.len() ==> (#[trigger] p[a]).1 <= i64::MAX
}

/// A count looked up among counts that fit `i64` fits `i64`.
pub proof fn lemma_last_count_fits(p: Seq<(Seq<char>, u64)>, c: Seq<char>)
    requires
        counts_fit(p),
    ensures
        last_count(p, c) <= i64::MAX,
    decreases p.len(),
{
    if p.len() > 0 && p.last().0 != c {
        assert(counts_fit(p.drop_last())) by {
            assert forall|a: int| 0 <= a < p.drop_last().len() implies (#[trigger] p.drop_last()[a]).1 <= i64::MAX by {
                assert(p.drop_last()[a] == p[a]);
            }
        }
        lemma_last_count_fits(p.drop_last(), c);
    }
}

/// Add the delta entry for category `x` unless `r` has one already.
fn add_delta(r: &mut Vec<FrequencyDelta>, x: &String, b: &Vec<CategoryCount>, c: &Vec<CategoryCount>)
    requires
        counts_fit(count_pairs(b@)),
        counts_fit(count_pairs(c@)),
        has_cat(count_pairs(b@), x@) || has_cat(count_pairs(c@), x@),
        delta_facts(delta_tuples(old(r)@), count_pairs(b@), count_pairs(c@)),
    ensures
        delta_facts(delta_tuples(final(r)@), count_pairs(b@), count_pairs(c@)),
        exists|a: int| 0 <= a < final(r)@.len() && (#[trigger] delta_tuples(final(r)@)[a]).0 == x@,
        old(r)@.len() <= final(r)@.len(),
        forall|a: int| 0 <= a < old(r)@.len() ==> delta_tuples(final(r)@)[a] == (#[trigger] delta_tuples(old(r)@)[a]),
{
    let ghost f0 = delta_tuples(r@);
    let xc = chars_of(x.as_str());
    let mut j: usize = 0;
    while j < r.len()
        invariant
            j <= r.len(),
            f0 == delta_tuples(r@),
            delta_facts(f0, count_pairs(b@), count_pairs(c@)),
            xc@ == x@,
            forall|a: int| 0 <= a < j ==> (#[trigger] f0[a]).0 != x@,
        decreases r.len() - j,
    {
        let rc = chars_of(r[j].category.as_str());
        if crate::text::chars_eq(rc.as_slice(), xc.as_slice()) {
            assert(f0[j as int].0 == x@);
            return;
        }
        j += 1;
    }
    let bc = last_count_of(b, xc.as_slice());
    let cc = last_count_of(c, xc.as_slice());
    proof {
        lemma_last_count_fits(count_pairs(b@), x@);
        lemma_last_count_fits(count_pairs(c@), x@);
    }
    let delta = (cc as i64) - (bc as i64);
    r.push(FrequencyDelta { category: x.clone(), baseline_count: bc, compare_count: cc, delta });
    proof {
        let f1 = delta_tuples(r@);
        assert(f1 =~= f0.push((x@, bc, cc, delta)));
        assert(f1[f0.len() as int].0 == x@);
    }
}

/// Every category among the first `n` of `names` has an entry in `f`.
pub open spec fn covers(f: Seq<(Seq<char>, u64, u64, i64)>, names: Seq<(Seq<char>, u64)>, n: int) -> bool {
    forall|k: int| 0 <= k < n ==> exists|a: int| 0 <= a < f.len() && (#[trigger] f[a]).0 == (#[trigger] names[k]).0
}

/// One delta entry per category of either tally.
fn union_deltas(b: &Vec<CategoryCount>, c: &Vec<CategoryCount>) -> (r: Vec<FrequencyDelta>)
    requires
        counts_fit(count_pairs(b@)),
        counts_fit(count_pairs(c@)),
    ensures
        delta_facts(delta_tuples(r@), count_pairs(b@), count_pairs(c@)),
        forall|x: Seq<char>| (has_cat(count_pairs(b@), x) || has_cat(count_pairs(c@), x))
            ==> exists|a: int| 0 <= a < r@.len() && (#[trigger] delta_tuples(r@)[a]).0 == x,
{
    let ghost bp = count_pairs(b@);
    let ghost cp = count_pairs(c@);
    let mut r: Vec<FrequencyDelta> = Vec::new();
    let mut i: usize = 0;
    while i < b.len()
        invariant
            i <= b.len(),
            bp == count_pairs(b@),
            cp == count_pairs(c@),
            counts_fit(bp),
            counts_fit(cp),
            delta_facts(delta_tuples(r@), bp, cp),
            covers(delta_tuples(r@), bp, i as int),
        decreases b.len() - i,
    {
        assert(bp[i as int].0 == b@[i as int].category@);
        assert(has_cat(bp, bp[i as int].0));
        let ghost f0 = delta_tuples(r@);
        add_delta(&mut r, &b[i].category, b, c);
        proof {
            assert forall|k: int| 0 <= k < i + 1 implies exists|a: int| 0 <= a < r@.len() && (#[trigger] delta_tuples(r@)[a]).0 == (#[trigger] bp[k]).0 by {
                if k < i {
                    let a = choose|a: int| 0 <= a < f0.len() && (#[trigger] f0[a]).0 == bp[k].0;
                    assert(delta_tuples(r@)[a] == f0[a]);
                }
            }
            assert(covers(delta_tuples(r@), bp, i + 1));
        }
        i += 1;
    }
    let mut j: usize = 0;
    while j < c.len()
        invariant
            j <= c.len(),
            bp == count_pairs(b@),
            cp == count_pairs(c@),
            counts_fit(bp),
            counts_fit(cp),
            delta_facts(delta_tuples(r@), bp, cp),
            covers(delta_tuples(r@), bp, bp.len() as int),
            covers(delta_tuples(r@), cp, j as int),
        decreases c.len() - j,
    {
        assert(cp[j as int].0 == c@[j as int].category@);
        assert(has_cat(cp, cp[j as int].0));
        let ghost f0 = delta_tuples(r@);
        add_delta(&mut r, &c[j].category, b, c);
        proof {
            assert forall|k: int| 0 <= k < bp.len() implies exists|a: int| 0 <= a < r@.len() && (#[trigger] delta_tuples(r@)[a]).0 == (#[trigger] bp[k]).0 by {
                let a = choose|a: int| 0 <= a < f0.len() && (#[trigger] f0[a]).0 == bp[k].0;
                assert(delta_tuples(r@)[a] == f0[a]);
            }
            assert(covers(delta_tuples(r@), bp, bp.len() as int));
            assert forall|k: int| 0 <= k < j + 1 implies exists|a: int| 0 <= a < r@.len() && (#[trigger] delta_tuples(r@)[a]).0 == (#[trigger] cp[k]).0 by {
                if k < j {
                    let a = choose|a: int| 0 <= a < f0.len() && (#[trigger] f0[a]).0 == cp[k].0;
                    assert(delta_tuples(r@)[a] == f0[a]);
                }
            }
            assert(covers(delta_tuples(r@), cp, j + 1));
        }
        j += 1;
    }
    proof {
        assert forall|x: Seq<char>| (has_cat(bp, x) || has_cat(cp, x))
            implies exists|a: int| 0 <= a < r@.len() && (#[trigger] delta_tuples(r@)[a]).0 == x by {
            if has_cat(bp, x) {
                let k = choose|k: int| 0 <= k < bp.len() && (#[trigger] bp[k]).0 == x;
                assert(covers(delta_tuples(r@), bp, bp.len() as int));
                assert(0 <= k < bp.len());
            } else {
                let k = choose|k: int| 0 <= k < cp.len() && (#[trigger] cp[k]).0 == x;
                assert(covers(delta_tuples(r@), cp, cp.len() as int));
            }
        }
    }
    r
}

} // verus!

verus! {

pub open spec fn distinct_delta_cats(f: Seq<(Seq<char>, u64, u64, i64)>) -> bool {
    forall|a: int, z: int| 0 <= a < z < f.len() ==> (#[trigger] f[a]).0 != (#[trigger] f[z]).0
}

pub open spec fn deltas_descending(f: Seq<(Seq<char>, u64, u64, i64)>) -> bool {
    forall|a: int, z: int| 0 <= a < z < f.len() ==> abs_delta((#[trigger] f[a]).3) >= abs_delta((#[trigger] f[z]).3)
}

fn abs_key(d: i64) -> (r: i128)
    ensures
        r == abs_delta(d),
{
    if d < 0 {
        -(d as i128)
    } else {
        d as i128
    }
}

/// Stable sort by absolute delta, largest first.
fn sort_deltas(v: &Vec<FrequencyDelta>) -> (r: Vec<FrequencyDelta>)
    requires
        distinct_delta_cats(delta_tuples(v@)),
    ensures
        r@.len() == v@.len(),
        forall|x: (Seq<char>, u64, u64, i64)| delta_tuples(r@).contains(x) <==> delta_tuples(v@).contains(x),
        distinct_delta_cats(delta_tuples(r@)),
        deltas_descending(delta_tuples(r@)),
{
    let ghost inp = delta_tuples(v@);
    let mut out: Vec<FrequencyDelta> = Vec::new();
    let mut i: usize = 0;
    while i < v.len()
        invariant
            i <= v.len(),
            inp == delta_tuples(v@),
            distinct_delta_cats(inp),
            out@.len() == i,
            forall|x: (Seq<char>, u64, u64, i64)| delta_tuples(out@).contains(x) <==> inp.subrange(0, i as int).contains(x),
            distinct_delta_cats(delta_tuples(out@)),
            deltas_descending(delta_tuples(out@)),
        decreases v.len() - i,
    {
        let e = FrequencyDelta {
            category: v[i].category.clone(),
            baseline_count: v[i].baseline_count,
            compare_count: v[i].compare_count,
            delta: v[i].delta,
        };
        let ghost ev = (e.category@, e.baseline_count, e.compare_count, e.delta);
        assert(ev == inp[i as int]);
        let ek = abs_key(e.delta);
        let ghost o0 = delta_tuples(out@);
        let mut p: usize = 0;
        while p < out.len()
            invariant
                p <= out.len(),
                o0 == delta_tuples(out@),
                ek == abs_delta(ev.3),
                forall|k: int| 0 <= k < p ==> abs_delta((#[trigger] o0[k]).3) >= abs_delta(ev.3),
            ensures
                p <= out.len(),
                forall|k: int| 0 <= k < p ==> abs_delta((#[trigger] o0[k]).3) >= abs_delta(ev.3),
                p < out.len() ==> abs_delta(o0[p as int].3) < abs_delta(ev.3),
            decreases out.len() - p,
        {
            assert(o0[p as int].3 == out@[p as int].delta);
            if abs_key(out[p].delta) < ek {
                break;
            }
            p += 1;
        }
        out.insert(p, e);
        proof {
            let o1 = delta_tuples(out@);
            assert(o1 =~= o0.insert(p as int, ev));
            let pre0 = inp.subrange(0, i as int);
            let pre1 = inp.subrange(0, i + 1);
            assert forall|x: (Seq<char>, u64, u64, i64)| o1.contains(x) <==> pre1.contains(x) by {
                if o1.contains(x) {
                    let k = choose|k: int| 0 <= k < o1.len() && o1[k] == x;
                    if k < p {
                        assert(o0[k] == x);
                        assert(o0.contains(x));
                        let m = choose|m: int| 0 <= m < pre0.len() && pre0[m] == x;
                        assert(pre1[m] == x);
                    } else if k > p {
                        assert(o0[k - 1] == x);
                        assert(o0.contains(x));
                        let m = choose|m: int| 0 <= m < pre0.len() && pre0[m] == x;
                        assert(pre1[m] == x);
                    } else {
                        assert(pre1[i as int] == x);
                    }
                }
                if pre1.contains(x) {
                    let m = choose|m: int| 0 <= m < pre1.len() && pre1[m] == x;
                    if m < i {
                        assert(pre0[m] == x);
                        assert(pre0.contains(x));
                        assert(o0.contains(x));
                        let k = choose|k: int| 0 <= k < o0.len() && o0[k] == x;
                        if k < p {
                            assert(o1[k] == x);
                        } else {
                            assert(o1[k + 1] == x);
                        }
                    } else {
                        assert(o1[p as int] == x);
                    }
                }
            }
            assert forall|k: int| 0 <= k < o0.len() implies (#[trigger] o0[k]).0 != ev.0 by {
                assert(o0.contains(o0[k]));
                let m = choose|m: int| 0 <= m < pre0.len() && pre0[m] == o0[k];
                assert(inp[m] == o0[k]);
            }
            assert forall|a: int, z: int| 0 <= a < z < o1.len() implies (#[trigger] o1[a]).0 != (#[trigger] o1[z]).0 by {
                if a < p && z < p {
                } else if a < p && z == p {
                } else if a < p && z > p {
                    assert(o1[z] == o0[z - 1]);
                } else if a == p {
                    assert(o1[z] == o0[z - 1]);
                } else {
                    assert(o1[a] == o0[a - 1]);
                    assert(o1[z] == o0[z - 1]);
                }
            }
            assert forall|a: int, z: int| 0 <= a < z < o1.len() implies abs_delta((#[trigger] o1[a]).3) >= abs_delta((#[trigger] o1[z]).3) by {
                if a < p && z < p {
                } else if a < p && z == p {
                } else if a < p && z > p {
                    assert(o1[z] == o0[z - 1]);
                    assert(abs_delta(o0[a].3) >= abs_delta(o0[z - 1].3));
                } else if a == p {
                    assert(o1[z] == o0[z - 1]);
                    assert(abs_delta(o0[p as int].3) >= abs_delta(o0[z - 1].3));
                } else {
                    assert(o1[a] == o0[a - 1]);
                    assert(o1[z] == o0[z - 1]);
                }
            }
        }
        i += 1;
    }
    assert(inp.subrange(0, v@.len() as int) =~= inp);
    out
}

/// The structural diff of two session summaries.
pub fn compare_summaries(baseline: SessionSummary, compare: SessionSummary) -> (d: SessionDiff)
    requires
        fits_i64(baseline),
        fits_i64(compare),
    ensures
        diff_ok(d, baseline, compare),
{
    let ghost bp = count_pairs(baseline.category_counts@);
    let ghost cp = count_pairs(compare.category_counts@);
    proof {
        assert forall|a: int| 0 <= a < bp.len() implies (#[trigger] bp[a]).1 <= i64::MAX by {
            assert(bp[a].1 == baseline.category_counts@[a].count);
        }
        assert forall|a: int| 0 <= a < cp.len() implies (#[trigger] cp[a]).1 <= i64::MAX by {
            assert(cp[a].1 == compare.category_counts@[a].count);
        }
    }
    let new_types = types_missing_from(&compare.event_types, &baseline.event_types);
    let missing_types = types_missing_from(&baseline.event_types, &compare.event_types);
    let unsorted = union_deltas(&baseline.category_counts, &compare.category_counts);
    let frequency_deltas = sort_deltas(&unsorted);
    let error_delta = (compare.error_count as i64) - (baseline.error_count as i64);
    let duration_delta = (compare.duration_ms as i64) - (baseline.duration_ms as i64);
    let d = SessionDiff {
        baseline,
        compare,
        new_types,
        missing_types,
        frequency_deltas,
        error_delta,
        duration_delta,
    };
    proof {
        let u = delta_tuples(unsorted@);
        let f = delta_tuples(d.frequency_deltas@);
        assert forall|a: int| 0 <= a < f.len() implies {
            &&& (#[trigger] f[a]).1 == last_count(bp, f[a].0)
            &&& f[a].2 == last_count(cp, f[a].0)
            &&& f[a].3 == f[a].2 - f[a].1
            &&& (has_cat(bp, f[a].0) || has_cat(cp, f[a].0))
        } by {
            assert(f.contains(f[a]));
            let m = choose|m: int| 0 <= m < u.len() && u[m] == f[a];
        }
        assert forall|x: Seq<char>| (has_cat(bp, x) || has_cat(cp, x)) implies exists|a: int| 0 <= a < f.len() && (#[trigger] f[a]).0 == x by {
            let m = choose|m: int| 0 <= m < u.len() && (#[trigger] u[m]).0 == x;
            assert(u.contains(u[m]));
            let a = choose|a: int| 0 <= a < f.len() && f[a] == u[m];
        }
    }
    d
}

} // verus!

verus! {

// ---------------------------------------------------------------------------
// Laws
// ---------------------------------------------------------------------------

/// Comparing a session with itself finds no new and no missing event
/// types, and every frequency delta, the error delta and the duration delta
/// are zero.
pub proof fn lemma_self_diff_is_empty(d: SessionDiff, s: SessionSummary)
    requires
        diff_ok(d, s, s),
    ensures
        d.new_types@.len() == 0,
        d.missing_types@.len() == 0,
        forall|a: int| 0 <= a < d.frequency_deltas@.len() ==> (#[trigger] d.frequency_deltas@[a]).delta == 0,
        d.error_delta == 0,
        d.duration_delta == 0,
{
    if d.new_types@.len() > 0 {
        assert(strs(d.new_types).contains(strs(d.new_types)[0]));
    }
    if d.missing_types@.len() > 0 {
        assert(strs(d.missing_types).contains(strs(d.missing_types)[0]));
    }
    let f = delta_tuples(d.frequency_deltas@);
    assert forall|a: int| 0 <= a < d.frequency_deltas@.len() implies (#[trigger] d.frequency_deltas@[a]).delta == 0 by {
        assert(f[a].3 == d.frequency_deltas@[a].delta);
    }
}

/// Every category of `f1` has an entry in `f2` with the opposite delta.
pub open spec fn negated_deltas(f1: Seq<(Seq<char>, u64, u64, i64)>, f2: Seq<(Seq<char>, u64, u64, i64)>) -> bool {
    forall|i: int| 0 <= i < f1.len() ==> #[trigger] has_negated(f2, f1[i])
}

/// `f2` has an entry for the category of `e` with the opposite delta.
pub open spec fn has_negated(f2: Seq<(Seq<char>, u64, u64, i64)>, e: (Seq<char>, u64, u64, i64)) -> bool {
    exists|j: int| 0 <= j < f2.len() && (#[trigger] f2[j]).0 == e.0 && f2[j].3 == -e.3
}

/// Swapping baseline and comparison swaps new and missing types, negates
/// the error and duration deltas, and negates every category's delta.
pub proof fn lemma_swapped_diff_mirrors(d1: SessionDiff, d2: SessionDiff, a: SessionSummary, b: SessionSummary)
    requires
        diff_ok(d1, a, b),
        diff_ok(d2, b, a),
    ensures
        strs(d1.new_types) == strs(d2.missing_types),
        strs(d1.missing_types) == strs(d2.new_types),
        d1.error_delta == -d2.error_delta,
        d1.duration_delta == -d2.duration_delta,
        negated_deltas(delta_tuples(d1.frequency_deltas@), delta_tuples(d2.frequency_deltas@)),
{
    crate::sorted::lemma_sorted_unique(strs(d1.new_types), strs(d2.missing_types));
    crate::sorted::lemma_sorted_unique(strs(d1.missing_types), strs(d2.new_types));
    let f1 = delta_tuples(d1.frequency_deltas@);
    let f2 = delta_tuples(d2.frequency_deltas@);
    let ap = count_pairs(a.category_counts@);
    let bp = count_pairs(b.category_counts@);
    assert forall|i: int| 0 <= i < f1.len() implies #[trigger] has_negated(f2, f1[i]) by {
        let x = f1[i].0;
        assert(has_cat(ap, x) || has_cat(bp, x));
        let j = choose|j: int| 0 <= j < f2.len() && (#[trigger] f2[j]).0 == x;
        assert(f1[i].1 == last_count(ap, x) && f1[i].2 == last_count(bp, x));
        assert(f2[j].1 == last_count(bp, x) && f2[j].2 == last_count(ap, x));
        assert(f1[i].3 == f1[i].2 - f1[i].1);
        assert(f2[j].3 == f2[j].2 - f2[j].1);
        assert(f2[j].3 == -f1[i].3);
        assert(0 <= j < f2.len() && f2[j].0 == f1[i].0);
    }
}

} // verus!
