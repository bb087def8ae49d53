//! The session timeline: a session's events classified into sources,
//! filtered by the selected sources, summarized, joined with the command
//! history, and ordered by time.
use vstd::prelude::*;
use crate::json::{json_i64, json_text, json_u64, member, member_i64, member_text, member_u64, take_member, JsonNode};
use crate::text::{chars_eq_str, chars_of, has_prefix, lowercase, starts_with_str, string_of, to_lowercase};

verus! {

/// Which timeline sources are shown.
#[derive(Clone, Debug)]
pub struct TimelineSources {
    pub show_commands: bool,
    pub show_errors: bool,
    pub show_agents: bool,
    pub show_hooks: bool,
    pub show_fs: bool,
    pub show_llm_cost: bool,
    pub show_mcp: bool,
}

/// The part of a command-history record the timeline joins on.
#[derive(Clone, Debug)]
pub struct HistoryRecord {
    pub session_id: Option<i64>,
    pub command: String,
    pub started_at_ms: Option<u64>,
    pub exit_code: Option<i32>,
    pub duration_ms: Option<u64>,
}

/// One entry of the merged session timeline.
#[derive(Debug)]
pub struct TimelineEntry {
    /// Unix ms — primary sort key.
    pub ts: u64,
    /// Index of the event in the session's event list.
    pub event_idx: u64,
    /// `command`, `error`, `agent`, `hook`, `fs`, `llm` or `mcp`.
    pub source: String,
    /// Lowercased envelope category.
    pub category: String,
    /// Envelope kind.
    pub kind: String,
    /// One-line human summary.
    pub summary: String,
    /// PTY pane id of a `command.submitted` event.
    pub pane_session_id: Option<i64>,
    /// From the joined history record.
    pub exit_code: Option<i32>,
    /// From the joined history record.
    pub duration_ms: Option<u64>,
    /// The event's payload.
    pub payload: JsonNode,
}

/// Default cap on the number of timeline entries.
pub const DEFAULT_TIMELINE_CAP: usize = 2000;

/// The source tag of an event, `None` for events never shown (raw PTY
/// output, lifecycle noise, status/index/aegis/sentinel and unknown
/// categories).
pub open spec fn classify_spec(category: Seq<char>, kind: Seq<char>) -> Option<Seq<char>> {
    if category == "pty"@ {
        if kind == "command.submitted"@ {
            Some("command"@)
        } else if has_prefix(kind, "pty.output"@) {
            None
        } else if has_prefix(kind, "pty.failed"@) || has_prefix(kind, "pty.exited"@) {
            Some("error"@)
        } else {
            None
        }
    } else if category == "system"@ {
        if has_prefix(kind, "system.error"@) || has_prefix(kind, "system.warn"@) {
            Some("error"@)
        } else {
            None
        }
    } else if category == "agent"@ {
        Some("agent"@)
    } else if category == "hook"@ {
        Some("hook"@)
    } else if category == "fs"@ {
        Some("fs"@)
    } else if category == "llm"@ {
        Some("llm"@)
    } else if category == "mcp"@ {
        Some("mcp"@)
    } else {
        None
    }
}

/// Law of classification: a `system` event is an error exactly when its
/// kind starts with `system.error` or `system.warn`, and is dropped
/// otherwise; a `pty` event is a command when its kind is
/// `command.submitted`, an error when its kind starts with `pty.failed` or
/// `pty.exited`, and its output (`pty.output...`) is never shown; `agent`,
/// `hook`, `fs`, `llm` and `mcp` events are tagged with their category; no
/// other category is shown.
pub proof fn lemma_classification(category: Seq<char>, kind: Seq<char>)
    ensures
        category == "system"@ ==> (classify_spec(category, kind) == Some("error"@) <==> (has_prefix(kind, "system.error"@)
            || has_prefix(kind, "system.warn"@))),
        category == "system"@ ==> classify_spec(category, kind) is None || classify_spec(category, kind) == Some("error"@),
        category == "pty"@ && kind == "command.submitted"@ ==> classify_spec(category, kind) == Some("command"@),
        category == "pty"@ && (has_prefix(kind, "pty.failed"@) || has_prefix(kind, "pty.exited"@))
            ==> classify_spec(category, kind) == Some("error"@),
        category == "pty"@ && has_prefix(kind, "pty.output"@) ==> classify_spec(category, kind) is None,
        (category == "agent"@ || category == "hook"@ || category == "fs"@ || category == "llm"@ || category == "mcp"@)
            ==> classify_spec(category, kind) == Some(category),
        !(category == "system"@ || category == "pty"@ || category == "agent"@ || category == "hook"@ || category
            == "fs"@ || category == "llm"@ || category == "mcp"@) ==> classify_spec(category, kind) is None,
{
    reveal_strlit("system");
    reveal_strlit("pty");
    reveal_strlit("agent");
    reveal_strlit("hook");
    reveal_strlit("fs");
    reveal_strlit("llm");
    reveal_strlit("mcp");
    reveal_strlit("command.submitted");
    reveal_strlit("pty.output");
    reveal_strlit("pty.failed");
    reveal_strlit("pty.exited");
    assert("system"@.len() == 6);
    assert("pty"@.len() == 3);
    assert("system"@ != "pty"@);
    assert("agent"@ != "pty"@ && "agent"@ != "system"@ && "agent"@.len() == 5);
    assert("hook"@ != "pty"@ && "hook"@ != "system"@ && "hook"@ != "agent"@ && "hook"@.len() == 4);
    assert("fs"@ != "pty"@ && "fs"@ != "system"@ && "fs"@ != "agent"@ && "fs"@ != "hook"@ && "fs"@.len() == 2);
    assert("llm"@[0] == 'l');
    assert("pty"@[0] == 'p');
    assert("llm"@ != "pty"@);
    assert("llm"@ != "system"@ && "llm"@ != "agent"@ && "llm"@ != "hook"@ && "llm"@ != "fs"@);
    assert("mcp"@ != "pty"@ && "mcp"@[0] == 'm' && "mcp"@ != "llm"@ && "mcp"@ != "system"@ && "mcp"@ != "agent"@
        && "mcp"@ != "hook"@ && "mcp"@ != "fs"@);
    if category == "pty"@ && (has_prefix(kind, "pty.failed"@) || has_prefix(kind, "pty.exited"@)) {
        let h = kind.subrange(0, 10);
        assert(h[0] == kind[0] && h[4] == kind[4]);
        assert(kind[0] == 'p');
        assert("command.submitted"@[0] == 'c');
        assert(kind != "command.submitted"@);
        assert(!has_prefix(kind, "pty.output"@)) by {
            if has_prefix(kind, "pty.output"@) {
                assert(kind[4] == 'o');
            }
        }
    }
    if category == "pty"@ && has_prefix(kind, "pty.output"@) {
        let h = kind.subrange(0, 10);
        assert(h[0] == kind[0]);
        assert("command.submitted"@[0] == 'c');
        assert(kind != "command.submitted"@);
    }
}

/// Classify an event's `(category, kind)` into a source tag.
pub fn classify_source(category: &str, kind: &str) -> (r: Option<&'static str>)
    ensures
        match r {
            Some(s) => classify_spec(category@, kind@) == Some(s@),
            None => classify_spec(category@, kind@) is None,
        },
{
    let c = chars_of(category);
    let k = chars_of(kind);
    let c = c.as_slice();
    let k = k.as_slice();
    if chars_eq_str(c, "pty") {
        if chars_eq_str(k, "command.submitted") {
            Some("command")
        } else if starts_with_str(k, "pty.output") {
            None
        } else if starts_with_str(k, "pty.failed") || starts_with_str(k, "pty.exited") {
            Some("error")
        } else {
            None
        }
    } else if chars_eq_str(c, "system") {
        if starts_with_str(k, "system.error") || starts_with_str(k, "system.warn") {
            Some("error")
        } else {
            None
        }
    } else if chars_eq_str(c, "agent") {
        Some("agent")
    } else if chars_eq_str(c, "hook") {
        Some("hook")
    } else if chars_eq_str(c, "fs") {
        Some("fs")
    } else if chars_eq_str(c, "llm") {
        Some("llm")
    } else if chars_eq_str(c, "mcp") {
        Some("mcp")
    } else {
        None
    }
}

/// Whether `source` is shown under `sources`.
pub open spec fn enabled_spec(source: Seq<char>, sources: TimelineSources) -> bool {
    if source == "command"@ {
        sources.show_commands
    } else if source == "error"@ {
        sources.show_errors
    } else if source == "agent"@ {
        sources.show_agents
    } else if source == "hook"@ {
        sources.show_hooks
    } else if source == "fs"@ {
        sources.show_fs
    } else if source == "llm"@ {
        sources.show_llm_cost
    } else if source == "mcp"@ {
        sources.show_mcp
    } else {
        false
    }
}

/// Law of the source switches: each source tag is shown exactly when its own
/// switch is on (`command` by the commands switch, `error` by the errors
/// switch, `agent`, `hook`, `fs`, `mcp` by theirs, `llm` by the cost
/// switch), and any other tag is never shown.
pub proof fn lemma_source_switches(source: Seq<char>, sources: TimelineSources)
    ensures
        enabled_spec("command"@, sources) == sources.show_commands,
        enabled_spec("error"@, sources) == sources.show_errors,
        enabled_spec("agent"@, sources) == sources.show_agents,
        enabled_spec("hook"@, sources) == sources.show_hooks,
        enabled_spec("fs"@, sources) == sources.show_fs,
        enabled_spec("llm"@, sources) == sources.show_llm_cost,
        enabled_spec("mcp"@, sources) == sources.show_mcp,
        !(source == "command"@ || source == "error"@ || source == "agent"@ || source == "hook"@ || source == "fs"@
            || source == "llm"@ || source == "mcp"@) ==> !enabled_spec(source, sources),
{
    reveal_strlit("command");
    reveal_strlit("error");
    reveal_strlit("agent");
    reveal_strlit("hook");
    reveal_strlit("fs");
    reveal_strlit("llm");
    reveal_strlit("mcp");
    assert("command"@.len() == 7);
    assert("error"@.len() == 5);
    assert("agent"@.len() == 5);
    assert("agent"@[0] == 'a' && "error"@[0] == 'e');
    assert("hook"@.len() == 4);
    assert("fs"@.len() == 2);
    assert("llm"@.len() == 3);
    assert("mcp"@.len() == 3);
    assert("llm"@[0] == 'l' && "mcp"@[0] == 'm');
}

/// Whether `source` is shown under `sources`.
pub fn source_enabled(source: &str, sources: &TimelineSources) -> (r: bool)
    ensures
        r == enabled_spec(source@, *sources),
{
    let s = chars_of(source);
    let s = s.as_slice();
    if chars_eq_str(s, "command") {
        sources.show_commands
    } else if chars_eq_str(s, "error") {
        sources.show_errors
    } else if chars_eq_str(s, "agent") {
        sources.show_agents
    } else if chars_eq_str(s, "hook") {
        sources.show_hooks
    } else if chars_eq_str(s, "fs") {
        sources.show_fs
    } else if chars_eq_str(s, "llm") {
        sources.show_llm_cost
    } else if chars_eq_str(s, "mcp") {
        sources.show_mcp
    } else {
        false
    }
}

pub open spec fn text_or(t: Option<Seq<char>>, d: Seq<char>) -> Seq<char> {
    match t {
        Some(s) => s,
        None => d,
    }
}

/// The one-line summary of an event: the command text of a command, the
/// `message` (else `msg`) of an error, the `message` of anything else;
/// the kind when those are missing.
pub open spec fn summary_spec(source: Seq<char>, kind: Seq<char>, payload: JsonNode) -> Seq<char> {
    if source == "command"@ {
        text_or(json_text(member(payload, "command"@)), kind)
    } else if source == "error"@ {
        match json_text(member(payload, "message"@)) {
            Some(m) => m,
            None => text_or(json_text(member(payload, "msg"@)), kind),
        }
    } else {
        text_or(json_text(member(payload, "message"@)), kind)
    }
}

/// The one-line summary of an event ([`summary_spec`]).
pub fn summarize_envelope(source: &str, kind: &str, payload: &JsonNode) -> (r: String)
    ensures
        r@ == summary_spec(source@, kind@, *payload),
{
    let s = chars_of(source);
    if chars_eq_str(s.as_slice(), "command") {
        match member_text(payload, "command") {
            Some(c) => c,
            None => kind.to_string(),
        }
    } else if chars_eq_str(s.as_slice(), "error") {
        match member_text(payload, "message") {
            Some(m) => m,
            None => match member_text(payload, "msg") {
                Some(m) => m,
                None => kind.to_string(),
            },
        }
    } else {
        match member_text(payload, "message") {
            Some(m) => m,
            None => kind.to_string(),
        }
    }
}

} // verus!

verus! {

// ---------------------------------------------------------------------------
// Entries
// ---------------------------------------------------------------------------

/// [`TimelineEntry`] with its texts as character sequences.
pub struct EntrySpec {
    pub ts: u64,
    pub event_idx: u64,
    pub source: Seq<char>,
    pub category: Seq<char>,
    pub kind: Seq<char>,
    pub summary: Seq<char>,
    pub pane_session_id: Option<i64>,
    pub exit_code: Option<i32>,
    pub duration_ms: Option<u64>,
    pub payload: JsonNode,
}

impl View for TimelineEntry {
    type V = EntrySpec;

    open spec fn view(&self) -> EntrySpec {
        EntrySpec {
            ts: self.ts,
            event_idx: self.event_idx,
            source: self.source@,
            category: self.category@,
            kind: self.kind@,
            summary: self.summary@,
            pane_session_id: self.pane_session_id,
            exit_code: self.exit_code,
            duration_ms: self.duration_ms,
            payload: self.payload,
        }
    }
}

pub open spec fn abs_diff(a: u64, b: u64) -> u64 {
    if a >= b {
        (a - b) as u64
    } else {
        (b - a) as u64
    }
}

/// A history record of pane `pid` that ran exactly `cmd`.
pub open spec fn rec_matches(r: HistoryRecord, pid: i64, cmd: Seq<char>) -> bool {
    r.session_id == Some(pid) && r.command@ == cmd
}

/// How far a record's start is from `ts` (a missing start counts as 0).
pub open spec fn rec_key(r: HistoryRecord, ts: u64) -> u64 {
    abs_diff(
        match r.started_at_ms {
            Some(m) => m,
            None => 0,
        },
        ts,
    )
}

/// The first of the matching records among the first `n` whose start is
/// closest to `ts`.
pub open spec fn best_upto(h: Seq<HistoryRecord>, n: int, pid: i64, cmd: Seq<char>, ts: u64) -> Option<int>
    decreases n,
{
    if n <= 0 || n > h.len() {
        None
    } else {
        let prev = best_upto(h, n - 1, pid, cmd, ts);
        if rec_matches(h[n - 1], pid, cmd) {
            match prev {
                Some(b) => if rec_key(h[n - 1], ts) < rec_key(h[b], ts) {
                    Some(n - 1)
                } else {
                    prev
                },
                None => Some(n - 1),
            }
        } else {
            prev
        }
    }
}

proof fn lemma_best_upto(h: Seq<HistoryRecord>, n: int, pid: i64, cmd: Seq<char>, ts: u64)
    ensures
        best_upto(h, n, pid, cmd, ts) matches Some(b) ==> 0 <= b < n && b < h.len(),
    decreases n,
{
    if 0 < n <= h.len() {
        lemma_best_upto(h, n - 1, pid, cmd, ts);
    }
}

/// The timeline entry of the event at `idx`, `None` when its source is
/// never shown or not selected.
pub open spec fn entry_of(e: JsonNode, idx: int, sources: TimelineSources, h: Seq<HistoryRecord>) -> Option<EntrySpec> {
    let category = lowercase(text_or(json_text(member(e, "category"@)), Seq::empty()));
    let kind = text_or(json_text(member(e, "kind"@)), Seq::empty());
    let ts: u64 = match json_u64(member(e, "ts"@)) {
        Some(t) => t,
        None => 0,
    };
    let payload = match member(e, "payload"@) {
        Some(p) => p,
        None => JsonNode::Null,
    };
    match classify_spec(category, kind) {
        None => None,
        Some(source) => if !enabled_spec(source, sources) {
            None
        } else {
            let pane = if source == "command"@ {
                json_i64(member(payload, "session_id"@))
            } else {
                None
            };
            let cmd = text_or(json_text(member(payload, "command"@)), Seq::empty());
            let best = match pane {
                Some(pid) => best_upto(h, h.len() as int, pid, cmd, ts),
                None => None,
            };
            Some(
                EntrySpec {
                    ts,
                    event_idx: idx as u64,
                    source,
                    category,
                    kind,
                    summary: summary_spec(source, kind, payload),
                    pane_session_id: pane,
                    exit_code: match best {
                        Some(b) => h[b].exit_code,
                        None => None,
                    },
                    duration_ms: match best {
                        Some(b) => h[b].duration_ms,
                        None => None,
                    },
                    payload,
                },
            )
        },
    }
}

/// The entries of the first `n` events, in event order.
pub open spec fn entries_upto(events: Seq<JsonNode>, n: int, sources: TimelineSources, h: Seq<HistoryRecord>) -> Seq<EntrySpec>
    decreases n,
{
    if n <= 0 || n > events.len() {
        Seq::empty()
    } else {
        match entry_of(events[n - 1], n - 1, sources, h) {
            Some(x) => entries_upto(events, n - 1, sources, h).push(x),
            None => entries_upto(events, n - 1, sources, h),
        }
    }
}

/// Timeline order: by time, then by position in the session.
pub open spec fn before(a: EntrySpec, b: EntrySpec) -> bool {
    a.ts < b.ts || (a.ts == b.ts && a.event_idx < b.event_idx)
}

pub open spec fn time_sorted(s: Seq<EntrySpec>) -> bool {
    forall|i: int, j: int| 0 <= i < j < s.len() ==> before(#[trigger] s[i], #[trigger] s[j])
}

pub open spec fn entry_views(v: Seq<TimelineEntry>) -> Seq<EntrySpec> {
    v.map_values(|e: TimelineEntry| e@)
}

/// The record joined to a command event, by [`best_upto`].
fn best_record(h: &Vec<HistoryRecord>, pid: i64, cmd: &[char], ts: u64) -> (r: Option<usize>)
    ensures
        match r {
            Some(b) => best_upto(h@, h@.len() as int, pid, cmd@, ts) == Some(b as int),
            None => best_upto(h@, h@.len() as int, pid, cmd@, ts) is None,
        },
{
    let mut best: Option<usize> = None;
    let mut best_key: u64 = 0;
    let mut i: usize = 0;
    while i < h.len()
        invariant
            i <= h@.len(),
            match best {
                Some(b) => best_upto(h@, i as int, pid, cmd@, ts) == Some(b as int) && b < i && best_key == rec_key(h@[b as int], ts),
                None => best_upto(h@, i as int, pid, cmd@, ts) is None,
            },
        decreases h@.len() - i,
    {
        let r = &h[i];
        let c = chars_of(r.command.as_str());
        let matches = match r.session_id {
            Some(s) => s == pid && crate::text::chars_eq(c.as_slice(), cmd),
            None => false,
        };
        if matches {
            let start = match r.started_at_ms {
                Some(m) => m,
                None => 0,
            };
            let key = if start >= ts {
                start - ts
            } else {
                ts - start
            };
            match best {
                Some(_) => {
                    if key < best_key {
                        best = Some(i);
                        best_key = key;
                    }
                },
                None => {
                    best = Some(i);
                    best_key = key;
                },
            }
        }
        i += 1;
    }
    best
}

/// The timeline entry of one event ([`entry_of`]).
fn entry_of_event(e: JsonNode, idx: usize, sources: &TimelineSources, h: &Vec<HistoryRecord>) -> (r: Option<TimelineEntry>)
    ensures
        match r {
            Some(x) => entry_of(e, idx as int, *sources, h@) == Some(x@),
            None => entry_of(e, idx as int, *sources, h@) is None,
        },
{
    let ghost e0 = e;
    let raw_category = match member_text(&e, "category") {
        Some(c) => c,
        None => String::new(),
    };
    let category_chars = to_lowercase(chars_of(raw_category.as_str()).as_slice());
    let category = string_of(category_chars.as_slice());
    let kind = match member_text(&e, "kind") {
        Some(k) => k,
        None => String::new(),
    };
    let ts: u64 = match member_u64(&e, "ts") {
        Some(t) => t,
        None => 0,
    };
    let payload = match take_member(e, "payload") {
        Some(p) => p,
        None => JsonNode::Null,
    };
    let source = match classify_source(category.as_str(), kind.as_str()) {
        Some(s) => s,
        None => return None,
    };
    if !source_enabled(source, sources) {
        return None;
    }
    let summary = summarize_envelope(source, kind.as_str(), &payload);
    let is_command = chars_eq_str(chars_of(source).as_slice(), "command");
    let pane = if is_command {
        member_i64(&payload, "session_id")
    } else {
        None
    };
    let cmd = match member_text(&payload, "command") {
        Some(c) => c,
        None => String::new(),
    };
    let best = match pane {
        Some(pid) => {
            let cc = chars_of(cmd.as_str());
            best_record(h, pid, cc.as_slice(), ts)
        },
        None => None,
    };
    proof {
        match pane {
            Some(pid) => lemma_best_upto(h@, h@.len() as int, pid, cmd@, ts),
            None => {},
        }
    }
    let (exit_code, duration_ms) = match best {
        Some(b) => (h[b].exit_code, h[b].duration_ms),
        None => (None, None),
    };
    Some(
        TimelineEntry {
            ts,
            event_idx: idx as u64,
            source: source.to_string(),
            category,
            kind,
            summary,
            pane_session_id: pane,
            exit_code,
            duration_ms,
            payload,
        },
    )
}

} // verus!

verus! {

proof fn lemma_entry_idx(events: Seq<JsonNode>, n: int, sources: TimelineSources, h: Seq<HistoryRecord>)
    requires
        0 <= n <= events.len(),
        events.len() <= u64::MAX,
    ensures
        forall|k: int| 0 <= k < entries_upto(events, n, sources, h).len()
            ==> (#[trigger] entries_upto(events, n, sources, h)[k]).event_idx < n,
    decreases n,
{
    if n > 0 {
        lemma_entry_idx(events, n - 1, sources, h);
        let prev = entries_upto(events, n - 1, sources, h);
        match entry_of(events[n - 1], n - 1, sources, h) {
            Some(x) => {
                assert forall|k: int| 0 <= k < prev.push(x).len() implies (#[trigger] prev.push(x)[k]).event_idx < n by {
                    if k < prev.len() {
                        assert(prev.push(x)[k] == prev[k]);
                    }
                }
            },
            None => {},
        }
    }
}

/// What the timeline of `all` (the entries in event order) is under a cap:
/// the `cap` latest entries in timeline order.
pub open spec fn timeline_ok(r: Seq<EntrySpec>, all: Seq<EntrySpec>, cap: int) -> bool {
    &&& r.len() == if all.len() < cap { all.len() as int } else { cap }
    &&& time_sorted(r)
    &&& forall|k: int| 0 <= k < r.len() ==> all.contains(#[trigger] r[k])
    &&& forall|x: EntrySpec| all.contains(x) && !r.contains(x) ==> forall|k: int| 0 <= k < r.len() ==> before(x, #[trigger] r[k])
}

pub open spec fn cap_of(limit: Option<usize>) -> int {
    match limit {
        Some(c) => c as int,
        None => DEFAULT_TIMELINE_CAP as int,
    }
}

/// Merge, filter, enrich and order a session's events into its timeline,
/// keeping the `limit` (default 2000) latest entries.
pub fn build_timeline_events(
    events: Vec<JsonNode>,
    sources: &TimelineSources,
    history: &Vec<HistoryRecord>,
    limit: Option<usize>,
) -> (r: Vec<TimelineEntry>)
    ensures
        timeline_ok(entry_views(r@), entries_upto(events@, events@.len() as int, *sources, history@), cap_of(limit)),
{
    let ghost e0 = events@;
    let n = events.len();
    let mut events = events;
    let mut rev: Vec<JsonNode> = Vec::new();
    assert(rev@ =~= e0.subrange(n as int, n as int).reverse());
    while events.len() > 0
        invariant
            events@.len() <= n,
            events@ == e0.subrange(0, events@.len() as int),
            rev@ == e0.subrange(events@.len() as int, n as int).reverse(),
            n == e0.len(),
        decreases events@.len(),
    {
        let ghost k = events@.len() - 1;
        let x = events.pop().unwrap();
        rev.push(x);
        assert(events@ =~= e0.subrange(0, k));
        assert(rev@ =~= e0.subrange(k, n as int).reverse());
    }
    let ghost all = entries_upto(e0, n as int, *sources, history@);
    let mut out: Vec<TimelineEntry> = Vec::new();
    let mut i: usize = 0;
    assert(entry_views(out@) =~= entries_upto(e0, 0, *sources, history@));
    while i < n
        invariant
            i <= n,
            n == e0.len(),
            rev@ == e0.subrange(i as int, n as int).reverse(),
            entry_views(out@).len() == entries_upto(e0, i as int, *sources, history@).len(),
            forall|x: EntrySpec| entry_views(out@).contains(x) <==> entries_upto(e0, i as int, *sources, history@).contains(x),
            time_sorted(entry_views(out@)),
            forall|k: int| 0 <= k < entry_views(out@).len() ==> (#[trigger] entry_views(out@)[k]).event_idx < i,
        decreases n - i,
    {
        let x = rev.pop().unwrap();
        assert(x == e0[i as int]);
        assert(rev@ =~= e0.subrange(i + 1, n as int).reverse());
        let ghost o0 = entry_views(out@);
        let ghost prev = entries_upto(e0, i as int, *sources, history@);
        match entry_of_event(x, i, sources, history) {
            Some(entry) => {
                let ghost ev = entry@;
                let ts = entry.ts;
                let mut p = out.len();
                while p > 0 && out[p - 1].ts > ts
                    invariant
                        p <= out@.len(),
                        o0 == entry_views(out@),
                        ts == ev.ts,
                        forall|k: int| p <= k < o0.len() ==> (#[trigger] o0[k]).ts > ev.ts,
                    decreases p,
                {
                    assert(o0[p - 1].ts == out@[p - 1].ts);
                    p -= 1;
                }
                proof {
                    if p > 0 {
                        assert(o0[p - 1].ts == out@[p - 1].ts);
                    }
                }
                out.insert(p, entry);
                proof {
                    let o1 = entry_views(out@);
                    assert(o1 =~= o0.insert(p as int, ev));
                    assert(ev.event_idx == i);
                    assert forall|a: int, b: int| 0 <= a < b < o1.len() implies before(#[trigger] o1[a], #[trigger] o1[b]) by {
                        if a < p && b < p {
                        } else if a < p && b == p {
                            if a < p - 1 {
                                assert(before(o0[a], o0[p - 1]));
                            }
                        } else if a < p && b > p {
                            assert(o1[b] == o0[b - 1]);
                        } else if a == p {
                            assert(o1[b] == o0[b - 1]);
                        } else {
                            assert(o1[a] == o0[a - 1]);
                            assert(o1[b] == o0[b - 1]);
                        }
                    }
                    assert forall|y: EntrySpec| o1.contains(y) <==> prev.push(ev).contains(y) by {
                        if o1.contains(y) {
                            let k = choose|k: int| 0 <= k < o1.len() && o1[k] == y;
                            if k < p {
                                assert(o0[k] == y);
                                assert(o0.contains(y));
                                let m = choose|m: int| 0 <= m < prev.len() && prev[m] == y;
                                assert(prev.push(ev)[m] == y);
                            } else if k > p {
                                assert(o0[k - 1] == y);
                                assert(o0.contains(y));
                                let m = choose|m: int| 0 <= m < prev.len() && prev[m] == y;
                                assert(prev.push(ev)[m] == y);
                            } else {
                                assert(prev.push(ev)[prev.len() as int] == y);
                            }
                        }
                        if prev.push(ev).contains(y) {
                            let m = choose|m: int| 0 <= m < prev.len() + 1 && prev.push(ev)[m] == y;
                            if m < prev.len() {
                                assert(prev[m] == y);
                                assert(prev.contains(y));
                                assert(o0.contains(y));
                                let k = choose|k: int| 0 <= k < o0.len() && o0[k] == y;
                                if k < p {
                                    assert(o1[k] == y);
                                } else {
                                    assert(o1[k + 1] == y);
                                }
                            } else {
                                assert(o1[p as int] == y);
                            }
                        }
                    }
                    assert forall|k: int| 0 <= k < o1.len() implies (#[trigger] o1[k]).event_idx < i + 1 by {
                        if k < p {
                            assert(o1[k] == o0[k]);
                        } else if k > p {
                            assert(o1[k] == o0[k - 1]);
                        }
                    }
                }
            },
            None => {},
        }
        i += 1;
    }
    let ghost sorted = entry_views(out@);
    let ghost total = sorted.len();
    let cap = match limit {
        Some(c) => c,
        None => DEFAULT_TIMELINE_CAP,
    };
    let keep = if out.len() < cap {
        out.len()
    } else {
        cap
    };
    let mut rest: Vec<TimelineEntry> = Vec::new();
    assert(entry_views(rest@) =~= sorted.subrange(total as int, total as int).reverse());
    assert(sorted.subrange(0, total as int) =~= sorted);
    while rest.len() < keep
        invariant
            keep <= total,
            rest@.len() <= keep,
            total == sorted.len(),
            entry_views(out@) == sorted.subrange(0, total - rest@.len()),
            entry_views(rest@) == sorted.subrange(total - rest@.len(), total as int).reverse(),
        decreases keep - rest@.len(),
    {
        let ghost o_before = out@;
        let ghost r_before = entry_views(rest@);
        assert(entry_views(out@).len() == out@.len());
        assert(o_before.len() == total - rest@.len());
        assert(entry_views(o_before)[o_before.len() - 1] == o_before[o_before.len() - 1]@);
        let e = out.pop().unwrap();
        assert(e == o_before[o_before.len() - 1]);
        assert(out@ =~= o_before.drop_last());
        let ghost ev = e@;
        assert(ev == sorted[total - rest@.len() - 1]);
        rest.push(e);
        assert(entry_views(rest@) =~= r_before.push(ev));
        assert(entry_views(rest@) =~= sorted.subrange(total - rest@.len(), total as int).reverse());
        assert(entry_views(out@) =~= sorted.subrange(0, total - rest@.len()));
    }
    let mut r: Vec<TimelineEntry> = Vec::new();
    let ghost start = total - keep;
    assert(entry_views(r@) =~= sorted.subrange(start, start));
    while rest.len() > 0
        invariant
            keep <= total,
            start == total - keep,
            r@.len() + rest@.len() == keep,
            total == sorted.len(),
            entry_views(r@) == sorted.subrange(start, start + r@.len()),
            entry_views(rest@) == sorted.subrange(start + r@.len(), total as int).reverse(),
        decreases rest@.len(),
    {
        let ghost s_before = rest@;
        let ghost r_before = entry_views(r@);
        assert(entry_views(s_before)[s_before.len() - 1] == s_before[s_before.len() - 1]@);
        let e = rest.pop().unwrap();
        assert(e == s_before[s_before.len() - 1]);
        assert(rest@ =~= s_before.drop_last());
        let ghost ev = e@;
        assert(ev == sorted[start + r@.len()]);
        assert(entry_views(rest@) =~= entry_views(s_before).drop_last());
        r.push(e);
        assert(entry_views(r@) =~= r_before.push(ev));
        assert(entry_views(r@) =~= sorted.subrange(start, start + r@.len()));
        assert(entry_views(rest@) =~= sorted.subrange(start + r@.len(), total as int).reverse());
    }
    proof {
        let rv = entry_views(r@);
        assert(rv.len() == keep);
        assert forall|a: int, b: int| 0 <= a < b < rv.len() implies before(#[trigger] rv[a], #[trigger] rv[b]) by {
            assert(rv[a] == sorted[start + a] && rv[b] == sorted[start + b]);
        }
        assert forall|k: int| 0 <= k < rv.len() implies all.contains(#[trigger] rv[k]) by {
            assert(rv[k] == sorted[start + k]);
            assert(sorted.contains(sorted[start + k]));
        }
        assert forall|x: EntrySpec| all.contains(x) && !rv.contains(x) implies forall|k: int| 0 <= k < rv.len() ==> before(x, #[trigger] rv[k]) by {
            assert(sorted.contains(x));
            let j = choose|j: int| 0 <= j < sorted.len() && sorted[j] == x;
            if j >= start {
                assert(rv[j - start] == x);
            }
            assert forall|k: int| 0 <= k < rv.len() implies before(x, #[trigger] rv[k]) by {
                assert(rv[k] == sorted[start + k]);
            }
        }
    }
    r
}

} // verus!
