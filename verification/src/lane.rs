//! Lane classifier: parses OSC 6973 sentinels (`ESC ] 6973 ; EVENT [;k=v]* BEL`)
//! out of PTY byte streams and keeps the per-session lane state machine.
use vstd::prelude::*;
use crate::path::{file_stem, path_file_stem};
use crate::text::{lowercase, to_lowercase, chars_eq, chars_eq_str, chars_of, decode_lossy, i32_from_text, parse_i32, string_of, sub_chars, utf8_lossy};

verus! {

/// Lane identity.
#[derive(Clone, Copy, Debug, PartialEq, Eq, Hash, Structural)]
pub enum Lane {
    /// Shell prompt region.
    Sys,
    /// User keyboard input echo.
    UserInput,
    /// Coding-assistant voice.
    Claude,
    /// Sub-agent output.
    Agent,
    /// Hook output.
    Hook,
    /// Aegis output.
    Aegis,
    /// Command completed successfully (exit 0).
    CmdOk,
    /// Command completed with a non-zero exit.
    CmdErr,
}

/// Sentinel events parsed from OSC 6973 sequences.
#[derive(Debug, Clone, PartialEq, Eq)]
pub enum SentinelEvent {
    PromptStart,
    PromptEnd,
    CmdStart,
    CmdEnd { exit_code: i32 },
    HookStart { name: String },
    HookEnd { name: String },
    AegisStart,
    AegisEnd,
    ClaudeStart,
    ClaudeEnd,
}

/// Mathematical form of a [`SentinelEvent`].
pub enum EventSpec {
    PromptStart,
    PromptEnd,
    CmdStart,
    CmdEnd { exit_code: i32 },
    HookStart { name: Seq<char> },
    HookEnd { name: Seq<char> },
    AegisStart,
    AegisEnd,
    ClaudeStart,
    ClaudeEnd,
}

impl View for SentinelEvent {
    type V = EventSpec;

    open spec fn view(&self) -> EventSpec {
        match self {
            SentinelEvent::PromptStart => EventSpec::PromptStart,
            SentinelEvent::PromptEnd => EventSpec::PromptEnd,
            SentinelEvent::CmdStart => EventSpec::CmdStart,
            SentinelEvent::CmdEnd { exit_code } => EventSpec::CmdEnd { exit_code: *exit_code },
            SentinelEvent::HookStart { name } => EventSpec::HookStart { name: name@ },
            SentinelEvent::HookEnd { name } => EventSpec::HookEnd { name: name@ },
            SentinelEvent::AegisStart => EventSpec::AegisStart,
            SentinelEvent::AegisEnd => EventSpec::AegisEnd,
            SentinelEvent::ClaudeStart => EventSpec::ClaudeStart,
            SentinelEvent::ClaudeEnd => EventSpec::ClaudeEnd,
        }
    }
}

/// A lane-change event emitted by the classifier.
#[derive(Debug, Clone, Copy)]
pub struct LaneChange {
    pub lane: Lane,
    /// Offset of the change from the start of the session's byte count.
    pub byte_offset: usize,
}

// ---------------------------------------------------------------------------
// Sentinel text parsing
// ---------------------------------------------------------------------------

/// First index `>= from` at which `s` holds `c`.
pub open spec fn index_of_from(s: Seq<char>, c: char, from: int) -> Option<int>
    decreases s.len() - from,
{
    if from < 0 || from >= s.len() {
        None
    } else if s[from] == c {
        Some(from)
    } else {
        index_of_from(s, c, from + 1)
    }
}

/// `(before, after)` of the first `c` in `s`, as `split_once(c)` gives.
pub open spec fn split_once(s: Seq<char>, c: char) -> Option<(Seq<char>, Seq<char>)> {
    match index_of_from(s, c, 0) {
        Some(i) => Some((s.subrange(0, i), s.subrange(i + 1, s.len() as int))),
        None => None,
    }
}

/// The value of the first `key=value` piece of `params` (pieces separated
/// by `;`) whose key is `key`.
pub open spec fn param_value(params: Seq<char>, key: Seq<char>) -> Option<Seq<char>>
    decreases params.len(),
{
    let (piece, rest, more) = match split_once(params, ';') {
        Some((p, r)) => (p, r, true),
        None => (params, Seq::<char>::empty(), false),
    };
    let hit = match split_once(piece, '=') {
        Some((k, v)) => if k == key { Some(v) } else { None },
        None => None,
    };
    if hit is Some {
        hit
    } else if more {
        proof {
            lemma_split_once_shorter(params, ';');
        }
        param_value(rest, key)
    } else {
        None
    }
}

/// `index_of_from` finds the first `c` at or after `from`, or reports that
/// there is none.
pub proof fn lemma_index_of_from(s: Seq<char>, c: char, from: int)
    ensures
        index_of_from(s, c, from) matches Some(i) ==> (from <= i < s.len() && s[i] == c && 0
            <= from && forall|k: int| from <= k < i ==> s[k] != c),
        index_of_from(s, c, from) is None ==> forall|k: int|
            0 <= from <= k < s.len() ==> s[k] != c,
    decreases s.len() - from,
{
    if 0 <= from < s.len() && s[from] != c {
        lemma_index_of_from(s, c, from + 1);
    }
}

/// Both parts of a split are shorter than the text split.
pub proof fn lemma_split_once_shorter(s: Seq<char>, c: char)
    ensures
        split_once(s, c) matches Some((a, b)) ==> b.len() < s.len() && a.len() < s.len(),
{
    lemma_index_of_from(s, c, 0);
}

/// What a sentinel payload (the text between `ESC ] 6973 ;` and `BEL`)
/// denotes: the event named before the first `;`, with `exit=` / `name=`
/// parameters taken from the rest.
pub open spec fn sentinel_spec(s: Seq<char>) -> Option<EventSpec> {
    let (name, params) = match split_once(s, ';') {
        Some((n, p)) => (n, p),
        None => (s, Seq::<char>::empty()),
    };
    if name == "PROMPT_START"@ {
        Some(EventSpec::PromptStart)
    } else if name == "PROMPT_END"@ {
        Some(EventSpec::PromptEnd)
    } else if name == "CMD_START"@ {
        Some(EventSpec::CmdStart)
    } else if name == "CMD_END"@ {
        let code = match param_value(params, "exit"@) {
            Some(v) => match i32_from_text(v) {
                Some(n) => n,
                None => 0i32,
            },
            None => 0i32,
        };
        Some(EventSpec::CmdEnd { exit_code: code })
    } else if name == "HOOK_START"@ {
        Some(
            EventSpec::HookStart {
                name: match param_value(params, "name"@) {
                    Some(v) => v,
                    None => Seq::empty(),
                },
            },
        )
    } else if name == "HOOK_END"@ {
        Some(
            EventSpec::HookEnd {
                name: match param_value(params, "name"@) {
                    Some(v) => v,
                    None => Seq::empty(),
                },
            },
        )
    } else if name == "AEGIS_START"@ {
        Some(EventSpec::AegisStart)
    } else if name == "AEGIS_END"@ {
        Some(EventSpec::AegisEnd)
    } else if name == "CLAUDE_START"@ {
        Some(EventSpec::ClaudeStart)
    } else if name == "CLAUDE_END"@ {
        Some(EventSpec::ClaudeEnd)
    } else {
        None
    }
}

/// First index `>= from` at which `s` holds `c`.
pub fn find_char(s: &[char], c: char, from: usize) -> (r: Option<usize>)
    requires
        from <= s.len(),
    ensures
        match r {
            Some(i) => index_of_from(s@, c, from as int) == Some(i as int),
            None => index_of_from(s@, c, from as int) is None,
        },
{
    let mut i = from;
    while i < s.len()
        invariant
            from <= i <= s.len(),
            index_of_from(s@, c, from as int) == index_of_from(s@, c, i as int),
        decreases s.len() - i,
    {
        if s[i] == c {
            return Some(i);
        }
        i += 1;
    }
    None
}

/// `split_once(c)`.
pub fn split_once_chars(s: &[char], c: char) -> (r: Option<(Vec<char>, Vec<char>)>)
    ensures
        match r {
            Some((a, b)) => split_once(s@, c) == Some((a@, b@)),
            None => split_once(s@, c) is None,
        },
{
    proof {
        lemma_index_of_from(s@, c, 0);
    }
    match find_char(s, c, 0) {
        Some(i) => {
            assert(i < s.len());
            Some((sub_chars(s, 0, i), sub_chars(s, i + 1, s.len())))
        },
        None => None,
    }
}

/// Value of the `key=value` parameter named `key` in `params`.
pub fn extract_param(params: &[char], key: &str) -> (r: Option<String>)
    ensures
        match r {
            Some(v) => param_value(params@, key@) == Some(v@),
            None => param_value(params@, key@) is None,
        },
{
    let keyc = chars_of(key);
    let mut rest: Vec<char> = sub_chars(params, 0, params.len());
    assert(rest@ =~= params@);
    loop
        invariant
            param_value(rest@, keyc@) == param_value(params@, key@),
        decreases rest@.len(),
    {
        let (piece, next, more) = match split_once_chars(rest.as_slice(), ';') {
            Some((p, n)) => (p, n, true),
            None => (rest.clone(), Vec::new(), false),
        };
        proof {
            lemma_split_once_shorter(rest@, ';');
        }
        if let Some((k, v)) = split_once_chars(piece.as_slice(), '=') {
            if chars_eq(k.as_slice(), keyc.as_slice()) {
                return Some(string_of(v.as_slice()));
            }
        }
        if !more {
            return None;
        }
        rest = next;
    }
}

/// Parse a sentinel payload (the content between `ESC ] 6973 ;` and BEL).
pub fn parse_sentinel_event(s: &[char]) -> (r: Option<SentinelEvent>)
    ensures
        match r {
            Some(e) => sentinel_spec(s@) == Some(e@),
            None => sentinel_spec(s@) is None,
        },
{
    let (name, params) = match split_once_chars(s, ';') {
        Some((n, p)) => (n, p),
        None => (sub_chars(s, 0, s.len()), Vec::new()),
    };
    assert(split_once(s@, ';') is None ==> name@ =~= s@ && params@ =~= Seq::<char>::empty());
    let name = name.as_slice();
    if chars_eq_str(name, "PROMPT_START") {
        Some(SentinelEvent::PromptStart)
    } else if chars_eq_str(name, "PROMPT_END") {
        Some(SentinelEvent::PromptEnd)
    } else if chars_eq_str(name, "CMD_START") {
        Some(SentinelEvent::CmdStart)
    } else if chars_eq_str(name, "CMD_END") {
        let exit_code = match extract_param(params.as_slice(), "exit") {
            Some(v) => {
                let vc = chars_of(v.as_str());
                match parse_i32(vc.as_slice()) {
                    Some(n) => n,
                    None => 0,
                }
            },
            None => 0,
        };
        Some(SentinelEvent::CmdEnd { exit_code })
    } else if chars_eq_str(name, "HOOK_START") {
        let name = match extract_param(params.as_slice(), "name") {
            Some(v) => v,
            None => String::new(),
        };
        Some(SentinelEvent::HookStart { name })
    } else if chars_eq_str(name, "HOOK_END") {
        let name = match extract_param(params.as_slice(), "name") {
            Some(v) => v,
            None => String::new(),
        };
        Some(SentinelEvent::HookEnd { name })
    } else if chars_eq_str(name, "AEGIS_START") {
        Some(SentinelEvent::AegisStart)
    } else if chars_eq_str(name, "AEGIS_END") {
        Some(SentinelEvent::AegisEnd)
    } else if chars_eq_str(name, "CLAUDE_START") {
        Some(SentinelEvent::ClaudeStart)
    } else if chars_eq_str(name, "CLAUDE_END") {
        Some(SentinelEvent::ClaudeEnd)
    } else {
        None
    }
}

} // verus!

verus! {

// ---------------------------------------------------------------------------
// Lane state machine
// ---------------------------------------------------------------------------

/// Mathematical state of a [`LaneClassifier`].
#[verifier::ext_equal]
pub struct LaneState {
    pub lane: Lane,
    /// Enclosing lanes of the open hook, Aegis and assistant regions.
    pub stack: Seq<Lane>,
    /// Session byte counter.
    pub total: int,
    /// Bytes of a sentinel whose BEL has not arrived yet.
    pub partial: Option<Seq<u8>>,
    /// Whether the last `feed` / `transform` processed a CMD_START.
    pub cmd_fired: bool,
}

/// Lane popped from the region stack (SYS when empty), and the stack left.
pub open spec fn pop_lane(stack: Seq<Lane>) -> (Lane, Seq<Lane>) {
    if stack.len() == 0 {
        (Lane::Sys, stack)
    } else {
        (stack.last(), stack.drop_last())
    }
}

/// Effect of one sentinel event: the new state, and the change reported when
/// the lane differs from the current one.
pub open spec fn apply_spec(s: LaneState, ev: EventSpec) -> (LaneState, Option<LaneChange>) {
    let fired = s.cmd_fired || ev is CmdStart;
    let (lane, stack) = match ev {
        EventSpec::PromptStart => (Lane::Sys, Seq::<Lane>::empty()),
        EventSpec::PromptEnd => (Lane::UserInput, s.stack),
        EventSpec::CmdStart => (Lane::CmdOk, s.stack),
        EventSpec::CmdEnd { exit_code } => (
            if exit_code == 0 { Lane::CmdOk } else { Lane::CmdErr },
            s.stack,
        ),
        EventSpec::HookStart { .. } => (Lane::Hook, s.stack.push(s.lane)),
        EventSpec::AegisStart => (Lane::Aegis, s.stack.push(s.lane)),
        EventSpec::ClaudeStart => (Lane::Claude, s.stack.push(s.lane)),
        EventSpec::HookEnd { .. } => pop_lane(s.stack),
        EventSpec::AegisEnd => pop_lane(s.stack),
        EventSpec::ClaudeEnd => pop_lane(s.stack),
    };
    let next = LaneState { lane, stack, cmd_fired: fired, ..s };
    if lane != s.lane {
        (next, Some(LaneChange { lane, byte_offset: s.total as usize }))
    } else {
        (next, None)
    }
}

/// Effect of the bytes of one complete sentinel payload.
pub open spec fn apply_payload(s: LaneState, payload: Seq<u8>) -> (LaneState, Option<LaneChange>) {
    match sentinel_spec(utf8_lossy(payload)) {
        Some(ev) => apply_spec(s, ev),
        None => (s, None),
    }
}

pub open spec fn push_change(changes: Seq<LaneChange>, c: Option<LaneChange>) -> Seq<LaneChange> {
    match c {
        Some(ch) => changes.push(ch),
        None => changes,
    }
}

/// Whether `chunk[pos..pos+7]` is the sentinel prefix `ESC ] 6 9 7 3 ;`.
pub open spec fn prefix_at(chunk: Seq<u8>, pos: int) -> bool {
    &&& 0 <= pos
    &&& pos + 7 <= chunk.len()
    &&& chunk[pos] == 0x1b
    &&& chunk[pos + 1] == 0x5d
    &&& chunk[pos + 2] == 0x36
    &&& chunk[pos + 3] == 0x39
    &&& chunk[pos + 4] == 0x37
    &&& chunk[pos + 5] == 0x33
    &&& chunk[pos + 6] == 0x3b
}

/// First index `>= from` holding BEL.
pub open spec fn bel_from(chunk: Seq<u8>, from: int) -> Option<int>
    decreases chunk.len() - from,
{
    if from < 0 || from >= chunk.len() {
        None
    } else if chunk[from] == 7 {
        Some(from)
    } else {
        bel_from(chunk, from + 1)
    }
}

/// `bel_from` finds a BEL byte at or after `from`.
pub proof fn lemma_bel_from(chunk: Seq<u8>, from: int)
    ensures
        bel_from(chunk, from) matches Some(b) ==> 0 <= from <= b < chunk.len() && chunk[b] == 7,
    decreases chunk.len() - from,
{
    if 0 <= from < chunk.len() && chunk[from] != 7 {
        lemma_bel_from(chunk, from + 1);
    }
}

/// Progress of a `feed` scan over one chunk.
#[verifier::ext_equal]
pub struct FeedScan {
    pub st: LaneState,
    pub pos: int,
    pub changes: Seq<LaneChange>,
}

/// One iteration of the `feed` scanner at `sc.pos` (which is `< chunk.len()`).
#[verifier::opaque]
pub open spec fn feed_step(sc: FeedScan, chunk: Seq<u8>) -> FeedScan {
    let pos = sc.pos;
    let st = sc.st;
    match st.partial {
        Some(buf) => if chunk[pos] == 7 {
            let (st2, c) = apply_payload(st, buf);
            FeedScan {
                st: LaneState { partial: None, ..st2 },
                pos: pos + 1,
                changes: push_change(sc.changes, c),
            }
        } else if buf.len() > 256 {
            FeedScan { st: LaneState { partial: None, ..st }, ..sc }
        } else {
            FeedScan {
                st: LaneState { partial: Some(buf.push(chunk[pos])), ..st },
                pos: pos + 1,
                ..sc
            }
        },
        None => {
            let next = if prefix_at(chunk, pos) {
                match bel_from(chunk, pos + 7) {
                    Some(b) => {
                        let (st2, c) = apply_payload(st, chunk.subrange(pos + 7, b));
                        FeedScan { st: st2, pos: b + 1, changes: push_change(sc.changes, c) }
                    },
                    None => FeedScan {
                        st: LaneState {
                            partial: Some(chunk.subrange(pos + 7, chunk.len() as int)),
                            ..st
                        },
                        pos: chunk.len() as int,
                        ..sc
                    },
                }
            } else {
                FeedScan { pos: pos + 1, ..sc }
            };
            FeedScan { st: LaneState { total: next.st.total + 1, ..next.st }, ..next }
        },
    }
}

pub open spec fn partial_rank(st: LaneState) -> int {
    if st.partial is Some {
        1
    } else {
        0
    }
}

/// The `feed` scanner run from `sc` to the end of `chunk`.
pub open spec fn feed_scan(sc: FeedScan, chunk: Seq<u8>) -> FeedScan
    decreases chunk.len() - sc.pos, partial_rank(sc.st),
{
    if 0 <= sc.pos < chunk.len() {
        proof {
            reveal(feed_step);
            lemma_bel_from(chunk, sc.pos + 7);
        }
        feed_scan(feed_step(sc, chunk), chunk)
    } else {
        sc
    }
}

/// Progress of a `transform` scan over one chunk.
#[verifier::ext_equal]
pub struct TransformScan {
    pub st: LaneState,
    pub pos: int,
    pub out: Seq<u8>,
}

/// One iteration of the `transform` scanner.
#[verifier::opaque]
pub open spec fn transform_step(sc: TransformScan, chunk: Seq<u8>) -> TransformScan {
    let pos = sc.pos;
    let st = sc.st;
    match st.partial {
        Some(buf) => if chunk[pos] == 7 {
            let st2 = apply_payload(st, buf).0;
            TransformScan { st: LaneState { partial: None, ..st2 }, pos: pos + 1, ..sc }
        } else if buf.len() > 256 {
            TransformScan { st: LaneState { partial: None, ..st }, ..sc }
        } else {
            TransformScan {
                st: LaneState { partial: Some(buf.push(chunk[pos])), ..st },
                pos: pos + 1,
                ..sc
            }
        },
        None => if prefix_at(chunk, pos) {
            match bel_from(chunk, pos + 7) {
                Some(b) => TransformScan {
                    st: apply_payload(st, chunk.subrange(pos + 7, b)).0,
                    pos: b + 1,
                    ..sc
                },
                None => TransformScan {
                    st: LaneState {
                        partial: Some(chunk.subrange(pos + 7, chunk.len() as int)),
                        ..st
                    },
                    pos: chunk.len() as int,
                    ..sc
                },
            }
        } else {
            TransformScan {
                st: LaneState { total: st.total + 1, ..st },
                pos: pos + 1,
                out: sc.out.push(chunk[pos]),
            }
        },
    }
}

/// The `transform` scanner run from `sc` to the end of `chunk`.
pub open spec fn transform_scan(sc: TransformScan, chunk: Seq<u8>) -> TransformScan
    decreases chunk.len() - sc.pos, partial_rank(sc.st),
{
    if 0 <= sc.pos < chunk.len() {
        proof {
            reveal(transform_step);
            lemma_bel_from(chunk, sc.pos + 7);
        }
        transform_scan(transform_step(sc, chunk), chunk)
    } else {
        sc
    }
}

/// Whether `chunk` holds no ESC byte.
pub open spec fn no_escape(chunk: Seq<u8>) -> bool {
    forall|i: int| 0 <= i < chunk.len() ==> chunk[i] != 0x1b
}

/// Two lane states that agree on everything but the byte counter.
pub open spec fn same_track(a: LaneState, b: LaneState) -> bool {
    &&& a.lane == b.lane
    &&& a.stack == b.stack
    &&& a.partial == b.partial
    &&& a.cmd_fired == b.cmd_fired
}

proof fn lemma_apply_payload_track(a: LaneState, b: LaneState, p: Seq<u8>)
    requires
        same_track(a, b),
    ensures
        same_track(apply_payload(a, p).0, apply_payload(b, p).0),
{
}

/// `idx` lists, for each byte of `out`, the position in `chunk` it was taken
/// from: increasing positions below `pos`.
pub open spec fn picked_at(out: Seq<u8>, chunk: Seq<u8>, pos: int, idx: Seq<int>) -> bool {
    &&& idx.len() == out.len()
    &&& forall|k: int| 0 <= k < idx.len() ==> 0 <= #[trigger] idx[k] < pos && out[k] == chunk[idx[k]]
    &&& forall|k: int, j: int| 0 <= k < j < idx.len() ==> #[trigger] idx[k] < #[trigger] idx[j]
}

/// `out` holds bytes of `chunk` taken at increasing positions below `pos`.
pub open spec fn picked_from(out: Seq<u8>, chunk: Seq<u8>, pos: int) -> bool {
    exists|idx: Seq<int>| #[trigger] picked_at(out, chunk, pos, idx)
}

proof fn lemma_picked_grow(out: Seq<u8>, chunk: Seq<u8>, pos: int, pos2: int)
    requires
        picked_from(out, chunk, pos),
        pos <= pos2,
    ensures
        picked_from(out, chunk, pos2),
{
    let idx = choose|idx: Seq<int>| picked_at(out, chunk, pos, idx);
    assert(picked_at(out, chunk, pos2, idx));
}

proof fn lemma_picked_push(out: Seq<u8>, chunk: Seq<u8>, pos: int)
    requires
        picked_from(out, chunk, pos),
        0 <= pos < chunk.len(),
    ensures
        picked_from(out.push(chunk[pos]), chunk, pos + 1),
{
    let idx = choose|idx: Seq<int>| picked_at(out, chunk, pos, idx);
    let idx2 = idx.push(pos);
    let o2 = out.push(chunk[pos]);
    assert forall|k: int| 0 <= k < idx2.len() implies 0 <= #[trigger] idx2[k] < pos + 1 && o2[k] == chunk[idx2[k]] by {
        if k < idx.len() {
            assert(idx2[k] == idx[k] && o2[k] == out[k]);
        }
    }
    assert forall|k: int, j: int| 0 <= k < j < idx2.len() implies #[trigger] idx2[k] < #[trigger] idx2[j] by {
        if j < idx.len() {
            assert(idx2[k] == idx[k] && idx2[j] == idx[j]);
        } else {
            assert(idx2[k] == idx[k]);
        }
    }
    assert(picked_at(o2, chunk, pos + 1, idx2));
}

proof fn lemma_transform_feed_agree(fs: FeedScan, ts: TransformScan, chunk: Seq<u8>)
    requires
        fs.pos == ts.pos,
        0 <= ts.pos <= chunk.len(),
        same_track(fs.st, ts.st),
        picked_from(ts.out, chunk, ts.pos),
    ensures
        same_track(feed_scan(fs, chunk).st, transform_scan(ts, chunk).st),
        picked_from(transform_scan(ts, chunk).out, chunk, chunk.len() as int),
    decreases chunk.len() - ts.pos, partial_rank(ts.st),
{
    reveal(feed_step);
    reveal(transform_step);
    if ts.pos < chunk.len() {
        lemma_bel_from(chunk, ts.pos + 7);
        let f2 = feed_step(fs, chunk);
        let t2 = transform_step(ts, chunk);
        match ts.st.partial {
            Some(buf) => {
                if chunk[ts.pos] == 7 {
                    lemma_apply_payload_track(fs.st, ts.st, buf);
                    lemma_picked_grow(ts.out, chunk, ts.pos, ts.pos + 1);
                } else if buf.len() > 256 {
                } else {
                    lemma_picked_grow(ts.out, chunk, ts.pos, ts.pos + 1);
                }
            },
            None => {
                if prefix_at(chunk, ts.pos) {
                    match bel_from(chunk, ts.pos + 7) {
                        Some(b) => {
                            lemma_apply_payload_track(fs.st, ts.st, chunk.subrange(ts.pos + 7, b));
                            lemma_picked_grow(ts.out, chunk, ts.pos, b + 1);
                        },
                        None => {
                            lemma_picked_grow(ts.out, chunk, ts.pos, chunk.len() as int);
                        },
                    }
                } else {
                    lemma_picked_push(ts.out, chunk, ts.pos);
                }
            },
        }
        lemma_transform_feed_agree(f2, t2, chunk);
    } else {
        lemma_picked_grow(ts.out, chunk, ts.pos, chunk.len() as int);
    }
}

/// Law: `transform` and `feed` given the same chunk from the same state end
/// on the same lane, region stack and pending sentinel; and what
/// `transform` passes through is a subsequence of the chunk (sentinel bytes
/// removed, nothing added).
pub proof fn lemma_transform_agrees_with_feed(s: LaneState, chunk: Seq<u8>)
    ensures
        same_track(feed_result(s, chunk).st, transform_result(s, chunk).st),
        picked_from(transform_result(s, chunk).out, chunk, chunk.len() as int),
{
    let fs = FeedScan { st: LaneState { cmd_fired: false, ..s }, pos: 0, changes: Seq::empty() };
    let ts = TransformScan { st: LaneState { cmd_fired: false, ..s }, pos: 0, out: Seq::empty() };
    assert(picked_at(ts.out, chunk, 0, Seq::<int>::empty()));
    lemma_transform_feed_agree(fs, ts, chunk);
}

} // verus!

verus! {

/// Whether `chunk[pos..]` starts with the sentinel prefix.
fn prefix_at_exec(chunk: &[u8], pos: usize) -> (r: bool)
    ensures
        r == prefix_at(chunk@, pos as int),
{
    chunk.len() >= 7 && pos <= chunk.len() - 7 && chunk[pos] == 0x1b && chunk[pos + 1] == 0x5d
        && chunk[pos + 2] == 0x36 && chunk[pos + 3] == 0x39 && chunk[pos + 4] == 0x37 && chunk[pos
        + 5] == 0x33 && chunk[pos + 6] == 0x3b
}

/// First BEL at or after `from`.
fn find_bel(chunk: &[u8], from: usize) -> (r: Option<usize>)
    requires
        from <= chunk.len(),
    ensures
        match r {
            Some(b) => bel_from(chunk@, from as int) == Some(b as int) && from <= b < chunk.len(),
            None => bel_from(chunk@, from as int) is None,
        },
{
    let mut j = from;
    while j < chunk.len()
        invariant
            from <= j <= chunk.len(),
            bel_from(chunk@, from as int) == bel_from(chunk@, j as int),
        decreases chunk.len() - j,
    {
        if chunk[j] == 7 {
            return Some(j);
        }
        j += 1;
    }
    None
}

/// Copy of `chunk[from..to]`.
fn sub_bytes(chunk: &[u8], from: usize, to: usize) -> (r: Vec<u8>)
    requires
        from <= to <= chunk.len(),
    ensures
        r@ == chunk@.subrange(from as int, to as int),
{
    let mut r: Vec<u8> = Vec::new();
    let mut i = from;
    while i < to
        invariant
            from <= i <= to <= chunk.len(),
            r@ == chunk@.subrange(from as int, i as int),
        decreases to - i,
    {
        r.push(chunk[i]);
        i += 1;
        assert(r@ =~= chunk@.subrange(from as int, i as int));
    }
    r
}

/// The lane state machine. Feed PTY byte chunks via [`LaneClassifier::feed`]
/// (or [`LaneClassifier::transform`], which also strips the sentinels) and
/// read the resulting lane transitions.
#[derive(Debug)]
pub struct LaneClassifier {
    current_lane: Lane,
    lane_stack: Vec<Lane>,
    total_bytes: usize,
    partial_osc: Option<Vec<u8>>,
    cmd_start_fired: bool,
}

impl View for LaneClassifier {
    type V = LaneState;

    closed spec fn view(&self) -> LaneState {
        LaneState {
            lane: self.current_lane,
            stack: self.lane_stack@,
            total: self.total_bytes as int,
            partial: match self.partial_osc {
                Some(v) => Some(v@),
                None => None,
            },
            cmd_fired: self.cmd_start_fired,
        }
    }
}

/// The state a fresh classifier starts in.
pub open spec fn initial_lane_state() -> LaneState {
    LaneState {
        lane: Lane::Sys,
        stack: Seq::empty(),
        total: 0,
        partial: None,
        cmd_fired: false,
    }
}

/// The scan `feed` runs over `chunk` from state `s`.
pub open spec fn feed_result(s: LaneState, chunk: Seq<u8>) -> FeedScan {
    feed_scan(
        FeedScan { st: LaneState { cmd_fired: false, ..s }, pos: 0, changes: Seq::empty() },
        chunk,
    )
}

/// The scan `transform` runs over `chunk` from state `s`.
pub open spec fn transform_result(s: LaneState, chunk: Seq<u8>) -> TransformScan {
    transform_scan(
        TransformScan { st: LaneState { cmd_fired: false, ..s }, pos: 0, out: Seq::empty() },
        chunk,
    )
}

/// Lane changes that each differ from the lane before them, starting from
/// `start`, at non-decreasing offsets no larger than `total`.
pub open spec fn well_ordered_changes(start: Lane, changes: Seq<LaneChange>, total: int) -> bool {
    &&& changes.len() > 0 ==> changes[0].lane != start
    &&& forall|k: int| 0 < k < changes.len() ==> #[trigger] changes[k].lane != changes[k - 1].lane
    &&& forall|k: int| 0 < k < changes.len() ==> changes[k - 1].byte_offset <= #[trigger] changes[k].byte_offset
    &&& forall|k: int| 0 <= k < changes.len() ==> #[trigger] changes[k].byte_offset <= total
}

impl LaneClassifier {
    pub fn new() -> (c: Self)
        ensures
            c@ == initial_lane_state(),
    {
        let c = LaneClassifier {
            current_lane: Lane::Sys,
            lane_stack: Vec::new(),
            total_bytes: 0,
            partial_osc: None,
            cmd_start_fired: false,
        };
        assert(c@ =~= initial_lane_state());
        c
    }

    pub fn current_lane(&self) -> (l: Lane)
        ensures
            l == self@.lane,
    {
        self.current_lane
    }

    /// Returns whether the last `transform()` / `feed()` processed a
    /// CMD_START sentinel, and clears the flag.
    pub fn take_cmd_start_flag(&mut self) -> (fired: bool)
        ensures
            fired == old(self)@.cmd_fired,
            final(self)@ == (LaneState { cmd_fired: false, ..old(self)@ }),
    {
        let v = self.cmd_start_fired;
        self.cmd_start_fired = false;
        proof {
            assert(self@ =~= (LaneState { cmd_fired: false, ..old(self)@ }));
        }
        v
    }

    fn apply_event(&mut self, event: SentinelEvent) -> (r: Option<LaneChange>)
        ensures
            (final(self)@, r) == apply_spec(old(self)@, event@),
    {
        if let SentinelEvent::CmdStart = event {
            self.cmd_start_fired = true;
        }
        let new_lane = match event {
            SentinelEvent::PromptStart => {
                self.lane_stack.clear();
                Lane::Sys
            },
            SentinelEvent::PromptEnd => Lane::UserInput,
            SentinelEvent::CmdStart => Lane::CmdOk,
            SentinelEvent::CmdEnd { exit_code } => {
                if exit_code == 0 {
                    Lane::CmdOk
                } else {
                    Lane::CmdErr
                }
            },
            SentinelEvent::HookStart { .. } => {
                self.lane_stack.push(self.current_lane);
                Lane::Hook
            },
            SentinelEvent::AegisStart => {
                self.lane_stack.push(self.current_lane);
                Lane::Aegis
            },
            SentinelEvent::ClaudeStart => {
                self.lane_stack.push(self.current_lane);
                Lane::Claude
            },
            SentinelEvent::HookEnd { .. } | SentinelEvent::AegisEnd | SentinelEvent::ClaudeEnd => {
                match self.lane_stack.pop() {
                    Some(l) => l,
                    None => Lane::Sys,
                }
            },
        };
        let r = if new_lane != self.current_lane {
            self.current_lane = new_lane;
            Some(LaneChange { lane: new_lane, byte_offset: self.total_bytes })
        } else {
            None
        };
        proof {
            let (st, c) = apply_spec(old(self)@, event@);
            assert(self@ =~= st);
        }
        r
    }

    /// Applies the sentinel whose payload bytes are `payload`.
    fn apply_payload_bytes(&mut self, payload: &[u8]) -> (r: Option<LaneChange>)
        ensures
            (final(self)@, r) == apply_payload(old(self)@, payload@),
    {
        let text = decode_lossy(payload);
        match parse_sentinel_event(text.as_slice()) {
            Some(evt) => self.apply_event(evt),
            None => None,
        }
    }

    /// One iteration of the `feed` scanner at byte `i`.
    fn feed_one(&mut self, chunk: &[u8], i: usize, changes: &mut Vec<LaneChange>) -> (ni: usize)
        requires
            i < chunk.len(),
            old(self)@.total + (chunk.len() - i) <= usize::MAX,
        ensures
            (FeedScan { st: final(self)@, pos: ni as int, changes: final(changes)@ }) == feed_step(
                FeedScan { st: old(self)@, pos: i as int, changes: old(changes)@ },
                chunk@,
            ),
    {
        let ghost sc = FeedScan { st: self@, pos: i as int, changes: changes@ };
        proof {
            lemma_bel_from(chunk@, i + 7);
        }
        let mut ni = i;
        if self.partial_osc.is_some() {
            let mut buf = self.partial_osc.take().unwrap();
            if chunk[i] == 7 {
                let c = self.apply_payload_bytes(buf.as_slice());
                if let Some(ch) = c {
                    changes.push(ch);
                }
                ni = i + 1;
            } else if buf.len() > 256 {
            } else {
                buf.push(chunk[i]);
                self.partial_osc = Some(buf);
                ni = i + 1;
            }
        } else {
            if prefix_at_exec(chunk, i) {
                let after = i + 7;
                match find_bel(chunk, after) {
                    Some(b) => {
                        let payload = sub_bytes(chunk, after, b);
                        let c = self.apply_payload_bytes(payload.as_slice());
                        if let Some(ch) = c {
                            changes.push(ch);
                        }
                        ni = b + 1;
                    },
                    None => {
                        self.partial_osc = Some(sub_bytes(chunk, after, chunk.len()));
                        ni = chunk.len();
                    },
                }
            } else {
                ni = i + 1;
            }
            self.total_bytes = self.total_bytes + 1;
        }
        proof {
            reveal(feed_step);
            let nsc = FeedScan { st: self@, pos: ni as int, changes: changes@ };
            assert(nsc =~= feed_step(sc, chunk@));
        }
        ni
    }

    /// Feed a chunk of PTY output bytes. Returns the lane transitions that
    /// occurred within this chunk; each `byte_offset` counts from the start
    /// of the session. Sentinels split after their prefix are completed from
    /// the next chunk.
    #[verifier::rlimit(40)]
    pub fn feed(&mut self, chunk: &[u8]) -> (r: Vec<LaneChange>)
        requires
            old(self)@.total + chunk.len() <= usize::MAX,
        ensures
            final(self)@ == feed_result(old(self)@, chunk@).st,
            r@ == feed_result(old(self)@, chunk@).changes,
            r@.len() > 0 ==> final(self)@.lane == r@.last().lane,
            r@.len() == 0 ==> final(self)@.lane == old(self)@.lane,
            well_ordered_changes(old(self)@.lane, r@, final(self)@.total),
            old(self)@.total <= final(self)@.total <= old(self)@.total + chunk.len(),
            old(self)@.partial is None && no_escape(chunk@) ==> {
                &&& r@.len() == 0
                &&& final(self)@.stack == old(self)@.stack
                &&& final(self)@.partial is None
                &&& final(self)@.total == old(self)@.total + chunk.len()
            },
    {
        self.cmd_start_fired = false;
        let ghost s0 = old(self)@;
        let ghost init = FeedScan { st: LaneState { cmd_fired: false, ..s0 }, pos: 0, changes: Seq::empty() };
        let mut changes: Vec<LaneChange> = Vec::new();
        let mut i: usize = 0;
        assert(self@ =~= init.st);
        while i < chunk.len()
            invariant
                i <= chunk.len(),
                feed_scan(FeedScan { st: self@, pos: i as int, changes: changes@ }, chunk@)
                    == feed_scan(init, chunk@),
                self@.total + (chunk.len() - i) <= usize::MAX,
                0 <= s0.total,
                feed_inv(s0, FeedScan { st: self@, pos: i as int, changes: changes@ }, chunk@),
            decreases chunk.len() - i, partial_rank(self@),
        {
            let ghost sc = FeedScan { st: self@, pos: i as int, changes: changes@ };
            proof {
                lemma_feed_step_inv(s0, sc, chunk@);
            }
            i = self.feed_one(chunk, i, &mut changes);
        }
        changes
    }
}

impl LaneClassifier {
    /// One iteration of the `transform` scanner at byte `i`.
    fn transform_one(&mut self, chunk: &[u8], i: usize, out: &mut Vec<u8>) -> (ni: usize)
        requires
            i < chunk.len(),
            old(self)@.total + (chunk.len() - i) <= usize::MAX,
        ensures
            (TransformScan { st: final(self)@, pos: ni as int, out: final(out)@ }) == transform_step(
                TransformScan { st: old(self)@, pos: i as int, out: old(out)@ },
                chunk@,
            ),
    {
        let ghost sc = TransformScan { st: self@, pos: i as int, out: out@ };
        proof {
            lemma_bel_from(chunk@, i + 7);
        }
        let mut ni = i;
        if self.partial_osc.is_some() {
            let mut buf = self.partial_osc.take().unwrap();
            if chunk[i] == 7 {
                let _ = self.apply_payload_bytes(buf.as_slice());
                ni = i + 1;
            } else if buf.len() > 256 {
            } else {
                buf.push(chunk[i]);
                self.partial_osc = Some(buf);
                ni = i + 1;
            }
        } else {
            if prefix_at_exec(chunk, i) {
                let after = i + 7;
                match find_bel(chunk, after) {
                    Some(b) => {
                        let payload = sub_bytes(chunk, after, b);
                        let _ = self.apply_payload_bytes(payload.as_slice());
                        ni = b + 1;
                    },
                    None => {
                        self.partial_osc = Some(sub_bytes(chunk, after, chunk.len()));
                        ni = chunk.len();
                    },
                }
            } else {
                out.push(chunk[i]);
                ni = i + 1;
                self.total_bytes = self.total_bytes + 1;
            }
        }
        proof {
            reveal(transform_step);
            let nsc = TransformScan { st: self@, pos: ni as int, out: out@ };
            assert(nsc =~= transform_step(sc, chunk@));
        }
        ni
    }

    /// Transform a PTY chunk: strip OSC 6973 sentinels and update the lane
    /// state. The output is the chunk's non-sentinel bytes, in order, with no
    /// bytes added.
    pub fn transform(&mut self, chunk: &[u8]) -> (r: Vec<u8>)
        requires
            old(self)@.total + chunk.len() <= usize::MAX,
        ensures
            final(self)@ == transform_result(old(self)@, chunk@).st,
            r@ == transform_result(old(self)@, chunk@).out,
            r@.len() <= chunk.len(),
            final(self)@.total == old(self)@.total + r@.len(),
            old(self)@.partial is None && no_escape(chunk@) ==> {
                &&& r@ == chunk@
                &&& final(self)@.lane == old(self)@.lane
                &&& final(self)@.stack == old(self)@.stack
                &&& final(self)@.partial is None
            },
    {
        self.cmd_start_fired = false;
        let ghost s0 = old(self)@;
        let ghost init = TransformScan { st: LaneState { cmd_fired: false, ..s0 }, pos: 0, out: Seq::empty() };
        let mut out: Vec<u8> = Vec::new();
        let mut i: usize = 0;
        assert(self@ =~= init.st);
        assert(chunk@.subrange(0, 0) =~= out@);
        while i < chunk.len()
            invariant
                i <= chunk.len(),
                transform_scan(TransformScan { st: self@, pos: i as int, out: out@ }, chunk@)
                    == transform_scan(init, chunk@),
                self@.total + (chunk.len() - i) <= usize::MAX,
                0 <= s0.total,
                transform_inv(s0, TransformScan { st: self@, pos: i as int, out: out@ }, chunk@),
            decreases chunk.len() - i, partial_rank(self@),
        {
            let ghost sc = TransformScan { st: self@, pos: i as int, out: out@ };
            proof {
                lemma_transform_step_inv(s0, sc, chunk@);
            }
            i = self.transform_one(chunk, i, &mut out);
        }
        assert(chunk@.subrange(0, chunk.len() as int) =~= chunk@);
        out
    }

    /// Inject a lane event that did not travel through the PTY stream (hook
    /// or Aegis bus events). Returns the new lane when it changed.
    pub fn inject_event(&mut self, event: SentinelEvent) -> (r: Option<Lane>)
        ensures
            final(self)@ == apply_spec(old(self)@, event@).0,
            r == match apply_spec(old(self)@, event@).1 {
                Some(ch) => Some(ch.lane),
                None => None::<Lane>,
            },
    {
        match self.apply_event(event) {
            Some(change) => Some(change.lane),
            None => None,
        }
    }
}

/// What `transform` keeps true at every position of its scan.
pub open spec fn transform_inv(s0: LaneState, sc: TransformScan, chunk: Seq<u8>) -> bool {
    &&& 0 <= sc.pos <= chunk.len()
    &&& sc.st.total == s0.total + sc.out.len()
    &&& sc.out.len() <= sc.pos
    &&& s0.partial is None && no_escape(chunk) ==> {
        &&& sc.out == chunk.subrange(0, sc.pos)
        &&& sc.st.lane == s0.lane
        &&& sc.st.stack == s0.stack
        &&& sc.st.partial is None
    }
}

#[verifier::rlimit(60)]
/// One step of the transform scan keeps its invariant.
pub proof fn lemma_transform_step_inv(s0: LaneState, sc: TransformScan, chunk: Seq<u8>)
    requires
        transform_inv(s0, sc, chunk),
        0 <= s0.total,
        sc.pos < chunk.len(),
        sc.st.total + (chunk.len() - sc.pos) <= usize::MAX,
    ensures
        transform_inv(s0, transform_step(sc, chunk), chunk),
        transform_step(sc, chunk).st.total + (chunk.len() - transform_step(sc, chunk).pos) <= usize::MAX,
        sc.pos <= transform_step(sc, chunk).pos,
        sc.pos == transform_step(sc, chunk).pos ==> partial_rank(transform_step(sc, chunk).st) < partial_rank(sc.st),
{
    reveal(transform_step);
    lemma_bel_from(chunk, sc.pos + 7);
    let nsc = transform_step(sc, chunk);
    match sc.st.partial {
        Some(buf) => {
            if chunk[sc.pos] == 7 {
                lemma_apply_payload_facts(sc.st, buf);
            }
        },
        None => {
            if prefix_at(chunk, sc.pos) {
                assert(chunk[sc.pos] == 0x1b);
                if let Some(b) = bel_from(chunk, sc.pos + 7) {
                    lemma_apply_payload_facts(sc.st, chunk.subrange(sc.pos + 7, b));
                }
            } else {
                assert(chunk.subrange(0, sc.pos + 1) =~= chunk.subrange(0, sc.pos).push(chunk[sc.pos]));
            }
        },
    }
}

/// Law: a hook, Aegis or assistant region closed by any region end restores the
/// lane and the region stack that were current before it opened.
pub proof fn lemma_region_nesting_restores(s: LaneState, start: EventSpec, end: EventSpec)
    requires
        start is HookStart || start is AegisStart || start is ClaudeStart,
        end is HookEnd || end is AegisEnd || end is ClaudeEnd,
    ensures
        apply_spec(apply_spec(s, start).0, end).0.lane == s.lane,
        apply_spec(apply_spec(s, start).0, end).0.stack == s.stack,
{
    assert(s.stack.push(s.lane).drop_last() =~= s.stack);
}

/// Law: PROMPT_START always returns to the SYS lane with no open regions.
pub proof fn lemma_prompt_start_resets(s: LaneState)
    ensures
        apply_spec(s, EventSpec::PromptStart).0.lane == Lane::Sys,
        apply_spec(s, EventSpec::PromptStart).0.stack.len() == 0,
{
}

/// Law: each event puts the classifier on its own lane. A hook, Aegis or
/// assistant region start opens that region's lane and remembers the lane
/// it left on the region stack; PROMPT_END gives the user-input lane;
/// CMD_START the command-output lane; CMD_END the success lane for exit code
/// 0 and the error lane for any other; a region end with no open region
/// falls back to SYS. A change is reported exactly when the lane moves, at
/// the current byte count, and the byte count itself is untouched.
pub proof fn lemma_events_set_their_lanes(s: LaneState, ev: EventSpec)
    ensures
        ev is AegisStart ==> apply_spec(s, ev).0.lane == Lane::Aegis && apply_spec(s, ev).0.stack == s.stack.push(s.lane),
        ev is HookStart ==> apply_spec(s, ev).0.lane == Lane::Hook && apply_spec(s, ev).0.stack == s.stack.push(s.lane),
        ev is ClaudeStart ==> apply_spec(s, ev).0.lane == Lane::Claude && apply_spec(s, ev).0.stack == s.stack.push(s.lane),
        ev is PromptEnd ==> apply_spec(s, ev).0.lane == Lane::UserInput && apply_spec(s, ev).0.stack == s.stack,
        ev is CmdStart ==> apply_spec(s, ev).0.lane == Lane::CmdOk && apply_spec(s, ev).0.cmd_fired,
        ev matches EventSpec::CmdEnd { exit_code } ==> apply_spec(s, ev).0.lane == (if exit_code == 0 {
            Lane::CmdOk
        } else {
            Lane::CmdErr
        }),
        (ev is HookEnd || ev is AegisEnd || ev is ClaudeEnd) && s.stack.len() == 0 ==> apply_spec(s, ev).0.lane
            == Lane::Sys,
        (ev is HookEnd || ev is AegisEnd || ev is ClaudeEnd) && s.stack.len() > 0 ==> apply_spec(s, ev).0.lane
            == s.stack.last() && apply_spec(s, ev).0.stack == s.stack.drop_last(),
        apply_spec(s, ev).0.total == s.total,
        apply_spec(s, ev).0.lane != s.lane <==> apply_spec(s, ev).1 == Some(
            LaneChange { lane: apply_spec(s, ev).0.lane, byte_offset: s.total as usize },
        ),
        apply_spec(s, ev).0.lane == s.lane <==> apply_spec(s, ev).1 is None,
{
}

/// Splitting `n ; p` at its first `;`, where `n` has none, gives `n` and `p`.
proof fn lemma_split_named(n: Seq<char>, p: Seq<char>)
    requires
        forall|i: int| 0 <= i < n.len() ==> n[i] != ';',
    ensures
        split_once(n + ";"@ + p, ';') == Some((n, p)),
        split_once(n, ';') is None,
{
    reveal_strlit(";");
    let t = n + ";"@ + p;
    lemma_index_of_from(t, ';', 0);
    lemma_index_of_from(n, ';', 0);
    assert(t[n.len() as int] == ';');
    if let Some(i) = index_of_from(t, ';', 0) {
        if i < n.len() {
            assert(t[i] == n[i]);
        }
        assert(i == n.len());
    }
    assert(t.subrange(0, n.len() as int) =~= n);
    assert(t.subrange(n.len() as int + 1, t.len() as int) =~= p);
}

/// Law: a sentinel payload names its event before its first `;`, whatever
/// parameters follow: `PROMPT_START`, `PROMPT_END`, `CMD_START`, `CMD_END`,
/// `HOOK_START`, `HOOK_END`, `AEGIS_START`, `AEGIS_END`, `CLAUDE_START` and
/// `CLAUDE_END` each give their own event.
pub proof fn lemma_sentinel_names(p: Seq<char>)
    ensures
        sentinel_spec("PROMPT_START"@ + ";"@ + p) == Some(EventSpec::PromptStart),
        sentinel_spec("PROMPT_END"@ + ";"@ + p) == Some(EventSpec::PromptEnd),
        sentinel_spec("CMD_START"@ + ";"@ + p) == Some(EventSpec::CmdStart),
        sentinel_spec("CMD_END"@ + ";"@ + p) is Some && sentinel_spec("CMD_END"@ + ";"@ + p)->0 is CmdEnd,
        sentinel_spec("HOOK_START"@ + ";"@ + p) is Some && sentinel_spec("HOOK_START"@ + ";"@ + p)->0 is HookStart,
        sentinel_spec("HOOK_END"@ + ";"@ + p) is Some && sentinel_spec("HOOK_END"@ + ";"@ + p)->0 is HookEnd,
        sentinel_spec("AEGIS_START"@ + ";"@ + p) == Some(EventSpec::AegisStart),
        sentinel_spec("AEGIS_END"@ + ";"@ + p) == Some(EventSpec::AegisEnd),
        sentinel_spec("CLAUDE_START"@ + ";"@ + p) == Some(EventSpec::ClaudeStart),
        sentinel_spec("CLAUDE_END"@ + ";"@ + p) == Some(EventSpec::ClaudeEnd),
{
    reveal_strlit("PROMPT_START");
    reveal_strlit("PROMPT_END");
    reveal_strlit("CMD_START");
    reveal_strlit("CMD_END");
    reveal_strlit("HOOK_START");
    reveal_strlit("HOOK_END");
    reveal_strlit("AEGIS_START");
    reveal_strlit("AEGIS_END");
    reveal_strlit("CLAUDE_START");
    reveal_strlit("CLAUDE_END");
    lemma_split_named("PROMPT_START"@, p);
    lemma_split_named("PROMPT_END"@, p);
    lemma_split_named("CMD_START"@, p);
    lemma_split_named("CMD_END"@, p);
    lemma_split_named("HOOK_START"@, p);
    lemma_split_named("HOOK_END"@, p);
    lemma_split_named("AEGIS_START"@, p);
    lemma_split_named("AEGIS_END"@, p);
    lemma_split_named("CLAUDE_START"@, p);
    lemma_split_named("CLAUDE_END"@, p);
}

/// What `feed` keeps true at every position of its scan.
pub open spec fn feed_inv(s0: LaneState, sc: FeedScan, chunk: Seq<u8>) -> bool {
    &&& 0 <= sc.pos <= chunk.len()
    &&& s0.total <= sc.st.total <= s0.total + sc.pos
    &&& sc.changes.len() > 0 ==> sc.st.lane == sc.changes.last().lane
    &&& sc.changes.len() == 0 ==> sc.st.lane == s0.lane
    &&& well_ordered_changes(s0.lane, sc.changes, sc.st.total)
    &&& s0.partial is None && no_escape(chunk) ==> {
        &&& sc.changes.len() == 0
        &&& sc.st.stack == s0.stack
        &&& sc.st.partial is None
        &&& sc.st.total == s0.total + sc.pos
    }
}

/// Applying a sentinel payload keeps the byte count and the pending
/// partial sequence.
pub proof fn lemma_apply_payload_facts(s: LaneState, payload: Seq<u8>)
    requires
        0 <= s.total <= usize::MAX,
    ensures
        ({
            let (st2, c) = apply_payload(s, payload);
            &&& st2.total == s.total
            &&& st2.partial == s.partial
            &&& c matches Some(ch) ==> ch.lane == st2.lane && ch.lane != s.lane && ch.byte_offset == s.total
            &&& c is None ==> st2.lane == s.lane
        }),
{
}

#[verifier::rlimit(60)]
/// One step of the feed scan keeps its invariant.
pub proof fn lemma_feed_step_inv(s0: LaneState, sc: FeedScan, chunk: Seq<u8>)
    requires
        feed_inv(s0, sc, chunk),
        0 <= s0.total,
        sc.pos < chunk.len(),
        sc.st.total + (chunk.len() - sc.pos) <= usize::MAX,
    ensures
        feed_inv(s0, feed_step(sc, chunk), chunk),
        feed_step(sc, chunk).st.total + (chunk.len() - feed_step(sc, chunk).pos) <= usize::MAX,
        sc.pos <= feed_step(sc, chunk).pos,
        sc.pos == feed_step(sc, chunk).pos ==> partial_rank(feed_step(sc, chunk).st) < partial_rank(sc.st),
{
    reveal(feed_step);
    lemma_bel_from(chunk, sc.pos + 7);
    let nsc = feed_step(sc, chunk);
    match sc.st.partial {
        Some(buf) => {
            if chunk[sc.pos] == 7 {
                lemma_apply_payload_facts(sc.st, buf);
            }
        },
        None => {
            if prefix_at(chunk, sc.pos) {
                assert(chunk[sc.pos] == 0x1b);
                if let Some(b) = bel_from(chunk, sc.pos + 7) {
                    lemma_apply_payload_facts(sc.st, chunk.subrange(sc.pos + 7, b));
                }
            }
        },
    }
    assert(forall|k: int| 0 <= k < sc.changes.len() ==> nsc.changes[k] == sc.changes[k]);
}


} // verus!

verus! {

// ---------------------------------------------------------------------------
// Shell prelude selection
// ---------------------------------------------------------------------------

/// Shells the lane prelude supports.
#[derive(Debug, Clone, Copy, PartialEq, Eq, Structural)]
pub enum ShellKind {
    Pwsh,
    Bash,
    Zsh,
    Unknown,
}

/// Shell kind named by a lowercased file stem.
pub open spec fn shell_kind_of_stem(lower: Seq<char>) -> ShellKind {
    if lower == "pwsh"@ || lower == "powershell"@ {
        ShellKind::Pwsh
    } else if lower == "bash"@ {
        ShellKind::Bash
    } else if lower == "zsh"@ {
        ShellKind::Zsh
    } else {
        ShellKind::Unknown
    }
}

/// Which shell a resolved binary path names, by its lowercased file stem;
/// where `backslash_separates` (Windows), `\` separates components as `/`
/// does.
pub open spec fn shell_kind_spec(path: Seq<char>, backslash_separates: bool) -> ShellKind {
    match file_stem(crate::path::native_path(path, backslash_separates)) {
        Some(stem) => shell_kind_of_stem(lowercase(stem)),
        None => shell_kind_of_stem(lowercase(Seq::empty())),
    }
}

/// Determine which shell is at `resolved_path` by inspecting its file name,
/// with the path rules of the platform: `\` is a separator on Windows only.
pub fn detect_shell_kind(resolved_path: &str) -> (k: ShellKind)
    ensures
        exists|backslash_separates: bool| k == #[trigger] shell_kind_spec(resolved_path@, backslash_separates),
{
    let win = crate::path::backslash_separates();
    let p = crate::path::native_chars(resolved_path, win);
    let stem = match path_file_stem(p.as_slice()) {
        Some(s) => s,
        None => Vec::new(),
    };
    let lower = to_lowercase(stem.as_slice());
    let l = lower.as_slice();
    let k = if chars_eq_str(l, "pwsh") || chars_eq_str(l, "powershell") {
        ShellKind::Pwsh
    } else if chars_eq_str(l, "bash") {
        ShellKind::Bash
    } else if chars_eq_str(l, "zsh") {
        ShellKind::Zsh
    } else {
        ShellKind::Unknown
    };
    assert(k == shell_kind_spec(resolved_path@, win));
    k
}

/// Instructions for injecting the lane prelude into a shell spawn.
#[derive(Debug)]
pub struct PreludeInjection {
    /// Replace the shell args with these.
    pub shell_args: Vec<String>,
    /// Additional env vars to set on the PTY.
    pub extra_env: Vec<(String, String)>,
}

/// `s` with every `'` doubled (PowerShell single-quote escaping).
pub open spec fn double_quotes(s: Seq<char>) -> Seq<char>
    decreases s.len(),
{
    if s.len() == 0 {
        Seq::empty()
    } else {
        double_quotes(s.drop_last()) + if s.last() == '\'' { seq!['\'', '\''] } else { seq![s.last()] }
    }
}

fn double_single_quotes(s: &[char]) -> (r: Vec<char>)
    ensures
        r@ == double_quotes(s@),
{
    let mut r: Vec<char> = Vec::new();
    let mut i: usize = 0;
    while i < s.len()
        invariant
            i <= s.len(),
            r@ == double_quotes(s@.subrange(0, i as int)),
        decreases s.len() - i,
    {
        assert(s@.subrange(0, i + 1).drop_last() =~= s@.subrange(0, i as int));
        if s[i] == '\'' {
            r.push('\'');
            r.push('\'');
        } else {
            r.push(s[i]);
        }
        i += 1;
        assert(r@ =~= double_quotes(s@.subrange(0, i as int)));
    }
    assert(s@.subrange(0, s.len() as int) =~= s@);
    r
}

/// The shell arguments / environment that load a prelude written to
/// `script_path` (for zsh: the `ZDOTDIR` directory holding `.zshrc`).
pub open spec fn injection_spec(kind: ShellKind, script_path: Seq<char>) -> Option<(Seq<Seq<char>>, Seq<(Seq<char>, Seq<char>)>)> {
    match kind {
        ShellKind::Pwsh => Some((
            seq!["-NoExit"@, "-Command"@, ". '"@ + double_quotes(script_path) + "'"@],
            Seq::empty(),
        )),
        ShellKind::Bash => Some((seq!["--rcfile"@, script_path], Seq::empty())),
        ShellKind::Zsh => Some((Seq::empty(), seq![("ZDOTDIR"@, script_path)])),
        ShellKind::Unknown => None,
    }
}

/// Build the injection that loads a prelude already written to
/// `script_path`. `None` for shells without lane support.
pub fn prelude_injection(kind: ShellKind, script_path: &str) -> (r: Option<PreludeInjection>)
    ensures
        match r {
            Some(inj) => injection_spec(kind, script_path@) == Some((
                inj.shell_args@.map_values(|a: String| a@),
                inj.extra_env@.map_values(|e: (String, String)| (e.0@, e.1@)),
            )),
            None => injection_spec(kind, script_path@) is None,
        },
{
    let p = chars_of(script_path);
    match kind {
        ShellKind::Pwsh => {
            let mut cmd = chars_of(". '");
            let quoted = double_single_quotes(p.as_slice());
            let mut q = quoted;
            cmd.append(&mut q);
            let mut tail = chars_of("'");
            cmd.append(&mut tail);
            let mut args: Vec<String> = Vec::new();
            args.push(string_of(chars_of("-NoExit").as_slice()));
            args.push(string_of(chars_of("-Command").as_slice()));
            args.push(string_of(cmd.as_slice()));
            let inj = PreludeInjection { shell_args: args, extra_env: Vec::new() };
            assert(inj.shell_args@.map_values(|a: String| a@) =~= (injection_spec(kind, script_path@)->0).0);
            assert(inj.extra_env@.map_values(|e: (String, String)| (e.0@, e.1@)) =~= Seq::<(Seq<char>, Seq<char>)>::empty());
            Some(inj)
        },
        ShellKind::Bash => {
            let mut args: Vec<String> = Vec::new();
            args.push(string_of(chars_of("--rcfile").as_slice()));
            args.push(string_of(p.as_slice()));
            let inj = PreludeInjection { shell_args: args, extra_env: Vec::new() };
            assert(inj.shell_args@.map_values(|a: String| a@) =~= (injection_spec(kind, script_path@)->0).0);
            assert(inj.extra_env@.map_values(|e: (String, String)| (e.0@, e.1@)) =~= Seq::<(Seq<char>, Seq<char>)>::empty());
            Some(inj)
        },
        ShellKind::Zsh => {
            let mut env: Vec<(String, String)> = Vec::new();
            env.push((string_of(chars_of("ZDOTDIR").as_slice()), string_of(p.as_slice())));
            let inj = PreludeInjection { shell_args: Vec::new(), extra_env: env };
            assert(inj.shell_args@.map_values(|a: String| a@) =~= Seq::<Seq<char>>::empty());
            assert(inj.extra_env@.map_values(|e: (String, String)| (e.0@, e.1@)) =~= (injection_spec(kind, script_path@)->0).1);
            Some(inj)
        },
        ShellKind::Unknown => None,
    }
}

} // verus!
