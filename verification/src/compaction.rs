//! Idle compaction of the active session log: which older prefix of the log
//! is digested, how it is capped, which log is the active one, and when the
//! idle watcher compacts. The log itself is never edited; the digest goes to
//! a `<id>.summary.json` sidecar.

use vstd::prelude::*;

use crate::config::SessionConfig;
use crate::frontmatter::{lemma_line_end, line_at, line_end, line_text};
use crate::path::{backslash_separates, extension, file_stem, native_chars, native_path, path_extension, path_file_stem};
use crate::session_compare::line_views;
use crate::text::{chars_eq_str, chars_of, string_of};
use crate::vault::{trim_chars, trim_ws};

verus! {

// ---------------------------------------------------------------------------
// Lines
// ---------------------------------------------------------------------------

/// The lines of `s[i..]` as `str::lines` yields them.
pub open spec fn str_lines_from(s: Seq<char>, i: int) -> Seq<Seq<char>>
    decreases s.len() + 1 - i,
    via str_lines_from_decreases
{
    if i < 0 || i >= s.len() {
        Seq::empty()
    } else {
        seq![line_text(s, i)] + str_lines_from(s, line_end(s, i) + 1)
    }
}

#[via_fn]
proof fn str_lines_from_decreases(s: Seq<char>, i: int) {
    if 0 <= i < s.len() {
        lemma_line_end(s, i);
    }
}

/// `str::lines`: the pieces between `\n`s, each without a `\r` that stood
/// just before its `\n`, with no empty piece after a final `\n`.
pub open spec fn str_lines(s: Seq<char>) -> Seq<Seq<char>> {
    str_lines_from(s, 0)
}

/// The lines of `s` (`str::lines`).
pub fn lines_of(s: &[char]) -> (r: Vec<String>)
    ensures
        line_views(r@) == str_lines(s@),
{
    let mut r: Vec<String> = Vec::new();
    let mut i: usize = 0;
    assert(line_views(r@) + str_lines_from(s@, 0) =~= str_lines(s@));
    while i < s.len()
        invariant
            i <= s.len(),
            line_views(r@) + str_lines_from(s@, i as int) == str_lines(s@),
        decreases s.len() - i,
    {
        proof {
            lemma_line_end(s@, i as int);
        }
        let ghost before = r@;
        let (text, e) = line_at(s, i);
        r.push(string_of(text.as_slice()));
        proof {
            let rest = str_lines_from(s@, e + 1);
            assert(str_lines_from(s@, i as int) == seq![line_text(s@, i as int)] + rest);
            assert(line_views(r@) =~= line_views(before).push(text@));
            assert(line_views(r@) + str_lines_from(s@, (e + 1) as int) =~= line_views(before)
                + str_lines_from(s@, i as int));
        }
        if e < s.len() {
            i = e + 1;
        } else {
            i = e;
        }
    }
    r
}

/// The lines of `ls` joined with `\n` (`[&str]::join("\n")`).
pub open spec fn join_nl(ls: Seq<Seq<char>>) -> Seq<char>
    decreases ls.len(),
{
    if ls.len() == 0 {
        Seq::empty()
    } else if ls.len() == 1 {
        ls[0]
    } else {
        join_nl(ls.drop_last()) + seq!['\n'] + ls.last()
    }
}

/// `lines[..n].join("\n")`.
fn join_first(lines: &Vec<String>, n: usize) -> (r: Vec<char>)
    requires
        n <= lines.len(),
    ensures
        r@ == join_nl(line_views(lines@).subrange(0, n as int)),
{
    let ghost lv = line_views(lines@);
    let mut r: Vec<char> = Vec::new();
    let mut i: usize = 0;
    assert(lv.subrange(0, 0) =~= Seq::<Seq<char>>::empty());
    while i < n
        invariant
            i <= n <= lines.len(),
            lv == line_views(lines@),
            r@ == join_nl(lv.subrange(0, i as int)),
        decreases n - i,
    {
        let ghost prev = r@;
        if i > 0 {
            r.push('\n');
        }
        let mut piece = chars_of(lines[i].as_str());
        r.append(&mut piece);
        proof {
            let sub = lv.subrange(0, i + 1);
            assert(sub.drop_last() =~= lv.subrange(0, i as int));
            assert(sub.last() == lines@[i as int]@);
            if i == 0 {
                assert(r@ =~= join_nl(sub));
            } else {
                assert(r@ =~= join_nl(sub.drop_last()) + seq!['\n'] + sub.last());
            }
        }
        i += 1;
    }
    r
}

// ---------------------------------------------------------------------------
// UTF-8 sizes and the capped tail
// ---------------------------------------------------------------------------

/// Bytes that `c` takes in UTF-8.
pub open spec fn utf8_width(c: char) -> int {
    if (c as u32) < 0x80 {
        1
    } else if (c as u32) < 0x800 {
        2
    } else if (c as u32) < 0x10000 {
        3
    } else {
        4
    }
}

/// Bytes that `s` takes in UTF-8 (`str::len`).
pub open spec fn utf8_len(s: Seq<char>) -> int
    decreases s.len(),
{
    if s.len() == 0 {
        0
    } else {
        utf8_width(s[0]) + utf8_len(s.drop_first())
    }
}

/// The longest tail of `s` that fits in `max` UTF-8 bytes: the text from the
/// first character boundary at or after `len - max`.
pub open spec fn tail_within(s: Seq<char>, max: int) -> Seq<char>
    decreases s.len(),
{
    if s.len() == 0 || utf8_len(s) <= max {
        s
    } else {
        tail_within(s.drop_first(), max)
    }
}

proof fn lemma_utf8_len_nonneg(s: Seq<char>)
    ensures
        0 <= utf8_len(s) <= 4 * s.len(),
    decreases s.len(),
{
    if s.len() > 0 {
        lemma_utf8_len_nonneg(s.drop_first());
    }
}

fn char_width(c: char) -> (w: u128)
    ensures
        w == utf8_width(c),
{
    let u = c as u32;
    if u < 0x80 {
        1
    } else if u < 0x800 {
        2
    } else if u < 0x10000 {
        3
    } else {
        4
    }
}

/// UTF-8 byte length of `s`.
pub fn utf8_size(s: &[char]) -> (n: u128)
    ensures
        n == utf8_len(s@),
{
    let mut n: u128 = 0;
    let mut i: usize = s.len();
    assert(s@.subrange(s.len() as int, s.len() as int) =~= Seq::<char>::empty());
    while i > 0
        invariant
            i <= s.len(),
            n == utf8_len(s@.subrange(i as int, s.len() as int)),
            n <= 4 * (s.len() - i),
        decreases i,
    {
        i -= 1;
        let w = char_width(s[i]);
        proof {
            let t = s@.subrange(i as int, s.len() as int);
            assert(t.drop_first() =~= s@.subrange(i + 1, s.len() as int));
            assert(t[0] == s@[i as int]);
        }
        n = n + w;
    }
    assert(s@.subrange(0, s.len() as int) =~= s@);
    n
}

/// Largest number of UTF-8 bytes of log prefix handed to the summarizer.
pub const MAX_PREFIX_BYTES: u128 = 16000;

/// `tail_within(s, max)`.
fn tail_of(s: &[char], max: u128) -> (r: Vec<char>)
    ensures
        r@ == tail_within(s@, max as int),
{
    let mut rem = utf8_size(s);
    let mut k: usize = 0;
    assert(s@.subrange(0, s.len() as int) =~= s@);
    while k < s.len() && rem > max
        invariant
            k <= s.len(),
            rem == utf8_len(s@.subrange(k as int, s.len() as int)),
            tail_within(s@.subrange(k as int, s.len() as int), max as int) == tail_within(s@, max as int),
        decreases s.len() - k,
    {
        let w = char_width(s[k]);
        proof {
            let t = s@.subrange(k as int, s.len() as int);
            assert(t.drop_first() =~= s@.subrange(k + 1, s.len() as int));
            assert(t[0] == s@[k as int]);
            lemma_utf8_len_nonneg(t.drop_first());
        }
        rem = rem - w;
        k += 1;
    }
    proof {
        let t = s@.subrange(k as int, s.len() as int);
        if k == s.len() {
            assert(t.len() == 0);
        }
    }
    crate::text::sub_chars(s, k, s.len())
}

// ---------------------------------------------------------------------------
// The prefix to digest
// ---------------------------------------------------------------------------

/// The marker put before a prefix whose head was cut off.
pub open spec fn truncated_marker() -> Seq<char> {
    "[older prefix truncated]\n"@
}

/// The older part of a session log that a compaction digests, and the number
/// of lines it covers: every line but the last `keep_suffix`, joined with
/// `\n`; when that exceeds [`MAX_PREFIX_BYTES`] UTF-8 bytes, only its tail
/// within the limit, after a marker. `None` when the log holds no more than
/// `keep_suffix` lines.
pub open spec fn prefix_spec(content: Seq<char>, keep_suffix: int) -> Option<(Seq<char>, int)> {
    let ls = str_lines(content);
    if ls.len() <= keep_suffix {
        None
    } else {
        let cut = ls.len() - keep_suffix;
        let text = join_nl(ls.subrange(0, cut));
        if utf8_len(text) > MAX_PREFIX_BYTES {
            Some((truncated_marker() + tail_within(text, MAX_PREFIX_BYTES as int), cut))
        } else {
            Some((text, cut))
        }
    }
}

/// The prefix of a session log to digest, with the line offset it covers up
/// to (see [`prefix_spec`]).
pub fn compaction_prefix(content: &str, keep_suffix: usize) -> (r: Option<(String, u64)>)
    ensures
        match r {
            Some((text, offset)) => prefix_spec(content@, keep_suffix as int) == Some(
                (text@, offset as int),
            ),
            None => prefix_spec(content@, keep_suffix as int) is None,
        },
{
    let chars = chars_of(content);
    let lines = lines_of(chars.as_slice());
    if lines.len() <= keep_suffix {
        return None;
    }
    let cut = lines.len() - keep_suffix;
    let text = join_first(&lines, cut);
    let size = utf8_size(text.as_slice());
    let out = if size > MAX_PREFIX_BYTES {
        let marker = "[older prefix truncated]\n";
        proof {
            reveal_strlit("[older prefix truncated]\n");
        }
        let mut m = chars_of(marker);
        let mut tail = tail_of(text.as_slice(), MAX_PREFIX_BYTES);
        m.append(&mut tail);
        m
    } else {
        text
    };
    Some((string_of(out.as_slice()), cut as u64))
}

// ---------------------------------------------------------------------------
// The newest file
// ---------------------------------------------------------------------------

/// `b` is the first index whose key is largest among the present keys: the
/// entry that a scan keeping a later entry only when it is strictly newer
/// ends with.
pub open spec fn is_newest(keys: Seq<Option<u128>>, b: int) -> bool {
    &&& 0 <= b < keys.len()
    &&& keys[b] is Some
    &&& forall|i: int| 0 <= i < keys.len() && keys[i] is Some ==> keys[i].unwrap() <= keys[b].unwrap()
    &&& forall|i: int| 0 <= i < b && keys[i] is Some ==> keys[i].unwrap() < keys[b].unwrap()
}

/// The first index holding the largest present key; `None` when no key is
/// present.
pub fn newest_index(keys: &[Option<u128>]) -> (r: Option<usize>)
    ensures
        match r {
            Some(b) => is_newest(keys@, b as int),
            None => forall|i: int| 0 <= i < keys.len() ==> keys@[i] is None,
        },
{
    let mut best: Option<usize> = None;
    let mut best_key: u128 = 0;
    let mut i: usize = 0;
    while i < keys.len()
        invariant
            i <= keys.len(),
            match best {
                Some(b) => {
                    &&& b < i
                    &&& keys@[b as int] == Some(best_key)
                    &&& forall|j: int| 0 <= j < i && keys@[j] is Some ==> keys@[j].unwrap() <= best_key
                    &&& forall|j: int| 0 <= j < b && keys@[j] is Some ==> keys@[j].unwrap() < best_key
                },
                None => forall|j: int| 0 <= j < i ==> keys@[j] is None,
            },
        decreases keys.len() - i,
    {
        match keys[i] {
            Some(k) => {
                let take = match best {
                    Some(_) => k > best_key,
                    None => true,
                };
                if take {
                    best = Some(i);
                    best_key = k;
                }
            },
            None => {},
        }
        i += 1;
    }
    best
}

/// A directory entry is a session log when its extension is `jsonl` and it
/// has a file stem; its key is then its modification time, if that could be
/// read. `w` is the platform path rule.
pub open spec fn session_key(path: Seq<char>, mtime: Option<u128>, w: bool) -> Option<u128> {
    let p = native_path(path, w);
    if extension(p) == Some("jsonl"@) && file_stem(p) is Some {
        mtime
    } else {
        None
    }
}

pub open spec fn session_keys(entries: Seq<(String, Option<u128>)>, w: bool) -> Seq<Option<u128>> {
    Seq::new(entries.len(), |i: int| session_key(entries[i].0@, entries[i].1, w))
}

/// What [`newest_session`] returns under path rule `w`.
pub open spec fn newest_session_ok(entries: Seq<(String, Option<u128>)>, r: Option<(String, String)>, w: bool) -> bool {
    match r {
        Some((id, path)) => exists|b: int| {
            &&& is_newest(session_keys(entries, w), b)
            &&& path@ == entries[b].0@
            &&& file_stem(native_path(path@, w)) == Some(id@)
        },
        None => forall|i: int| 0 <= i < entries.len() ==> session_keys(entries, w)[i] is None,
    }
}

/// The active session among directory entries `(path, modification time in
/// nanoseconds, if readable)`: the newest session log, as `(session id =
/// file stem, path)`. `None` when no entry is a session log with a readable
/// time.
pub fn newest_session(entries: &Vec<(String, Option<u128>)>) -> (r: Option<(String, String)>)
    ensures
        exists|w: bool| #[trigger] newest_session_ok(entries@, r, w),
{
    let w = backslash_separates();
    let r = newest_session_on(entries, w);
    assert(newest_session_ok(entries@, r, w));
    r
}

/// [`newest_session`] under path rule `w`.
fn newest_session_on(entries: &Vec<(String, Option<u128>)>, w: bool) -> (r: Option<(String, String)>)
    ensures
        newest_session_ok(entries@, r, w),
{
    let mut keys: Vec<Option<u128>> = Vec::new();
    let mut stems: Vec<Option<Vec<char>>> = Vec::new();
    let mut i: usize = 0;
    proof {
        reveal_strlit("jsonl");
    }
    while i < entries.len()
        invariant
            i <= entries.len(),
            keys.len() == i,
            stems.len() == i,
            forall|j: int| 0 <= j < i ==> keys@[j] == session_keys(entries@, w)[j],
            forall|j: int| 0 <= j < i ==> match #[trigger] stems@[j] {
                Some(st) => file_stem(native_path(entries@[j].0@, w)) == Some(st@),
                None => file_stem(native_path(entries@[j].0@, w)) is None,
            },
        decreases entries.len() - i,
    {
        let p = native_chars(entries[i].0.as_str(), w);
        let is_log = match path_extension(p.as_slice()) {
            Some(e) => chars_eq_str(e.as_slice(), "jsonl"),
            None => false,
        };
        let stem = path_file_stem(p.as_slice());
        let key = if is_log && stem.is_some() {
            entries[i].1
        } else {
            None
        };
        keys.push(key);
        stems.push(stem);
        i += 1;
    }
    assert(keys@ =~= session_keys(entries@, w));
    match newest_index(keys.as_slice()) {
        Some(b) => {
            let path = entries[b].0.clone();
            let p2 = native_chars(path.as_str(), w);
            let stem = path_file_stem(p2.as_slice());
            match stem {
                Some(st) => Some((string_of(st.as_slice()), path)),
                None => {
                    proof {
                        assert(stems@[b as int] is Some);
                    }
                    None
                },
            }
        },
        None => None,
    }
}

// ---------------------------------------------------------------------------
// The idle watcher
// ---------------------------------------------------------------------------

/// What the idle watcher hears.
#[derive(Clone, Copy, Debug, PartialEq, Eq, Structural)]
pub enum IdleEvent {
    /// An envelope arrived on the bus.
    Activity,
    /// The idle window elapsed with no envelope.
    IdleElapsed,
    /// The bus closed or could no longer be received from.
    BusClosed,
    /// Shutdown was signalled.
    Shutdown,
}

/// What the idle watcher does next.
#[derive(Clone, Copy, Debug, PartialEq, Eq, Structural)]
pub enum IdleAction {
    /// Keep waiting.
    Wait,
    /// Compact the newest session now.
    Compact,
    /// Leave the watch loop.
    Stop,
}

/// One step of the watcher: whether the current idle stretch has already
/// been compacted, and the event, give the new flag and the action.
pub open spec fn idle_step(compacted: bool, ev: IdleEvent) -> (bool, IdleAction) {
    match ev {
        IdleEvent::Activity => (false, IdleAction::Wait),
        IdleEvent::IdleElapsed => if compacted {
            (true, IdleAction::Wait)
        } else {
            (true, IdleAction::Compact)
        },
        IdleEvent::BusClosed => (compacted, IdleAction::Stop),
        IdleEvent::Shutdown => (compacted, IdleAction::Stop),
    }
}

/// The watcher's decisions: one compaction per idle stretch, re-armed by bus
/// activity.
#[derive(Clone, Copy, Debug)]
pub struct IdleCompactor {
    /// Whether the current idle stretch has been compacted already.
    pub compacted_this_idle: bool,
}

impl IdleCompactor {
    /// A watcher that has not compacted yet.
    pub fn new() -> (w: Self)
        ensures
            !w.compacted_this_idle,
    {
        IdleCompactor { compacted_this_idle: false }
    }

    /// Takes one event and says what to do.
    pub fn on_event(&mut self, ev: IdleEvent) -> (a: IdleAction)
        ensures
            (final(self).compacted_this_idle, a) == idle_step(old(self).compacted_this_idle, ev),
    {
        match ev {
            IdleEvent::Activity => {
                self.compacted_this_idle = false;
                IdleAction::Wait
            },
            IdleEvent::IdleElapsed => {
                if self.compacted_this_idle {
                    IdleAction::Wait
                } else {
                    self.compacted_this_idle = true;
                    IdleAction::Compact
                }
            },
            IdleEvent::BusClosed => IdleAction::Stop,
            IdleEvent::Shutdown => IdleAction::Stop,
        }
    }
}

/// The flag after the first `n` events of a run from a fresh watcher.
pub open spec fn idle_flag_after(evs: Seq<IdleEvent>, n: int) -> bool
    decreases n,
{
    if n <= 0 {
        false
    } else {
        idle_step(idle_flag_after(evs, n - 1), evs[n - 1]).0
    }
}

/// The action a fresh watcher takes on event `n` of a run.
pub open spec fn idle_action_at(evs: Seq<IdleEvent>, n: int) -> IdleAction {
    idle_step(idle_flag_after(evs, n), evs[n]).1
}

/// Between any two compactions of a run there is bus activity: one long idle
/// period triggers a single compaction, not one per idle window.
pub proof fn lemma_one_compaction_per_idle_stretch(evs: Seq<IdleEvent>, i: int, j: int)
    requires
        0 <= i < j < evs.len(),
        idle_action_at(evs, i) == IdleAction::Compact,
        idle_action_at(evs, j) == IdleAction::Compact,
    ensures
        exists|k: int| i < k < j && evs[k] == IdleEvent::Activity,
{
    if forall|k: int| i < k < j ==> evs[k] != IdleEvent::Activity {
        lemma_flag_holds(evs, i, j);
        assert(false);
    }
}

/// After a compaction at `i`, the flag stays set through `m` while no bus
/// activity comes.
proof fn lemma_flag_holds(evs: Seq<IdleEvent>, i: int, m: int)
    requires
        0 <= i < m <= evs.len(),
        idle_action_at(evs, i) == IdleAction::Compact,
        forall|k: int| i < k < m ==> evs[k] != IdleEvent::Activity,
    ensures
        idle_flag_after(evs, m),
    decreases m - i,
{
    if m > i + 1 {
        lemma_flag_holds(evs, i, m - 1);
        assert(evs[m - 1] != IdleEvent::Activity);
    }
}

/// Bus activity re-arms the watcher: the next elapsed idle window compacts.
pub proof fn lemma_activity_rearms(evs: Seq<IdleEvent>, k: int)
    requires
        0 <= k,
        k + 1 < evs.len(),
        evs[k] == IdleEvent::Activity,
        evs[k + 1] == IdleEvent::IdleElapsed,
    ensures
        idle_action_at(evs, k + 1) == IdleAction::Compact,
{
}

/// The idle window, in seconds, when idle compaction runs at all: the session
/// logger is enabled and `idle_compact_after_minutes` is not zero.
pub fn idle_window_secs(cfg: &SessionConfig) -> (r: Option<u64>)
    ensures
        r == (if cfg.enabled && cfg.idle_compact_after_minutes != 0 {
            Some((cfg.idle_compact_after_minutes * 60) as u64)
        } else {
            None::<u64>
        }),
{
    if !cfg.enabled || cfg.idle_compact_after_minutes == 0 {
        None
    } else {
        Some(cfg.idle_compact_after_minutes as u64 * 60)
    }
}

// ---------------------------------------------------------------------------
// The digest and its sidecar
// ---------------------------------------------------------------------------

/// Sidecar written next to a session `.jsonl`; the log itself is never
/// modified.
#[derive(Clone, Debug)]
pub struct SessionSummary {
    /// Digest of the older prefix.
    pub summary: String,
    /// Number of leading log lines covered by `summary`.
    pub last_consolidated_offset: u64,
    /// Unix epoch milliseconds when the summary was written.
    pub created_ms: u64,
}

/// The digest taken from a summarizer's completion text: the text trimmed,
/// or `None` when nothing is left.
pub fn digest_of_completion(content: &str) -> (r: Option<String>)
    ensures
        match r {
            Some(d) => trim_ws(content@).len() > 0 && d@ == trim_ws(content@),
            None => trim_ws(content@).len() == 0,
        },
{
    let c = chars_of(content);
    let t = trim_chars(c.as_slice());
    if t.len() == 0 {
        None
    } else {
        Some(string_of(t.as_slice()))
    }
}

/// The sidecar for a digest covering `offset` lines, stamped now.
pub fn summary_sidecar(summary: String, offset: u64) -> (s: SessionSummary)
    ensures
        s.summary@ == summary@,
        s.last_consolidated_offset == offset,
{
    SessionSummary { summary, last_consolidated_offset: offset, created_ms: crate::envelope::now_unix_ms() }
}

} // verus!
