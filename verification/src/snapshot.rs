//! Restart-safe session snapshots: the terminal panes a launch leaves
//! behind, which prior snapshot a new launch restores, and the one-line
//! digest shown beside it. Reading and writing the files is the caller's.

use vstd::prelude::*;

use crate::compaction::{is_newest, newest_index};
use crate::config::SessionConfig;
use crate::json::{json_document, json_text, member, member_text, parse_json};
use crate::path::{backslash_separates, file_name, native_chars, native_path, path_file_name};
use crate::text::{chars_of, ends_with, has_suffix, string_of, sub_chars};
use crate::vault::{opt_str, trim_chars, trim_ws};

verus! {

/// One terminal pane's restorable state.
#[derive(Clone, Debug)]
pub struct PaneSnapshot {
    /// Frontend pane id.
    pub pane_id: u32,
    /// Serialized terminal buffer, replayed verbatim on restore.
    pub serialized: String,
    /// Working directory of the pane.
    pub cwd: String,
    /// Terminal rows at snapshot time.
    pub rows: u16,
    /// Terminal columns at snapshot time.
    pub cols: u16,
    /// Project root the pane belonged to, if any.
    pub project_root: Option<String>,
}

/// The snapshot of one launch, stored as `<session_id>.snapshot.json`.
#[derive(Clone, Debug)]
pub struct SessionSnapshot {
    /// Session id: the stem of the launch's session log.
    pub session_id: String,
    /// Unix epoch milliseconds when the snapshot was written.
    pub saved_ms: u64,
    /// Per-pane state.
    pub panes: Vec<PaneSnapshot>,
}

/// A prior launch's snapshot offered for restore, with its digest.
#[derive(Clone, Debug)]
pub struct RestorePayload {
    /// Session id of the snapshot being restored.
    pub session_id: String,
    /// When the snapshot was written (epoch ms).
    pub saved_ms: u64,
    /// Per-pane restorable state.
    pub panes: Vec<PaneSnapshot>,
    /// One-line digest from the matching summary sidecar, if any.
    pub digest: Option<String>,
}

/// Suffix of a snapshot file name.
pub open spec fn snapshot_suffix() -> Seq<char> {
    ".snapshot.json"@
}

/// Suffix of a summary sidecar file name.
pub open spec fn summary_suffix() -> Seq<char> {
    ".summary.json"@
}

/// `<session_id>.snapshot.json`.
pub fn snapshot_file_name(session_id: &str) -> (r: String)
    ensures
        r@ == session_id@ + snapshot_suffix(),
{
    let mut v = chars_of(session_id);
    let mut s = chars_of(".snapshot.json");
    v.append(&mut s);
    string_of(v.as_slice())
}

/// `<session_id>.summary.json`.
pub fn summary_file_name(session_id: &str) -> (r: String)
    ensures
        r@ == session_id@ + summary_suffix(),
{
    let mut v = chars_of(session_id);
    let mut s = chars_of(".summary.json");
    v.append(&mut s);
    string_of(v.as_slice())
}

/// `s` with every trailing repetition of `suffix` removed
/// (`str::trim_end_matches`).
pub open spec fn strip_all_suffix(s: Seq<char>, suffix: Seq<char>) -> Seq<char>
    decreases s.len(),
{
    if suffix.len() > 0 && has_suffix(s, suffix) {
        strip_all_suffix(s.subrange(0, s.len() - suffix.len()), suffix)
    } else {
        s
    }
}

/// Whether `s[..end]` ends with `suffix`.
fn ends_at(s: &[char], end: usize, suffix: &[char]) -> (r: bool)
    requires
        end <= s.len(),
    ensures
        r == has_suffix(s@.subrange(0, end as int), suffix@),
{
    if suffix.len() > end {
        return false;
    }
    let off = end - suffix.len();
    let mut i: usize = 0;
    while i < suffix.len()
        invariant
            suffix.len() <= end <= s.len(),
            off == end - suffix.len(),
            i <= suffix.len(),
            forall|j: int| 0 <= j < i ==> s@[off + j] == suffix@[j],
        decreases suffix.len() - i,
    {
        if s[off + i] != suffix[i] {
            assert(s@.subrange(0, end as int).subrange(off as int, end as int)[i as int] != suffix@[i as int]);
            return false;
        }
        i += 1;
    }
    assert(s@.subrange(0, end as int).subrange(off as int, end as int) =~= suffix@);
    true
}

/// The session id a snapshot file name stands for: the name with the
/// snapshot suffix trimmed off, when it ends with it.
pub open spec fn snapshot_id_spec(name: Seq<char>) -> Option<Seq<char>> {
    if has_suffix(name, snapshot_suffix()) {
        Some(strip_all_suffix(name, snapshot_suffix()))
    } else {
        None
    }
}

/// [`snapshot_id_spec`].
pub fn snapshot_id_of_name(name: &[char]) -> (r: Option<Vec<char>>)
    ensures
        match r {
            Some(id) => snapshot_id_spec(name@) == Some(id@),
            None => snapshot_id_spec(name@) is None,
        },
{
    let suffix = chars_of(".snapshot.json");
    proof {
        reveal_strlit(".snapshot.json");
    }
    if !ends_with(name, suffix.as_slice()) {
        return None;
    }
    let mut end = name.len();
    assert(name@.subrange(0, end as int) =~= name@);
    while end >= suffix.len() && ends_at(name, end, suffix.as_slice())
        invariant
            end <= name.len(),
            suffix@ == snapshot_suffix(),
            suffix.len() > 0,
            strip_all_suffix(name@.subrange(0, end as int), suffix@) == strip_all_suffix(name@, suffix@),
        decreases end,
    {
        proof {
            assert(name@.subrange(0, end as int).subrange(0, end - suffix.len()) =~= name@.subrange(
                0,
                end - suffix.len(),
            ));
        }
        end = end - suffix.len();
    }
    proof {
        let t = name@.subrange(0, end as int);
        if end < suffix.len() {
            assert(!has_suffix(t, suffix@));
        }
    }
    Some(sub_chars(name, 0, end))
}

/// Largest number of characters of a digest before it is cut.
pub const DIGEST_MAX_CHARS: usize = 240;

/// `s` with each `\n` and `\r` replaced by a space.
pub open spec fn one_line(s: Seq<char>) -> Seq<char> {
    Seq::new(s.len(), |i: int| if s[i] == '\n' || s[i] == '\r' { ' ' } else { s[i] })
}

/// The banner digest of a summary text: trimmed, on one line, and cut to
/// [`DIGEST_MAX_CHARS`] characters followed by `…` when longer; `None` when
/// nothing is left after trimming.
pub open spec fn digest_spec(summary: Seq<char>) -> Option<Seq<char>> {
    let t = trim_ws(summary);
    if t.len() == 0 {
        None
    } else {
        let o = one_line(t);
        if o.len() > DIGEST_MAX_CHARS {
            Some(o.subrange(0, DIGEST_MAX_CHARS as int) + seq!['\u{2026}'])
        } else {
            Some(o)
        }
    }
}

/// [`digest_spec`] of a summary text.
pub fn digest_text(summary: &str) -> (r: Option<String>)
    ensures
        opt_str(r) == digest_spec(summary@),
{
    let c = chars_of(summary);
    let t = trim_chars(c.as_slice());
    if t.len() == 0 {
        return None;
    }
    let mut o: Vec<char> = Vec::new();
    let mut i: usize = 0;
    while i < t.len()
        invariant
            i <= t.len(),
            o@ == one_line(t@).subrange(0, i as int),
        decreases t.len() - i,
    {
        let ch = t[i];
        if ch == '\n' || ch == '\r' {
            o.push(' ');
        } else {
            o.push(ch);
        }
        i += 1;
        assert(o@ =~= one_line(t@).subrange(0, i as int));
    }
    assert(o@ =~= one_line(t@));
    if o.len() > DIGEST_MAX_CHARS {
        let mut cut = sub_chars(o.as_slice(), 0, DIGEST_MAX_CHARS);
        cut.push('\u{2026}');
        Some(string_of(cut.as_slice()))
    } else {
        Some(string_of(o.as_slice()))
    }
}

/// The digest held by a summary sidecar's text: the `summary` string of the
/// JSON document, by [`digest_spec`]. `None` when the text is not JSON,
/// has no `summary` string, or the summary is blank.
pub open spec fn sidecar_digest_spec(raw: Seq<char>) -> Option<Seq<char>> {
    match json_document(raw) {
        Some(doc) => match json_text(member(doc, "summary"@)) {
            Some(s) => digest_spec(s),
            None => None,
        },
        None => None,
    }
}

/// [`sidecar_digest_spec`] of the text of a `<id>.summary.json` file.
pub fn digest_from_sidecar(raw: &str) -> (r: Option<String>)
    ensures
        opt_str(r) == sidecar_digest_spec(raw@),
{
    proof {
        reveal_strlit("summary");
    }
    match parse_json(raw) {
        Some(doc) => match member_text(&doc, "summary") {
            Some(s) => digest_text(s.as_str()),
            None => None,
        },
        None => None,
    }
}

/// The key of a directory entry `(path, modification time in epoch ms)` in
/// the search for a restorable snapshot: its time, when it is a snapshot
/// file of a session other than the current one.
pub open spec fn snapshot_key(path: Seq<char>, mtime: Option<u64>, current: Option<Seq<char>>, w: bool) -> Option<u128> {
    match file_name(native_path(path, w)) {
        Some(n) => match snapshot_id_spec(n) {
            Some(id) => if current == Some(id) {
                None
            } else {
                match mtime {
                    Some(t) => Some(t as u128),
                    None => None,
                }
            },
            None => None,
        },
        None => None,
    }
}

pub open spec fn snapshot_keys(entries: Seq<(String, Option<u64>)>, current: Option<Seq<char>>, w: bool) -> Seq<Option<u128>> {
    Seq::new(entries.len(), |i: int| snapshot_key(entries[i].0@, entries[i].1, current, w))
}

/// What [`choose_snapshot`] returns under path rule `w`.
pub open spec fn choice_ok(restore: bool, entries: Seq<(String, Option<u64>)>, current: Option<Seq<char>>, r: Option<usize>, w: bool) -> bool {
    &&& !restore ==> r is None
    &&& restore ==> match r {
        Some(b) => is_newest(snapshot_keys(entries, current, w), b as int),
        None => forall|i: int| 0 <= i < entries.len() ==> snapshot_keys(entries, current, w)[i] is None,
    }
}

/// Which directory entry to restore from: none when restore is disabled;
/// else the newest snapshot file (by modification time, the first of equal
/// times) that is not the current launch's own, whose time could be read.
pub fn choose_snapshot(
    cfg: &SessionConfig,
    entries: &Vec<(String, Option<u64>)>,
    current_id: &Option<String>,
) -> (r: Option<usize>)
    ensures
        !cfg.restore_on_startup ==> r is None,
        exists|w: bool| #[trigger] choice_ok(cfg.restore_on_startup, entries@, opt_str(*current_id), r, w),
{
    let w = backslash_separates();
    let r = if !cfg.restore_on_startup {
        None
    } else {
        choose_among(entries, current_id, w)
    };
    assert(choice_ok(cfg.restore_on_startup, entries@, opt_str(*current_id), r, w));
    r
}

/// The newest snapshot entry other than the current launch's own, under
/// path rule `w`.
fn choose_among(entries: &Vec<(String, Option<u64>)>, current_id: &Option<String>, w: bool) -> (r: Option<usize>)
    ensures
        match r {
            Some(b) => is_newest(snapshot_keys(entries@, opt_str(*current_id), w), b as int),
            None => forall|i: int|
                0 <= i < entries.len() ==> snapshot_keys(entries@, opt_str(*current_id), w)[i] is None,
        },
{
    let ghost cur = opt_str(*current_id);
    let cur_chars: Option<Vec<char>> = match current_id {
        Some(c) => Some(chars_of(c.as_str())),
        None => None,
    };
    let mut keys: Vec<Option<u128>> = Vec::new();
    let mut i: usize = 0;
    while i < entries.len()
        invariant
            i <= entries.len(),
            keys.len() == i,
            cur == opt_str(*current_id),
            match cur_chars {
                Some(c) => cur == Some(c@),
                None => cur is None,
            },
            forall|j: int| 0 <= j < i ==> keys@[j] == snapshot_keys(entries@, cur, w)[j],
        decreases entries.len() - i,
    {
        let p = native_chars(entries[i].0.as_str(), w);
        let key = match path_file_name(p.as_slice()) {
            Some(n) => match snapshot_id_of_name(n.as_slice()) {
                Some(id) => {
                    let is_current = match &cur_chars {
                        Some(c) => crate::text::chars_eq(c.as_slice(), id.as_slice()),
                        None => false,
                    };
                    if is_current {
                        None
                    } else {
                        match entries[i].1 {
                            Some(t) => Some(t as u128),
                            None => None,
                        }
                    }
                },
                None => None,
            },
            None => None,
        };
        keys.push(key);
        i += 1;
    }
    assert(keys@ =~= snapshot_keys(entries@, cur, w));
    newest_index(keys.as_slice())
}

/// Snapshots written before this time (epoch ms) are past retention:
/// `now_ms - retention_days` days, saturating at zero.
pub fn retention_cutoff_ms(now_ms: u64, retention_days: u32) -> (r: u64)
    ensures
        r == (if now_ms >= retention_days * 86_400_000 {
            now_ms - retention_days * 86_400_000
        } else {
            0
        }),
{
    let span = retention_days as u64 * 86_400_000;
    now_ms.saturating_sub(span)
}

/// The restore offered for a snapshot read back from disk: `None` when it
/// was written before `cutoff_ms`, else its contents with the digest.
pub fn restore_payload(snapshot: SessionSnapshot, cutoff_ms: u64, digest: Option<String>) -> (r: Option<RestorePayload>)
    ensures
        snapshot.saved_ms < cutoff_ms ==> r is None,
        snapshot.saved_ms >= cutoff_ms ==> r == Some(RestorePayload {
            session_id: snapshot.session_id,
            saved_ms: snapshot.saved_ms,
            panes: snapshot.panes,
            digest,
        }),
{
    if snapshot.saved_ms < cutoff_ms {
        None
    } else {
        Some(RestorePayload {
            session_id: snapshot.session_id,
            saved_ms: snapshot.saved_ms,
            panes: snapshot.panes,
            digest,
        })
    }
}

/// The snapshot of the current launch, keyed to its session id and stamped
/// with the current time.
pub fn new_session_snapshot(session_id: String, panes: Vec<PaneSnapshot>) -> (s: SessionSnapshot)
    ensures
        s.session_id == session_id,
        s.panes == panes,
{
    SessionSnapshot { session_id, saved_ms: crate::envelope::now_unix_ms(), panes }
}

} // verus!

verus! {

/// A launch never restores its own snapshot: the entry chosen for restore
/// is a snapshot file of a session other than the current one.
pub proof fn lemma_never_restores_current(
    entries: Seq<(String, Option<u64>)>,
    current: Option<Seq<char>>,
    b: int,
    w: bool,
)
    requires
        is_newest(snapshot_keys(entries, current, w), b),
    ensures
        file_name(native_path(entries[b].0@, w)) matches Some(n) && snapshot_id_spec(n) matches Some(id) && current
            != Some(id),
{
    assert(snapshot_keys(entries, current, w)[b] == snapshot_key(entries[b].0@, entries[b].1, current, w));
}

/// The snapshot written under a session id is found again under that id,
/// unless the id itself ends with the snapshot suffix.
pub proof fn lemma_snapshot_name_round_trip(id: Seq<char>)
    requires
        !has_suffix(id, snapshot_suffix()),
    ensures
        snapshot_id_spec(id + snapshot_suffix()) == Some(id),
{
    reveal_strlit(".snapshot.json");
    let n = id + snapshot_suffix();
    assert(n.subrange(n.len() - snapshot_suffix().len(), n.len() as int) =~= snapshot_suffix());
    assert(n.subrange(0, n.len() - snapshot_suffix().len()) =~= id);
    assert(strip_all_suffix(id, snapshot_suffix()) == id);
}

} // verus!
