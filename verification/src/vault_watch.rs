//! Vault-walker decisions: which files are vaults, the ids their paths
//! give, and the debounce table that turns bursts of watcher events into
//! one update per file.
use vstd::prelude::*;
use crate::frontmatter::char_views;
use crate::fs_events::{WatchEvent, WatchKind};
use crate::path::{
    backslash_separates, native_chars, native_path, components, extension, file_stem, name_stem, path_components, path_extension, path_file_stem,
    stem_of_name,
};
use crate::text::{chars_eq, chars_eq_ignore_ascii_case, chars_eq_str, chars_of, eq_ignore_ascii_case, string_of};
use crate::vault::{forward_slashes, normalize_path_str, strs, trim_trailing};

verus! {

/// Whether a path names a markdown file (extension `md`, any case), under
/// the platform path rule `w` (whether `\` separates components).
pub open spec fn is_md_spec(path: Seq<char>, w: bool) -> bool {
    match extension(native_path(path, w)) {
        Some(e) => eq_ignore_ascii_case(e, "md"@),
        None => false,
    }
}

/// Whether `path` is a `.md` file under the platform's path rules.
pub fn is_md_file(path: &str) -> (r: bool)
    ensures
        exists|w: bool| r == #[trigger] is_md_spec(path@, w),
{
    is_md_on(path, backslash_separates())
}

/// [`is_md_spec`] under path rule `w`.
fn is_md_on(path: &str, w: bool) -> (r: bool)
    ensures
        r == is_md_spec(path@, w),
{
    let p = native_chars(path, w);
    match path_extension(p.as_slice()) {
        Some(e) => {
            let md = chars_of("md");
            chars_eq_ignore_ascii_case(e.as_slice(), md.as_slice())
        },
        None => false,
    }
}

// ---------------------------------------------------------------------------
// Vault ids
// ---------------------------------------------------------------------------

/// A component that names something (not a root, `.` or `..`).
pub open spec fn is_named(c: Seq<char>) -> bool {
    c != "/"@ && c != "."@ && c != ".."@
}

/// The named components among the first `n`, in order.
pub open spec fn named_upto(cs: Seq<Seq<char>>, n: int) -> Seq<Seq<char>>
    decreases n,
{
    if n <= 0 || n > cs.len() {
        Seq::empty()
    } else if is_named(cs[n - 1]) {
        named_upto(cs, n - 1).push(cs[n - 1])
    } else {
        named_upto(cs, n - 1)
    }
}

/// The named components of `rel` once its extension is dropped
/// (`with_extension("")`).
pub open spec fn id_parts(rel: Seq<char>, w: bool) -> Seq<Seq<char>> {
    let cs = components(native_path(rel, w));
    let cs2 = if cs.len() > 0 && is_named(cs.last()) {
        cs.drop_last().push(name_stem(cs.last()))
    } else {
        cs
    };
    named_upto(cs2, cs2.len() as int)
}

/// Parts joined by `.`.
pub open spec fn join_dots(p: Seq<Seq<char>>) -> Seq<char>
    decreases p.len(),
{
    if p.len() == 0 {
        Seq::empty()
    } else if p.len() == 1 {
        p[0]
    } else {
        join_dots(p.drop_last()) + "."@ + p.last()
    }
}

/// The vault id and parent id of a path relative to `vaults/`: sub-doors
/// get dotted ids (`pr003/x/y.md` → `pr003.x.y` with parent `pr003.x`);
/// `None` when the path names nothing. `w` is the platform path rule.
pub open spec fn vault_ids_spec(rel: Seq<char>, w: bool) -> Option<(Seq<char>, Option<Seq<char>>)> {
    let p = id_parts(rel, w);
    if p.len() == 0 {
        None
    } else {
        Some(
            (
                join_dots(p),
                if p.len() > 1 {
                    Some(join_dots(p.drop_last()))
                } else {
                    None
                },
            ),
        )
    }
}

fn join_dotted(p: &Vec<Vec<char>>, n: usize) -> (r: Vec<char>)
    requires
        n <= p.len(),
    ensures
        r@ == join_dots(char_views(p@).subrange(0, n as int)),
{
    let ghost pv = char_views(p@);
    let mut r: Vec<char> = Vec::new();
    let mut j: usize = 0;
    assert(pv.subrange(0, 0) =~= Seq::<Seq<char>>::empty());
    while j < n
        invariant
            j <= n <= p.len(),
            pv == char_views(p@),
            r@ == join_dots(pv.subrange(0, j as int)),
        decreases n - j,
    {
        let ghost before = r@;
        assert(pv[j as int] == p@[j as int]@);
        assert(pv.subrange(0, j + 1).drop_last() =~= pv.subrange(0, j as int));
        if j > 0 {
            r.push('.');
        }
        let piece = p[j].as_slice();
        let ghost mid = r@;
        let mut k: usize = 0;
        while k < piece.len()
            invariant
                k <= piece.len(),
                r@ == mid + piece@.subrange(0, k as int),
            decreases piece.len() - k,
        {
            r.push(piece[k]);
            k += 1;
            assert(r@ =~= mid + piece@.subrange(0, k as int));
        }
        assert(piece@.subrange(0, piece@.len() as int) =~= piece@);
        proof {
            reveal_strlit(".");
            if j > 0 {
                assert(r@ =~= before + "."@ + pv[j as int]);
            } else {
                assert(r@ =~= pv[j as int]);
            }
        }
        j += 1;
    }
    r
}

/// Law of vault ids: a vault's parent id, when it has one, is its own id up
/// to its last `.`-joined component (`pr003.x` for `pr003.x.y`); a vault
/// whose path names one component has no parent.
pub proof fn lemma_parent_id_is_id_prefix(rel: Seq<char>, w: bool)
    ensures
        vault_ids_spec(rel, w) matches Some((id, Some(parent))) ==> id == parent + "."@ + id.subrange(
            parent.len() as int + 1,
            id.len() as int,
        ),
        vault_ids_spec(rel, w) matches Some((id, None)) ==> id_parts(rel, w).len() == 1 && id == id_parts(rel, w)[0],
{
    reveal_strlit(".");
    let p = id_parts(rel, w);
    if p.len() > 1 {
        let id = join_dots(p);
        let parent = join_dots(p.drop_last());
        assert(id == parent + "."@ + p.last());
        assert(id.subrange(parent.len() as int + 1, id.len() as int) =~= p.last());
        assert(p.last() == p[p.len() - 1]);
    }
}

/// Vault id and parent id of a path relative to `vaults/`
/// ([`vault_ids_spec`]) under the platform's path rules.
pub fn derive_vault_ids(rel: &str) -> (r: Option<(String, Option<String>)>)
    ensures
        exists|w: bool| #[trigger] ids_match(r, vault_ids_spec(rel@, w)),
{
    derive_vault_ids_on(rel, backslash_separates())
}

/// Whether the exec ids `r` are the spec ids `s`.
pub open spec fn ids_match(r: Option<(String, Option<String>)>, s: Option<(Seq<char>, Option<Seq<char>>)>) -> bool {
    match r {
        Some((id, parent)) => s == Some((id@, crate::vault::opt_str(parent))),
        None => s is None,
    }
}

/// [`vault_ids_spec`] under path rule `w`.
fn derive_vault_ids_on(rel: &str, w: bool) -> (r: Option<(String, Option<String>)>)
    ensures
        ids_match(r, vault_ids_spec(rel@, w)),
{
    let rc = native_chars(rel, w);
    let mut cs = path_components(rc.as_slice());
    let ghost cv0 = char_views(cs@);
    proof {
        reveal_strlit("/");
        reveal_strlit(".");
        reveal_strlit("..");
    }
    if cs.len() > 0 {
        let last_i = cs.len() - 1;
        assert(cv0.last() == cs@[last_i as int]@);
        let named = !(chars_eq_str(cs[last_i].as_slice(), "/") || chars_eq_str(cs[last_i].as_slice(), ".")
            || chars_eq_str(cs[last_i].as_slice(), ".."));
        if named {
            let stem = stem_of_name(cs[last_i].as_slice());
            cs.set(last_i, stem);
            assert(char_views(cs@) =~= cv0.drop_last().push(name_stem(cv0.last())));
        }
    }
    let ghost cv = char_views(cs@);
    assert(cv == (if cv0.len() > 0 && is_named(cv0.last()) {
        cv0.drop_last().push(name_stem(cv0.last()))
    } else {
        cv0
    }));
    let mut parts: Vec<Vec<char>> = Vec::new();
    let mut i: usize = 0;
    assert(char_views(parts@) =~= named_upto(cv, 0));
    while i < cs.len()
        invariant
            i <= cs.len(),
            cv == char_views(cs@),
            char_views(parts@) == named_upto(cv, i as int),
        decreases cs.len() - i,
    {
        assert(cv[i as int] == cs@[i as int]@);
        let ghost before = char_views(parts@);
        let c = cs[i].as_slice();
        if !(chars_eq_str(c, "/") || chars_eq_str(c, ".") || chars_eq_str(c, "..")) {
            parts.push(crate::path::copy_chars(c));
            assert(char_views(parts@) =~= before.push(cv[i as int]));
        }
        i += 1;
    }
    let ghost pv = char_views(parts@);
    assert(pv == id_parts(rel@, w));
    if parts.len() == 0 {
        return None;
    }
    assert(pv.subrange(0, pv.len() as int) =~= pv);
    let id = join_dotted(&parts, parts.len());
    let parent = if parts.len() > 1 {
        assert(pv.subrange(0, pv.len() - 1) =~= pv.drop_last());
        Some(string_of(join_dotted(&parts, parts.len() - 1).as_slice()))
    } else {
        None
    };
    Some((string_of(id.as_slice()), parent))
}

} // verus!

verus! {

// ---------------------------------------------------------------------------
// Debounce table
// ---------------------------------------------------------------------------

/// The pending kind of change for a path.
#[derive(Debug, Clone, Copy, PartialEq, Eq, Structural)]
pub enum DebouncedKind {
    Created,
    Modified,
    Deleted,
}

/// The quiet time after the first event of a window before it is flushed.
pub const DEBOUNCE_WINDOW_MS: u64 = 100;

/// How far back a rename's entries are dated so that they flush on the
/// next tick.
pub const ALREADY_DUE_MS: u64 = 200;

/// Pending entry: the path, its latest kind, and when the first event of
/// its window arrived (milliseconds on a monotonic clock).
pub type Pending = (Seq<char>, DebouncedKind, u64);

/// Per-path pending changes, one entry per path, oldest path first.
pub struct DebounceTable {
    entries: Vec<(String, DebouncedKind, u64)>,
}

pub open spec fn pending_views(v: Seq<(String, DebouncedKind, u64)>) -> Seq<Pending> {
    v.map_values(|e: (String, DebouncedKind, u64)| (e.0@, e.1, e.2))
}

pub open spec fn distinct_paths(s: Seq<Pending>) -> bool {
    forall|i: int, j: int| 0 <= i < j < s.len() ==> (#[trigger] s[i]).0 != (#[trigger] s[j]).0
}

/// Index of the entry for `path`.
pub open spec fn index_of_path(s: Seq<Pending>, path: Seq<char>, from: int) -> Option<int>
    decreases s.len() - from,
{
    if from < 0 || from >= s.len() {
        None
    } else if s[from].0 == path {
        Some(from)
    } else {
        index_of_path(s, path, from + 1)
    }
}

/// The table after an event for `path`: an existing entry keeps the start
/// of its window and takes the new kind; otherwise a new entry starts a
/// window at `first_seen`.
pub open spec fn upsert_spec(s: Seq<Pending>, path: Seq<char>, kind: DebouncedKind, first_seen: u64) -> Seq<Pending> {
    match index_of_path(s, path, 0) {
        Some(i) => s.update(i, (path, kind, s[i].2)),
        None => s.push((path, kind, first_seen)),
    }
}

/// Whether an entry's window has lasted `window` ms at time `now` (a start
/// after `now` counts as no time at all).
pub open spec fn is_due(e: Pending, now: u64, window: u64) -> bool {
    (if now >= e.2 {
        now - e.2
    } else {
        0
    }) >= window
}

/// The due entries among the first `n`, in order.
pub open spec fn due_upto(s: Seq<Pending>, n: int, now: u64, window: u64) -> Seq<Pending>
    decreases n,
{
    if n <= 0 || n > s.len() {
        Seq::empty()
    } else if is_due(s[n - 1], now, window) {
        due_upto(s, n - 1, now, window).push(s[n - 1])
    } else {
        due_upto(s, n - 1, now, window)
    }
}

/// The entries among the first `n` that are not due, in order.
pub open spec fn waiting_upto(s: Seq<Pending>, n: int, now: u64, window: u64) -> Seq<Pending>
    decreases n,
{
    if n <= 0 || n > s.len() {
        Seq::empty()
    } else if is_due(s[n - 1], now, window) {
        waiting_upto(s, n - 1, now, window)
    } else {
        waiting_upto(s, n - 1, now, window).push(s[n - 1])
    }
}

proof fn lemma_index_of_path(s: Seq<Pending>, path: Seq<char>, from: int)
    ensures
        index_of_path(s, path, from) matches Some(i) ==> from <= i < s.len() && s[i].0 == path,
        index_of_path(s, path, from) is None ==> forall|k: int| 0 <= from <= k < s.len() ==> s[k].0 != path,
    decreases s.len() - from,
{
    if 0 <= from < s.len() && s[from].0 != path {
        lemma_index_of_path(s, path, from + 1);
    }
}

proof fn lemma_waiting_distinct(s: Seq<Pending>, n: int, now: u64, window: u64)
    requires
        0 <= n <= s.len(),
        distinct_paths(s),
    ensures
        distinct_paths(waiting_upto(s, n, now, window)),
        forall|k: int| 0 <= k < waiting_upto(s, n, now, window).len() ==> exists|j: int| 0 <= j < n && #[trigger] waiting_upto(s, n, now, window)[k] == s[j],
    decreases n,
{
    if n > 0 {
        lemma_waiting_distinct(s, n - 1, now, window);
        let w = waiting_upto(s, n - 1, now, window);
        if !is_due(s[n - 1], now, window) {
            let w2 = w.push(s[n - 1]);
            assert forall|i: int, j: int| 0 <= i < j < w2.len() implies (#[trigger] w2[i]).0 != (#[trigger] w2[j]).0 by {
                if j == w.len() {
                    let a = choose|a: int| 0 <= a < n - 1 && w[i] == s[a];
                }
            }
            assert forall|k: int| 0 <= k < w2.len() implies exists|j: int| 0 <= j < n && #[trigger] w2[k] == s[j] by {
                if k < w.len() {
                    let a = choose|a: int| 0 <= a < n - 1 && w[k] == s[a];
                } else {
                    assert(w2[k] == s[n - 1]);
                }
            }
        }
    }
}

impl DebounceTable {
    /// The pending entries.
    pub closed spec fn entries(&self) -> Seq<Pending> {
        pending_views(self.entries@)
    }

    #[verifier::type_invariant]
    spec fn one_entry_per_path(&self) -> bool {
        distinct_paths(pending_views(self.entries@))
    }

    /// An empty table.
    pub fn new() -> (t: Self)
        ensures
            t.entries() == Seq::<Pending>::empty(),
    {
        let t = DebounceTable { entries: Vec::new() };
        assert(t.entries() =~= Seq::<Pending>::empty());
        t
    }

    /// Record an event for `path` ([`upsert_spec`]).
    pub fn upsert(&mut self, path: &str, kind: DebouncedKind, first_seen: u64)
        ensures
            final(self).entries() == upsert_spec(old(self).entries(), path@, kind, first_seen),
    {
        proof {
            use_type_invariant(&*self);
        }
        let ghost s0 = pending_views(self.entries@);
        proof {
            lemma_index_of_path(s0, path@, 0);
        }
        let pc = chars_of(path);
        let mut i: usize = 0;
        while i < self.entries.len()
            invariant
                i <= self.entries@.len(),
                s0 == pending_views(self.entries@),
                s0 == old(self).entries(),
                distinct_paths(s0),
                pc@ == path@,
                index_of_path(s0, path@, i as int) == index_of_path(s0, path@, 0),
            decreases self.entries@.len() - i,
        {
            let c = chars_of(self.entries[i].0.as_str());
            assert(s0[i as int].0 == self.entries@[i as int].0@);
            if chars_eq(c.as_slice(), pc.as_slice()) {
                let first = self.entries[i].2;
                let name = self.entries[i].0.clone();
                let mut entries: Vec<(String, DebouncedKind, u64)> = Vec::new();
                std::mem::swap(&mut entries, &mut self.entries);
                entries.set(i, (name, kind, first));
                proof {
                    assert(pending_views(entries@) =~= s0.update(i as int, (path@, kind, s0[i as int].2)));
                    assert(distinct_paths(pending_views(entries@))) by {
                        let s1 = pending_views(entries@);
                        assert forall|a: int, b: int| 0 <= a < b < s1.len() implies (#[trigger] s1[a]).0 != (#[trigger] s1[b]).0 by {
                            assert(s1[a].0 == s0[a].0 && s1[b].0 == s0[b].0);
                        }
                    }
                }
                self.entries = entries;
                return;
            }
            i += 1;
        }
        let mut entries: Vec<(String, DebouncedKind, u64)> = Vec::new();
        std::mem::swap(&mut entries, &mut self.entries);
        entries.push((path.to_string(), kind, first_seen));
        proof {
            let s1 = pending_views(entries@);
            assert(s1 =~= s0.push((path@, kind, first_seen)));
            assert(distinct_paths(s1)) by {
                assert forall|a: int, b: int| 0 <= a < b < s1.len() implies (#[trigger] s1[a]).0 != (#[trigger] s1[b]).0 by {
                    if b == s0.len() {
                        assert(s1[a] == s0[a]);
                    }
                }
            }
        }
        self.entries = entries;
    }

    /// Remove and return the entries whose window has lasted `window` ms at
    /// time `now`, in table order; the others stay, in order.
    pub fn take_due(&mut self, now: u64, window: u64) -> (due: Vec<(String, DebouncedKind, u64)>)
        ensures
            pending_views(due@) == due_upto(old(self).entries(), old(self).entries().len() as int, now, window),
            final(self).entries() == waiting_upto(old(self).entries(), old(self).entries().len() as int, now, window),
    {
        proof {
            use_type_invariant(&*self);
        }
        let mut entries: Vec<(String, DebouncedKind, u64)> = Vec::new();
        std::mem::swap(&mut entries, &mut self.entries);
        let ghost s0 = pending_views(entries@);
        let mut due: Vec<(String, DebouncedKind, u64)> = Vec::new();
        let mut keep: Vec<(String, DebouncedKind, u64)> = Vec::new();
        let mut i: usize = 0;
        assert(pending_views(due@) =~= due_upto(s0, 0, now, window));
        assert(pending_views(keep@) =~= waiting_upto(s0, 0, now, window));
        while i < entries.len()
            invariant
                i <= entries@.len(),
                s0 == pending_views(entries@),
                pending_views(due@) == due_upto(s0, i as int, now, window),
                pending_views(keep@) == waiting_upto(s0, i as int, now, window),
            decreases entries@.len() - i,
        {
            let e = (entries[i].0.clone(), entries[i].1, entries[i].2);
            assert((e.0@, e.1, e.2) == s0[i as int]);
            let age = if now >= e.2 {
                now - e.2
            } else {
                0
            };
            if age >= window {
                let ghost before = pending_views(due@);
                due.push(e);
                assert(pending_views(due@) =~= before.push(s0[i as int]));
            } else {
                let ghost before = pending_views(keep@);
                keep.push(e);
                assert(pending_views(keep@) =~= before.push(s0[i as int]));
            }
            i += 1;
        }
        proof {
            lemma_waiting_distinct(s0, s0.len() as int, now, window);
        }
        self.entries = keep;
        due
    }

    /// Record a watcher event on vault files: creations and modifications
    /// start a window at `now`; removals too; a rename's sides (the old
    /// path as removed, the new one as created) and a rename with one side
    /// known (as removed) are dated [`ALREADY_DUE_MS`] back so that they
    /// flush on the next tick. Only `.md` files are recorded.
    pub fn record_event(&mut self, event: &WatchEvent, now: u64)
        ensures
            exists|w: bool| final(self).entries() == apply_upserts(old(self).entries(), #[trigger] event_upserts(event.kind, strs(event.paths), now, w)),
    {
        let w = backslash_separates();
        let ups = event_upserts_exec(event, now, w);
        let ghost s0 = self.entries();
        let ghost u = upsert_views(ups@);
        let mut i: usize = 0;
        assert(apply_upserts(s0, u.subrange(0, 0)) == s0);
        while i < ups.len()
            invariant
                i <= ups@.len(),
                u == upsert_views(ups@),
                self.entries() == apply_upserts(s0, u.subrange(0, i as int)),
            decreases ups@.len() - i,
        {
            assert(u.subrange(0, i + 1).drop_last() =~= u.subrange(0, i as int));
            assert(u[i as int] == (ups@[i as int].0@, ups@[i as int].1, ups@[i as int].2));
            self.upsert(ups[i].0.as_str(), ups[i].1, ups[i].2);
            i += 1;
        }
        assert(u.subrange(0, u.len() as int) =~= u);
    }
}

/// The table after applying `ups` in order.
pub open spec fn apply_upserts(s: Seq<Pending>, ups: Seq<Pending>) -> Seq<Pending>
    decreases ups.len(),
{
    if ups.len() == 0 {
        s
    } else {
        let last = ups.last();
        upsert_spec(apply_upserts(s, ups.drop_last()), last.0, last.1, last.2)
    }
}

/// `now` less [`ALREADY_DUE_MS`], or `now` itself when that would go below
/// zero.
pub open spec fn already_due(now: u64) -> u64 {
    if now >= ALREADY_DUE_MS {
        (now - ALREADY_DUE_MS) as u64
    } else {
        now
    }
}

/// One upsert of `kind` at `t` per `.md` path among the first `n`.
pub open spec fn md_upserts(paths: Seq<Seq<char>>, n: int, kind: DebouncedKind, t: u64, w: bool) -> Seq<Pending>
    decreases n,
{
    if n <= 0 || n > paths.len() {
        Seq::empty()
    } else if is_md_spec(paths[n - 1], w) {
        md_upserts(paths, n - 1, kind, t, w).push((paths[n - 1], kind, t))
    } else {
        md_upserts(paths, n - 1, kind, t, w)
    }
}

/// The upserts a watcher event makes under path rule `w`.
pub open spec fn event_upserts(kind: WatchKind, paths: Seq<Seq<char>>, now: u64, w: bool) -> Seq<Pending> {
    match kind {
        WatchKind::Create => md_upserts(paths, paths.len() as int, DebouncedKind::Created, now, w),
        WatchKind::RenameBoth => if paths.len() >= 2 {
            let from: Seq<Pending> = if is_md_spec(paths[0], w) {
                seq![(paths[0], DebouncedKind::Deleted, already_due(now))]
            } else {
                Seq::empty()
            };
            let to: Seq<Pending> = if is_md_spec(paths[1], w) {
                seq![(paths[1], DebouncedKind::Created, already_due(now))]
            } else {
                Seq::empty()
            };
            from + to
        } else {
            md_upserts(paths, paths.len() as int, DebouncedKind::Deleted, already_due(now), w)
        },
        WatchKind::RenameOther => md_upserts(paths, paths.len() as int, DebouncedKind::Deleted, already_due(now), w),
        WatchKind::Modify => md_upserts(paths, paths.len() as int, DebouncedKind::Modified, now, w),
        WatchKind::Remove => md_upserts(paths, paths.len() as int, DebouncedKind::Deleted, now, w),
        WatchKind::Other => Seq::empty(),
    }
}

/// The upserts made for the first `n` paths, all of one kind and time: each
/// names a `.md` path among them, and every `.md` path among them is named,
/// in order.
proof fn lemma_md_upserts_shape(paths: Seq<Seq<char>>, n: int, kind: DebouncedKind, t: u64, w: bool)
    requires
        0 <= n <= paths.len(),
    ensures
        forall|k: int| 0 <= k < md_upserts(paths, n, kind, t, w).len() ==> {
            let e = #[trigger] md_upserts(paths, n, kind, t, w)[k];
            &&& e.1 == kind
            &&& e.2 == t
            &&& is_md_spec(e.0, w)
            &&& exists|i: int| 0 <= i < n && paths[i] == e.0
        },
        forall|i: int| 0 <= i < n && is_md_spec(#[trigger] paths[i], w) ==> exists|k: int|
            0 <= k < md_upserts(paths, n, kind, t, w).len() && md_upserts(paths, n, kind, t, w)[k].0 == paths[i],
        md_upserts(paths, n, kind, t, w).len() <= n,
    decreases n,
{
    if n > 0 {
        lemma_md_upserts_shape(paths, n - 1, kind, t, w);
        let prev = md_upserts(paths, n - 1, kind, t, w);
        let cur = md_upserts(paths, n, kind, t, w);
        if is_md_spec(paths[n - 1], w) {
            assert(cur == prev.push((paths[n - 1], kind, t)));
            assert forall|k: int| 0 <= k < cur.len() implies {
                let e = #[trigger] cur[k];
                &&& e.1 == kind
                &&& e.2 == t
                &&& is_md_spec(e.0, w)
                &&& exists|i: int| 0 <= i < n && paths[i] == e.0
            } by {
                if k < prev.len() {
                    assert(cur[k] == prev[k]);
                    let i = choose|i: int| 0 <= i < n - 1 && paths[i] == prev[k].0;
                    assert(0 <= i < n && paths[i] == cur[k].0);
                } else {
                    assert(paths[n - 1] == cur[k].0);
                }
            }
            assert forall|i: int| 0 <= i < n && is_md_spec(#[trigger] paths[i], w) implies exists|k: int|
                0 <= k < cur.len() && cur[k].0 == paths[i] by {
                if i < n - 1 {
                    let k = choose|k: int| 0 <= k < prev.len() && prev[k].0 == paths[i];
                    assert(cur[k] == prev[k]);
                } else {
                    assert(cur[prev.len() as int].0 == paths[i]);
                }
            }
        } else {
            assert forall|k: int| 0 <= k < cur.len() implies {
                let e = #[trigger] cur[k];
                &&& e.1 == kind
                &&& e.2 == t
                &&& is_md_spec(e.0, w)
                &&& exists|i: int| 0 <= i < n && paths[i] == e.0
            } by {
                let i = choose|i: int| 0 <= i < n - 1 && paths[i] == prev[k].0;
                assert(0 <= i < n && paths[i] == cur[k].0);
            }
        }
    }
}

/// Law of the event kinds: a creation records each of its `.md` paths as
/// created at `now`, a modification as modified at `now`, a removal as
/// deleted at `now`, and a rename with one side known as deleted, dated no
/// later than `now`; only `.md` paths of the event are recorded, and each
/// of them is. A complete rename records its old `.md` path as deleted and
/// its new one as created. In particular a single `.md` path removed is
/// recorded exactly as deleted at `now`.
pub proof fn lemma_event_kinds(kind: WatchKind, paths: Seq<Seq<char>>, now: u64, w: bool)
    ensures
        ({
            let u = event_upserts(kind, paths, now, w);
            &&& forall|k: int| 0 <= k < u.len() ==> is_md_spec((#[trigger] u[k]).0, w) && paths.contains(u[k].0)
            &&& forall|k: int| 0 <= k < u.len() ==> (#[trigger] u[k]).2 <= now
            &&& kind is Create ==> forall|k: int| 0 <= k < u.len() ==> (#[trigger] u[k]).1 == DebouncedKind::Created && u[k].2 == now
            &&& kind is Modify ==> forall|k: int| 0 <= k < u.len() ==> (#[trigger] u[k]).1 == DebouncedKind::Modified && u[k].2 == now
            &&& kind is Remove ==> forall|k: int| 0 <= k < u.len() ==> (#[trigger] u[k]).1 == DebouncedKind::Deleted && u[k].2 == now
            &&& kind is RenameOther ==> forall|k: int| 0 <= k < u.len() ==> (#[trigger] u[k]).1 == DebouncedKind::Deleted
            &&& kind is Other ==> u.len() == 0
            &&& (kind is Create || kind is Modify || kind is Remove || kind is RenameOther) ==> forall|i: int|
                0 <= i < paths.len() && is_md_spec(#[trigger] paths[i], w) ==> exists|k: int| 0 <= k < u.len() && u[k].0 == paths[i]
            &&& kind is RenameBoth && paths.len() >= 2 ==> {
                &&& is_md_spec(paths[0], w) ==> u.len() >= 1 && u[0].0 == paths[0] && u[0].1 == DebouncedKind::Deleted
                &&& is_md_spec(paths[1], w) ==> u.len() >= 1 && u.last().0 == paths[1] && u.last().1 == DebouncedKind::Created
            }
        }),
        paths.len() == 1 && is_md_spec(paths[0], w) ==> event_upserts(WatchKind::Remove, paths, now, w) == seq![
            (paths[0], DebouncedKind::Deleted, now),
        ],
{
    let n = paths.len() as int;
    let u = event_upserts(kind, paths, now, w);
    let ad = already_due(now);
    match kind {
        WatchKind::Create => lemma_md_upserts_shape(paths, n, DebouncedKind::Created, now, w),
        WatchKind::Modify => lemma_md_upserts_shape(paths, n, DebouncedKind::Modified, now, w),
        WatchKind::Remove => lemma_md_upserts_shape(paths, n, DebouncedKind::Deleted, now, w),
        WatchKind::RenameOther => lemma_md_upserts_shape(paths, n, DebouncedKind::Deleted, ad, w),
        WatchKind::RenameBoth => {
            if n >= 2 {
                assert forall|k: int| 0 <= k < u.len() implies is_md_spec((#[trigger] u[k]).0, w) && paths.contains(u[k].0) by {
                    if u[k].0 == paths[0] {
                        assert(paths[0] == paths[0]);
                    } else {
                        assert(paths[1] == paths[1]);
                    }
                }
            } else {
                lemma_md_upserts_shape(paths, n, DebouncedKind::Deleted, ad, w);
            }
        },
        WatchKind::Other => {},
    }
    if kind is Create || kind is Modify || kind is Remove || kind is RenameOther || (kind is RenameBoth && n < 2) {
        assert forall|k: int| 0 <= k < u.len() implies is_md_spec((#[trigger] u[k]).0, w) && paths.contains(u[k].0) by {
            let i = choose|i: int| 0 <= i < n && paths[i] == u[k].0;
            assert(paths[i] == u[k].0);
        }
    }
    if paths.len() == 1 && is_md_spec(paths[0], w) {
        let r = event_upserts(WatchKind::Remove, paths, now, w);
        assert(md_upserts(paths, 0, DebouncedKind::Deleted, now, w).len() == 0);
        assert(r =~= seq![(paths[0], DebouncedKind::Deleted, now)]);
    }
}

pub open spec fn upsert_views(v: Seq<(String, DebouncedKind, u64)>) -> Seq<Pending> {
    v.map_values(|e: (String, DebouncedKind, u64)| (e.0@, e.1, e.2))
}

fn md_upserts_exec(paths: &Vec<String>, kind: DebouncedKind, t: u64, w: bool) -> (r: Vec<(String, DebouncedKind, u64)>)
    ensures
        upsert_views(r@) == md_upserts(strs(*paths), paths@.len() as int, kind, t, w),
{
    let ghost pv = strs(*paths);
    let mut r: Vec<(String, DebouncedKind, u64)> = Vec::new();
    let mut i: usize = 0;
    assert(upsert_views(r@) =~= md_upserts(pv, 0, kind, t, w));
    while i < paths.len()
        invariant
            i <= paths.len(),
            pv == strs(*paths),
            upsert_views(r@) == md_upserts(pv, i as int, kind, t, w),
        decreases paths.len() - i,
    {
        assert(pv[i as int] == paths@[i as int]@);
        if is_md_on(paths[i].as_str(), w) {
            let ghost before = upsert_views(r@);
            r.push((paths[i].clone(), kind, t));
            assert(upsert_views(r@) =~= before.push((pv[i as int], kind, t)));
        }
        i += 1;
    }
    r
}

fn already_due_exec(now: u64) -> (r: u64)
    ensures
        r == already_due(now),
{
    if now >= ALREADY_DUE_MS {
        now - ALREADY_DUE_MS
    } else {
        now
    }
}

/// The upserts a watcher event makes ([`event_upserts`]).
fn event_upserts_exec(event: &WatchEvent, now: u64, w: bool) -> (r: Vec<(String, DebouncedKind, u64)>)
    ensures
        upsert_views(r@) == event_upserts(event.kind, strs(event.paths), now, w),
{
    let ghost pv = strs(event.paths);
    match event.kind {
        WatchKind::Create => md_upserts_exec(&event.paths, DebouncedKind::Created, now, w),
        WatchKind::RenameBoth => {
            if event.paths.len() >= 2 {
                assert(pv[0] == event.paths@[0]@ && pv[1] == event.paths@[1]@);
                let t = already_due_exec(now);
                let mut r: Vec<(String, DebouncedKind, u64)> = Vec::new();
                if is_md_on(event.paths[0].as_str(), w) {
                    r.push((event.paths[0].clone(), DebouncedKind::Deleted, t));
                }
                let ghost mid = upsert_views(r@);
                if is_md_on(event.paths[1].as_str(), w) {
                    r.push((event.paths[1].clone(), DebouncedKind::Created, t));
                }
                assert(upsert_views(r@) =~= event_upserts(event.kind, pv, now, w));
                r
            } else {
                md_upserts_exec(&event.paths, DebouncedKind::Deleted, already_due_exec(now), w)
            }
        },
        WatchKind::RenameOther => md_upserts_exec(&event.paths, DebouncedKind::Deleted, already_due_exec(now), w),
        WatchKind::Modify => md_upserts_exec(&event.paths, DebouncedKind::Modified, now, w),
        WatchKind::Remove => md_upserts_exec(&event.paths, DebouncedKind::Deleted, now, w),
        WatchKind::Other => {
            let r: Vec<(String, DebouncedKind, u64)> = Vec::new();
            assert(upsert_views(r@) =~= Seq::<Pending>::empty());
            r
        },
    }
}

} // verus!

verus! {

// ---------------------------------------------------------------------------
// Ids of flushed entries
// ---------------------------------------------------------------------------

/// The vault id and parent id of a file below the `vaults/` directory,
/// under path rule `w` (the relative path is `/`-separated).
pub open spec fn ids_under_spec(vaults_root: Seq<char>, path: Seq<char>, w: bool) -> Option<(Seq<char>, Option<Seq<char>>)> {
    match crate::path::strip_prefix_spec(native_path(vaults_root, w), native_path(path, w)) {
        Some(rel) => vault_ids_spec(rel, false),
        None => None,
    }
}

/// Vault id and parent id of a file below `vaults_root`, under the
/// platform's path rules.
pub fn vault_ids_under(vaults_root: &str, path: &str) -> (r: Option<(String, Option<String>)>)
    ensures
        exists|w: bool| #[trigger] ids_match(r, ids_under_spec(vaults_root@, path@, w)),
{
    vault_ids_under_on(vaults_root, path, backslash_separates())
}

/// [`ids_under_spec`] under path rule `w`.
fn vault_ids_under_on(vaults_root: &str, path: &str, w: bool) -> (r: Option<(String, Option<String>)>)
    ensures
        ids_match(r, ids_under_spec(vaults_root@, path@, w)),
{
    let rc = native_chars(vaults_root, w);
    let pc = native_chars(path, w);
    match crate::path::strip_path_prefix(rc.as_slice(), pc.as_slice()) {
        Some(rel) => {
            let s = string_of(rel.as_slice());
            derive_vault_ids_on(s.as_str(), false)
        },
        None => None,
    }
}

/// The id published for a deleted vault file: the id its frontmatter gave
/// when it was last read, else the id its path gives, else its file stem,
/// else the whole path with forward slashes.
pub open spec fn deleted_id_spec(cached: Option<Seq<char>>, path_id: Option<Seq<char>>, path: Seq<char>, w: bool) -> Seq<char> {
    match cached {
        Some(c) => c,
        None => match path_id {
            Some(p) => p,
            None => match file_stem(native_path(path, w)) {
                Some(s) => s,
                None => forward_slashes(path),
            },
        },
    }
}

/// [`deleted_id_spec`].
pub fn deleted_vault_id(cached: Option<String>, path_id: Option<String>, path: &str) -> (r: String)
    ensures
        exists|w: bool| r@ == #[trigger] deleted_id_spec(crate::vault::opt_str(cached), crate::vault::opt_str(path_id), path@, w),
{
    let w = backslash_separates();
    let r = match cached {
        Some(c) => c,
        None => match path_id {
            Some(p) => p,
            None => {
                let pc = native_chars(path, w);
                match path_file_stem(pc.as_slice()) {
                    Some(s) => string_of(s.as_slice()),
                    None => normalize_path_str(path),
                }
            },
        },
    };
    assert(r@ == deleted_id_spec(crate::vault::opt_str(cached), crate::vault::opt_str(path_id), path@, w));
    r
}

/// The id published for a created or modified vault file whose
/// frontmatter could not be read: the id its path gives, else its file
/// stem, else `unknown`.
pub open spec fn fallback_id_spec(path_id: Option<Seq<char>>, path: Seq<char>, w: bool) -> Seq<char> {
    match path_id {
        Some(p) => p,
        None => match file_stem(native_path(path, w)) {
            Some(s) => s,
            None => "unknown"@,
        },
    }
}

/// [`fallback_id_spec`].
pub fn fallback_vault_id(path_id: Option<String>, path: &str) -> (r: String)
    ensures
        exists|w: bool| r@ == #[trigger] fallback_id_spec(crate::vault::opt_str(path_id), path@, w),
{
    let w = backslash_separates();
    let r = match path_id {
        Some(p) => p,
        None => {
            let pc = native_chars(path, w);
            match path_file_stem(pc.as_slice()) {
                Some(s) => string_of(s.as_slice()),
                None => "unknown".to_string(),
            }
        },
    };
    assert(r@ == fallback_id_spec(crate::vault::opt_str(path_id), path@, w));
    r
}

} // verus!

verus! {

// ---------------------------------------------------------------------------
// Laws
// ---------------------------------------------------------------------------

/// A burst collapses: two events for a path not yet pending leave a single
/// new entry for it, dated from the first event and carrying the second
/// event's kind; the other entries are untouched.
pub proof fn lemma_burst_collapses(
    s: Seq<Pending>,
    p: Seq<char>,
    k1: DebouncedKind,
    t1: u64,
    k2: DebouncedKind,
    t2: u64,
)
    requires
        index_of_path(s, p, 0) is None,
    ensures
        upsert_spec(upsert_spec(s, p, k1, t1), p, k2, t2) == s.push((p, k2, t1)),
{
    let s1 = s.push((p, k1, t1));
    lemma_index_of_path(s, p, 0);
    lemma_index_of_path(s1, p, 0);
    let i = index_of_path(s1, p, 0)->0;
    assert(s1[s.len() as int].0 == p);
    if i < s.len() {
        assert(s1[i] == s[i]);
    }
    assert(i == s.len());
    assert(s1.update(i, (p, k2, s1[i].2)) =~= s.push((p, k2, t1)));
}

/// Nothing that stays after a flush at `now` is due at `now`, and
/// everything flushed was.
pub proof fn lemma_flush_takes_exactly_the_due(s: Seq<Pending>, now: u64, window: u64)
    ensures
        forall|k: int| 0 <= k < waiting_upto(s, s.len() as int, now, window).len()
            ==> !is_due(#[trigger] waiting_upto(s, s.len() as int, now, window)[k], now, window),
        forall|k: int| 0 <= k < due_upto(s, s.len() as int, now, window).len()
            ==> is_due(#[trigger] due_upto(s, s.len() as int, now, window)[k], now, window),
        waiting_upto(s, s.len() as int, now, window).len() + due_upto(s, s.len() as int, now, window).len() == s.len(),
{
    lemma_partition(s, s.len() as int, now, window);
}

proof fn lemma_partition(s: Seq<Pending>, n: int, now: u64, window: u64)
    requires
        0 <= n <= s.len(),
    ensures
        forall|k: int| 0 <= k < waiting_upto(s, n, now, window).len()
            ==> !is_due(#[trigger] waiting_upto(s, n, now, window)[k], now, window),
        forall|k: int| 0 <= k < due_upto(s, n, now, window).len()
            ==> is_due(#[trigger] due_upto(s, n, now, window)[k], now, window),
        waiting_upto(s, n, now, window).len() + due_upto(s, n, now, window).len() == n,
    decreases n,
{
    if n > 0 {
        lemma_partition(s, n - 1, now, window);
        let w = waiting_upto(s, n - 1, now, window);
        let d = due_upto(s, n - 1, now, window);
        if is_due(s[n - 1], now, window) {
            assert forall|k: int| 0 <= k < d.push(s[n - 1]).len() implies is_due(#[trigger] d.push(s[n - 1])[k], now, window) by {
                if k < d.len() {
                    assert(d.push(s[n - 1])[k] == d[k]);
                }
            }
        } else {
            assert forall|k: int| 0 <= k < w.push(s[n - 1]).len() implies !is_due(#[trigger] w.push(s[n - 1])[k], now, window) by {
                if k < w.len() {
                    assert(w.push(s[n - 1])[k] == w[k]);
                }
            }
        }
    }
}

} // verus!

verus! {

// ---------------------------------------------------------------------------
// The boot walk
// ---------------------------------------------------------------------------

/// Deepest directory level below the vaults root that the boot walk enters.
pub const VAULT_WALK_MAX_DEPTH: u32 = 4;

/// What the boot walk does with one directory entry.
#[derive(Debug)]
pub enum WalkStep {
    /// Pass over it.
    Skip,
    /// Walk the directory, one level deeper.
    Descend,
    /// A vault file with these ids.
    Vault { vault_id: String, parent_id: Option<String> },
}

/// Whether the walk reads a directory at `depth` (the root is at 0).
pub fn walk_enters(depth: u32) -> (r: bool)
    ensures
        r == (depth <= VAULT_WALK_MAX_DEPTH),
{
    depth <= VAULT_WALK_MAX_DEPTH
}

/// What [`walk_step`] decides for an entry under path rule `w`.
pub open spec fn walk_step_spec(vaults_root: Seq<char>, path: Seq<char>, is_symlink: bool, is_dir: bool, r: WalkStep, w: bool) -> bool {
    &&& is_symlink ==> r is Skip
    &&& !is_symlink && is_dir ==> r is Descend
    &&& !is_symlink && !is_dir && !is_md_spec(path, w) ==> r is Skip
    &&& !is_symlink && !is_dir && is_md_spec(path, w) ==> match r {
        WalkStep::Vault { vault_id, parent_id } => ids_under_spec(vaults_root, path, w) == Some(
            (vault_id@, crate::vault::opt_str(parent_id)),
        ),
        WalkStep::Skip => ids_under_spec(vaults_root, path, w) is None,
        WalkStep::Descend => false,
    }
}

/// The step for an entry at `path` in a walk of `vaults_root`: symbolic
/// links are passed over, directories walked, and a `.md` file below the
/// root is a vault when its path gives it an id.
pub fn walk_step(vaults_root: &str, path: &str, is_symlink: bool, is_dir: bool) -> (r: WalkStep)
    ensures
        exists|w: bool| #[trigger] walk_step_spec(vaults_root@, path@, is_symlink, is_dir, r, w),
{
    let w = backslash_separates();
    let r = if is_symlink {
        WalkStep::Skip
    } else if is_dir {
        WalkStep::Descend
    } else if !is_md_on(path, w) {
        WalkStep::Skip
    } else {
        match vault_ids_under_on(vaults_root, path, w) {
            Some((vault_id, parent_id)) => WalkStep::Vault { vault_id, parent_id },
            None => WalkStep::Skip,
        }
    };
    assert(walk_step_spec(vaults_root@, path@, is_symlink, is_dir, r, w));
    r
}

/// The frontmatter fields a full `vault.update` carries.
#[derive(Clone, Debug)]
pub struct VaultFields {
    pub name: String,
    pub short_label: Option<String>,
    pub cross_refs: Vec<String>,
}

/// Payload of an `index` / `vault.update` envelope from the walker: the
/// full form when the frontmatter was read, the minimal one (no `fields`)
/// when it was not.
#[derive(Clone, Debug)]
pub struct VaultUpdateRecord {
    pub vault_id: String,
    pub parent_vault_id: Option<String>,
    /// Path of the file with forward slashes.
    pub path: String,
    pub change_kind: crate::index::VaultChangeKind,
    /// Modification time of the file (epoch ms), when it could be read.
    pub updated_ms: Option<u64>,
    pub fields: Option<VaultFields>,
}

/// The record of a vault file: its frontmatter's name, label and cross
/// references when `meta` was read.
pub fn vault_update_record(
    vault_id: String,
    parent_vault_id: Option<String>,
    path: &str,
    change_kind: crate::index::VaultChangeKind,
    updated_ms: Option<u64>,
    meta: Option<crate::vault::VaultMeta>,
) -> (r: VaultUpdateRecord)
    ensures
        r.vault_id == vault_id,
        r.parent_vault_id == parent_vault_id,
        r.path@ == forward_slashes(path@),
        r.change_kind == change_kind,
        r.updated_ms == updated_ms,
        match meta {
            Some(m) => r.fields matches Some(f) && f.name == m.name && f.short_label == m.short_label
                && f.cross_refs == m.cross_refs,
            None => r.fields is None,
        },
{
    let fields = match meta {
        Some(m) => Some(VaultFields { name: m.name, short_label: m.short_label, cross_refs: m.cross_refs }),
        None => None,
    };
    VaultUpdateRecord {
        vault_id,
        parent_vault_id,
        path: normalize_path_str(path),
        change_kind,
        updated_ms,
        fields,
    }
}

/// The enrichment a vault gives the open project: when the vault names a
/// repository whose canonical path (forward slashes, no trailing slash)
/// is the project root, the project root receives the vault's id and type.
pub fn project_enrichment(meta: &crate::vault::VaultMeta, canon_repo: &str, project_root: &str) -> (r: Option<crate::index::IndexEnrichmentPayload>)
    ensures
        match r {
            Some(p) => trim_trailing(forward_slashes(canon_repo@), '/') == project_root@ && p.fs_path@
                == forward_slashes(project_root@) && p.vault_id@ == meta.id@ && p.vault_kind@
                == meta.vault_type@ && p.tags@.len() == 0,
            None => trim_trailing(forward_slashes(canon_repo@), '/') != project_root@,
        },
{
    let c = crate::vault::normalize_canon_str(canon_repo);
    let a = chars_of(c.as_str());
    let b = chars_of(project_root);
    if crate::text::chars_eq(a.as_slice(), b.as_slice()) {
        Some(crate::index::index_enrichment_payload(project_root, meta.id.as_str(), meta.vault_type.as_str(), Vec::new()))
    } else {
        None
    }
}

} // verus!
