//! Filesystem watch events: which raw watcher events become which `fs`
//! envelopes, with paths made relative to the watched root and filtered by
//! the ignore globs.
use vstd::prelude::*;
use crate::path::{backslash_separates, native_chars, native_path, strip_path_prefix, strip_prefix_spec};
use crate::text::{chars_of, string_of};
use crate::vault::{forward_slashes, normalize_path_str};

verus! {

/// The typed `fs` events published on the bus. Paths are relative to the
/// watched root, with forward slashes.
#[derive(Debug, Clone)]
pub enum FsEvent {
    Create { path: String },
    Write { path: String },
    Delete { path: String },
    Rename { from: String, to: String },
}

/// [`FsEvent`] with its paths as character sequences.
pub enum FsEventSpec {
    Create(Seq<char>),
    Write(Seq<char>),
    Delete(Seq<char>),
    Rename(Seq<char>, Seq<char>),
}

impl View for FsEvent {
    type V = FsEventSpec;

    open spec fn view(&self) -> FsEventSpec {
        match self {
            FsEvent::Create { path } => FsEventSpec::Create(path@),
            FsEvent::Write { path } => FsEventSpec::Write(path@),
            FsEvent::Delete { path } => FsEventSpec::Delete(path@),
            FsEvent::Rename { from, to } => FsEventSpec::Rename(from@, to@),
        }
    }
}

/// Replace backslashes with forward slashes.
pub fn normalize_path(raw: &str) -> (r: String)
    ensures
        r@ == forward_slashes(raw@),
{
    normalize_path_str(raw)
}

/// `full` relative to `root` (by whole components), with forward slashes;
/// `None` when `full` is not under `root`. Where `backslash_separates`
/// (Windows), `\` separates components too.
pub open spec fn relative_spec(root: Seq<char>, full: Seq<char>, backslash_separates: bool) -> Option<Seq<char>> {
    match strip_prefix_spec(native_path(root, backslash_separates), native_path(full, backslash_separates)) {
        Some(r) => Some(forward_slashes(r)),
        None => None,
    }
}

/// [`relative_spec`] under the given path rules.
fn relative_path_on(root: &str, full: &str, backslash_separates: bool) -> (r: Option<String>)
    ensures
        crate::vault::opt_str(r) == relative_spec(root@, full@, backslash_separates),
{
    let rc = native_chars(root, backslash_separates);
    let fc = native_chars(full, backslash_separates);
    match strip_path_prefix(rc.as_slice(), fc.as_slice()) {
        Some(t) => {
            let s = string_of(t.as_slice());
            Some(normalize_path(s.as_str()))
        },
        None => None,
    }
}

/// `full` relative to `root`, with forward slashes, under the platform's
/// path rules.
pub fn relative_path(root: &str, full: &str) -> (r: Option<String>)
    ensures
        exists|backslash_separates: bool|
            crate::vault::opt_str(r) == #[trigger] relative_spec(root@, full@, backslash_separates),
{
    relative_path_on(root, full, backslash_separates())
}

// ---------------------------------------------------------------------------
// Ignore globs
// ---------------------------------------------------------------------------

#[verifier::external_type_specification]
#[verifier::external_body]
pub struct ExGlobError(globset::Error);

#[verifier::external_type_specification]
#[verifier::external_body]
pub struct ExGlob(globset::Glob);

#[verifier::external_type_specification]
#[verifier::external_body]
pub struct ExGlobSet(globset::GlobSet);

/// Whether `globset::Glob::new` accepts the pattern, on a platform where
/// `\` is (`backslash_separates`) or is not a path separator: globset reads
/// `\` as an escape where it is not one, and as `/` where it is.
pub uninterp spec fn glob_valid(pattern: Seq<char>, backslash_separates: bool) -> bool;

/// Whether the glob compiled from `pattern` matches the `/`-separated path,
/// on a platform where `\` is or is not a path separator.
pub uninterp spec fn glob_matches(pattern: Seq<char>, path: Seq<char>, backslash_separates: bool) -> bool;

/// The pattern a compiled `Glob` was made from.
pub uninterp spec fn glob_pattern(g: globset::Glob) -> Seq<char>;

/// The patterns of the globs a `GlobSet` was built from, in order.
pub uninterp spec fn globset_patterns(s: globset::GlobSet) -> Seq<Seq<char>>;

/// Calls `globset::Glob::new`, and reports with it the platform rule the
/// crate parsed under (`std::path::is_separator('\\')`): `Ok` exactly for
/// the patterns [`glob_valid`] on that platform, holding a glob of that
/// pattern, with the crate's error otherwise.
#[verifier::external_body]
fn glob_new(pattern: &str) -> (r: (Result<globset::Glob, globset::Error>, bool))
    ensures
        r.0 is Ok <==> glob_valid(pattern@, r.1),
        r.0 matches Ok(g) ==> glob_pattern(g) == pattern@,
{
    (globset::Glob::new(pattern), std::path::is_separator('\\'))
}

/// Calls `globset::GlobSet::new` on compiled globs: a set of exactly those
/// globs, in order, when it builds; the crate's error otherwise (the
/// source builds the set's matchers, which can exceed the regex size limit).
#[verifier::external_body]
fn globset_new(globs: &Vec<globset::Glob>) -> (r: Result<globset::GlobSet, globset::Error>)
    ensures
        r matches Ok(s) ==> globset_patterns(s) == globs@.map_values(|g: globset::Glob| glob_pattern(g)),
{
    globset::GlobSet::new(globs.iter())
}

/// Calls `GlobSet::is_match`, which holds when any glob of the set matches
/// the path, for a path without backslashes, and reports with it the
/// platform rule (`std::path::is_separator('\\')`) the globs were read under.
#[verifier::external_body]
fn globset_is_match(set: &globset::GlobSet, path: &str) -> (r: (bool, bool))
    requires
        forall|i: int| 0 <= i < path@.len() ==> path@[i] != '\\',
    ensures
        r.0 == (exists|i: int| 0 <= i < globset_patterns(*set).len() && glob_matches(#[trigger] globset_patterns(*set)[i], path@, r.1)),
{
    (set.is_match(path), std::path::is_separator('\\'))
}

/// A compiled set of ignore globs.
pub struct IgnoreGlobs {
    patterns: Vec<String>,
    set: globset::GlobSet,
}

impl IgnoreGlobs {
    /// The patterns of the set.
    pub closed spec fn patterns(&self) -> Seq<Seq<char>> {
        crate::vault::strs(self.patterns)
    }

    #[verifier::type_invariant]
    spec fn set_of_patterns(&self) -> bool {
        globset_patterns(self.set) == crate::vault::strs(self.patterns)
    }
}

/// A pattern `Glob::new` refused, with the crate's error; the pattern is
/// empty when every glob compiled but the set could not be built.
#[derive(Debug)]
pub struct GlobError {
    pub pattern: String,
    pub source: globset::Error,
}

/// Whether any of `patterns` matches `path` (`GlobSet::is_match`) under the
/// given platform rule.
pub open spec fn ignored(patterns: Seq<Seq<char>>, path: Seq<char>, backslash_separates: bool) -> bool {
    exists|i: int| 0 <= i < patterns.len() && glob_matches(#[trigger] patterns[i], path, backslash_separates)
}

/// Whether `glob_valid` holds of the pattern under some platform rule.
pub open spec fn glob_valid_somewhere(pattern: Seq<char>) -> bool {
    exists|w: bool| #[trigger] glob_valid(pattern, w)
}

/// Whether `glob_valid` fails of the pattern under some platform rule.
pub open spec fn glob_invalid_somewhere(pattern: Seq<char>) -> bool {
    exists|w: bool| !#[trigger] glob_valid(pattern, w)
}

/// Compile the ignore patterns into one set; the first invalid one is
/// reported.
pub fn compile_globs(patterns: &Vec<String>) -> (r: Result<IgnoreGlobs, GlobError>)
    ensures
        match r {
            Ok(g) => g.patterns() == crate::vault::strs(*patterns),
            Err(e) => (exists|i: int| 0 <= i < patterns@.len() && (#[trigger] patterns@[i])@ == e.pattern@
                && glob_invalid_somewhere(e.pattern@)
                && forall|k: int| 0 <= k < i ==> glob_valid_somewhere(#[trigger] patterns@[k]@))
                || (e.pattern@.len() == 0 && forall|k: int| 0 <= k < patterns@.len() ==> glob_valid_somewhere(#[trigger] patterns@[k]@)),
        },
        (exists|i: int| 0 <= i < patterns@.len() && !glob_valid_somewhere(#[trigger] patterns@[i]@)) ==> r is Err,
{
    let mut globs: Vec<globset::Glob> = Vec::new();
    let mut kept: Vec<String> = Vec::new();
    let mut i: usize = 0;
    while i < patterns.len()
        invariant
            i <= patterns.len(),
            kept@.len() == i,
            globs@.len() == i,
            forall|k: int| 0 <= k < i ==> (#[trigger] kept@[k])@ == patterns@[k]@,
            forall|k: int| 0 <= k < i ==> glob_pattern(#[trigger] globs@[k]) == patterns@[k]@,
            forall|k: int| 0 <= k < i ==> glob_valid_somewhere(#[trigger] patterns@[k]@),
        decreases patterns.len() - i,
    {
        let (res, w) = glob_new(patterns[i].as_str());
        match res {
            Ok(g) => {
                assert(glob_valid(patterns@[i as int]@, w));
                assert(glob_valid_somewhere(patterns@[i as int]@));
                globs.push(g);
                kept.push(patterns[i].clone());
            },
            Err(source) => {
                assert(!glob_valid(patterns@[i as int]@, w));
                assert(glob_invalid_somewhere(patterns@[i as int]@));
                return Err(GlobError { pattern: patterns[i].clone(), source });
            },
        }
        i += 1;
    }
    match globset_new(&globs) {
        Ok(set) => {
            assert(globs@.map_values(|g: globset::Glob| glob_pattern(g)) =~= crate::vault::strs(kept));
            let g = IgnoreGlobs { patterns: kept, set };
            assert(g.patterns() =~= crate::vault::strs(*patterns));
            Ok(g)
        },
        Err(source) => Err(GlobError { pattern: String::new(), source }),
    }
}

/// [`should_publish`], with the platform rule the globs were read under.
fn publish_check(rel_path: &str, globs: &IgnoreGlobs) -> (r: (bool, Ghost<bool>))
    requires
        forall|i: int| 0 <= i < rel_path@.len() ==> rel_path@[i] != '\\',
    ensures
        r.0 == !ignored(globs.patterns(), rel_path@, r.1@),
{
    proof {
        use_type_invariant(globs);
    }
    let (m, w) = globset_is_match(&globs.set, rel_path);
    (!m, Ghost(w))
}

/// Whether an event at `rel_path` (relative, forward slashes) is published:
/// only when no ignore glob matches it, under the platform's glob rules.
pub fn should_publish(rel_path: &str, globs: &IgnoreGlobs) -> (r: bool)
    requires
        forall|i: int| 0 <= i < rel_path@.len() ==> rel_path@[i] != '\\',
    ensures
        exists|w: bool| r == !ignored(globs.patterns(), rel_path@, w),
{
    let (r, w) = publish_check(rel_path, globs);
    assert(r == !ignored(globs.patterns(), rel_path@, w@));
    r
}

} // verus!

verus! {

// ---------------------------------------------------------------------------
// Dispatch
// ---------------------------------------------------------------------------

/// What a raw watcher event reports.
#[derive(Debug, Clone, Copy, PartialEq, Eq, Structural)]
pub enum WatchKind {
    /// A file or directory appeared.
    Create,
    /// A rename with both sides known (`[from, to]`).
    RenameBoth,
    /// A rename with one side known.
    RenameOther,
    /// Any other modification.
    Modify,
    /// A file or directory went away.
    Remove,
    /// Access and other events, which are not published.
    Other,
}

/// A raw watcher event: its kind and the absolute paths it names.
#[derive(Debug, Clone)]
pub struct WatchEvent {
    pub kind: WatchKind,
    pub paths: Vec<String>,
}

/// Which event each published path becomes.
pub enum PathEventKind {
    Create,
    Write,
    Delete,
}

pub open spec fn path_event(k: PathEventKind, p: Seq<char>) -> FsEventSpec {
    match k {
        PathEventKind::Create => FsEventSpec::Create(p),
        PathEventKind::Write => FsEventSpec::Write(p),
        PathEventKind::Delete => FsEventSpec::Delete(p),
    }
}

/// The relative path of `p` when it is under `root` and not ignored, under
/// the platform rules `wp` (paths) and `wg` (globs).
pub open spec fn published(root: Seq<char>, pats: Seq<Seq<char>>, p: Seq<char>, wp: bool, wg: bool) -> Option<Seq<char>> {
    match relative_spec(root, p, wp) {
        Some(r) => if !ignored(pats, r, wg) {
            Some(r)
        } else {
            None
        },
        None => None,
    }
}

/// One event of kind `k` per published path among the first `n`, in order;
/// `wg[i]` is the glob rule the `i`-th path was checked under.
pub open spec fn per_path(
    root: Seq<char>,
    pats: Seq<Seq<char>>,
    paths: Seq<Seq<char>>,
    n: int,
    k: PathEventKind,
    wp: bool,
    wg: Seq<bool>,
) -> Seq<FsEventSpec>
    decreases n,
{
    if n <= 0 || n > paths.len() {
        Seq::empty()
    } else {
        let prev = per_path(root, pats, paths, n - 1, k, wp, wg);
        match published(root, pats, paths[n - 1], wp, wg[n - 1]) {
            Some(r) => prev.push(path_event(k, r)),
            None => prev,
        }
    }
}

/// `per_path` over the first `n` paths reads only the first `n` glob rules.
proof fn lemma_per_path_prefix(
    root: Seq<char>,
    pats: Seq<Seq<char>>,
    paths: Seq<Seq<char>>,
    n: int,
    k: PathEventKind,
    wp: bool,
    wg1: Seq<bool>,
    wg2: Seq<bool>,
)
    requires
        forall|j: int| 0 <= j < n ==> wg1[j] == wg2[j],
    ensures
        per_path(root, pats, paths, n, k, wp, wg1) == per_path(root, pats, paths, n, k, wp, wg2),
    decreases n,
{
    if n > 0 && n <= paths.len() {
        lemma_per_path_prefix(root, pats, paths, n - 1, k, wp, wg1, wg2);
    }
}

/// The `fs` events a watcher event becomes: creations, writes and removals
/// per published path; a complete rename becomes one rename when both sides
/// are under the root and neither is ignored; a rename with one side known
/// becomes a deletion of each published path. `wp` is the platform's path
/// rule and `wg[i]` the glob rule the `i`-th path was checked under.
pub open spec fn dispatch_spec(
    root: Seq<char>,
    pats: Seq<Seq<char>>,
    kind: WatchKind,
    paths: Seq<Seq<char>>,
    wp: bool,
    wg: Seq<bool>,
) -> Seq<FsEventSpec> {
    match kind {
        WatchKind::Create => per_path(root, pats, paths, paths.len() as int, PathEventKind::Create, wp, wg),
        WatchKind::RenameBoth => if paths.len() >= 2 {
            match (relative_spec(root, paths[0], wp), relative_spec(root, paths[1], wp)) {
                (Some(f), Some(t)) => if !ignored(pats, f, wg[0]) && !ignored(pats, t, wg[1]) {
                    seq![FsEventSpec::Rename(f, t)]
                } else {
                    Seq::empty()
                },
                _ => Seq::empty(),
            }
        } else {
            per_path(root, pats, paths, paths.len() as int, PathEventKind::Delete, wp, wg)
        },
        WatchKind::RenameOther => per_path(root, pats, paths, paths.len() as int, PathEventKind::Delete, wp, wg),
        WatchKind::Modify => per_path(root, pats, paths, paths.len() as int, PathEventKind::Write, wp, wg),
        WatchKind::Remove => per_path(root, pats, paths, paths.len() as int, PathEventKind::Delete, wp, wg),
        WatchKind::Other => Seq::empty(),
    }
}

pub open spec fn fs_views(v: Seq<FsEvent>) -> Seq<FsEventSpec> {
    v.map_values(|e: FsEvent| e@)
}

proof fn lemma_forward_slashes_clean(s: Seq<char>)
    ensures
        forall|i: int| 0 <= i < forward_slashes(s).len() ==> forward_slashes(s)[i] != '\\',
{
}

fn make_path_event(k: &PathEventKind, path: String) -> (e: FsEvent)
    ensures
        e@ == path_event(*k, path@),
{
    match k {
        PathEventKind::Create => FsEvent::Create { path },
        PathEventKind::Write => FsEvent::Write { path },
        PathEventKind::Delete => FsEvent::Delete { path },
    }
}

/// One event of kind `k` per published path, with the glob rule each path
/// was checked under.
fn events_per_path(root: &str, globs: &IgnoreGlobs, paths: &Vec<String>, k: PathEventKind, wp: bool) -> (r: (Vec<FsEvent>, Ghost<Seq<bool>>))
    ensures
        r.1@.len() == paths@.len(),
        fs_views(r.0@) == per_path(root@, globs.patterns(), crate::vault::strs(*paths), paths@.len() as int, k, wp, r.1@),
{
    let ghost pv = crate::vault::strs(*paths);
    let mut r: Vec<FsEvent> = Vec::new();
    let ghost mut wg: Seq<bool> = Seq::empty();
    let mut i: usize = 0;
    assert(fs_views(r@) =~= per_path(root@, globs.patterns(), pv, 0, k, wp, wg));
    while i < paths.len()
        invariant
            i <= paths.len(),
            pv == crate::vault::strs(*paths),
            wg.len() == i,
            fs_views(r@) == per_path(root@, globs.patterns(), pv, i as int, k, wp, wg),
        decreases paths.len() - i,
    {
        assert(pv[i as int] == paths@[i as int]@);
        let ghost before = fs_views(r@);
        let ghost mut b: bool = false;
        match relative_path_on(root, paths[i].as_str(), wp) {
            Some(rel) => {
                proof {
                    lemma_forward_slashes_clean(strip_prefix_spec(native_path(root@, wp), native_path(paths@[i as int]@, wp))->0);
                }
                let (ok, w) = publish_check(rel.as_str(), globs);
                proof {
                    b = w@;
                }
                if ok {
                    let ghost rv = rel@;
                    r.push(make_path_event(&k, rel));
                    assert(fs_views(r@) =~= before.push(path_event(k, rv)));
                }
            },
            None => {},
        }
        proof {
            lemma_per_path_prefix(root@, globs.patterns(), pv, i as int, k, wp, wg, wg.push(b));
            wg = wg.push(b);
        }
        i += 1;
    }
    (r, Ghost(wg))
}

/// The `fs` events a watcher event becomes ([`dispatch_spec`]) under the
/// platform's path and glob rules.
pub fn dispatch_fs_event(root: &str, globs: &IgnoreGlobs, event: &WatchEvent) -> (r: Vec<FsEvent>)
    ensures
        exists|wp: bool, wg: Seq<bool>|
            wg.len() == event.paths@.len() && fs_views(r@) == #[trigger] dispatch_spec(
                root@,
                globs.patterns(),
                event.kind,
                crate::vault::strs(event.paths),
                wp,
                wg,
            ),
{
    let ghost pv = crate::vault::strs(event.paths);
    let wp = backslash_separates();
    let (r, wg) = match event.kind {
        WatchKind::Create => events_per_path(root, globs, &event.paths, PathEventKind::Create, wp),
        WatchKind::RenameBoth => {
            if event.paths.len() >= 2 {
                assert(pv[0] == event.paths@[0]@ && pv[1] == event.paths@[1]@);
                let from = relative_path_on(root, event.paths[0].as_str(), wp);
                let to = relative_path_on(root, event.paths[1].as_str(), wp);
                let mut r: Vec<FsEvent> = Vec::new();
                let ghost mut b0: bool = false;
                let ghost mut b1: bool = false;
                match (from, to) {
                    (Some(f), Some(t)) => {
                        proof {
                            lemma_forward_slashes_clean(strip_prefix_spec(native_path(root@, wp), native_path(pv[0], wp))->0);
                            lemma_forward_slashes_clean(strip_prefix_spec(native_path(root@, wp), native_path(pv[1], wp))->0);
                        }
                        let (okf, wf) = publish_check(f.as_str(), globs);
                        proof {
                            b0 = wf@;
                        }
                        let okt = if okf {
                            let (o, wt) = publish_check(t.as_str(), globs);
                            proof {
                                b1 = wt@;
                            }
                            o
                        } else {
                            false
                        };
                        if okf && okt {
                            let ghost fv = f@;
                            let ghost tv = t@;
                            r.push(FsEvent::Rename { from: f, to: t });
                            assert(fs_views(r@) =~= seq![FsEventSpec::Rename(fv, tv)]);
                        } else {
                            assert(fs_views(r@) =~= Seq::<FsEventSpec>::empty());
                        }
                    },
                    _ => {
                        assert(fs_views(r@) =~= Seq::<FsEventSpec>::empty());
                    },
                }
                let ghost wg = seq![b0, b1] + Seq::new((pv.len() - 2) as nat, |j: int| false);
                assert(wg[0] == b0 && wg[1] == b1);
                (r, Ghost(wg))
            } else {
                events_per_path(root, globs, &event.paths, PathEventKind::Delete, wp)
            }
        },
        WatchKind::RenameOther => events_per_path(root, globs, &event.paths, PathEventKind::Delete, wp),
        WatchKind::Modify => events_per_path(root, globs, &event.paths, PathEventKind::Write, wp),
        WatchKind::Remove => events_per_path(root, globs, &event.paths, PathEventKind::Delete, wp),
        WatchKind::Other => {
            let r: Vec<FsEvent> = Vec::new();
            assert(fs_views(r@) =~= Seq::<FsEventSpec>::empty());
            let ghost wg = Seq::new(pv.len(), |j: int| false);
            (r, Ghost(wg))
        },
    };
    assert(fs_views(r@) == dispatch_spec(root@, globs.patterns(), event.kind, pv, wp, wg@));
    r
}

} // verus!
