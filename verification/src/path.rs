//! Path text helpers. Paths are modelled with `/` as the separator; where
//! the platform also separates components with `\` (Windows), a path is
//! first read with its backslashes as slashes ([`native_path`]).
use vstd::prelude::*;
use crate::frontmatter::{char_views, split_pieces};
use crate::lane::{find_char, index_of_from, lemma_index_of_from};
use crate::text::{chars_eq_str, chars_of, sub_chars};

verus! {

/// A path text as the platform's path rules read it: where
/// `backslash_separates` (Windows), `\` separates components as `/` does,
/// so it is read as `/`.
pub open spec fn native_path(s: Seq<char>, backslash_separates: bool) -> Seq<char> {
    if backslash_separates {
        crate::vault::forward_slashes(s)
    } else {
        s
    }
}

/// `std::path::MAIN_SEPARATOR`: `\` on Windows, `/` elsewhere. Which
/// platform the code runs on is the machine's; nothing is stated of it.
#[verifier::external_body]
fn main_separator() -> char {
    std::path::MAIN_SEPARATOR
}

/// Whether the platform separates path components with `\` as well as `/`
/// (its main separator is `\`).
pub(crate) fn backslash_separates() -> bool {
    main_separator() == '\\'
}

/// The characters of `s` as the platform's path rules read it.
pub fn native_chars(s: &str, backslash_separates: bool) -> (r: Vec<char>)
    ensures
        r@ == native_path(s@, backslash_separates),
{
    if backslash_separates {
        let n = crate::vault::normalize_path_str(s);
        chars_of(n.as_str())
    } else {
        chars_of(s)
    }
}

/// `s` without its trailing `/` characters.
pub open spec fn trim_trailing_slashes(s: Seq<char>) -> Seq<char>
    decreases s.len(),
{
    if s.len() > 0 && s.last() == '/' {
        trim_trailing_slashes(s.drop_last())
    } else {
        s
    }
}

/// Last index `< to` at which `s` holds `c`.
pub open spec fn last_index_before(s: Seq<char>, c: char, to: int) -> Option<int>
    decreases to,
{
    if to <= 0 || to > s.len() {
        None
    } else if s[to - 1] == c {
        Some(to - 1)
    } else {
        last_index_before(s, c, to - 1)
    }
}

/// `last_index_before` finds the last `c` before `to`, or reports that there
/// is none.
pub proof fn lemma_last_index_before(s: Seq<char>, c: char, to: int)
    ensures
        last_index_before(s, c, to) matches Some(i) ==> 0 <= i < to <= s.len() && s[i] == c
            && forall|k: int| i < k < to ==> s[k] != c,
        last_index_before(s, c, to) is None ==> forall|k: int| 0 <= k < to <= s.len() ==> s[k] != c,
    decreases to,
{
    if 0 < to <= s.len() && s[to - 1] != c {
        lemma_last_index_before(s, c, to - 1);
    }
}

/// Whether a piece between separators is a normal component (not empty,
/// not `.`).
pub open spec fn is_normal_piece(p: Seq<char>) -> bool {
    p.len() > 0 && p != "."@
}

/// The normal pieces among the first `n` of `ps`, in order.
pub open spec fn normal_pieces(ps: Seq<Seq<char>>, n: int) -> Seq<Seq<char>>
    decreases n,
{
    if n <= 0 || n > ps.len() {
        Seq::empty()
    } else if is_normal_piece(ps[n - 1]) {
        normal_pieces(ps, n - 1).push(ps[n - 1])
    } else {
        normal_pieces(ps, n - 1)
    }
}

/// The components of a `/`-separated path, as `Path::components` gives
/// them on Unix: `/` for a leading root, `.` for a leading current-directory
/// piece, then the pieces between separators that are neither empty nor `.`
/// (so repeated and trailing separators, and inner `.`, vanish).
pub open spec fn components(s: Seq<char>) -> Seq<Seq<char>> {
    let ps = split_pieces(s, '/', 0);
    let rest = ps.drop_first();
    if s.len() > 0 && s[0] == '/' {
        seq!["/"@] + normal_pieces(rest, rest.len() as int)
    } else if ps.len() > 0 && ps[0] == "."@ {
        seq!["."@] + normal_pieces(rest, rest.len() as int)
    } else {
        normal_pieces(ps, ps.len() as int)
    }
}

/// Final component of a path when it is a normal one (`Path::file_name`):
/// `None` for an empty path, a root, `.` or `..`.
pub open spec fn file_name(path: Seq<char>) -> Option<Seq<char>> {
    let c = components(path);
    if c.len() > 0 && c.last() != "/"@ && c.last() != "."@ && c.last() != ".."@ {
        Some(c.last())
    } else {
        None
    }
}

/// File name without its extension: the part before the last `.`, unless
/// that dot is the name's first character or there is none.
pub open spec fn file_stem(path: Seq<char>) -> Option<Seq<char>> {
    match file_name(path) {
        Some(name) => match last_index_before(name, '.', name.len() as int) {
            Some(i) => if i == 0 { Some(name) } else { Some(name.subrange(0, i)) },
            None => Some(name),
        },
        None => None,
    }
}

fn last_index(s: &[char], c: char, to: usize) -> (r: Option<usize>)
    requires
        to <= s.len(),
    ensures
        match r {
            Some(i) => last_index_before(s@, c, to as int) == Some(i as int),
            None => last_index_before(s@, c, to as int) is None,
        },
{
    let mut j = to;
    while j > 0
        invariant
            j <= to <= s.len(),
            last_index_before(s@, c, to as int) == last_index_before(s@, c, j as int),
        decreases j,
    {
        if s[j - 1] == c {
            return Some(j - 1);
        }
        j -= 1;
    }
    None
}

/// The pieces of `s` between occurrences of `c` (`str::split`).
pub fn split_plain(s: &[char], c: char) -> (r: Vec<Vec<char>>)
    ensures
        char_views(r@) == split_pieces(s@, c, 0),
{
    let mut r: Vec<Vec<char>> = Vec::new();
    let mut i: usize = 0;
    assert(char_views(r@) + split_pieces(s@, c, 0) =~= split_pieces(s@, c, 0));
    loop
        invariant
            i <= s.len(),
            char_views(r@) + split_pieces(s@, c, i as int) == split_pieces(s@, c, 0),
        decreases s.len() - i,
    {
        proof {
            lemma_index_of_from(s@, c, i as int);
        }
        let ghost before = char_views(r@);
        match find_char(s, c, i) {
            Some(k) => {
                let piece = sub_chars(s, i, k);
                r.push(piece);
                proof {
                    assert(char_views(r@) =~= before.push(piece@));
                    assert(char_views(r@) + split_pieces(s@, c, k + 1) =~= before + split_pieces(s@, c, i as int));
                }
                i = k + 1;
            },
            None => {
                let piece = sub_chars(s, i, s.len());
                r.push(piece);
                proof {
                    assert(char_views(r@) =~= before.push(piece@));
                    assert(char_views(r@) =~= before + split_pieces(s@, c, i as int));
                }
                return r;
            },
        }
    }
}

/// The components of a path ([`components`]).
pub fn path_components(s: &[char]) -> (r: Vec<Vec<char>>)
    ensures
        char_views(r@) == components(s@),
{
    let ps = split_plain(s, '/');
    let ghost pv = char_views(ps@);
    let mut out: Vec<Vec<char>> = Vec::new();
    let mut start: usize = 0;
    proof {
        reveal_strlit("/");
        reveal_strlit(".");
    }
    if s.len() > 0 && s[0] == '/' {
        out.push(chars_of("/"));
        start = 1;
    } else if ps.len() > 0 && chars_eq_str(ps[0].as_slice(), ".") {
        assert(pv[0] == ps@[0]@);
        out.push(chars_of("."));
        start = 1;
    } else if ps.len() > 0 {
        assert(pv[0] == ps@[0]@);
    }
    let ghost head = char_views(out@);
    let ghost base = if start == 1 { pv.drop_first() } else { pv };
    assert(split_pieces(s@, '/', 0).len() > 0) by {
        lemma_index_of_from(s@, '/', 0);
    }
    assert(char_views(out@) =~= head + normal_pieces(base, 0));
    let mut j: usize = start;
    while j < ps.len()
        invariant
            start <= j <= ps.len(),
            start <= 1,
            pv == char_views(ps@),
            base == (if start == 1 { pv.drop_first() } else { pv }),
            char_views(out@) == head + normal_pieces(base, j - start),
        decreases ps.len() - j,
    {
        assert(base[j - start] == ps@[j as int]@);
        let ghost before = char_views(out@);
        if ps[j].len() > 0 && !chars_eq_str(ps[j].as_slice(), ".") {
            out.push(copy_chars(ps[j].as_slice()));
            assert(char_views(out@) =~= before.push(ps@[j as int]@));
        }
        j += 1;
    }
    out
}

/// A copy of `v`.
pub fn copy_chars(v: &[char]) -> (r: Vec<char>)
    ensures
        r@ == v@,
{
    let r = sub_chars(v, 0, v.len());
    assert(v@.subrange(0, v.len() as int) =~= v@);
    r
}

/// [`file_name`] of a path text.
pub fn path_file_name(path: &[char]) -> (r: Option<Vec<char>>)
    ensures
        match r {
            Some(n) => file_name(path@) == Some(n@),
            None => file_name(path@) is None,
        },
{
    let c = path_components(path);
    let ghost cv = char_views(c@);
    if c.len() == 0 {
        return None;
    }
    let last = &c[c.len() - 1];
    assert(cv.last() == last@);
    if chars_eq_str(last.as_slice(), "/") || chars_eq_str(last.as_slice(), ".") || chars_eq_str(last.as_slice(), "..") {
        None
    } else {
        Some(copy_chars(last.as_slice()))
    }
}

/// [`file_stem`] of a path text.
pub fn path_file_stem(path: &[char]) -> (r: Option<Vec<char>>)
    ensures
        match r {
            Some(n) => file_stem(path@) == Some(n@),
            None => file_stem(path@) is None,
        },
{
    match path_file_name(path) {
        Some(name) => {
            proof {
                lemma_last_index_before(name@, '.', name@.len() as int);
            }
            match last_index(name.as_slice(), '.', name.len()) {
                Some(i) => if i == 0 {
                    Some(name)
                } else {
                    Some(sub_chars(name.as_slice(), 0, i))
                },
                None => Some(name),
            }
        },
        None => None,
    }
}

} // verus!

verus! {

/// Components joined by `/`.
pub open spec fn join_rest(c: Seq<Seq<char>>) -> Seq<char>
    decreases c.len(),
{
    if c.len() == 0 {
        Seq::empty()
    } else if c.len() == 1 {
        c[0]
    } else {
        join_rest(c.drop_last()) + "/"@ + c.last()
    }
}

/// The path text of a component list: a leading root gives the leading
/// `/`, the rest are joined by `/`.
pub open spec fn join_components(c: Seq<Seq<char>>) -> Seq<char> {
    if c.len() > 0 && c[0] == "/"@ {
        "/"@ + join_rest(c.drop_first())
    } else {
        join_rest(c)
    }
}

/// `Path::strip_prefix` on `/`-separated paths: the rest of `full` after
/// the components of `base`, when those are a prefix of its components.
pub open spec fn strip_prefix_spec(base: Seq<char>, full: Seq<char>) -> Option<Seq<char>> {
    let bc = components(base);
    let fc = components(full);
    if bc.len() <= fc.len() && fc.subrange(0, bc.len() as int) == bc {
        Some(join_components(fc.subrange(bc.len() as int, fc.len() as int)))
    } else {
        None
    }
}

fn join_from(c: &Vec<Vec<char>>, from: usize) -> (r: Vec<char>)
    requires
        from <= c.len(),
    ensures
        r@ == join_rest(char_views(c@).subrange(from as int, c@.len() as int)),
{
    let ghost cv = char_views(c@);
    let mut r: Vec<char> = Vec::new();
    let mut j = from;
    assert(cv.subrange(from as int, from as int) =~= Seq::<Seq<char>>::empty());
    while j < c.len()
        invariant
            from <= j <= c.len(),
            cv == char_views(c@),
            r@ == join_rest(cv.subrange(from as int, j as int)),
        decreases c.len() - j,
    {
        let ghost before = r@;
        assert(cv[j as int] == c@[j as int]@);
        assert(cv.subrange(from as int, j + 1).drop_last() =~= cv.subrange(from as int, j as int));
        if j > from {
            r.push('/');
        }
        let piece = c[j].as_slice();
        let mut k: usize = 0;
        let ghost mid = r@;
        while k < piece.len()
            invariant
                k <= piece.len(),
                r@ == mid + piece@.subrange(0, k as int),
            decreases piece.len() - k,
        {
            r.push(piece[k]);
            k += 1;
            assert(r@ =~= mid + piece@.subrange(0, k as int));
        }
        assert(piece@.subrange(0, piece@.len() as int) =~= piece@);
        proof {
            reveal_strlit("/");
            if j > from {
                assert(r@ =~= before + "/"@ + cv[j as int]);
            } else {
                assert(r@ =~= cv[j as int]);
            }
        }
        j += 1;
    }
    r
}

/// [`strip_prefix_spec`] of two path texts.
pub fn strip_path_prefix(base: &[char], full: &[char]) -> (r: Option<Vec<char>>)
    ensures
        match r {
            Some(t) => strip_prefix_spec(base@, full@) == Some(t@),
            None => strip_prefix_spec(base@, full@) is None,
        },
{
    let bc = path_components(base);
    let fc = path_components(full);
    let ghost bv = char_views(bc@);
    let ghost fv = char_views(fc@);
    assert(bv.len() == bc.len() && fv.len() == fc.len());
    assert(bv == components(base@) && fv == components(full@));
    if bc.len() > fc.len() {
        return None;
    }
    let mut i: usize = 0;
    while i < bc.len()
        invariant
            i <= bc.len() <= fc.len(),
            bv == char_views(bc@),
            fv == char_views(fc@),
            bv == components(base@),
            fv == components(full@),
            forall|k: int| 0 <= k < i ==> bv[k] == fv[k],
        decreases bc.len() - i,
    {
        assert(bv[i as int] == bc@[i as int]@ && fv[i as int] == fc@[i as int]@);
        if !crate::text::chars_eq(bc[i].as_slice(), fc[i].as_slice()) {
            assert(fv.subrange(0, bv.len() as int)[i as int] != bv[i as int]);
            return None;
        }
        i += 1;
    }
    assert(fv.subrange(0, bv.len() as int) =~= bv);
    let ghost rest = fv.subrange(bv.len() as int, fv.len() as int);
    proof {
        reveal_strlit("/");
    }
    if bc.len() < fc.len() && chars_eq_str(fc[bc.len()].as_slice(), "/") {
        assert(rest[0] == fc@[bc.len() as int]@);
        assert(rest.drop_first() =~= fv.subrange(bc.len() + 1, fv.len() as int));
        let tail = join_from(&fc, bc.len() + 1);
        let mut t = chars_of("/");
        let mut k: usize = 0;
        let ghost mid = t@;
        while k < tail.len()
            invariant
                k <= tail.len(),
                t@ == mid + tail@.subrange(0, k as int),
            decreases tail.len() - k,
        {
            t.push(tail[k]);
            k += 1;
            assert(t@ =~= mid + tail@.subrange(0, k as int));
        }
        assert(tail@.subrange(0, tail@.len() as int) =~= tail@);
        Some(t)
    } else {
        if bc.len() < fc.len() {
            assert(rest[0] == fc@[bc.len() as int]@);
        }
        Some(join_from(&fc, bc.len()))
    }
}

} // verus!

verus! {

/// The extension of a file name: the text after its last `.`, unless that
/// dot is the first character or there is none (`Path::extension`).
pub open spec fn name_extension(name: Seq<char>) -> Option<Seq<char>> {
    match last_index_before(name, '.', name.len() as int) {
        Some(i) => if i == 0 {
            None
        } else {
            Some(name.subrange(i + 1, name.len() as int))
        },
        None => None,
    }
}

/// The stem of a file name (the name without its extension).
pub open spec fn name_stem(name: Seq<char>) -> Seq<char> {
    match last_index_before(name, '.', name.len() as int) {
        Some(i) => if i == 0 {
            name
        } else {
            name.subrange(0, i)
        },
        None => name,
    }
}

/// `Path::extension`.
pub open spec fn extension(path: Seq<char>) -> Option<Seq<char>> {
    match file_name(path) {
        Some(n) => name_extension(n),
        None => None,
    }
}

/// [`name_stem`] of a file name.
pub fn stem_of_name(name: &[char]) -> (r: Vec<char>)
    ensures
        r@ == name_stem(name@),
{
    proof {
        lemma_last_index_before(name@, '.', name@.len() as int);
    }
    match last_index(name, '.', name.len()) {
        Some(i) => if i == 0 {
            copy_chars(name)
        } else {
            sub_chars(name, 0, i)
        },
        None => copy_chars(name),
    }
}

/// [`extension`] of a path text.
pub fn path_extension(path: &[char]) -> (r: Option<Vec<char>>)
    ensures
        match r {
            Some(e) => extension(path@) == Some(e@),
            None => extension(path@) is None,
        },
{
    match path_file_name(path) {
        Some(name) => {
            proof {
                lemma_last_index_before(name@, '.', name@.len() as int);
            }
            match last_index(name.as_slice(), '.', name.len()) {
                Some(i) => if i == 0 {
                    None
                } else {
                    Some(sub_chars(name.as_slice(), i + 1, name.len()))
                },
                None => None,
            }
        },
        None => None,
    }
}

} // verus!
