//! Lexicographic order on texts and sorted, duplicate-free text lists.
//!
//! `String`'s `Ord` compares UTF-8 bytes; UTF-8 keeps the order of code
//! points, so it is the lexicographic order on characters used here.
use vstd::prelude::*;
use crate::text::{chars_of, string_of};
use crate::vault::strs;

verus! {

/// `a` comes strictly before `b`, comparing characters by code point and a
/// proper prefix before any longer text.
pub open spec fn lex_lt(a: Seq<char>, b: Seq<char>) -> bool
    decreases a.len(),
{
    if a.len() == 0 {
        b.len() > 0
    } else if b.len() == 0 {
        false
    } else if a[0] != b[0] {
        a[0] < b[0]
    } else {
        lex_lt(a.drop_first(), b.drop_first())
    }
}

/// No text sorts before itself.
pub proof fn lemma_lex_irreflexive(a: Seq<char>)
    ensures
        !lex_lt(a, a),
    decreases a.len(),
{
    if a.len() > 0 {
        lemma_lex_irreflexive(a.drop_first());
    }
}

/// The text order is transitive.
pub proof fn lemma_lex_transitive(a: Seq<char>, b: Seq<char>, c: Seq<char>)
    requires
        lex_lt(a, b),
        lex_lt(b, c),
    ensures
        lex_lt(a, c),
    decreases a.len(),
{
    if a.len() > 0 && b.len() > 0 && c.len() > 0 && a[0] == b[0] && b[0] == c[0] {
        lemma_lex_transitive(a.drop_first(), b.drop_first(), c.drop_first());
    }
}

/// Any two texts are equal or one sorts before the other.
pub proof fn lemma_lex_total(a: Seq<char>, b: Seq<char>)
    ensures
        lex_lt(a, b) || lex_lt(b, a) || a == b,
    decreases a.len(),
{
    if a.len() > 0 && b.len() > 0 && a[0] == b[0] {
        lemma_lex_total(a.drop_first(), b.drop_first());
        if a.drop_first() == b.drop_first() {
            assert(a =~= seq![a[0]] + a.drop_first());
            assert(b =~= seq![b[0]] + b.drop_first());
        }
    } else if a.len() == 0 && b.len() == 0 {
        assert(a =~= b);
    }
}

/// Two texts never sort before each other.
pub proof fn lemma_lex_asymmetric(a: Seq<char>, b: Seq<char>)
    requires
        lex_lt(a, b),
    ensures
        !lex_lt(b, a),
{
    if lex_lt(b, a) {
        lemma_lex_transitive(a, b, a);
        lemma_lex_irreflexive(a);
    }
}

/// Strictly increasing in [`lex_lt`], hence without repeats.
pub open spec fn strictly_sorted(s: Seq<Seq<char>>) -> bool {
    forall|i: int, j: int| 0 <= i < j < s.len() ==> lex_lt(#[trigger] s[i], #[trigger] s[j])
}

/// Three-way comparison: negative, zero or positive as `a` comes before,
/// equals or comes after `b`.
pub fn lex_order(a: &[char], b: &[char]) -> (r: i8)
    ensures
        r < 0 <==> lex_lt(a@, b@),
        r == 0 <==> a@ == b@,
        r > 0 <==> lex_lt(b@, a@),
{
    proof {
        lemma_lex_total(a@, b@);
        lemma_lex_irreflexive(a@);
        if lex_lt(a@, b@) {
            lemma_lex_asymmetric(a@, b@);
        }
    }
    let mut i: usize = 0;
    assert(a@.subrange(0, a.len() as int) =~= a@);
    assert(b@.subrange(0, b.len() as int) =~= b@);
    while i < a.len() && i < b.len()
        invariant
            i <= a.len(),
            i <= b.len(),
            a@.subrange(0, i as int) == b@.subrange(0, i as int),
            lex_lt(a@, b@) == lex_lt(a@.subrange(i as int, a.len() as int), b@.subrange(i as int, b.len() as int)),
            lex_lt(b@, a@) == lex_lt(b@.subrange(i as int, b.len() as int), a@.subrange(i as int, a.len() as int)),
        decreases a.len() - i,
    {
        if a[i] != b[i] {
            assert(a@.subrange(i as int, a.len() as int)[0] == a@[i as int]);
            assert(b@.subrange(i as int, b.len() as int)[0] == b@[i as int]);
            assert(a@[i as int] != b@[i as int]);
            assert(a@ != b@);
            proof {
                lemma_lex_total(a@, b@);
                if lex_lt(a@, b@) {
                    lemma_lex_asymmetric(a@, b@);
                }
            }
            if a[i] < b[i] {
                return -1;
            } else {
                return 1;
            }
        }
        assert(a@.subrange(i as int, a.len() as int).drop_first() =~= a@.subrange(i + 1, a.len() as int));
        assert(b@.subrange(i as int, b.len() as int).drop_first() =~= b@.subrange(i + 1, b.len() as int));
        assert(a@.subrange(0, i + 1) =~= a@.subrange(0, i as int).push(a@[i as int]));
        assert(b@.subrange(0, i + 1) =~= b@.subrange(0, i as int).push(b@[i as int]));
        i += 1;
    }
    if a.len() == b.len() {
        assert(a@ =~= a@.subrange(0, i as int));
        assert(b@ =~= b@.subrange(0, i as int));
        0
    } else if a.len() < b.len() {
        -1
    } else {
        1
    }
}

/// Insert `x` into a strictly sorted list unless it is already there.
pub fn insert_sorted_distinct(v: &mut Vec<String>, x: &[char])
    requires
        strictly_sorted(strs(*old(v))),
    ensures
        strictly_sorted(strs(*final(v))),
        forall|t: Seq<char>| strs(*final(v)).contains(t) <==> (strs(*old(v)).contains(t) || t == x@),
{
    let ghost s0 = strs(*v);
    let mut p: usize = 0;
    while p < v.len()
        invariant
            p <= v.len(),
            s0 == strs(*v),
            strictly_sorted(s0),
            forall|k: int| 0 <= k < p ==> lex_lt(#[trigger] s0[k], x@),
        ensures
            p <= v.len(),
            s0 == strs(*v),
            forall|k: int| 0 <= k < p ==> lex_lt(#[trigger] s0[k], x@),
            p < v.len() ==> lex_lt(x@, s0[p as int]),
        decreases v.len() - p,
    {
        let c = chars_of(v[p].as_str());
        let o = lex_order(c.as_slice(), x);
        if o == 0 {
            assert(s0[p as int] == x@);
            return;
        }
        if o > 0 {
            assert(lex_lt(x@, s0[p as int]));
            break;
        }
        p += 1;
    }
    proof {
        if p < s0.len() {
            assert(lex_lt(x@, s0[p as int]));
            assert forall|k: int| p < k < s0.len() implies lex_lt(x@, #[trigger] s0[k]) by {
                lemma_lex_transitive(x@, s0[p as int], s0[k]);
            }
        }
    }
    let ghost xs = x@;
    v.insert(p, string_of(x));
    proof {
        let s1 = strs(*v);
        assert(s1 =~= s0.insert(p as int, xs));
        assert forall|i: int, j: int| 0 <= i < j < s1.len() implies lex_lt(
            #[trigger] s1[i],
            #[trigger] s1[j],
        ) by {
            if j < p {
            } else if j == p {
                assert(s1[i] == s0[i]);
            } else if i < p {
                assert(s1[j] == s0[j - 1]);
                if j - 1 > p {
                    assert(lex_lt(xs, s0[j - 1]));
                    lemma_lex_transitive(s0[i], xs, s0[j - 1]);
                } else {
                    lemma_lex_transitive(s0[i], xs, s0[j - 1]);
                }
            } else if i == p {
                assert(s1[j] == s0[j - 1]);
            } else {
                assert(s1[i] == s0[i - 1]);
                assert(s1[j] == s0[j - 1]);
            }
        }
        assert forall|t: Seq<char>| s1.contains(t) <==> (s0.contains(t) || t == xs) by {
            if s1.contains(t) {
                let k = choose|k: int| 0 <= k < s1.len() && s1[k] == t;
                if k < p {
                    assert(s0[k] == t);
                } else if k > p {
                    assert(s0[k - 1] == t);
                }
            }
            if s0.contains(t) {
                let k = choose|k: int| 0 <= k < s0.len() && s0[k] == t;
                if k < p {
                    assert(s1[k] == t);
                } else {
                    assert(s1[k + 1] == t);
                }
            }
            if t == xs {
                assert(s1[p as int] == t);
            }
        }
    }
}

} // verus!

verus! {

/// Two strictly sorted lists with the same members are the same list.
pub proof fn lemma_sorted_unique(s1: Seq<Seq<char>>, s2: Seq<Seq<char>>)
    requires
        strictly_sorted(s1),
        strictly_sorted(s2),
        forall|t: Seq<char>| s1.contains(t) <==> s2.contains(t),
    ensures
        s1 == s2,
    decreases s1.len() + s2.len(),
{
    if s1.len() == 0 {
        if s2.len() > 0 {
            assert(s2.contains(s2[0]));
        }
        assert(s1 =~= s2);
    } else if s2.len() == 0 {
        assert(s1.contains(s1[0]));
    } else {
        assert(s1.contains(s1[0]));
        assert(s2.contains(s2[0]));
        let k = choose|k: int| 0 <= k < s2.len() && s2[k] == s1[0];
        let j = choose|j: int| 0 <= j < s1.len() && s1[j] == s2[0];
        if k > 0 {
            assert(lex_lt(s2[0], s2[k]));
            if j > 0 {
                assert(lex_lt(s1[0], s1[j]));
                lemma_lex_asymmetric(s1[0], s1[j]);
            } else {
                lemma_lex_irreflexive(s1[0]);
            }
        }
        assert(s1[0] == s2[0]);
        let t1 = s1.drop_first();
        let t2 = s2.drop_first();
        assert forall|t: Seq<char>| t1.contains(t) <==> t2.contains(t) by {
            if t1.contains(t) {
                let a = choose|a: int| 0 <= a < t1.len() && t1[a] == t;
                assert(s1[a + 1] == t);
                assert(lex_lt(s1[0], t));
                assert(s1.contains(t));
                let b = choose|b: int| 0 <= b < s2.len() && s2[b] == t;
                if b == 0 {
                    lemma_lex_irreflexive(t);
                }
                assert(t2[b - 1] == t);
            }
            if t2.contains(t) {
                let a = choose|a: int| 0 <= a < t2.len() && t2[a] == t;
                assert(s2[a + 1] == t);
                assert(lex_lt(s2[0], t));
                assert(s2.contains(t));
                let b = choose|b: int| 0 <= b < s1.len() && s1[b] == t;
                if b == 0 {
                    lemma_lex_irreflexive(t);
                }
                assert(t1[b - 1] == t);
            }
        }
        assert(strictly_sorted(t1)) by {
            assert forall|i: int, j: int| 0 <= i < j < t1.len() implies lex_lt(#[trigger] t1[i], #[trigger] t1[j]) by {
                assert(t1[i] == s1[i + 1] && t1[j] == s1[j + 1]);
            }
        }
        assert(strictly_sorted(t2)) by {
            assert forall|i: int, j: int| 0 <= i < j < t2.len() implies lex_lt(#[trigger] t2[i], #[trigger] t2[j]) by {
                assert(t2[i] == s2[i + 1] && t2[j] == s2[j + 1]);
            }
        }
        lemma_sorted_unique(t1, t2);
        assert(s1 =~= seq![s1[0]] + t1);
        assert(s2 =~= seq![s2[0]] + t2);
    }
}

} // verus!
