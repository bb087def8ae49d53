//! Correlation ids that link the envelopes of one causal chain.
//!
//! An id reads `corr-<epoch_ms_hex>-<counter_hex>`. The process-wide counter
//! is owned by the caller; this module formats and proves that two different
//! `(time, counter)` pairs never share an id.

use vstd::prelude::*;

use crate::envelope::now_unix_ms;

verus! {

/// The lower-case hexadecimal digit for `d` (`0 <= d < 16`).
pub open spec fn hex_digit(d: int) -> char {
    if d < 10 {
        ('0' as int + d) as char
    } else {
        ('a' as int + (d - 10)) as char
    }
}

/// Lower-case hexadecimal text of `n` without leading zeros (`format!("{n:x}")`).
pub open spec fn hex(n: nat) -> Seq<char>
    decreases n,
{
    if n < 16 {
        seq![hex_digit(n as int)]
    } else {
        hex(n / 16) + seq![hex_digit((n % 16) as int)]
    }
}

/// The id for a clock reading `ts` (epoch ms) and a counter value `seq`.
pub open spec fn correlation_id_spec(ts: u64, seq: u64) -> Seq<char> {
    seq!['c', 'o', 'r', 'r', '-'] + hex(ts as nat) + seq!['-'] + hex(seq as nat)
}

proof fn lemma_hex_digit_injective(a: int, b: int)
    requires
        0 <= a < 16,
        0 <= b < 16,
        hex_digit(a) == hex_digit(b),
    ensures
        a == b,
{
}

/// Hex text is never empty, and has no `'-'`.
pub proof fn lemma_hex_shape(n: nat)
    ensures
        hex(n).len() >= 1,
        n >= 16 ==> hex(n).len() >= 2,
        forall|i: int| 0 <= i < hex(n).len() ==> hex(n)[i] != '-',
    decreases n,
{
    if n >= 16 {
        lemma_hex_shape(n / 16);
        let h = hex(n / 16) + seq![hex_digit((n % 16) as int)];
        assert(hex(n) == h);
        assert forall|i: int| 0 <= i < hex(n).len() implies hex(n)[i] != '-' by {
            if i < hex(n / 16).len() {
                assert(hex(n)[i] == hex(n / 16)[i]);
            }
        }
    }
}

/// Different numbers have different hex text.
pub proof fn lemma_hex_injective(a: nat, b: nat)
    requires
        hex(a) == hex(b),
    ensures
        a == b,
    decreases a,
{
    lemma_hex_shape(a);
    lemma_hex_shape(b);
    if a < 16 && b < 16 {
        assert(hex(a)[0] == hex_digit(a as int));
        assert(hex(b)[0] == hex_digit(b as int));
        lemma_hex_digit_injective(a as int, b as int);
    } else if a >= 16 && b >= 16 {
        let ha = hex(a);
        let hb = hex(b);
        assert(ha.last() == hex_digit((a % 16) as int));
        assert(hb.last() == hex_digit((b % 16) as int));
        lemma_hex_digit_injective((a % 16) as int, (b % 16) as int);
        assert(ha.drop_last() =~= hex(a / 16));
        assert(hb.drop_last() =~= hex(b / 16));
        lemma_hex_injective(a / 16, b / 16);
    }
}

/// Two ids are equal only when both the clock readings and the counter
/// values that made them are equal, so a counter that never repeats within
/// one clock millisecond never repeats an id.
pub proof fn lemma_correlation_ids_unique(ts1: u64, seq1: u64, ts2: u64, seq2: u64)
    requires
        correlation_id_spec(ts1, seq1) == correlation_id_spec(ts2, seq2),
    ensures
        ts1 == ts2,
        seq1 == seq2,
{
    let p: Seq<char> = seq!['c', 'o', 'r', 'r', '-'];
    let h1 = hex(ts1 as nat);
    let n1: int = h1.len() as int;
    let h2 = hex(ts2 as nat);
    let n2: int = h2.len() as int;
    let g1 = hex(seq1 as nat);
    let g2 = hex(seq2 as nat);
    let a = correlation_id_spec(ts1, seq1);
    let b = correlation_id_spec(ts2, seq2);
    lemma_hex_shape(ts1 as nat);
    lemma_hex_shape(ts2 as nat);
    assert(a == p + h1 + seq!['-'] + g1);
    assert(b == p + h2 + seq!['-'] + g2);
    if n1 < n2 {
        assert(a[5 + n1] == '-');
        assert(b[5 + n1] == h2[n1]);
        assert(false);
    } else if n2 < n1 {
        assert(b[5 + n2] == '-');
        assert(a[5 + n2] == h1[n2]);
        assert(false);
    }
    assert(n1 == n2);
    assert(h1 =~= a.subrange(5, 5 + n1));
    assert(h2 =~= b.subrange(5, 5 + n2));
    lemma_hex_injective(ts1 as nat, ts2 as nat);
    assert(g1 =~= a.subrange(6 + n1, a.len() as int));
    assert(g2 =~= b.subrange(6 + n2, b.len() as int));
    lemma_hex_injective(seq1 as nat, seq2 as nat);
}

/// Law: ids drawn with different counter values differ, whatever the clock
/// read at each draw; so successive draws from a counter that only goes up
/// never repeat an id.
pub proof fn lemma_distinct_draws_differ(ts1: u64, seq1: u64, ts2: u64, seq2: u64)
    requires
        seq1 != seq2,
    ensures
        correlation_id_spec(ts1, seq1) != correlation_id_spec(ts2, seq2),
{
    if correlation_id_spec(ts1, seq1) == correlation_id_spec(ts2, seq2) {
        lemma_correlation_ids_unique(ts1, seq1, ts2, seq2);
    }
}

fn hex_digit_char(d: u64) -> (c: char)
    requires
        d < 16,
    ensures
        c == hex_digit(d as int),
{
    let b = d as u8;
    if b < 10 {
        (b + 48) as char
    } else {
        (b - 10 + 97) as char
    }
}

/// Appends the hex text of `n` to `out`.
fn push_hex(out: &mut Vec<char>, n: u64)
    ensures
        final(out)@ == old(out)@ + hex(n as nat),
    decreases n,
{
    if n < 16 {
        out.push(hex_digit_char(n));
    } else {
        push_hex(out, n / 16);
        out.push(hex_digit_char(n % 16));
    }
}

/// `corr-<ts hex>-<seq hex>` for the given clock reading and counter value.
pub fn correlation_id(ts: u64, seq: u64) -> (id: String)
    ensures
        id@ == correlation_id_spec(ts, seq),
{
    let mut v: Vec<char> = Vec::new();
    v.push('c');
    v.push('o');
    v.push('r');
    v.push('r');
    v.push('-');
    push_hex(&mut v, ts);
    v.push('-');
    push_hex(&mut v, seq);
    proof {
        assert(v@ =~= correlation_id_spec(ts, seq));
    }
    crate::text::string_of(&v)
}

/// A fresh id for counter value `seq`, stamped with the current clock in
/// epoch milliseconds. Callers draw `seq` from a process-wide counter.
pub fn new_correlation_id(seq: u64) -> (id: String)
    ensures
        exists|ts: u64| id@ == correlation_id_spec(ts, seq),
{
    let ts = now_unix_ms();
    correlation_id(ts, seq)
}

} // verus!
