//! Command line buffer: accumulates PTY input bytes and emits each submitted
//! command at a `\r`, `\n` or `\r\n` boundary.
use vstd::prelude::*;
use crate::text::{decode_lossy, utf8_lossy};

verus! {

/// Whether `b` ends a command line.
pub open spec fn is_line_end(b: u8) -> bool {
    b == 13 || b == 10
}

/// Progress of a `feed` over one input slice: the pending bytes, the input
/// position, and the `(line bytes, raw length)` pairs emitted so far.
pub struct CmdScan {
    pub buf: Seq<u8>,
    pub pos: int,
    pub lines: Seq<(Seq<u8>, int)>,
}

/// One step of the command splitter at `sc.pos`.
pub open spec fn cmd_step(sc: CmdScan, bytes: Seq<u8>) -> CmdScan {
    let b = bytes[sc.pos];
    if b == 13 {
        let ending = if sc.pos + 1 < bytes.len() && bytes[sc.pos + 1] == 10 { 2int } else { 1int };
        CmdScan {
            buf: Seq::empty(),
            pos: sc.pos + ending,
            lines: sc.lines.push((sc.buf, sc.buf.len() + ending)),
        }
    } else if b == 10 {
        CmdScan {
            buf: Seq::empty(),
            pos: sc.pos + 1,
            lines: sc.lines.push((sc.buf, sc.buf.len() + 1int)),
        }
    } else {
        CmdScan { buf: sc.buf.push(b), pos: sc.pos + 1, lines: sc.lines }
    }
}

/// The splitter run from `sc` to the end of `bytes`.
pub open spec fn cmd_scan(sc: CmdScan, bytes: Seq<u8>) -> CmdScan
    decreases bytes.len() - sc.pos,
{
    if 0 <= sc.pos < bytes.len() {
        cmd_scan(cmd_step(sc, bytes), bytes)
    } else {
        sc
    }
}

/// Total raw length of emitted lines.
pub open spec fn raw_total(lines: Seq<(Seq<u8>, int)>) -> int
    decreases lines.len(),
{
    if lines.len() == 0 {
        0
    } else {
        raw_total(lines.drop_last()) + lines.last().1
    }
}

/// A scan over `a + c` from a position in `a` reaches the end of `a` in
/// the state a scan over `a` alone ends in, when `a` does not end in `\r`.
proof fn lemma_scan_prefix(sc: CmdScan, a: Seq<u8>, c: Seq<u8>)
    requires
        0 <= sc.pos <= a.len(),
        !(a.len() > 0 && a.last() == 13),
    ensures
        cmd_scan(sc, a).pos == a.len(),
        cmd_scan(sc, a + c) == cmd_scan(CmdScan { pos: a.len() as int, ..cmd_scan(sc, a) }, a + c),
    decreases a.len() - sc.pos,
{
    if sc.pos < a.len() {
        let ac = a + c;
        assert(ac[sc.pos] == a[sc.pos]);
        if sc.pos + 1 < a.len() {
            assert(ac[sc.pos + 1] == a[sc.pos + 1]);
        }
        assert(cmd_step(sc, ac) == cmd_step(sc, a));
        lemma_scan_prefix(cmd_step(sc, a), a, c);
    }
}

/// A scan over `a + c` from inside `c` runs as the scan over `c` does, its
/// positions shifted by the length of `a`.
proof fn lemma_scan_suffix(sc: CmdScan, a: Seq<u8>, c: Seq<u8>)
    requires
        0 <= sc.pos,
    ensures
        cmd_scan(CmdScan { pos: a.len() + sc.pos, ..sc }, a + c) == (CmdScan {
            pos: a.len() + cmd_scan(sc, c).pos,
            ..cmd_scan(sc, c)
        }),
    decreases c.len() - sc.pos,
{
    let ac = a + c;
    let s2 = CmdScan { pos: a.len() + sc.pos, ..sc };
    if sc.pos < c.len() {
        assert(ac[s2.pos] == c[sc.pos]);
        if sc.pos + 1 < c.len() {
            assert(ac[s2.pos + 1] == c[sc.pos + 1]);
        }
        let n = cmd_step(sc, c);
        assert(cmd_step(s2, ac) == (CmdScan { pos: a.len() + n.pos, ..n }));
        lemma_scan_suffix(n, a, c);
    }
}

/// The lines a scan emits are those it started with followed by those a
/// scan from no lines emits.
proof fn lemma_scan_lines(sc: CmdScan, c: Seq<u8>)
    ensures
        cmd_scan(sc, c).lines == sc.lines + cmd_scan(CmdScan { lines: Seq::empty(), ..sc }, c).lines,
        cmd_scan(sc, c).buf == cmd_scan(CmdScan { lines: Seq::empty(), ..sc }, c).buf,
    decreases c.len() - sc.pos,
{
    let e = CmdScan { lines: Seq::empty(), ..sc };
    if 0 <= sc.pos < c.len() {
        let n = cmd_step(sc, c);
        let ne = cmd_step(e, c);
        assert(n.buf == ne.buf && n.pos == ne.pos);
        assert(n.lines =~= sc.lines + ne.lines);
        lemma_scan_lines(n, c);
        lemma_scan_lines(ne, c);
        assert(CmdScan { lines: Seq::empty(), ..n } == CmdScan { lines: Seq::empty(), ..ne });
    } else {
        assert(sc.lines + Seq::<(Seq<u8>, int)>::empty() =~= sc.lines);
    }
}

/// Law: feeding `a` and then `c` to a buffer emits what feeding `a + c` at
/// once emits, in the same order, and leaves the same bytes buffered, when
/// `a` does not end in `\r` (a `\r\n` split across two feeds counts as two
/// line ends).
pub proof fn lemma_feeds_concatenate(buf: Seq<u8>, a: Seq<u8>, c: Seq<u8>)
    requires
        !(a.len() > 0 && a.last() == 13),
    ensures
        ({
            let s1 = cmd_scan(CmdScan { buf, pos: 0, lines: Seq::empty() }, a);
            let s2 = cmd_scan(CmdScan { buf: s1.buf, pos: 0, lines: Seq::empty() }, c);
            let s = cmd_scan(CmdScan { buf, pos: 0, lines: Seq::empty() }, a + c);
            &&& s.buf == s2.buf
            &&& s.lines == s1.lines + s2.lines
        }),
{
    let start = CmdScan { buf, pos: 0, lines: Seq::empty() };
    let s1 = cmd_scan(start, a);
    lemma_scan_prefix(start, a, c);
    let mid = CmdScan { buf: s1.buf, pos: 0, lines: s1.lines };
    lemma_scan_suffix(mid, a, c);
    assert(CmdScan { pos: a.len() as int, ..s1 } == CmdScan { pos: a.len() + mid.pos, ..mid });
    lemma_scan_lines(mid, c);
}

/// A scan accounts for every byte: what its lines' raw lengths add, plus
/// what stays buffered, grows by the number of bytes it reads.
proof fn lemma_scan_accounts(sc: CmdScan, bytes: Seq<u8>)
    requires
        0 <= sc.pos <= bytes.len(),
    ensures
        raw_total(cmd_scan(sc, bytes).lines) + cmd_scan(sc, bytes).buf.len() == raw_total(sc.lines)
            + sc.buf.len() + bytes.len() - sc.pos,
    decreases bytes.len() - sc.pos,
{
    if sc.pos < bytes.len() {
        let n = cmd_step(sc, bytes);
        assert(n.lines.len() > sc.lines.len() ==> n.lines.drop_last() =~= sc.lines);
        lemma_scan_accounts(n, bytes);
    }
}

/// A scan whose input ends with a line end leaves nothing buffered.
proof fn lemma_scan_ends_empty(sc: CmdScan, bytes: Seq<u8>)
    requires
        0 <= sc.pos < bytes.len(),
        is_line_end(bytes.last()),
    ensures
        cmd_scan(sc, bytes).buf.len() == 0,
    decreases bytes.len() - sc.pos,
{
    let n = cmd_step(sc, bytes);
    assert(cmd_scan(sc, bytes) == cmd_scan(n, bytes));
    assert(bytes.last() == bytes[bytes.len() - 1]);
    if n.pos < bytes.len() {
        lemma_scan_ends_empty(n, bytes);
    } else {
        assert(cmd_scan(n, bytes) == n);
        assert(is_line_end(bytes[sc.pos]));
    }
}

/// Law: input that ends at a line boundary leaves nothing buffered, so the
/// raw lengths of the lines it completes add up to the bytes that were
/// pending plus the whole input.
pub proof fn lemma_raw_lengths_cover(buf: Seq<u8>, bytes: Seq<u8>)
    requires
        bytes.len() > 0,
        is_line_end(bytes.last()),
    ensures
        ({
            let s = cmd_scan(CmdScan { buf, pos: 0, lines: Seq::empty() }, bytes);
            &&& s.buf.len() == 0
            &&& raw_total(s.lines) == buf.len() + bytes.len()
        }),
{
    let start = CmdScan { buf, pos: 0, lines: Seq::empty() };
    lemma_scan_accounts(start, bytes);
    lemma_scan_ends_empty(start, bytes);
}

/// Per-session line buffer. Accumulates raw PTY-input bytes between line
/// boundaries and emits complete command strings.
pub struct CommandBuffer {
    buf: Vec<u8>,
}

impl View for CommandBuffer {
    type V = Seq<u8>;

    closed spec fn view(&self) -> Seq<u8> {
        self.buf@
    }
}

impl CommandBuffer {
    /// The pending bytes never hold a line ending.
    #[verifier::type_invariant]
    spec fn no_pending_line_end(&self) -> bool {
        forall|i: int| 0 <= i < self.buf@.len() ==> !is_line_end(#[trigger] self.buf@[i])
    }

    /// Create a fresh buffer.
    pub fn new() -> (b: Self)
        ensures
            b@ == Seq::<u8>::empty(),
    {
        CommandBuffer { buf: Vec::new() }
    }

    /// Feed raw input bytes. Returns the completed command lines as
    /// `(decoded_string, raw_len)`, where `raw_len` counts the line's bytes
    /// and its ending (`\r`, `\n` or `\r\n`, which is one boundary). Bytes
    /// after the last boundary stay buffered. Decoding is lossy UTF-8.
    pub fn feed(&mut self, bytes: &[u8]) -> (r: Vec<(String, usize)>)
        requires
            old(self)@.len() + bytes.len() <= usize::MAX,
        ensures
            ({
                let sc = cmd_scan(CmdScan { buf: old(self)@, pos: 0, lines: Seq::empty() }, bytes@);
                &&& final(self)@ == sc.buf
                &&& r@.len() == sc.lines.len()
                &&& forall|k: int| 0 <= k < r@.len() ==> (#[trigger] r@[k]).0@ == utf8_lossy(sc.lines[k].0)
                    && r@[k].1 == sc.lines[k].1
                &&& raw_total(sc.lines) + sc.buf.len() == old(self)@.len() + bytes.len()
                &&& forall|k: int, j: int| 0 <= k < sc.lines.len() && 0 <= j < sc.lines[k].0.len()
                    ==> !is_line_end(#[trigger] sc.lines[k].0[j])
            }),
            forall|i: int| 0 <= i < final(self)@.len() ==> !is_line_end(#[trigger] final(self)@[i]),
            forall|k: int, j: int| 0 <= k < r@.len() && 0 <= j < r@[k].0@.len() ==> #[trigger] r@[k].0@[j] != '\r'
                && r@[k].0@[j] != '\n',
            (forall|i: int| 0 <= i < bytes.len() ==> !is_line_end(#[trigger] bytes@[i])) ==> r@.len() == 0
                && final(self)@ == old(self)@ + bytes@,
    {
        proof {
            use_type_invariant(&*self);
        }
        let mut buf: Vec<u8> = Vec::new();
        std::mem::swap(&mut buf, &mut self.buf);
        let ghost init = CmdScan { buf: buf@, pos: 0, lines: Seq::empty() };
        let ghost b0 = buf@;
        let mut results: Vec<(String, usize)> = Vec::new();
        let ghost mut lines: Seq<(Seq<u8>, int)> = Seq::empty();
        let mut i: usize = 0;
        assert(b0 + bytes@.subrange(0, 0) =~= b0);
        while i < bytes.len()
            invariant
                i <= bytes.len(),
                cmd_scan(CmdScan { buf: buf@, pos: i as int, lines }, bytes@) == cmd_scan(init, bytes@),
                results@.len() == lines.len(),
                forall|k: int| 0 <= k < results@.len() ==> (#[trigger] results@[k]).0@ == utf8_lossy(lines[k].0)
                    && results@[k].1 == lines[k].1,
                forall|k: int, j: int| 0 <= k < results@.len() && 0 <= j < results@[k].0@.len() ==> #[trigger] results@[k].0@[j] != '\r'
                    && results@[k].0@[j] != '\n',
                raw_total(lines) + buf@.len() == b0.len() + i,
                buf@.len() <= b0.len() + i,
                b0.len() + bytes.len() <= usize::MAX,
                forall|j: int| 0 <= j < buf@.len() ==> !is_line_end(#[trigger] buf@[j]),
                forall|k: int, j: int| 0 <= k < lines.len() && 0 <= j < lines[k].0.len()
                    ==> !is_line_end(#[trigger] lines[k].0[j]),
                (forall|j: int| 0 <= j < bytes.len() ==> !is_line_end(#[trigger] bytes@[j])) ==> lines.len() == 0
                    && buf@ == b0 + bytes@.subrange(0, i as int),
            decreases bytes.len() - i,
        {
            let ghost sc = CmdScan { buf: buf@, pos: i as int, lines };
            let b = bytes[i];
            if b == 13 || b == 10 {
                let ending: usize = if b == 13 && i + 1 < bytes.len() && bytes[i + 1] == 10 { 2 } else { 1 };
                let cmd = decode_lossy(buf.as_slice());
                assert forall|j: int| 0 <= j < cmd@.len() implies cmd@[j] != '\r' && cmd@[j] != '\n' by {
                    if cmd@[j] == '\r' || cmd@[j] == '\n' {
                        assert((cmd@[j] as u32) < 128);
                        let x = (cmd@[j] as u32) as u8;
                        assert(is_line_end(x));
                        assert(buf@.contains(x));
                        let idx = choose|idx: int| 0 <= idx < buf@.len() && buf@[idx] == x;
                        assert(!is_line_end(buf@[idx]));
                    }
                }
                let text: String = crate::text::string_of(cmd.as_slice());
                let raw_len = buf.len() + ending;
                proof {
                    assert(raw_total(lines.push((buf@, raw_len as int))) == raw_total(lines) + raw_len) by {
                        assert(lines.push((buf@, raw_len as int)).drop_last() =~= lines);
                    }
                    lines = lines.push((buf@, raw_len as int));
                }
                buf.clear();
                let ghost r0 = results@;
                results.push((text, raw_len));
                assert(forall|k: int| 0 <= k < r0.len() ==> results@[k] == r0[k]);
                i += ending;
            } else {
                buf.push(b);
                i += 1;
                proof {
                    assert(b0 + bytes@.subrange(0, i as int) =~= (b0 + bytes@.subrange(0, i - 1)).push(b));
                }
            }
            proof {
                assert(CmdScan { buf: buf@, pos: i as int, lines } =~= cmd_step(sc, bytes@));
            }
        }
        assert(bytes@.subrange(0, bytes.len() as int) =~= bytes@);
        self.buf = buf;
        results
    }
}

} // verus!
