//! GGUF header inspection: the architecture facts a VRAM estimate needs
//! (layer count, hidden size, attention head counts, expert count, total
//! parameters), read from the metadata key/value section at the start of a
//! GGUF v2/v3 file. Tensor data is never touched.
use vstd::prelude::*;
use crate::text::{chars_eq_str, decode_lossy, has_prefix, starts_with, string_of, sub_chars, utf8_lossy};

verus! {

/// Architecture facts pulled from a GGUF header; `None` where the file does
/// not record the key.
#[derive(Debug, Clone, Default)]
pub struct GgufMeta {
    /// `general.architecture`, e.g. "llama", "gemma2", "qwen3moe".
    pub architecture: Option<String>,
    /// `{arch}.block_count` — transformer layer count.
    pub n_layers: Option<u32>,
    /// `{arch}.embedding_length` — hidden size.
    pub n_embd: Option<u32>,
    /// `{arch}.attention.head_count` — query head count.
    pub n_head: Option<u32>,
    /// `{arch}.attention.head_count_kv` — KV head count.
    pub n_head_kv: Option<u32>,
    /// `{arch}.expert_count` — number of MoE experts.
    pub expert_count: Option<u32>,
    /// `general.parameter_count` — total parameters.
    pub parameter_count: Option<u64>,
}

#[verifier::external_type_specification]
#[verifier::external_body]
pub struct ExIoError(std::io::Error);

/// Why a header could not be read.
#[derive(Debug)]
pub enum GgufError {
    /// The bytes ran out (or, for a file, reading failed).
    Io(std::io::Error),
    /// Bad magic.
    NotGguf,
    /// A count or length beyond the sane caps, or an unknown type tag.
    Malformed(&'static str),
}

/// The text of an I/O error (`ToString` through its `Display`), which comes
/// from the operating system or the error's own message; nothing is stated
/// of it.
#[verifier::external_body]
fn io_error_text(e: &std::io::Error) -> String {
    e.to_string()
}

fn concat_text(prefix: &str, rest: &str) -> (s: String)
    ensures
        s@ == prefix@ + rest@,
{
    let mut v = crate::text::chars_of(prefix);
    let mut r = crate::text::chars_of(rest);
    v.append(&mut r);
    string_of(v.as_slice())
}

/// `gguf: io error: ` followed by the text of `e`.
fn io_message(e: &std::io::Error) -> (s: String)
    ensures
        "gguf: io error: "@.is_prefix_of(s@),
{
    let p = "gguf: io error: ";
    let t = io_error_text(e);
    let s = concat_text(p, t.as_str());
    assert(s@.subrange(0, p@.len() as int) =~= p@);
    s
}

impl GgufError {
    /// The error's display text: `gguf: io error: <the I/O error>`,
    /// `gguf: not a GGUF file (bad magic)`, or `gguf: malformed header: <what>`.
    pub fn message(&self) -> (s: String)
        ensures
            match self {
                GgufError::Io(_) => "gguf: io error: "@.is_prefix_of(s@),
                GgufError::NotGguf => s@ == "gguf: not a GGUF file (bad magic)"@,
                GgufError::Malformed(m) => s@ == "gguf: malformed header: "@ + m@,
            },
    {
        match self {
            GgufError::Io(e) => io_message(e),
            GgufError::NotGguf => string_of(crate::text::chars_of("gguf: not a GGUF file (bad magic)").as_slice()),
            GgufError::Malformed(m) => concat_text("gguf: malformed header: ", m),
        }
    }
}

/// Builds the error `Read::read_exact` reports when the input ends early
/// (`ErrorKind::UnexpectedEof`).
#[verifier::external_body]
fn unexpected_eof() -> std::io::Error {
    std::io::Error::new(std::io::ErrorKind::UnexpectedEof, "failed to fill whole buffer")
}

// GGUF metadata value type tags.
pub const T_UINT8: u32 = 0;
pub const T_INT8: u32 = 1;
pub const T_UINT16: u32 = 2;
pub const T_INT16: u32 = 3;
pub const T_UINT32: u32 = 4;
pub const T_INT32: u32 = 5;
pub const T_FLOAT32: u32 = 6;
pub const T_BOOL: u32 = 7;
pub const T_STRING: u32 = 8;
pub const T_ARRAY: u32 = 9;
pub const T_UINT64: u32 = 10;
pub const T_INT64: u32 = 11;
pub const T_FLOAT64: u32 = 12;

/// "GGUF", little-endian.
pub const GGUF_MAGIC: u32 = 0x4655_4747;

// Caps against corrupt or hostile files.
pub const MAX_KV_COUNT: u64 = 1_000_000;
pub const MAX_STRING_LEN: u64 = 67_108_864;
pub const MAX_ARRAY_LEN: u64 = 100_000_000;

// ---------------------------------------------------------------------------
// The format
// ---------------------------------------------------------------------------

/// What went wrong, as the specification sees it.
pub enum GgufFail {
    Io,
    NotGguf,
    Malformed(Seq<char>),
}

/// A step of the reader: the value read and the position after it, or the
/// failure.
pub enum Step<T> {
    Done(T, int),
    Fail(GgufFail),
}

/// The little-endian value of a byte sequence.
pub open spec fn le(b: Seq<u8>) -> nat
    decreases b.len(),
{
    if b.len() == 0 {
        0
    } else {
        (b[0] + 256 * le(b.drop_first())) as nat
    }
}

pub open spec fn pow256(n: nat) -> nat
    decreases n,
{
    if n == 0 {
        1
    } else {
        256 * pow256((n - 1) as nat)
    }
}

/// The unsigned value of the `n` bytes at `p`.
pub open spec fn rd(d: Seq<u8>, p: int, n: int) -> Step<nat> {
    if 0 <= p && p + n <= d.len() {
        Step::Done(le(d.subrange(p, p + n)), p + n)
    } else {
        Step::Fail(GgufFail::Io)
    }
}

/// Position after skipping `n` bytes at `p`.
pub open spec fn skip_spec(d: Seq<u8>, p: int, n: int) -> Step<()> {
    if 0 <= p && p + n <= d.len() {
        Step::Done((), p + n)
    } else {
        Step::Fail(GgufFail::Io)
    }
}

/// A length-prefixed string, decoded lossily.
pub open spec fn rd_string(d: Seq<u8>, p: int) -> Step<Seq<char>> {
    match rd(d, p, 8) {
        Step::Fail(f) => Step::Fail(f),
        Step::Done(len, q) => if len > MAX_STRING_LEN {
            Step::Fail(GgufFail::Malformed("string length exceeds sane maximum"@))
        } else if q + len <= d.len() {
            Step::Done(utf8_lossy(d.subrange(q, q + len)), q + len)
        } else {
            Step::Fail(GgufFail::Io)
        },
    }
}

/// Byte width of a fixed-size scalar type.
pub open spec fn fixed_width_spec(t: u32) -> Option<nat> {
    if t == T_UINT8 || t == T_INT8 || t == T_BOOL {
        Some(1)
    } else if t == T_UINT16 || t == T_INT16 {
        Some(2)
    } else if t == T_UINT32 || t == T_INT32 || t == T_FLOAT32 {
        Some(4)
    } else if t == T_UINT64 || t == T_INT64 || t == T_FLOAT64 {
        Some(8)
    } else {
        None
    }
}

/// Skip `k` length-prefixed strings.
pub open spec fn skip_strings(d: Seq<u8>, p: int, k: nat) -> Step<()>
    decreases k,
{
    if k == 0 {
        Step::Done((), p)
    } else {
        match rd(d, p, 8) {
            Step::Fail(f) => Step::Fail(f),
            Step::Done(len, q) => if len > MAX_STRING_LEN {
                Step::Fail(GgufFail::Malformed("array string exceeds sane maximum"@))
            } else {
                match skip_spec(d, q, len as int) {
                    Step::Fail(f) => Step::Fail(f),
                    Step::Done(_, r) => skip_strings(d, r, (k - 1) as nat),
                }
            },
        }
    }
}

/// Skip an array value (element type, count, elements).
pub open spec fn skip_array(d: Seq<u8>, p: int) -> Step<()> {
    match rd(d, p, 4) {
        Step::Fail(f) => Step::Fail(f),
        Step::Done(t, q) => match rd(d, q, 8) {
            Step::Fail(f) => Step::Fail(f),
            Step::Done(count, r) => if count > MAX_ARRAY_LEN {
                Step::Fail(GgufFail::Malformed("array length exceeds sane maximum"@))
            } else {
                match fixed_width_spec(t as u32) {
                    Some(w) => skip_spec(d, r, (w * count) as int),
                    None => if t == T_STRING {
                        skip_strings(d, r, count)
                    } else {
                        Step::Fail(GgufFail::Malformed("nested or unknown array element type"@))
                    },
                }
            },
        },
    }
}

/// Law of array skipping: an array value (element type tag, element count,
/// elements) ends exactly `count` element widths after its 12-byte header,
/// the width being that of the element type in the GGUF format: 1 byte for
/// UINT8, INT8 and BOOL; 2 for UINT16 and INT16; 4 for UINT32, INT32 and
/// FLOAT32; 8 for UINT64, INT64 and FLOAT64.
pub proof fn lemma_array_element_widths(d: Seq<u8>, p: int)
    requires
        0 <= p,
        p + 12 <= d.len(),
        le(d.subrange(p + 4, p + 12)) <= MAX_ARRAY_LEN,
    ensures
        ({
            let t = le(d.subrange(p, p + 4));
            let n = le(d.subrange(p + 4, p + 12));
            &&& (t == 0 || t == 1 || t == 7) ==> skip_array(d, p) == skip_spec(d, p + 12, n as int)
            &&& (t == 2 || t == 3) ==> skip_array(d, p) == skip_spec(d, p + 12, (2 * n) as int)
            &&& (t == 4 || t == 5 || t == 6) ==> skip_array(d, p) == skip_spec(d, p + 12, (4 * n) as int)
            &&& (t == 10 || t == 11 || t == 12) ==> skip_array(d, p) == skip_spec(d, p + 12, (8 * n) as int)
        }),
{
    let t = le(d.subrange(p, p + 4));
    let n = le(d.subrange(p + 4, p + 12));
    lemma_le_bound(d.subrange(p, p + 4));
    lemma_pow256_facts();
    assert(t < 0x1_0000_0000);
    assert(t as u32 == t);
    assert(rd(d, p, 4) == Step::Done(t, p + 4));
    assert(rd(d, p + 4, 8) == Step::Done(n, p + 12));
    match fixed_width_spec(t as u32) {
        Some(w) => {
            assert(skip_array(d, p) == skip_spec(d, p + 12, (w * n) as int));
            if w == 1 {
                assert(w * n == n);
            } else if w == 2 {
                assert(w * n == 2 * n);
            } else if w == 4 {
                assert(w * n == 4 * n);
            } else if w == 8 {
                assert(w * n == 8 * n);
            }
        },
        None => {},
    }
}

/// Law of scalar values: a scalar value of a fixed-size type takes its
/// 4-byte type tag and then as many bytes as the same type takes as an
/// array element.
pub proof fn lemma_scalar_widths_match_arrays(d: Seq<u8>, p: int, w: nat)
    requires
        0 <= p,
        p + 4 <= d.len(),
        fixed_width_spec(le(d.subrange(p, p + 4)) as u32) == Some(w),
        p + 4 + w <= d.len(),
    ensures
        rd_value(d, p) matches Step::Done(_, q) && q == p + 4 + w,
{
    let t = le(d.subrange(p, p + 4));
    lemma_le_bound(d.subrange(p, p + 4));
    lemma_pow256_facts();
    assert(t < 0x1_0000_0000);
    assert(t as u32 == t);
}

/// A metadata value as the header reader keeps it.
pub enum Scalar {
    U64(u64),
    Str(Seq<char>),
    Skipped,
}

/// A two's-complement value read from its unsigned pattern `u`, whose sign
/// bit is worth `half`, with negatives taken as 0.
pub open spec fn nonneg(u: nat, half: nat) -> u64 {
    if u < half {
        u as u64
    } else {
        0
    }
}

pub open spec fn as_u64_value(s: Step<nat>) -> Step<Scalar> {
    match s {
        Step::Done(v, q) => Step::Done(Scalar::U64(v as u64), q),
        Step::Fail(f) => Step::Fail(f),
    }
}

pub open spec fn as_signed_value(s: Step<nat>, half: nat) -> Step<Scalar> {
    match s {
        Step::Done(v, q) => Step::Done(Scalar::U64(nonneg(v, half)), q),
        Step::Fail(f) => Step::Fail(f),
    }
}

pub open spec fn as_skipped(s: Step<()>) -> Step<Scalar> {
    match s {
        Step::Done(_, q) => Step::Done(Scalar::Skipped, q),
        Step::Fail(f) => Step::Fail(f),
    }
}

/// One metadata value: a type tag, then the value.
pub open spec fn rd_value(d: Seq<u8>, p: int) -> Step<Scalar> {
    match rd(d, p, 4) {
        Step::Fail(f) => Step::Fail(f),
        Step::Done(t, q) => if t == T_UINT32 {
            as_u64_value(rd(d, q, 4))
        } else if t == T_UINT64 {
            as_u64_value(rd(d, q, 8))
        } else if t == T_INT32 {
            as_signed_value(rd(d, q, 4), 0x8000_0000)
        } else if t == T_INT64 {
            as_signed_value(rd(d, q, 8), 0x8000_0000_0000_0000)
        } else if t == T_UINT16 {
            as_u64_value(rd(d, q, 2))
        } else if t == T_INT16 {
            as_signed_value(rd(d, q, 2), 0x8000)
        } else if t == T_UINT8 {
            as_u64_value(rd(d, q, 1))
        } else if t == T_INT8 {
            as_signed_value(rd(d, q, 1), 0x80)
        } else if t == T_STRING {
            match rd_string(d, q) {
                Step::Done(s, r) => Step::Done(Scalar::Str(s), r),
                Step::Fail(f) => Step::Fail(f),
            }
        } else if t == T_BOOL {
            as_skipped(skip_spec(d, q, 1))
        } else if t == T_FLOAT32 {
            as_skipped(skip_spec(d, q, 4))
        } else if t == T_FLOAT64 {
            as_skipped(skip_spec(d, q, 8))
        } else if t == T_ARRAY {
            as_skipped(skip_array(d, q))
        } else {
            Step::Fail(GgufFail::Malformed("unknown value type tag"@))
        },
    }
}

/// [`GgufMeta`] as the specification sees it.
pub struct MetaSpec {
    pub architecture: Option<Seq<char>>,
    pub n_layers: Option<u32>,
    pub n_embd: Option<u32>,
    pub n_head: Option<u32>,
    pub n_head_kv: Option<u32>,
    pub expert_count: Option<u32>,
    pub parameter_count: Option<u64>,
}

pub open spec fn no_meta() -> MetaSpec {
    MetaSpec {
        architecture: None,
        n_layers: None,
        n_embd: None,
        n_head: None,
        n_head_kv: None,
        expert_count: None,
        parameter_count: None,
    }
}

/// The low 32 bits (`as u32`).
pub open spec fn low32(n: u64) -> u32 {
    (n % 4294967296) as u32
}

/// The metadata after one key/value pair: the architecture name, the
/// parameter count, and the architecture-prefixed counts are kept; the
/// latest value of a key wins.
pub open spec fn absorb_kv(m: MetaSpec, arch: Option<Seq<char>>, key: Seq<char>, v: Scalar) -> (MetaSpec, Option<Seq<char>>) {
    match v {
        Scalar::Str(s) => if key == "general.architecture"@ {
            (MetaSpec { architecture: Some(s), ..m }, Some(s))
        } else {
            (m, arch)
        },
        Scalar::U64(n) => if key == "general.parameter_count"@ {
            (MetaSpec { parameter_count: Some(n), ..m }, arch)
        } else {
            match arch {
                Some(a) => if has_prefix(key, a) {
                    let suffix = key.subrange(a.len() as int, key.len() as int);
                    if suffix == ".block_count"@ {
                        (MetaSpec { n_layers: Some(low32(n)), ..m }, arch)
                    } else if suffix == ".embedding_length"@ {
                        (MetaSpec { n_embd: Some(low32(n)), ..m }, arch)
                    } else if suffix == ".attention.head_count"@ {
                        (MetaSpec { n_head: Some(low32(n)), ..m }, arch)
                    } else if suffix == ".attention.head_count_kv"@ {
                        (MetaSpec { n_head_kv: Some(low32(n)), ..m }, arch)
                    } else if suffix == ".expert_count"@ {
                        (MetaSpec { expert_count: Some(low32(n)), ..m }, arch)
                    } else {
                        (m, arch)
                    }
                } else {
                    (m, arch)
                },
                None => (m, arch),
            }
        },
        Scalar::Skipped => (m, arch),
    }
}

/// Law of the header fields: `general.architecture` names the architecture;
/// `general.parameter_count` gives the parameter count; once the
/// architecture `a` is known, `a.block_count` gives the layer count,
/// `a.embedding_length` the embedding size, `a.attention.head_count` the
/// head count, `a.attention.head_count_kv` the key/value head count and
/// `a.expert_count` the expert count, each as its low 32 bits; every other
/// field of the metadata is left as it was.
pub proof fn lemma_header_fields(m: MetaSpec, a: Seq<char>, n: u64, s: Seq<char>)
    ensures
        absorb_kv(m, Some(a), "general.architecture"@, Scalar::Str(s)) == ((MetaSpec { architecture: Some(s), ..m }), Some(s)),
        absorb_kv(m, Some(a), "general.parameter_count"@, Scalar::U64(n)).0 == (MetaSpec { parameter_count: Some(n), ..m }),
        !(a + ".block_count"@ == "general.parameter_count"@) ==> absorb_kv(m, Some(a), a + ".block_count"@, Scalar::U64(n)).0
            == (MetaSpec { n_layers: Some((n % 4294967296) as u32), ..m }),
        !(a + ".embedding_length"@ == "general.parameter_count"@) ==> absorb_kv(m, Some(a), a + ".embedding_length"@, Scalar::U64(n)).0
            == (MetaSpec { n_embd: Some((n % 4294967296) as u32), ..m }),
        !(a + ".attention.head_count"@ == "general.parameter_count"@) ==> absorb_kv(m, Some(a), a + ".attention.head_count"@, Scalar::U64(n)).0
            == (MetaSpec { n_head: Some((n % 4294967296) as u32), ..m }),
        !(a + ".attention.head_count_kv"@ == "general.parameter_count"@) ==> absorb_kv(m, Some(a), a + ".attention.head_count_kv"@, Scalar::U64(n)).0
            == (MetaSpec { n_head_kv: Some((n % 4294967296) as u32), ..m }),
        !(a + ".expert_count"@ == "general.parameter_count"@) ==> absorb_kv(m, Some(a), a + ".expert_count"@, Scalar::U64(n)).0
            == (MetaSpec { expert_count: Some((n % 4294967296) as u32), ..m }),
{
    reveal_strlit(".block_count");
    reveal_strlit(".embedding_length");
    reveal_strlit(".attention.head_count");
    reveal_strlit(".attention.head_count_kv");
    reveal_strlit(".expert_count");
    assert((a + ".block_count"@).subrange(0, a.len() as int) =~= a);
    assert((a + ".block_count"@).subrange(a.len() as int, (a + ".block_count"@).len() as int) =~= ".block_count"@);
    assert((a + ".embedding_length"@).subrange(0, a.len() as int) =~= a);
    assert((a + ".embedding_length"@).subrange(a.len() as int, (a + ".embedding_length"@).len() as int) =~= ".embedding_length"@);
    assert((a + ".attention.head_count"@).subrange(0, a.len() as int) =~= a);
    assert((a + ".attention.head_count"@).subrange(a.len() as int, (a + ".attention.head_count"@).len() as int) =~= ".attention.head_count"@);
    assert((a + ".attention.head_count_kv"@).subrange(0, a.len() as int) =~= a);
    assert((a + ".attention.head_count_kv"@).subrange(a.len() as int, (a + ".attention.head_count_kv"@).len() as int) =~= ".attention.head_count_kv"@);
    assert((a + ".expert_count"@).subrange(0, a.len() as int) =~= a);
    assert((a + ".expert_count"@).subrange(a.len() as int, (a + ".expert_count"@).len() as int) =~= ".expert_count"@);
    assert(".block_count"@.len() == 12 && ".embedding_length"@.len() == 17 && ".attention.head_count"@.len() == 21
        && ".attention.head_count_kv"@.len() == 24 && ".expert_count"@.len() == 13);
}

/// Read `k` key/value pairs from `p`, folding them into `m`.
pub open spec fn kv_loop(d: Seq<u8>, p: int, k: nat, m: MetaSpec, arch: Option<Seq<char>>) -> Result<MetaSpec, GgufFail>
    decreases k,
{
    if k == 0 {
        Ok(m)
    } else {
        match rd_string(d, p) {
            Step::Fail(f) => Err(f),
            Step::Done(key, q) => match rd_value(d, q) {
                Step::Fail(f) => Err(f),
                Step::Done(v, r) => {
                    let (m2, a2) = absorb_kv(m, arch, key, v);
                    kv_loop(d, r, (k - 1) as nat, m2, a2)
                },
            },
        }
    }
}

/// What inspecting a GGUF file with contents `d` gives.
pub open spec fn inspect_spec(d: Seq<u8>) -> Result<MetaSpec, GgufFail> {
    match rd(d, 0, 4) {
        Step::Fail(f) => Err(f),
        Step::Done(magic, p1) => if magic != GGUF_MAGIC {
            Err(GgufFail::NotGguf)
        } else {
            match rd(d, p1, 4) {
                Step::Fail(f) => Err(f),
                Step::Done(_, p2) => match rd(d, p2, 8) {
                    Step::Fail(f) => Err(f),
                    Step::Done(_, p3) => match rd(d, p3, 8) {
                        Step::Fail(f) => Err(f),
                        Step::Done(kv_count, p4) => if kv_count > MAX_KV_COUNT {
                            Err(GgufFail::Malformed("kv_count exceeds sane maximum"@))
                        } else {
                            kv_loop(d, p4, kv_count, no_meta(), None)
                        },
                    },
                },
            }
        },
    }
}

pub open spec fn opt_text(o: Option<String>) -> Option<Seq<char>> {
    match o {
        Some(s) => Some(s@),
        None => None,
    }
}

impl View for GgufMeta {
    type V = MetaSpec;

    open spec fn view(&self) -> MetaSpec {
        MetaSpec {
            architecture: opt_text(self.architecture),
            n_layers: self.n_layers,
            n_embd: self.n_embd,
            n_head: self.n_head,
            n_head_kv: self.n_head_kv,
            expert_count: self.expert_count,
            parameter_count: self.parameter_count,
        }
    }
}

/// The failure a [`GgufError`] stands for.
pub open spec fn fail_of(e: GgufError) -> GgufFail {
    match e {
        GgufError::Io(_) => GgufFail::Io,
        GgufError::NotGguf => GgufFail::NotGguf,
        GgufError::Malformed(m) => GgufFail::Malformed(m@),
    }
}

} // verus!

verus! {

proof fn lemma_pow256_facts()
    ensures
        pow256(0) == 1,
        pow256(4) == 4294967296,
        pow256(8) == 18446744073709551616,
{
    assert(pow256(0) == 1);
    assert(pow256(1) == 256);
    assert(pow256(2) == 65536);
    assert(pow256(3) == 16777216);
    assert(pow256(4) == 4294967296);
    assert(pow256(5) == 1099511627776);
    assert(pow256(6) == 281474976710656);
    assert(pow256(7) == 72057594037927936);
    assert(pow256(8) == 18446744073709551616);
}

/// A little-endian value of `n` bytes is below `256^n`.
proof fn lemma_le_bound(b: Seq<u8>)
    ensures
        le(b) < pow256(b.len()),
    decreases b.len(),
{
    if b.len() > 0 {
        lemma_le_bound(b.drop_first());
    }
}

proof fn lemma_pow256_mono(a: nat, b: nat)
    requires
        a <= b,
    ensures
        pow256(a) <= pow256(b),
    decreases b,
{
    if a < b {
        lemma_pow256_mono(a, (b - 1) as nat);
    }
}

/// The unsigned little-endian value of the `n` bytes at `p`.
fn read_le(d: &[u8], p: usize, n: usize) -> (r: Result<(u64, usize), GgufError>)
    requires
        n <= 8,
    ensures
        match r {
            Ok((v, q)) => rd(d@, p as int, n as int) == Step::Done(v as nat, q as int) && v < pow256(n as nat),
            Err(e) => rd(d@, p as int, n as int) == Step::Fail::<nat>(fail_of(e)),
        },
{
    if p > d.len() || d.len() - p < n {
        return Err(GgufError::Io(unexpected_eof()));
    }
    proof {
        lemma_pow256_facts();
    }
    let mut acc: u64 = 0;
    let mut k: usize = n;
    assert(d@.subrange(p + n, p + n) =~= Seq::<u8>::empty());
    while k > 0
        invariant
            k <= n <= 8,
            p + n <= d.len(),
            acc == le(d@.subrange(p + k, p + n as int)),
            acc < pow256((n - k) as nat),
            pow256(8) == 18446744073709551616,
        decreases k,
    {
        k -= 1;
        proof {
            lemma_pow256_mono((n - k) as nat, 8);
            assert(d@.subrange(p + k, p + n as int).drop_first() =~= d@.subrange(p + k + 1, p + n as int));
        }
        acc = d[p + k] as u64 + 256 * acc;
    }
    Ok((acc, p + n))
}

/// Position after `n` bytes from `p`.
fn skip(d: &[u8], p: usize, n: u64) -> (r: Result<usize, GgufError>)
    ensures
        match r {
            Ok(q) => skip_spec(d@, p as int, n as int) == Step::Done((), q as int),
            Err(e) => skip_spec(d@, p as int, n as int) == Step::Fail::<()>(fail_of(e)),
        },
{
    if p > d.len() || ((d.len() - p) as u64) < n {
        return Err(GgufError::Io(unexpected_eof()));
    }
    Ok(p + n as usize)
}

fn copy_bytes(d: &[u8], from: usize, to: usize) -> (r: Vec<u8>)
    requires
        from <= to <= d.len(),
    ensures
        r@ == d@.subrange(from as int, to as int),
{
    let mut r: Vec<u8> = Vec::new();
    let mut i = from;
    while i < to
        invariant
            from <= i <= to <= d.len(),
            r@ == d@.subrange(from as int, i as int),
        decreases to - i,
    {
        r.push(d[i]);
        i += 1;
        assert(r@ =~= d@.subrange(from as int, i as int));
    }
    r
}

/// A length-prefixed string, decoded lossily.
fn read_string(d: &[u8], p: usize) -> (r: Result<(Vec<char>, usize), GgufError>)
    ensures
        match r {
            Ok((s, q)) => rd_string(d@, p as int) == Step::Done(s@, q as int),
            Err(e) => rd_string(d@, p as int) == Step::Fail::<Seq<char>>(fail_of(e)),
        },
{
    let (len, q) = read_le(d, p, 8)?;
    if len > MAX_STRING_LEN {
        return Err(GgufError::Malformed("string length exceeds sane maximum"));
    }
    if ((d.len() - q) as u64) < len {
        return Err(GgufError::Io(unexpected_eof()));
    }
    let end = q + len as usize;
    let bytes = copy_bytes(d, q, end);
    let s = decode_lossy(bytes.as_slice());
    Ok((s, end))
}

} // verus!

verus! {

/// Skip `k` length-prefixed strings.
fn skip_string_items(d: &[u8], p: usize, k: u64) -> (r: Result<usize, GgufError>)
    ensures
        match r {
            Ok(q) => skip_strings(d@, p as int, k as nat) == Step::Done((), q as int),
            Err(e) => skip_strings(d@, p as int, k as nat) == Step::Fail::<()>(fail_of(e)),
        },
{
    let mut pos = p;
    let mut left = k;
    while left > 0
        invariant
            skip_strings(d@, pos as int, left as nat) == skip_strings(d@, p as int, k as nat),
        decreases left,
    {
        let (len, q) = read_le(d, pos, 8)?;
        if len > MAX_STRING_LEN {
            return Err(GgufError::Malformed("array string exceeds sane maximum"));
        }
        pos = skip(d, q, len)?;
        left -= 1;
    }
    Ok(pos)
}

/// Skip an array value.
fn skip_array_value(d: &[u8], p: usize) -> (r: Result<usize, GgufError>)
    ensures
        match r {
            Ok(q) => skip_array(d@, p as int) == Step::Done((), q as int),
            Err(e) => skip_array(d@, p as int) == Step::Fail::<()>(fail_of(e)),
        },
{
    let (t, q) = read_le(d, p, 4)?;
    let (count, r) = read_le(d, q, 8)?;
    if count > MAX_ARRAY_LEN {
        return Err(GgufError::Malformed("array length exceeds sane maximum"));
    }
    proof {
        lemma_pow256_facts();
    }
    let t32 = t as u32;
    assert(t32 == t);
    match fixed_width(t32) {
        Some(w) => {
            assert(w * count <= 8 * MAX_ARRAY_LEN) by (nonlinear_arith)
                requires
                    w <= 8,
                    count <= MAX_ARRAY_LEN,
            ;
            skip(d, r, w * count)
        },
        None => if t32 == T_STRING {
            skip_string_items(d, r, count)
        } else {
            Err(GgufError::Malformed("nested or unknown array element type"))
        },
    }
}

/// Byte width of a fixed-size scalar type, `None` for strings and arrays.
pub fn fixed_width(t: u32) -> (r: Option<u64>)
    ensures
        match r {
            Some(w) => fixed_width_spec(t) == Some(w as nat),
            None => fixed_width_spec(t) is None,
        },
{
    if t == T_UINT8 || t == T_INT8 || t == T_BOOL {
        Some(1)
    } else if t == T_UINT16 || t == T_INT16 {
        Some(2)
    } else if t == T_UINT32 || t == T_INT32 || t == T_FLOAT32 {
        Some(4)
    } else if t == T_UINT64 || t == T_INT64 || t == T_FLOAT64 {
        Some(8)
    } else {
        None
    }
}

/// A metadata value (the exec form of [`Scalar`]).
enum ScalarValue {
    U64(u64),
    Str(Vec<char>),
    Skipped,
}

spec fn scalar_view(s: ScalarValue) -> Scalar {
    match s {
        ScalarValue::U64(n) => Scalar::U64(n),
        ScalarValue::Str(c) => Scalar::Str(c@),
        ScalarValue::Skipped => Scalar::Skipped,
    }
}

fn nonneg_exec(u: u64, half: u64) -> (r: u64)
    ensures
        r == nonneg(u as nat, half as nat),
{
    if u < half {
        u
    } else {
        0
    }
}

/// One metadata value: a type tag, then the value.
fn read_value(d: &[u8], p: usize) -> (r: Result<(ScalarValue, usize), GgufError>)
    ensures
        match r {
            Ok((v, q)) => rd_value(d@, p as int) == Step::Done(scalar_view(v), q as int),
            Err(e) => rd_value(d@, p as int) == Step::Fail::<Scalar>(fail_of(e)),
        },
{
    let (t, q) = read_le(d, p, 4)?;
    if t == T_UINT32 as u64 {
        let (v, r) = read_le(d, q, 4)?;
        Ok((ScalarValue::U64(v), r))
    } else if t == T_UINT64 as u64 {
        let (v, r) = read_le(d, q, 8)?;
        Ok((ScalarValue::U64(v), r))
    } else if t == T_INT32 as u64 {
        let (v, r) = read_le(d, q, 4)?;
        Ok((ScalarValue::U64(nonneg_exec(v, 0x8000_0000)), r))
    } else if t == T_INT64 as u64 {
        let (v, r) = read_le(d, q, 8)?;
        Ok((ScalarValue::U64(nonneg_exec(v, 0x8000_0000_0000_0000)), r))
    } else if t == T_UINT16 as u64 {
        let (v, r) = read_le(d, q, 2)?;
        Ok((ScalarValue::U64(v), r))
    } else if t == T_INT16 as u64 {
        let (v, r) = read_le(d, q, 2)?;
        Ok((ScalarValue::U64(nonneg_exec(v, 0x8000)), r))
    } else if t == T_UINT8 as u64 {
        let (v, r) = read_le(d, q, 1)?;
        Ok((ScalarValue::U64(v), r))
    } else if t == T_INT8 as u64 {
        let (v, r) = read_le(d, q, 1)?;
        Ok((ScalarValue::U64(nonneg_exec(v, 0x80)), r))
    } else if t == T_STRING as u64 {
        let (s, r) = read_string(d, q)?;
        Ok((ScalarValue::Str(s), r))
    } else if t == T_BOOL as u64 {
        let r = skip(d, q, 1)?;
        Ok((ScalarValue::Skipped, r))
    } else if t == T_FLOAT32 as u64 {
        let r = skip(d, q, 4)?;
        Ok((ScalarValue::Skipped, r))
    } else if t == T_FLOAT64 as u64 {
        let r = skip(d, q, 8)?;
        Ok((ScalarValue::Skipped, r))
    } else if t == T_ARRAY as u64 {
        let r = skip_array_value(d, q)?;
        Ok((ScalarValue::Skipped, r))
    } else {
        Err(GgufError::Malformed("unknown value type tag"))
    }
}

} // verus!

verus! {

pub open spec fn opt_seq(o: Option<Vec<char>>) -> Option<Seq<char>> {
    match o {
        Some(v) => Some(v@),
        None => None,
    }
}

/// Fold one key/value pair into the metadata ([`absorb_kv`]).
fn absorb_pair(m: GgufMeta, arch: Option<Vec<char>>, key: &[char], v: ScalarValue) -> (r: (GgufMeta, Option<Vec<char>>))
    ensures
        (r.0@, opt_seq(r.1)) == absorb_kv(m@, opt_seq(arch), key@, scalar_view(v)),
{
    let mut m = m;
    match v {
        ScalarValue::Str(s) => {
            if chars_eq_str(key, "general.architecture") {
                m.architecture = Some(string_of(s.as_slice()));
                (m, Some(s))
            } else {
                (m, arch)
            }
        },
        ScalarValue::U64(n) => {
            if chars_eq_str(key, "general.parameter_count") {
                m.parameter_count = Some(n);
                return (m, arch);
            }
            match &arch {
                Some(a) => {
                    if starts_with(key, a.as_slice()) {
                        let suffix = sub_chars(key, a.len(), key.len());
                        let n32 = (n % 4294967296) as u32;
                        let sf = suffix.as_slice();
                        if chars_eq_str(sf, ".block_count") {
                            m.n_layers = Some(n32);
                        } else if chars_eq_str(sf, ".embedding_length") {
                            m.n_embd = Some(n32);
                        } else if chars_eq_str(sf, ".attention.head_count") {
                            m.n_head = Some(n32);
                        } else if chars_eq_str(sf, ".attention.head_count_kv") {
                            m.n_head_kv = Some(n32);
                        } else if chars_eq_str(sf, ".expert_count") {
                            m.expert_count = Some(n32);
                        }
                    }
                },
                None => {},
            }
            (m, arch)
        },
        ScalarValue::Skipped => (m, arch),
    }
}

/// Inspect the metadata header of a GGUF file whose contents start with
/// `d`. A header that runs past the end of `d` gives `GgufError::Io`.
pub fn inspect_bytes(d: &[u8]) -> (r: Result<GgufMeta, GgufError>)
    ensures
        match r {
            Ok(m) => inspect_spec(d@) == Ok::<MetaSpec, GgufFail>(m@),
            Err(e) => inspect_spec(d@) == Err::<MetaSpec, GgufFail>(fail_of(e)),
        },
{
    let (magic, p1) = read_le(d, 0, 4)?;
    if magic != GGUF_MAGIC as u64 {
        return Err(GgufError::NotGguf);
    }
    let (_version, p2) = read_le(d, p1, 4)?;
    let (_tensor_count, p3) = read_le(d, p2, 8)?;
    let (kv_count, p4) = read_le(d, p3, 8)?;
    if kv_count > MAX_KV_COUNT {
        return Err(GgufError::Malformed("kv_count exceeds sane maximum"));
    }
    let mut m = GgufMeta {
        architecture: None,
        n_layers: None,
        n_embd: None,
        n_head: None,
        n_head_kv: None,
        expert_count: None,
        parameter_count: None,
    };
    let mut arch: Option<Vec<char>> = None;
    let mut pos = p4;
    let mut left = kv_count;
    assert(m@ == no_meta());
    while left > 0
        invariant
            kv_loop(d@, pos as int, left as nat, m@, opt_seq(arch)) == inspect_spec(d@),
        decreases left,
    {
        let (key, q) = read_string(d, pos)?;
        let (v, r) = read_value(d, q)?;
        let (m2, a2) = absorb_pair(m, arch, key.as_slice(), v);
        m = m2;
        arch = a2;
        pos = r;
        left -= 1;
    }
    Ok(m)
}

} // verus!
