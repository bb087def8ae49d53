//! llama-server launch planning: the command line for a configured model
//! and the KV-cache size factors of the VRAM estimate.
use vstd::prelude::*;
use crate::config::{kv_flag, LlamaServerConfig};
use crate::text::{chars_eq_str, chars_of, decimal, decimal_chars, string_of};

verus! {

/// Result of applying a changed configuration to a model.
#[derive(Clone, Copy, Debug, PartialEq, Eq, Structural)]
pub enum ApplyOutcome {
    /// The model is not running; nothing to apply.
    NotRunning,
    /// The running launch arguments already match; no restart needed.
    Unchanged,
    /// The arguments drifted; the server was restarted on the new config.
    Restarted,
}

/// `[flag, value]` when the option is set.
pub open spec fn opt_flag(flag: Seq<char>, v: Option<u32>) -> Seq<Seq<char>> {
    match v {
        Some(n) => seq![flag, decimal(n as nat)],
        None => Seq::empty(),
    }
}

pub open spec fn base_args_spec(c: LlamaServerConfig) -> Seq<Seq<char>> {
    seq![
        "--model"@, c.model_path@, "--host"@, "127.0.0.1"@, "--port"@, decimal(c.port as nat),
        "--ctx-size"@, decimal(c.ctx_size as nat), "--cache-type-k"@, kv_flag(c.cache_type_k),
        "--cache-type-v"@, kv_flag(c.cache_type_v), "--parallel"@, decimal(c.parallel as nat),
        "--jinja"@,
    ]
}

pub open spec fn option_args_spec(c: LlamaServerConfig) -> Seq<Seq<char>> {
    (if c.n_gpu_layers >= 0 { seq!["--n-gpu-layers"@, decimal(c.n_gpu_layers as nat)] } else { Seq::empty() })
        + (if c.cpu_moe { seq!["--cpu-moe"@] } else { opt_flag("--n-cpu-moe"@, c.n_cpu_moe) })
        + opt_flag("--cache-ram"@, c.cache_ram)
        + (if c.flash_attention { seq!["--flash-attn"@, "on"@] } else { Seq::empty() })
        + opt_flag("--threads"@, c.threads)
}

/// The llama-server command line for `c`: model, host, port, context size,
/// cache types, parallel slots and `--jinja`; then the GPU-layer, MoE,
/// prompt-cache, flash-attention and thread options that are set; then the
/// extra flags.
pub open spec fn cli_args_spec(c: LlamaServerConfig) -> Seq<Seq<char>> {
    base_args_spec(c) + option_args_spec(c) + c.extra_flags@.map_values(|f: String| f@)
}

/// Law of the llama-server command line: it opens with `--model` and the
/// model path, carries `--host 127.0.0.1`, the port after `--port` and
/// `--jinja`; it has `--flash-attn on` when flash attention is on,
/// `--cpu-moe` when all experts stay on the CPU, each set numeric option
/// right after its flag, and ends with the extra flags in their order.
pub proof fn lemma_cli_args_flags(c: LlamaServerConfig)
    ensures
        ({
            let a = cli_args_spec(c);
            &&& a[0] == "--model"@ && a[1] == c.model_path@
            &&& a[2] == "--host"@ && a[3] == "127.0.0.1"@
            &&& a[4] == "--port"@ && a[5] == decimal(c.port as nat)
            &&& a[6] == "--ctx-size"@ && a[7] == decimal(c.ctx_size as nat)
            &&& a.contains("--jinja"@)
            &&& c.flash_attention ==> a.contains("--flash-attn"@)
            &&& c.cpu_moe ==> a.contains("--cpu-moe"@)
            &&& (c.threads matches Some(n) ==> exists|i: int| 0 <= i < a.len() - 1 && a[i] == "--threads"@
                && #[trigger] a[i + 1] == decimal(n as nat))
            &&& a.len() >= 15 + c.extra_flags@.len()
            &&& a.subrange(a.len() - c.extra_flags@.len(), a.len() as int) == c.extra_flags@.map_values(|f: String| f@)
        }),
{
    let b = base_args_spec(c);
    let o = option_args_spec(c);
    let e = c.extra_flags@.map_values(|f: String| f@);
    let a = cli_args_spec(c);
    assert(b.len() == 15);
    assert(a == b + o + e);
    assert(a[14] == "--jinja"@);
    let g = if c.n_gpu_layers >= 0 { seq!["--n-gpu-layers"@, decimal(c.n_gpu_layers as nat)] } else { Seq::<Seq<char>>::empty() };
    let m = if c.cpu_moe { seq!["--cpu-moe"@] } else { opt_flag("--n-cpu-moe"@, c.n_cpu_moe) };
    let cr = opt_flag("--cache-ram"@, c.cache_ram);
    let fl = if c.flash_attention { seq!["--flash-attn"@, "on"@] } else { Seq::<Seq<char>>::empty() };
    let th = opt_flag("--threads"@, c.threads);
    assert(o == g + m + cr + fl + th);
    if c.cpu_moe {
        assert(a[(15 + g.len()) as int] == "--cpu-moe"@);
    }
    if c.flash_attention {
        assert(a[(15 + g.len() + m.len() + cr.len()) as int] == "--flash-attn"@);
    }
    if let Some(n) = c.threads {
        let i: int = (15 + g.len() + m.len() + cr.len() + fl.len()) as int;
        assert(a[i] == "--threads"@);
        assert(a[i + 1] == decimal(n as nat));
    }
    assert(a.subrange(a.len() - e.len(), a.len() as int) =~= e);
}

/// Decimal text starts with a digit.
proof fn lemma_decimal_starts_with_digit(n: nat)
    ensures
        decimal(n).len() >= 1,
        '0' <= decimal(n)[0] <= '9',
    decreases n,
{
    if n >= 10 {
        lemma_decimal_starts_with_digit(n / 10);
        assert(decimal(n)[0] == decimal(n / 10)[0]);
    }
}

/// Whether the option part of the command line holds `flag`.
pub open spec fn options_name(c: LlamaServerConfig, flag: Seq<char>) -> bool {
    option_args_spec(c).contains(flag)
}

/// Law of the optional part of the command line (what follows `--jinja`
/// and precedes the extra flags): it names `--flash-attn` exactly when
/// flash attention is on, `--cpu-moe` exactly when all experts stay on the
/// CPU, `--threads` exactly when a thread count is set, `--cache-ram`
/// exactly when a prompt-cache size is set, and `--n-gpu-layers` exactly
/// when the layer count is not negative.
pub proof fn lemma_cli_options_only_if(c: LlamaServerConfig)
    ensures
        options_name(c, "--flash-attn"@) <==> c.flash_attention,
        options_name(c, "--cpu-moe"@) <==> c.cpu_moe,
        options_name(c, "--threads"@) <==> c.threads is Some,
        options_name(c, "--cache-ram"@) <==> c.cache_ram is Some,
        options_name(c, "--n-gpu-layers"@) <==> c.n_gpu_layers >= 0,
{
    reveal_strlit("--flash-attn");
    reveal_strlit("--cpu-moe");
    reveal_strlit("--threads");
    reveal_strlit("--cache-ram");
    reveal_strlit("--n-gpu-layers");
    reveal_strlit("--n-cpu-moe");
    reveal_strlit("on");
    let g = if c.n_gpu_layers >= 0 { seq!["--n-gpu-layers"@, decimal(c.n_gpu_layers as nat)] } else { Seq::<Seq<char>>::empty() };
    let m = if c.cpu_moe { seq!["--cpu-moe"@] } else { opt_flag("--n-cpu-moe"@, c.n_cpu_moe) };
    let cr = opt_flag("--cache-ram"@, c.cache_ram);
    let fl = if c.flash_attention { seq!["--flash-attn"@, "on"@] } else { Seq::<Seq<char>>::empty() };
    let th = opt_flag("--threads"@, c.threads);
    let o = option_args_spec(c);
    assert(o == g + m + cr + fl + th);
    if c.n_gpu_layers >= 0 {
        lemma_decimal_starts_with_digit(c.n_gpu_layers as nat);
    }
    if let Some(n) = c.n_cpu_moe {
        lemma_decimal_starts_with_digit(n as nat);
    }
    if let Some(n) = c.cache_ram {
        lemma_decimal_starts_with_digit(n as nat);
    }
    if let Some(n) = c.threads {
        lemma_decimal_starts_with_digit(n as nat);
    }
    assert("--flash-attn"@.len() == 12 && "--flash-attn"@[0] == '-' && "--flash-attn"@[2] == 'f');
    assert("--cpu-moe"@.len() == 9 && "--cpu-moe"@[0] == '-' && "--cpu-moe"@[2] == 'c');
    assert("--threads"@.len() == 9 && "--threads"@[0] == '-' && "--threads"@[2] == 't');
    assert("--cache-ram"@.len() == 11 && "--cache-ram"@[0] == '-' && "--cache-ram"@[2] == 'c');
    assert("--n-gpu-layers"@.len() == 14 && "--n-gpu-layers"@[0] == '-' && "--n-gpu-layers"@[2] == 'n');
    assert("--n-cpu-moe"@.len() == 11 && "--n-cpu-moe"@[0] == '-' && "--n-cpu-moe"@[2] == 'n');
    assert("on"@[0] == 'o');
    let i_m: int = g.len() as int;
    let i_cr: int = i_m + m.len();
    let i_fl: int = i_cr + cr.len();
    let i_th: int = i_fl + fl.len();
    assert forall|k: int| 0 <= k < o.len() implies {
        &&& (o[k] == "--flash-attn"@ ==> c.flash_attention)
        &&& (o[k] == "--cpu-moe"@ ==> c.cpu_moe)
        &&& (o[k] == "--threads"@ ==> c.threads is Some)
        &&& (o[k] == "--cache-ram"@ ==> c.cache_ram is Some)
        &&& (o[k] == "--n-gpu-layers"@ ==> c.n_gpu_layers >= 0)
    } by {
        if k < i_m {
            assert(o[k] == g[k]);
        } else if k < i_cr {
            assert(o[k] == m[k - i_m]);
        } else if k < i_fl {
            assert(o[k] == cr[k - i_cr]);
        } else if k < i_th {
            assert(o[k] == fl[k - i_fl]);
        } else {
            assert(o[k] == th[k - i_th]);
        }
    }
    if c.flash_attention {
        assert(o[i_fl] == "--flash-attn"@);
    }
    if c.cpu_moe {
        assert(o[i_m] == "--cpu-moe"@);
    }
    if c.threads is Some {
        assert(o[i_th] == "--threads"@);
    }
    if c.cache_ram is Some {
        assert(o[i_cr] == "--cache-ram"@);
    }
    if c.n_gpu_layers >= 0 {
        assert(o[0] == "--n-gpu-layers"@);
    }
}

pub open spec fn strs(v: Vec<String>) -> Seq<Seq<char>> {
    v@.map_values(|a: String| a@)
}

fn push_lit(args: &mut Vec<String>, lit: &str)
    ensures
        strs(*final(args)) == strs(*old(args)).push(lit@),
{
    args.push(string_of(chars_of(lit).as_slice()));
    assert(strs(*args) =~= strs(*old(args)).push(lit@));
}

fn push_num(args: &mut Vec<String>, n: u64)
    ensures
        strs(*final(args)) == strs(*old(args)).push(decimal(n as nat)),
{
    args.push(string_of(decimal_chars(n).as_slice()));
    assert(strs(*args) =~= strs(*old(args)).push(decimal(n as nat)));
}

fn push_opt(args: &mut Vec<String>, flag: &str, v: Option<u32>)
    ensures
        strs(*final(args)) == strs(*old(args)) + opt_flag(flag@, v),
{
    if let Some(n) = v {
        push_lit(args, flag);
        push_num(args, n as u64);
    }
    assert(strs(*args) =~= strs(*old(args)) + opt_flag(flag@, v));
}

fn base_args(config: &LlamaServerConfig) -> (args: Vec<String>)
    ensures
        strs(args) == base_args_spec(*config),
{
    let mut args: Vec<String> = Vec::new();
    push_lit(&mut args, "--model");
    let ghost a0 = strs(args);
    args.push(config.model_path.clone());
    assert(strs(args) =~= a0.push(config.model_path@));
    push_lit(&mut args, "--host");
    push_lit(&mut args, "127.0.0.1");
    push_lit(&mut args, "--port");
    push_num(&mut args, config.port as u64);
    push_lit(&mut args, "--ctx-size");
    push_num(&mut args, config.ctx_size as u64);
    push_lit(&mut args, "--cache-type-k");
    push_lit(&mut args, config.cache_type_k.as_flag());
    push_lit(&mut args, "--cache-type-v");
    push_lit(&mut args, config.cache_type_v.as_flag());
    push_lit(&mut args, "--parallel");
    push_num(&mut args, config.parallel as u64);
    push_lit(&mut args, "--jinja");
    assert(strs(args) =~= base_args_spec(*config));
    args
}

#[verifier::spinoff_prover]
#[verifier::rlimit(40)]
fn push_option_args(args: &mut Vec<String>, config: &LlamaServerConfig)
    ensures
        strs(*final(args)) == strs(*old(args)) + option_args_spec(*config),
{
    let ghost s0 = strs(*args);
    if config.n_gpu_layers >= 0 {
        push_lit(args, "--n-gpu-layers");
        push_num(args, config.n_gpu_layers as u64);
    }
    let ghost s1 = strs(*args);
    if config.cpu_moe {
        push_lit(args, "--cpu-moe");
    } else {
        push_opt(args, "--n-cpu-moe", config.n_cpu_moe);
    }
    let ghost s2 = strs(*args);
    push_opt(args, "--cache-ram", config.cache_ram);
    let ghost s3 = strs(*args);
    if config.flash_attention {
        push_lit(args, "--flash-attn");
        push_lit(args, "on");
    }
    let ghost s4 = strs(*args);
    push_opt(args, "--threads", config.threads);
    proof {
        let g = if config.n_gpu_layers >= 0 { seq!["--n-gpu-layers"@, decimal(config.n_gpu_layers as nat)] } else { Seq::<Seq<char>>::empty() };
        let m = if config.cpu_moe { seq!["--cpu-moe"@] } else { opt_flag("--n-cpu-moe"@, config.n_cpu_moe) };
        let f = if config.flash_attention { seq!["--flash-attn"@, "on"@] } else { Seq::<Seq<char>>::empty() };
        assert(s1 =~= s0 + g);
        assert(s2 =~= s1 + m);
        assert(s4 =~= s3 + f);
        assert(strs(*args) =~= s0 + option_args_spec(*config));
    }
}

/// Build the llama-server command line for a model configuration.
pub fn build_cli_args(config: &LlamaServerConfig) -> (args: Vec<String>)
    ensures
        strs(args) == cli_args_spec(*config),
{
    let mut args = base_args(config);
    push_option_args(&mut args, config);
    let ghost s5 = strs(args);
    let mut i: usize = 0;
    while i < config.extra_flags.len()
        invariant
            i <= config.extra_flags@.len(),
            strs(args) == s5 + config.extra_flags@.map_values(|f: String| f@).subrange(0, i as int),
        decreases config.extra_flags@.len() - i,
    {
        let ghost before = strs(args);
        args.push(config.extra_flags[i].clone());
        assert(strs(args) =~= before.push(config.extra_flags@[i as int]@));
        assert(config.extra_flags@.map_values(|f: String| f@).subrange(0, i + 1) =~= config.extra_flags@.map_values(|f: String| f@).subrange(0, i as int).push(config.extra_flags@[i as int]@));
        i += 1;
    }
    proof {
        assert(config.extra_flags@.map_values(|f: String| f@).subrange(0, i as int) =~= config.extra_flags@.map_values(|f: String| f@));
        assert(strs(args) =~= cli_args_spec(*config));
    }
    args
}

/// KV-cache bytes per element ×100 of a cache-type flag value (unknown
/// values count as f16).
pub open spec fn cache_bytes_x100_spec(flag: Seq<char>) -> u64 {
    if flag == "f32"@ {
        400
    } else if flag == "f16"@ || flag == "bf16"@ {
        200
    } else if flag == "q8_0"@ {
        106
    } else if flag == "q5_0"@ || flag == "q5_1"@ {
        69
    } else if flag == "q4_0"@ || flag == "q4_1"@ || flag == "iq4_nl"@ {
        56
    } else {
        200
    }
}

/// KV-cache bytes per element ×100 for a cache-type flag value.
pub fn cache_type_bytes_x100(flag: &str) -> (r: u64)
    ensures
        r == cache_bytes_x100_spec(flag@),
{
    let f = chars_of(flag);
    let f = f.as_slice();
    if chars_eq_str(f, "f32") {
        400
    } else if chars_eq_str(f, "f16") || chars_eq_str(f, "bf16") {
        200
    } else if chars_eq_str(f, "q8_0") {
        106
    } else if chars_eq_str(f, "q5_0") || chars_eq_str(f, "q5_1") {
        69
    } else if chars_eq_str(f, "q4_0") || chars_eq_str(f, "q4_1") || chars_eq_str(f, "iq4_nl") {
        56
    } else {
        200
    }
}

} // verus!

verus! {

// ---------------------------------------------------------------------------
// VRAM estimate
// ---------------------------------------------------------------------------

/// Bytes in a MiB.
pub const MIB: u64 = 1048576;

/// Fixed driver allocation beyond weights and KV cache, in MiB.
pub const VRAM_CUDA_OVERHEAD_MB: u64 = 400;

/// Free VRAM kept above the incoming model's estimate, in MiB.
pub const VRAM_HEADROOM_MB: u64 = 512;

/// Usable VRAM assumed when the GPU cannot be queried, in MiB.
pub const VRAM_FALLBACK_BUDGET_MB: u64 = 15360;

/// Most models evicted for one start.
pub const VRAM_MAX_EVICTIONS: u32 = 6;

/// `a * b`, saturating at `u64::MAX`.
pub open spec fn sat_mul(a: int, b: int) -> int {
    if a * b > u64::MAX {
        u64::MAX as int
    } else {
        a * b
    }
}

fn sat_mul_u64(a: u64, b: u64) -> (r: u64)
    ensures
        r == sat_mul(a as int, b as int),
{
    match a.checked_mul(b) {
        Some(p) => p,
        None => u64::MAX,
    }
}

/// KV-cache MiB of a model: layers × KV heads × head size × context tokens
/// × the K and V widths, from the GGUF header; an eighth of the weights when
/// the header is missing or lacks the sizes.
pub open spec fn kv_mb_spec(meta: Option<crate::gguf::GgufMeta>, ctx: u32, bk: u64, bv: u64, weights_mb: u64) -> int {
    match meta {
        Some(m) => {
            let nl = match m.n_layers { Some(v) => v as int, None => 0 };
            let nh = match m.n_head { Some(v) => v as int, None => 0 };
            let nkv0 = match m.n_head_kv { Some(v) => v as int, None => nh };
            let nkv = if nkv0 < 1 { 1 } else { nkv0 };
            let ne = match m.n_embd { Some(v) => v as int, None => 0 };
            if nl > 0 && nh > 0 && ne > 0 {
                let hd = ne / nh;
                let e = sat_mul(sat_mul(sat_mul(nl, nkv), hd), ctx as int);
                sat_mul(e, bk + bv) / 100 / (MIB as int)
            } else {
                (weights_mb / 8) as int
            }
        },
        None => (weights_mb / 8) as int,
    }
}

/// Estimated VRAM (MiB) of `config`'s model: its file size (weights) plus
/// its KV cache plus the fixed overhead. `weights_bytes` is the model file's
/// size when it could be read; `meta` its GGUF header when it parsed.
pub fn estimate_vram_mb(config: &LlamaServerConfig, weights_bytes: Option<u64>, meta: Option<crate::gguf::GgufMeta>) -> (r: u64)
    ensures
        r == (match weights_bytes { Some(b) => b / MIB, None => 0 }) + kv_mb_spec(
            meta,
            config.ctx_size,
            cache_bytes_x100_spec(kv_flag(config.cache_type_k)),
            cache_bytes_x100_spec(kv_flag(config.cache_type_v)),
            match weights_bytes { Some(b) => b / MIB, None => 0 },
        ) + VRAM_CUDA_OVERHEAD_MB,
{
    let weights_mb: u64 = match weights_bytes {
        Some(b) => b / MIB,
        None => 0,
    };
    let bk = cache_type_bytes_x100(config.cache_type_k.as_flag());
    let bv = cache_type_bytes_x100(config.cache_type_v.as_flag());
    let kv_mb: u64 = match meta {
        Some(m) => {
            let nl: u64 = match m.n_layers { Some(v) => v as u64, None => 0 };
            let nh32: u32 = match m.n_head { Some(v) => v, None => 0 };
            let nh = nh32 as u64;
            let nkv32: u32 = match m.n_head_kv { Some(v) => v, None => nh32 };
            let nkv: u64 = if nkv32 < 1 { 1 } else { nkv32 as u64 };
            let ne: u64 = match m.n_embd { Some(v) => v as u64, None => 0 };
            if nl > 0 && nh > 0 && ne > 0 {
                let hd = ne / nh;
                let e = sat_mul_u64(sat_mul_u64(sat_mul_u64(nl, nkv), hd), config.ctx_size as u64);
                sat_mul_u64(e, bk + bv) / 100 / MIB
            } else {
                weights_mb / 8
            }
        },
        None => weights_mb / 8,
    };
    assert(kv_mb <= u64::MAX / 100 / MIB || kv_mb <= weights_mb / 8);
    weights_mb + kv_mb + VRAM_CUDA_OVERHEAD_MB
}

/// Whether a model needing `need` MiB fits in `free` MiB with the headroom.
pub fn fits_in_vram(need: u64, free: u64) -> (r: bool)
    ensures
        r == (need + VRAM_HEADROOM_MB <= free),
{
    need as u128 + VRAM_HEADROOM_MB as u128 <= free as u128
}

/// Sum of the estimates of the residents other than `exclude`.
pub open spec fn others_sum(residents: Seq<(String, u64)>, exclude: Seq<char>) -> int
    decreases residents.len(),
{
    if residents.len() == 0 {
        0
    } else {
        let rest = others_sum(residents.drop_last(), exclude);
        if residents.last().0@ == exclude {
            rest
        } else {
            rest + residents.last().1
        }
    }
}

/// Free VRAM assumed when the GPU cannot be queried: the fallback budget
/// less the estimates of the managed models other than `exclude`, not below
/// zero. `residents` pairs each managed model with its estimate.
pub fn fallback_free_mb(residents: &Vec<(String, u64)>, exclude: &str) -> (r: u64)
    ensures
        r == (if others_sum(residents@, exclude@) <= VRAM_FALLBACK_BUDGET_MB {
            VRAM_FALLBACK_BUDGET_MB - others_sum(residents@, exclude@)
        } else {
            0
        }),
{
    let ex = chars_of(exclude);
    let mut used: u128 = 0;
    let mut i: usize = 0;
    assert(residents@.subrange(0, 0) =~= Seq::<(String, u64)>::empty());
    while i < residents.len()
        invariant
            i <= residents.len(),
            ex@ == exclude@,
            used == others_sum(residents@.subrange(0, i as int), exclude@),
            used <= i * 0xffff_ffff_ffff_ffffu128,
        decreases residents.len() - i,
    {
        proof {
            let s = residents@.subrange(0, i + 1);
            assert(s.drop_last() =~= residents@.subrange(0, i as int));
            assert(i < 0x1_0000_0000_0000_0000int);
        }
        let c = chars_of(residents[i].0.as_str());
        if !crate::text::chars_eq(c.as_slice(), ex.as_slice()) {
            used = used + residents[i].1 as u128;
        }
        i += 1;
    }
    assert(residents@.subrange(0, residents.len() as int) =~= residents@);
    if used > VRAM_FALLBACK_BUDGET_MB as u128 {
        0
    } else {
        VRAM_FALLBACK_BUDGET_MB - used as u64
    }
}

/// `b` is the resident evicted to make room for `model_id`: a model other
/// than it with the largest estimate, the last of equal ones (as
/// `Iterator::max_by_key` picks).
pub open spec fn is_victim(residents: Seq<(String, u64)>, model_id: Seq<char>, b: int) -> bool {
    &&& 0 <= b < residents.len()
    &&& residents[b].0@ != model_id
    &&& forall|i: int| 0 <= i < residents.len() && residents[i].0@ != model_id ==> residents[i].1 <= residents[b].1
    &&& forall|i: int| b < i < residents.len() && residents[i].0@ != model_id ==> residents[i].1 < residents[b].1
}

/// The resident to evict for `model_id`; `None` when no other model is
/// managed.
pub fn eviction_victim(residents: &Vec<(String, u64)>, model_id: &str) -> (r: Option<usize>)
    ensures
        match r {
            Some(b) => is_victim(residents@, model_id@, b as int),
            None => forall|i: int| 0 <= i < residents.len() ==> residents@[i].0@ == model_id@,
        },
{
    let me = chars_of(model_id);
    let mut best: Option<usize> = None;
    let mut i: usize = 0;
    while i < residents.len()
        invariant
            i <= residents.len(),
            me@ == model_id@,
            match best {
                Some(b) => {
                    &&& b < i
                    &&& residents@[b as int].0@ != model_id@
                    &&& forall|j: int| 0 <= j < i && residents@[j].0@ != model_id@ ==> residents@[j].1 <= residents@[b as int].1
                    &&& forall|j: int| b < j < i && residents@[j].0@ != model_id@ ==> residents@[j].1 < residents@[b as int].1
                },
                None => forall|j: int| 0 <= j < i ==> residents@[j].0@ == model_id@,
            },
        decreases residents.len() - i,
    {
        let c = chars_of(residents[i].0.as_str());
        if !crate::text::chars_eq(c.as_slice(), me.as_slice()) {
            let take = match best {
                Some(b) => residents[i].1 >= residents[b].1,
                None => true,
            };
            if take {
                best = Some(i);
            }
        }
        i += 1;
    }
    best
}

/// One round of the VRAM guard before a start.
#[derive(Clone, Copy, Debug, PartialEq, Eq, Structural)]
pub enum VramDecision {
    /// The model fits: start it.
    Fits,
    /// Evict the resident at this index, then measure again.
    Evict(usize),
    /// Nothing left to evict, or the round limit is reached: start anyway.
    Proceed,
}

/// Round `round` (from 0) of the guard, given the model's estimate, the
/// free VRAM measured now, and the managed residents with their estimates.
pub fn vram_guard_round(need: u64, free: u64, residents: &Vec<(String, u64)>, model_id: &str, round: u32) -> (r: VramDecision)
    ensures
        round >= VRAM_MAX_EVICTIONS ==> r == VramDecision::Proceed,
        round < VRAM_MAX_EVICTIONS && need + VRAM_HEADROOM_MB <= free ==> r == VramDecision::Fits,
        round < VRAM_MAX_EVICTIONS && need + VRAM_HEADROOM_MB > free ==> match r {
            VramDecision::Evict(b) => is_victim(residents@, model_id@, b as int),
            VramDecision::Proceed => forall|i: int| 0 <= i < residents.len() ==> residents@[i].0@ == model_id@,
            VramDecision::Fits => false,
        },
{
    if round >= VRAM_MAX_EVICTIONS {
        return VramDecision::Proceed;
    }
    if fits_in_vram(need, free) {
        return VramDecision::Fits;
    }
    match eviction_victim(residents, model_id) {
        Some(b) => VramDecision::Evict(b),
        None => VramDecision::Proceed,
    }
}

/// Free VRAM reported by `nvidia-smi --query-gpu=memory.free`: the first
/// line of its output, trimmed, as a number of MiB.
pub fn gpu_free_from_output(stdout: &[u8]) -> (r: Option<u64>)
    ensures
        r == if crate::compaction::str_lines(crate::text::utf8_lossy(stdout@)).len() == 0 {
            None
        } else {
            crate::text::u64_from_text(crate::vault::trim_ws(
                crate::compaction::str_lines(crate::text::utf8_lossy(stdout@))[0],
            ))
        },
{
    let text = crate::text::decode_lossy(stdout);
    let lines = crate::compaction::lines_of(text.as_slice());
    if lines.len() == 0 {
        return None;
    }
    let first = chars_of(lines[0].as_str());
    let t = crate::vault::trim_chars(first.as_slice());
    crate::text::parse_u64(t.as_slice())
}

// ---------------------------------------------------------------------------
// Auto-restart budget
// ---------------------------------------------------------------------------

/// Most auto-restarts of one model within a window.
pub const MAX_RESTART_ATTEMPTS: u32 = 3;

/// Length of the restart window in nanoseconds (60 s).
pub const RESTART_WINDOW_NS: u128 = 60_000_000_000;

/// Auto-restarts of one model in the current window, and when the window
/// began (monotonic clock, nanoseconds).
#[derive(Clone, Copy, Debug, PartialEq, Eq, Structural)]
pub struct RestartInfo {
    pub attempts: u32,
    pub window_start_ns: u128,
}

/// One attempt: a window older than [`RESTART_WINDOW_NS`] starts afresh;
/// then the attempt is allowed and counted while fewer than
/// [`MAX_RESTART_ATTEMPTS`] were made in the window.
pub open spec fn restart_step(info: Option<RestartInfo>, now_ns: u128) -> (RestartInfo, bool) {
    let i0 = match info {
        Some(i) => i,
        None => RestartInfo { attempts: 0, window_start_ns: now_ns },
    };
    let elapsed = if now_ns >= i0.window_start_ns { now_ns - i0.window_start_ns } else { 0 };
    let i1 = if elapsed > RESTART_WINDOW_NS {
        RestartInfo { attempts: 0, window_start_ns: now_ns }
    } else {
        i0
    };
    if i1.attempts >= MAX_RESTART_ATTEMPTS {
        (i1, false)
    } else {
        (RestartInfo { attempts: (i1.attempts + 1) as u32, window_start_ns: i1.window_start_ns }, true)
    }
}

/// Records an auto-restart attempt at `now_ns` and says whether it is
/// allowed.
pub fn register_restart_attempt(info: Option<RestartInfo>, now_ns: u128) -> (r: (RestartInfo, bool))
    requires
        info matches Some(i) ==> i.attempts <= MAX_RESTART_ATTEMPTS,
    ensures
        r == restart_step(info, now_ns),
        r.0.attempts <= MAX_RESTART_ATTEMPTS,
{
    let i0 = match info {
        Some(i) => i,
        None => RestartInfo { attempts: 0, window_start_ns: now_ns },
    };
    let elapsed = if now_ns >= i0.window_start_ns { now_ns - i0.window_start_ns } else { 0 };
    let i1 = if elapsed > RESTART_WINDOW_NS {
        RestartInfo { attempts: 0, window_start_ns: now_ns }
    } else {
        i0
    };
    if i1.attempts >= MAX_RESTART_ATTEMPTS {
        (i1, false)
    } else {
        (RestartInfo { attempts: i1.attempts + 1, window_start_ns: i1.window_start_ns }, true)
    }
}

/// The budget after attempts at the given times, from no record.
pub open spec fn restarts_after(times: Seq<u128>) -> Option<RestartInfo>
    decreases times.len(),
{
    if times.len() == 0 {
        None
    } else {
        Some(restart_step(restarts_after(times.drop_last()), times.last()).0)
    }
}

/// Number of the attempts at the given times that were allowed.
pub open spec fn restarts_allowed(times: Seq<u128>) -> int
    decreases times.len(),
{
    if times.len() == 0 {
        0
    } else {
        restarts_allowed(times.drop_last()) + if restart_step(restarts_after(times.drop_last()), times.last()).1 {
            1int
        } else {
            0int
        }
    }
}

/// A model that keeps crashing is restarted at most three times while its
/// attempts stay within one window of the first: attempts at
/// non-decreasing times, none more than [`RESTART_WINDOW_NS`] after the
/// first, are allowed at most [`MAX_RESTART_ATTEMPTS`] times.
pub proof fn lemma_restarts_capped_per_window(times: Seq<u128>)
    requires
        times.len() > 0,
        forall|i: int, j: int| 0 <= i <= j < times.len() ==> times[i] <= times[j],
        forall|i: int| 0 <= i < times.len() ==> #[trigger] times[i] - times[0] <= RESTART_WINDOW_NS,
    ensures
        restarts_allowed(times) <= MAX_RESTART_ATTEMPTS,
        restarts_after(times) matches Some(r) && r.window_start_ns == times[0]
            && r.attempts == restarts_allowed(times),
    decreases times.len(),
{
    let n = times.len() - 1;
    let p = times.drop_last();
    let prev = restarts_after(p);
    let step = restart_step(prev, times.last());
    assert(restarts_after(times) == Some(step.0));
    assert(restarts_allowed(times) == restarts_allowed(p) + if step.1 { 1int } else { 0int });
    if times.len() == 1 {
        assert(p =~= Seq::<u128>::empty());
        assert(prev is None);
        assert(restarts_allowed(p) == 0);
        assert(times.last() == times[0]);
    } else {
        assert forall|i: int, j: int| 0 <= i <= j < p.len() implies p[i] <= p[j] by {
            assert(p[i] == times[i] && p[j] == times[j]);
        }
        assert forall|i: int| 0 <= i < p.len() implies #[trigger] p[i] - p[0] <= RESTART_WINDOW_NS by {
            assert(p[i] == times[i]);
            assert(times[i] - times[0] <= RESTART_WINDOW_NS);
        }
        lemma_restarts_capped_per_window(p);
        assert(p[0] == times[0]);
        assert(times[n] - times[0] <= RESTART_WINDOW_NS);
        assert(times[0] <= times[n]);
        assert(times.last() == times[n]);
    }
}

// ---------------------------------------------------------------------------
// Bookkeeping of managed processes
// ---------------------------------------------------------------------------

/// One managed server as recorded for orphan recovery.
#[derive(Clone, Debug)]
pub struct PidEntry {
    pub model_id: String,
    pub pid: u32,
    pub port: u16,
}

/// The entries whose process id is listed in `pids` (`keep_listed`) or
/// whose is not (`!keep_listed`), in order.
pub open spec fn retained(entries: Seq<PidEntry>, pids: Seq<u32>, keep_listed: bool) -> Seq<PidEntry>
    decreases entries.len(),
{
    if entries.len() == 0 {
        Seq::empty()
    } else {
        let rest = retained(entries.drop_first(), pids, keep_listed);
        if pids.contains(entries[0].pid) == keep_listed {
            seq![entries[0]] + rest
        } else {
            rest
        }
    }
}

/// The record after a stop (drop the stopped process), after crashes (keep
/// the processes still alive) or after killing all (drop the killed ones).
pub fn retain_pids(entries: Vec<PidEntry>, pids: &[u32], keep_listed: bool) -> (r: Vec<PidEntry>)
    ensures
        r@ == retained(entries@, pids@, keep_listed),
{
    let mut out: Vec<PidEntry> = Vec::new();
    let mut rest = entries;
    let ghost all = rest@;
    assert(out@ + retained(rest@, pids@, keep_listed) =~= retained(all, pids@, keep_listed));
    while rest.len() > 0
        invariant
            out@ + retained(rest@, pids@, keep_listed) == retained(all, pids@, keep_listed),
        decreases rest.len(),
    {
        let ghost before = rest@;
        let e = rest.remove(0);
        assert(rest@ =~= before.drop_first());
        let mut listed = false;
        let mut k: usize = 0;
        while k < pids.len()
            invariant
                k <= pids.len(),
                listed == exists|j: int| 0 <= j < k && pids@[j] == e.pid,
            decreases pids.len() - k,
        {
            if pids[k] == e.pid {
                listed = true;
            }
            k += 1;
        }
        proof {
            if listed {
                let j = choose|j: int| 0 <= j < pids.len() && pids@[j] == e.pid;
                assert(pids@.contains(e.pid));
            } else {
                assert(!pids@.contains(e.pid));
            }
        }
        let ghost o = out@;
        if listed == keep_listed {
            out.push(e);
            assert(out@ + retained(rest@, pids@, keep_listed) =~= o + retained(before, pids@, keep_listed));
        }
    }
    assert(out@ + retained(rest@, pids@, keep_listed) =~= out@);
    out
}

/// Payload of the `llm.process.*` envelopes.
#[derive(Clone, Debug)]
pub struct ProcessPayload {
    pub model_id: String,
    pub pid: u32,
    pub port: u16,
    /// Exit code or eviction reason, when there is one.
    pub exit_info: Option<String>,
}

/// A model id made safe for a file name: ASCII letters, digits, `-` and `_`
/// kept, anything else replaced by `_`.
pub open spec fn safe_name(id: Seq<char>) -> Seq<char> {
    id.map_values(|c: char| if ('a' <= c <= 'z') || ('A' <= c <= 'Z') || ('0' <= c <= '9') || c == '-' || c == '_' { c } else { '_' })
}

/// Name of a model's server log: `llama-<safe id>-<port>.log`.
pub fn log_file_name(model_id: &str, port: u16) -> (r: String)
    ensures
        r@ == "llama-"@ + safe_name(model_id@) + seq!['-'] + decimal(port as nat) + ".log"@,
{
    let id = chars_of(model_id);
    let mut v = chars_of("llama-");
    let mut i: usize = 0;
    let ghost v0 = v@;
    while i < id.len()
        invariant
            i <= id.len(),
            v@ == v0 + safe_name(id@).subrange(0, i as int),
        decreases id.len() - i,
    {
        let c = id[i];
        let keep = ('a' <= c && c <= 'z') || ('A' <= c && c <= 'Z') || ('0' <= c && c <= '9') || c == '-' || c == '_';
        v.push(if keep { c } else { '_' });
        i += 1;
        assert(v@ =~= v0 + safe_name(id@).subrange(0, i as int));
    }
    v.push('-');
    let mut p = decimal_chars(port as u64);
    v.append(&mut p);
    let mut ext = chars_of(".log");
    v.append(&mut ext);
    proof {
        reveal_strlit("llama-");
        reveal_strlit(".log");
        assert(safe_name(id@).subrange(0, id.len() as int) =~= safe_name(id@));
        assert(v@ =~= "llama-"@ + safe_name(model_id@) + seq!['-'] + decimal(port as nat) + ".log"@);
    }
    string_of(v.as_slice())
}

/// Whether a running server must restart to take a new configuration: the
/// launch arguments it was started with differ from those of the new one.
/// `None` when the model is not running.
pub fn apply_decision(running: Option<&LlamaServerConfig>, new_config: &LlamaServerConfig) -> (r: Option<bool>)
    ensures
        match running {
            None => r is None,
            Some(c) => r == Some(cli_args_spec(*c) != cli_args_spec(*new_config)),
        },
{
    match running {
        None => None,
        Some(c) => {
            let a = build_cli_args(c);
            let b = build_cli_args(new_config);
            Some(!strings_equal(&a, &b))
        },
    }
}

fn strings_equal(a: &Vec<String>, b: &Vec<String>) -> (r: bool)
    ensures
        r == (strs(*a) == strs(*b)),
{
    if a.len() != b.len() {
        assert(strs(*a).len() != strs(*b).len());
        return false;
    }
    let mut i: usize = 0;
    while i < a.len()
        invariant
            i <= a.len() == b.len(),
            forall|j: int| 0 <= j < i ==> a@[j]@ == b@[j]@,
        decreases a.len() - i,
    {
        let x = chars_of(a[i].as_str());
        let y = chars_of(b[i].as_str());
        if !crate::text::chars_eq(x.as_slice(), y.as_slice()) {
            assert(strs(*a)[i as int] != strs(*b)[i as int]);
            return false;
        }
        i += 1;
    }
    assert(strs(*a) =~= strs(*b));
    true
}

} // verus!
