//! Configuration model: the settings sections and their defaults. Reading
//! and writing the TOML file is done by the host.
use vstd::prelude::*;
use crate::text::{chars_of, string_of};

verus! {

/// Default filesystem ignore patterns used by both the watcher and the tree
/// walk.
pub const DEFAULT_IGNORE_GLOBS: [&'static str; 11] = [
    ".git",
    ".git/**",
    "node_modules",
    "node_modules/**",
    "target",
    "target/**",
    "dist",
    "dist/**",
    ".svelte-kit",
    ".svelte-kit/**",
    "*.log",
];

/// Default filesystem tree walk depth.
pub const FS_CONFIG_DEFAULT_MAX_DEPTH: u32 = 6;

} // verus!

verus! {

/// A recently used project entry.
#[derive(Clone, Debug)]
pub struct ProjectEntry {
    /// Display name (defaults to the directory basename).
    pub name: String,
    /// Absolute, canonicalized project directory (path text).
    pub path: String,
    /// Unix epoch milliseconds of the last use.
    pub last_used_ms: u64,
}

/// Filesystem-watcher and tree-walk configuration.
#[derive(Clone, Debug)]
pub struct FsConfig {
    /// Glob patterns of relative paths that are skipped.
    pub ignore_globs: Vec<String>,
    /// Maximum directory depth for tree walks.
    pub max_depth: u32,
}

impl Default for FsConfig {
    fn default() -> (c: Self)
        ensures
            c.ignore_globs@.len() == 11,
            forall|i: int| 0 <= i < 11 ==> (#[trigger] c.ignore_globs@[i])@ == DEFAULT_IGNORE_GLOBS[i]@,
            c.max_depth == FS_CONFIG_DEFAULT_MAX_DEPTH,
    {
        let mut globs: Vec<String> = Vec::new();
        let mut i: usize = 0;
        while i < 11
            invariant
                i <= 11,
                globs@.len() == i,
                forall|k: int| 0 <= k < i ==> (#[trigger] globs@[k])@ == DEFAULT_IGNORE_GLOBS[k]@,
            decreases 11 - i,
        {
            let g: &str = DEFAULT_IGNORE_GLOBS[i];
            globs.push(string_of(chars_of(g).as_slice()));
            i += 1;
        }
        FsConfig { ignore_globs: globs, max_depth: FS_CONFIG_DEFAULT_MAX_DEPTH }
    }
}

/// Detached cockpit window position and size.
#[derive(Clone, Copy, Debug)]
pub struct DetachedPos {
    pub x: i32,
    pub y: i32,
    pub width: u32,
    pub height: u32,
}

/// Cockpit GUI configuration.
#[derive(Clone, Copy, Debug)]
pub struct CockpitConfig {
    /// Detached cockpit window position / size.
    pub detached_pos: Option<DetachedPos>,
}

impl Default for CockpitConfig {
    fn default() -> (c: Self)
        ensures
            c.detached_pos is None,
    {
        CockpitConfig { detached_pos: None }
    }
}

/// Index graph node label visibility.
#[derive(Clone, Copy, Debug, PartialEq, Eq, Structural)]
#[non_exhaustive]
pub enum IndexLabelVisibility {
    Always,
    HoverOnly,
    OnZoom2x,
    Unknown,
}

impl Default for IndexLabelVisibility {
    fn default() -> (v: Self)
        ensures
            v == IndexLabelVisibility::Always,
    {
        IndexLabelVisibility::Always
    }
}

/// Index graph cluster density.
#[derive(Clone, Copy, Debug, PartialEq, Eq, Structural)]
#[non_exhaustive]
pub enum IndexDensity {
    Compact,
    Standard,
    Spacious,
    Unknown,
}

impl Default for IndexDensity {
    fn default() -> (v: Self)
        ensures
            v == IndexDensity::Standard,
    {
        IndexDensity::Standard
    }
}

/// Severity threshold for notification tabs.
#[derive(Clone, Copy, Debug, PartialEq, Eq, Structural)]
#[non_exhaustive]
pub enum SeverityLevel {
    Debug,
    Info,
    Warn,
    Error,
    Unknown,
}

impl Default for SeverityLevel {
    fn default() -> (v: Self)
        ensures
            v == SeverityLevel::Info,
    {
        SeverityLevel::Info
    }
}

/// Notification filter configuration.
#[derive(Clone, Debug)]
pub struct NotifFilterConfig {
    /// Threshold for tabs not listed in `per_tab`.
    pub default_threshold: SeverityLevel,
    /// Per-tab threshold overrides keyed by tab id.
    pub per_tab: std::collections::HashMap<String, SeverityLevel>,
}

impl Default for NotifFilterConfig {
    fn default() -> (c: Self)
        ensures
            c.default_threshold == SeverityLevel::Info,
            c.per_tab@ == Map::<String, SeverityLevel>::empty(),
    {
        NotifFilterConfig {
            default_threshold: SeverityLevel::Info,
            per_tab: std::collections::HashMap::new(),
        }
    }
}

/// Session event persistence configuration.
#[derive(Clone, Copy, Debug)]
pub struct SessionConfig {
    pub enabled: bool,
    pub retention_days: u32,
    pub max_file_size_mb: u32,
    pub idle_compact_after_minutes: u32,
    pub keep_suffix_events: usize,
    pub restore_on_startup: bool,
    pub snapshot_interval_seconds: u32,
}

impl Default for SessionConfig {
    fn default() -> (c: Self)
        ensures
            c == (SessionConfig {
                enabled: true,
                retention_days: 7,
                max_file_size_mb: 100,
                idle_compact_after_minutes: 0,
                keep_suffix_events: 100,
                restore_on_startup: false,
                snapshot_interval_seconds: 30,
            }),
    {
        SessionConfig {
            enabled: true,
            retention_days: 7,
            max_file_size_mb: 100,
            idle_compact_after_minutes: 0,
            keep_suffix_events: 100,
            restore_on_startup: false,
            snapshot_interval_seconds: 30,
        }
    }
}

/// MCP server configuration.
#[derive(Clone, Copy, Debug)]
pub struct McpConfig {
    pub enabled: bool,
    pub allow_inspection: bool,
    pub allow_js_eval: bool,
    pub allow_mutations: bool,
}

impl Default for McpConfig {
    fn default() -> (c: Self)
        ensures
            !c.enabled && !c.allow_inspection && !c.allow_js_eval && !c.allow_mutations,
    {
        McpConfig { enabled: false, allow_inspection: false, allow_js_eval: false, allow_mutations: false }
    }
}

/// Filesystem tree display configuration.
#[derive(Clone, Copy, Debug)]
pub struct TreeConfig {
    pub heatmap_enabled: bool,
    pub heatmap_window_minutes: u32,
}

impl Default for TreeConfig {
    fn default() -> (c: Self)
        ensures
            !c.heatmap_enabled,
            c.heatmap_window_minutes == 15,
    {
        TreeConfig { heatmap_enabled: false, heatmap_window_minutes: 15 }
    }
}

/// Status line segment visibility and color overrides.
#[derive(Clone, Debug)]
pub struct StatusLineConfig {
    pub show_dir: bool,
    pub show_git: bool,
    pub show_repo: bool,
    pub show_session: bool,
    pub show_skill: bool,
    pub show_thinking: bool,
    pub show_effort: bool,
    pub show_model: bool,
    pub show_ctx: bool,
    pub show_session_use: bool,
    pub show_week: bool,
    pub show_cost: bool,
    /// Per-segment CSS color overrides.
    pub color_overrides: std::collections::HashMap<String, String>,
}

impl Default for StatusLineConfig {
    fn default() -> (c: Self)
        ensures
            c.show_dir && c.show_git && c.show_repo && c.show_session && c.show_skill
                && c.show_thinking && c.show_effort && c.show_model && c.show_ctx
                && c.show_session_use && c.show_week && c.show_cost,
            c.color_overrides@ == Map::<String, String>::empty(),
    {
        StatusLineConfig {
            show_dir: true,
            show_git: true,
            show_repo: true,
            show_session: true,
            show_skill: true,
            show_thinking: true,
            show_effort: true,
            show_model: true,
            show_ctx: true,
            show_session_use: true,
            show_week: true,
            show_cost: true,
            color_overrides: std::collections::HashMap::new(),
        }
    }
}

/// Action triggered by an alert rule.
#[derive(Clone, Copy, Debug, PartialEq, Eq, Structural)]
#[non_exhaustive]
pub enum AlertAction {
    Flash,
    Promote,
    Tone,
    Unknown,
}

impl Default for AlertAction {
    fn default() -> (v: Self)
        ensures
            v == AlertAction::Flash,
    {
        AlertAction::Flash
    }
}

/// A single alert rule targeting one notification tab.
#[derive(Clone, Debug)]
pub struct AlertRule {
    pub id: String,
    pub tab_id: String,
    pub severity: SeverityLevel,
    pub threshold: u32,
    pub window_secs: u32,
    pub action: AlertAction,
    pub enabled: bool,
}

/// Alert rules configuration.
#[derive(Clone, Debug)]
pub struct AlertsConfig {
    pub rules: Vec<AlertRule>,
}

impl Default for AlertsConfig {
    fn default() -> (c: Self)
        ensures
            c.rules@.len() == 0,
    {
        AlertsConfig { rules: Vec::new() }
    }
}

/// Runtime toggles for optional integrations.
#[derive(Clone, Copy, Debug)]
pub struct IntegrationsConfig {
    pub aegis_enabled: bool,
    pub index_enabled: bool,
}

impl Default for IntegrationsConfig {
    fn default() -> (c: Self)
        ensures
            !c.aegis_enabled && !c.index_enabled,
    {
        IntegrationsConfig { aegis_enabled: false, index_enabled: false }
    }
}

/// Terminal cursor shape.
#[derive(Clone, Copy, Debug, PartialEq, Eq, Structural)]
#[non_exhaustive]
pub enum CursorStyle {
    Block,
    Bar,
    Underline,
    Unknown,
}

impl Default for CursorStyle {
    fn default() -> (v: Self)
        ensures
            v == CursorStyle::Block,
    {
        CursorStyle::Block
    }
}

/// Shell preference for the terminal PTY.
#[derive(Clone, Debug)]
#[non_exhaustive]
pub enum ShellPref {
    Auto,
    Pwsh,
    Powershell,
    Cmd,
    Bash,
    Zsh,
    Sh,
    /// Explicit executable path.
    Custom(String),
    Unknown,
}

impl Default for ShellPref {
    fn default() -> (v: Self)
        ensures
            v is Auto,
    {
        ShellPref::Auto
    }
}

/// Sync strategy for the index vault graph.
#[derive(Clone, Copy, Debug, PartialEq, Eq, Structural)]
#[non_exhaustive]
pub enum SyncMode {
    Live,
    Manual,
    Unknown,
}

impl Default for SyncMode {
    fn default() -> (v: Self)
        ensures
            v == SyncMode::Live,
    {
        SyncMode::Live
    }
}

/// How the router picks a model for a prompt.
#[derive(Clone, Copy, Debug, PartialEq, Eq, Structural)]
pub enum RoutingProfile {
    Manual,
    CostOptimized,
    QualityFirst,
    Balanced,
}

impl Default for RoutingProfile {
    fn default() -> (v: Self)
        ensures
            v == RoutingProfile::Manual,
    {
        RoutingProfile::Manual
    }
}

/// Which translator handles a model's requests.
#[derive(Clone, Copy, Debug, PartialEq, Eq, Structural)]
pub enum ProviderType {
    Anthropic,
    Google,
    LlamaServer,
    OpenAiCompat,
    Cli,
}

/// KV cache quantization type for llama-server.
#[derive(Clone, Copy, Debug, PartialEq, Eq, Structural)]
#[allow(non_camel_case_types)]
pub enum KvCacheType {
    F32,
    F16,
    BF16,
    Q8_0,
    Q4_0,
    Q4_1,
    IQ4_NL,
    Q5_0,
    Q5_1,
}

/// llama-server flag value of a cache type.
pub open spec fn kv_flag(t: KvCacheType) -> Seq<char> {
    match t {
        KvCacheType::F32 => "f32"@,
        KvCacheType::F16 => "f16"@,
        KvCacheType::BF16 => "bf16"@,
        KvCacheType::Q8_0 => "q8_0"@,
        KvCacheType::Q4_0 => "q4_0"@,
        KvCacheType::Q4_1 => "q4_1"@,
        KvCacheType::IQ4_NL => "iq4_nl"@,
        KvCacheType::Q5_0 => "q5_0"@,
        KvCacheType::Q5_1 => "q5_1"@,
    }
}

impl KvCacheType {
    /// The llama-server CLI flag value for this cache type.
    pub fn as_flag(&self) -> (s: &'static str)
        ensures
            s@ == kv_flag(*self),
    {
        let s = match self {
            KvCacheType::F32 => "f32",
            KvCacheType::F16 => "f16",
            KvCacheType::BF16 => "bf16",
            KvCacheType::Q8_0 => "q8_0",
            KvCacheType::Q4_0 => "q4_0",
            KvCacheType::Q4_1 => "q4_1",
            KvCacheType::IQ4_NL => "iq4_nl",
            KvCacheType::Q5_0 => "q5_0",
            KvCacheType::Q5_1 => "q5_1",
        };
        proof {
            reveal_strlit("f32");
            reveal_strlit("f16");
            reveal_strlit("bf16");
            reveal_strlit("q8_0");
            reveal_strlit("q4_0");
            reveal_strlit("q4_1");
            reveal_strlit("iq4_nl");
            reveal_strlit("q5_0");
            reveal_strlit("q5_1");
        }
        s
    }
}

/// Configuration of a locally managed llama-server instance.
#[derive(Clone, Debug)]
pub struct LlamaServerConfig {
    /// Path text of the GGUF model file.
    pub model_path: String,
    pub flash_attention: bool,
    pub ctx_size: u32,
    pub cache_type_k: KvCacheType,
    pub cache_type_v: KvCacheType,
    /// Layers offloaded to GPU; negative omits the flag (auto fit).
    pub n_gpu_layers: i32,
    pub cpu_moe: bool,
    pub n_cpu_moe: Option<u32>,
    pub cache_ram: Option<u32>,
    pub threads: Option<u32>,
    pub parallel: u32,
    pub port: u16,
    pub cuda_visible_devices: Option<String>,
    pub auto_start: bool,
    pub auto_restart: bool,
    pub extra_flags: Vec<String>,
}

impl Default for LlamaServerConfig {
    fn default() -> (c: Self)
        ensures
            c.model_path@ == Seq::<char>::empty(),
            c.flash_attention,
            c.ctx_size == 32768,
            c.cache_type_k == KvCacheType::Q8_0,
            c.cache_type_v == KvCacheType::Q8_0,
            c.n_gpu_layers == 99,
            !c.cpu_moe,
            c.n_cpu_moe is None,
            c.cache_ram is None,
            c.threads is None,
            c.parallel == 1,
            c.port == 8081,
            c.cuda_visible_devices is None,
            !c.auto_start,
            !c.auto_restart,
            c.extra_flags@.len() == 0,
    {
        LlamaServerConfig {
            model_path: String::new(),
            flash_attention: true,
            ctx_size: 32768,
            cache_type_k: KvCacheType::Q8_0,
            cache_type_v: KvCacheType::Q8_0,
            n_gpu_layers: 99,
            cpu_moe: false,
            n_cpu_moe: None,
            cache_ram: None,
            threads: None,
            parallel: 1,
            port: 8081,
            cuda_visible_devices: None,
            auto_start: false,
            auto_restart: false,
            extra_flags: Vec::new(),
        }
    }
}

/// How a model is hosted.
#[derive(Clone, Debug)]
pub enum HostingMode {
    /// Cloud API.
    Cloud,
    /// Local llama-server process managed by Rift.
    Local { process_config: LlamaServerConfig },
    /// Remote llama-server Rift connects to but does not manage.
    Remote { health_check_interval_secs: u64 },
}

} // verus!
