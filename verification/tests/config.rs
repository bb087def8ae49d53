use rift_bus::config::{
    FsConfig, KvCacheType, LlamaServerConfig, ProjectEntry, SessionConfig, SeverityLevel, DEFAULT_IGNORE_GLOBS,
};

#[test]
fn project_entry_lru_eviction() {
    let mut entries: Vec<ProjectEntry> = (0u64..11)
        .map(|i| ProjectEntry {
            name: format!("proj-{i}"),
            path: format!("/proj/{i}"),
            last_used_ms: i * 1_000,
        })
        .collect();
    entries.sort_by_key(|e| std::cmp::Reverse(e.last_used_ms));
    entries.truncate(10);
    assert_eq!(entries.len(), 10, "must have exactly 10 entries after cap");
    assert!(entries.iter().all(|e| e.name != "proj-0"));
    assert_eq!(entries[0].name, "proj-10");
}

#[test]
fn default_ignore_globs_contain_required_patterns() {
    const REQUIRED: &[&str] = &[
        ".git",
        ".git/**",
        "node_modules",
        "node_modules/**",
        "target",
        "target/**",
        "dist",
        "dist/**",
        "*.log",
    ];
    for pattern in REQUIRED {
        assert!(DEFAULT_IGNORE_GLOBS.contains(pattern), "'{pattern}' must be in DEFAULT_IGNORE_GLOBS");
    }
}

#[test]
fn llama_server_config_defaults() {
    let cfg = LlamaServerConfig::default();
    assert!(cfg.flash_attention);
    assert_eq!(cfg.ctx_size, 32768);
    assert_eq!(cfg.cache_type_k, KvCacheType::Q8_0);
    assert_eq!(cfg.cache_type_v, KvCacheType::Q8_0);
    assert_eq!(cfg.n_gpu_layers, 99);
    assert!(cfg.threads.is_none());
    assert_eq!(cfg.parallel, 1);
    assert!(!cfg.auto_start);
}

#[test]
fn kv_cache_type_as_flag() {
    assert_eq!(KvCacheType::Q8_0.as_flag(), "q8_0");
    assert_eq!(KvCacheType::F16.as_flag(), "f16");
    assert_eq!(KvCacheType::BF16.as_flag(), "bf16");
    assert_eq!(KvCacheType::IQ4_NL.as_flag(), "iq4_nl");
}

#[test]
fn fs_config_default_uses_ignore_globs() {
    let c = FsConfig::default();
    assert_eq!(c.ignore_globs.len(), DEFAULT_IGNORE_GLOBS.len());
    assert_eq!(c.ignore_globs[10], "*.log");
    assert_eq!(c.max_depth, 6);
}

#[test]
fn session_config_defaults() {
    let c = SessionConfig::default();
    assert!(c.enabled);
    assert_eq!(c.retention_days, 7);
    assert_eq!(c.keep_suffix_events, 100);
    assert!(!c.restore_on_startup);
    assert_eq!(SeverityLevel::default(), SeverityLevel::Info);
}
