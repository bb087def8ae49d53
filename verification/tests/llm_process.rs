use rift_bus::config::{KvCacheType, LlamaServerConfig};
use rift_bus::gguf::GgufMeta;
use rift_bus::llm_process::{
    apply_decision, estimate_vram_mb, eviction_victim, fallback_free_mb, fits_in_vram,
    gpu_free_from_output, log_file_name, register_restart_attempt, retain_pids, vram_guard_round,
    PidEntry, RestartInfo, VramDecision, MAX_RESTART_ATTEMPTS, VRAM_CUDA_OVERHEAD_MB,
};

fn config(port: u16) -> LlamaServerConfig {
    LlamaServerConfig {
        model_path: "/nonexistent/model-does-not-exist.gguf".into(),
        flash_attention: true,
        ctx_size: 32768,
        cache_type_k: KvCacheType::Q8_0,
        cache_type_v: KvCacheType::Q8_0,
        n_gpu_layers: 99,
        cpu_moe: false,
        n_cpu_moe: None,
        cache_ram: None,
        threads: None,
        parallel: 1,
        port,
        cuda_visible_devices: None,
        auto_start: false,
        auto_restart: false,
        extra_flags: vec![],
    }
}

#[test]
fn estimate_vram_missing_file_is_overhead_only() {
    // No weights readable, no GGUF header: just the fixed overhead.
    assert_eq!(estimate_vram_mb(&config(8086), None, None), VRAM_CUDA_OVERHEAD_MB);
}

#[test]
fn estimate_vram_adds_kv_cache() {
    let meta = GgufMeta {
        n_layers: Some(32),
        n_embd: Some(4096),
        n_head: Some(32),
        n_head_kv: Some(8),
        ..GgufMeta::default()
    };
    // 32 layers * 8 kv heads * 128 dims * 32768 tokens * (1.06 + 1.06) bytes
    let kv = 32u64 * 8 * 128 * 32768 * 212 / 100 / (1024 * 1024);
    let weights = 4u64 * 1024 * 1024 * 1024;
    assert_eq!(estimate_vram_mb(&config(1), Some(weights), Some(meta)), 4096 + kv + 400);
    // header without sizes: an eighth of the weights
    assert_eq!(estimate_vram_mb(&config(1), Some(weights), Some(GgufMeta::default())), 4096 + 512 + 400);
}

#[test]
fn auto_restart_capped_per_window() {
    let mut m1: Option<RestartInfo> = None;
    for _ in 0..MAX_RESTART_ATTEMPTS {
        let (info, ok) = register_restart_attempt(m1, 1_000);
        assert!(ok);
        m1 = Some(info);
    }
    let (info, ok) = register_restart_attempt(m1, 2_000);
    assert!(!ok);
    m1 = Some(info);
    // A different model tracks its own independent budget.
    let (_, ok2) = register_restart_attempt(None, 2_000);
    assert!(ok2);
    // After the window, the budget is fresh again.
    let (info, ok) = register_restart_attempt(m1, 1_000 + 60_000_000_001);
    assert!(ok);
    assert_eq!(info.attempts, 1);
}

#[test]
fn largest_other_model_is_evicted() {
    let residents = vec![
        ("a".to_string(), 5000u64),
        ("b".to_string(), 9000u64),
        ("me".to_string(), 20000u64),
        ("c".to_string(), 9000u64),
    ];
    assert_eq!(eviction_victim(&residents, "me"), Some(3));
    assert_eq!(eviction_victim(&vec![("me".to_string(), 1u64)], "me"), None);
    assert_eq!(fallback_free_mb(&residents, "me"), 0);
    assert_eq!(fallback_free_mb(&vec![("a".to_string(), 1000u64)], "me"), 14360);
}

#[test]
fn vram_guard_rounds() {
    let residents = vec![("a".to_string(), 8000u64), ("me".to_string(), 1u64)];
    assert!(fits_in_vram(1000, 1512));
    assert!(!fits_in_vram(1000, 1511));
    assert_eq!(vram_guard_round(1000, 2000, &residents, "me", 0), VramDecision::Fits);
    assert_eq!(vram_guard_round(9000, 2000, &residents, "me", 0), VramDecision::Evict(0));
    assert_eq!(vram_guard_round(9000, 2000, &residents, "me", 6), VramDecision::Proceed);
    assert_eq!(vram_guard_round(9000, 2000, &vec![], "me", 0), VramDecision::Proceed);
}

#[test]
fn gpu_free_is_first_line() {
    assert_eq!(gpu_free_from_output(b" 11234 \n 900\n"), Some(11234));
    assert_eq!(gpu_free_from_output(b""), None);
    assert_eq!(gpu_free_from_output(b"N/A\n"), None);
}

#[test]
fn pid_record_bookkeeping() {
    let entries = vec![
        PidEntry { model_id: "a".into(), pid: 1, port: 8081 },
        PidEntry { model_id: "b".into(), pid: 2, port: 8082 },
        PidEntry { model_id: "c".into(), pid: 3, port: 8083 },
    ];
    let after_stop = retain_pids(entries.clone(), &[2], false);
    assert_eq!(after_stop.iter().map(|e| e.pid).collect::<Vec<_>>(), vec![1, 3]);
    let alive = retain_pids(entries, &[3, 1], true);
    assert_eq!(alive.iter().map(|e| e.model_id.as_str()).collect::<Vec<_>>(), vec!["a", "c"]);
}

#[test]
fn log_names_are_file_safe() {
    assert_eq!(log_file_name("qwen3:8b/q4", 8081), "llama-qwen3_8b_q4-8081.log");
}

#[test]
fn config_changes_restart_only_when_args_drift() {
    let running = config(8081);
    assert_eq!(apply_decision(None, &running), None);
    assert_eq!(apply_decision(Some(&running), &config(8081)), Some(false));
    let mut auto = config(8081);
    auto.auto_restart = true;
    assert_eq!(apply_decision(Some(&running), &auto), Some(false));
    let mut bigger = config(8081);
    bigger.ctx_size = 65536;
    assert_eq!(apply_decision(Some(&running), &bigger), Some(true));
}

#[test]
fn fallback_free_is_zero_when_estimates_overflow() {
    let residents = vec![("a".to_string(), u64::MAX), ("b".to_string(), u64::MAX), ("me".to_string(), 5)];
    assert_eq!(fallback_free_mb(&residents, "me"), 0);
}
