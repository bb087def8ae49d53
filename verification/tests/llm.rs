use rift_bus::llm::{LlmError, StopReason};
use rift_bus::llm_cli::{build_invocation, estimate_tokens, CliProvider};
use rift_bus::llm_process::{build_cli_args, cache_type_bytes_x100};
use rift_bus::llm_providers::{
    anthropic_map_role, anthropic_map_stop_reason, gemini_map_finish_reason, gemini_map_role,
    server_map_finish_reason, server_map_role,
};
use rift_bus::config::{KvCacheType, LlamaServerConfig};
use rift_bus::llm::Role;

#[test]
fn llm_error_retryable() {
    assert!(LlmError::RateLimited { retry_after: None }.is_retryable());
    assert!(LlmError::NetworkError { message: "timeout".into() }.is_retryable());
    assert!(LlmError::Overloaded.is_retryable());
    assert!(LlmError::ProcessNotRunning { model_id: "local".into() }.is_retryable());
    assert!(!LlmError::AuthFailed { provider: "anthropic".into() }.is_retryable());
    assert!(!LlmError::InvalidRequest { message: "bad".into() }.is_retryable());
}

#[test]
fn llm_error_partial_content() {
    let err = LlmError::StreamInterrupted {
        partial_content: "Hello wor".to_string(),
        tokens_delivered: 3,
    };
    assert_eq!(err.partial_content(), Some("Hello wor"));
    assert_eq!(LlmError::Overloaded.partial_content(), None);
}

#[test]
fn map_stop_reason_variants() {
    assert_eq!(anthropic_map_stop_reason(&Some("end_turn".to_string())), StopReason::EndTurn);
    assert_eq!(anthropic_map_stop_reason(&Some("max_tokens".to_string())), StopReason::MaxTokens);
    assert_eq!(anthropic_map_stop_reason(&Some("stop_sequence".to_string())), StopReason::StopSequence);
}

#[test]
fn llm_gemini_map_finish_reason_variants() {
    assert_eq!(gemini_map_finish_reason(&Some("STOP".to_string())), StopReason::EndTurn);
    assert_eq!(gemini_map_finish_reason(&Some("MAX_TOKENS".to_string())), StopReason::MaxTokens);
}

#[test]
fn llm_server_map_finish_reason_variants() {
    assert_eq!(server_map_finish_reason(&Some("stop".to_string())), StopReason::EndTurn);
    assert_eq!(server_map_finish_reason(&Some("length".to_string())), StopReason::MaxTokens);
    assert_eq!(server_map_finish_reason(&Some("stop_sequence".to_string())), StopReason::StopSequence);
    assert_eq!(server_map_finish_reason(&Some("tool_calls".to_string())), StopReason::ToolUse);
    assert_eq!(server_map_finish_reason(&None), StopReason::EndTurn);
}

#[test]
fn role_mappings() {
    assert_eq!(anthropic_map_role(&Role::System), "user");
    assert_eq!(gemini_map_role(&Role::Assistant), "model");
    assert_eq!(server_map_role(&Role::System), "system");
    assert_eq!(anthropic_map_stop_reason(&Some("weird".to_string())), StopReason::EndTurn);
}

#[test]
fn substitutes_prompt_as_single_argv_element() {
    let inv = build_invocation("gemini -p {prompt} --model gemini-2.5-pro", "hello world").expect("invocation");
    assert_eq!(inv.program, "gemini");
    assert_eq!(inv.args, vec!["-p", "hello world", "--model", "gemini-2.5-pro", "--skip-trust"]);
    assert!(inv.stdin_prompt.is_none());
}

#[test]
fn substitutes_embedded_placeholder() {
    let inv = build_invocation("tool --input={prompt}", "abc").expect("invocation");
    assert_eq!(inv.program, "tool");
    assert_eq!(inv.args, vec!["--input=abc"]);
    assert!(inv.stdin_prompt.is_none());
}

#[test]
fn no_placeholder_routes_prompt_to_stdin() {
    let inv = build_invocation("gemini chat", "piped prompt").expect("invocation");
    assert_eq!(inv.program, "gemini");
    assert_eq!(inv.args, vec!["chat", "--skip-trust"]);
    assert_eq!(inv.stdin_prompt.as_deref(), Some("piped prompt"));
}

#[test]
fn gemini_skip_trust_not_duplicated() {
    let inv = build_invocation("gemini --skip-trust -p {prompt}", "x").expect("invocation");
    let n = inv.args.iter().filter(|a| *a == "--skip-trust").count();
    assert_eq!(n, 1, "skip-trust should appear exactly once");
}

#[test]
fn non_gemini_gets_no_skip_trust() {
    let inv = build_invocation("tool --input={prompt}", "abc").expect("invocation");
    assert!(!inv.args.iter().any(|a| a == "--skip-trust"));
}

#[test]
fn empty_template_errors() {
    assert!(build_invocation("   ", "x").is_err());
}

#[test]
fn gemini_path_with_extension_is_gemini() {
    let inv = build_invocation("/opt/bin/GEMINI.cmd {prompt}", "q").expect("invocation");
    assert_eq!(inv.args, vec!["q", "--skip-trust"]);
}

#[test]
fn cli_provider_new_and_token_estimate() {
    let p = CliProvider::new("gemini -p {prompt}", "gemini-2.5-pro");
    assert_eq!(p.command_template, "gemini -p {prompt}");
    assert_eq!(p.model_identifier, "gemini-2.5-pro");
    assert_eq!(p.timeout_secs, 120);
    assert_eq!(estimate_tokens(""), 1);
    assert_eq!(estimate_tokens("abcdefghij"), 2);
}

#[test]
fn cache_type_bytes_known_and_unknown() {
    assert_eq!(cache_type_bytes_x100("f16"), 200);
    assert_eq!(cache_type_bytes_x100("bf16"), 200);
    assert_eq!(cache_type_bytes_x100("f32"), 400);
    assert_eq!(cache_type_bytes_x100("q8_0"), 106);
    assert_eq!(cache_type_bytes_x100("q4_0"), 56);
    assert_eq!(cache_type_bytes_x100("iq4_nl"), 56);
    assert_eq!(cache_type_bytes_x100("mystery"), 200);
}

#[test]
fn build_cli_args_basic() {
    let config = LlamaServerConfig {
        model_path: "/models/test.gguf".to_string(),
        flash_attention: true,
        ctx_size: 4096,
        cache_type_k: KvCacheType::Q8_0,
        cache_type_v: KvCacheType::Q4_0,
        n_gpu_layers: 99,
        cpu_moe: false,
        n_cpu_moe: None,
        cache_ram: None,
        threads: Some(8),
        parallel: 2,
        port: 8081,
        cuda_visible_devices: None,
        auto_start: false,
        auto_restart: false,
        extra_flags: vec!["--verbose".to_string()],
    };
    let args = build_cli_args(&config);
    assert!(args.contains(&"--model".to_string()));
    assert!(args.contains(&"/models/test.gguf".to_string()));
    assert!(args.contains(&"--jinja".to_string()));
    assert!(args.contains(&"--flash-attn".to_string()));
    let fa = args.iter().position(|a| a == "--flash-attn").unwrap();
    assert_eq!(args[fa + 1], "on");
    assert!(args.contains(&"--ctx-size".to_string()));
    assert!(args.contains(&"4096".to_string()));
    assert!(args.contains(&"--cache-type-k".to_string()));
    assert!(args.contains(&"q8_0".to_string()));
    assert!(args.contains(&"--cache-type-v".to_string()));
    assert!(args.contains(&"q4_0".to_string()));
    assert!(args.contains(&"--n-gpu-layers".to_string()));
    assert!(args.contains(&"99".to_string()));
    assert!(args.contains(&"--threads".to_string()));
    assert!(args.contains(&"8".to_string()));
    assert!(args.contains(&"--parallel".to_string()));
    assert!(args.contains(&"2".to_string()));
    assert!(args.contains(&"--port".to_string()));
    assert!(args.contains(&"8081".to_string()));
    assert!(args.contains(&"--verbose".to_string()));
}

#[test]
fn build_cli_args_no_flash_no_threads() {
    let config = LlamaServerConfig { flash_attention: false, threads: None, extra_flags: vec![], ..Default::default() };
    let args = build_cli_args(&config);
    assert!(!args.contains(&"--flash-attn".to_string()));
    assert!(!args.contains(&"--threads".to_string()));
}

#[test]
fn build_cli_args_auto_gpu_layers_omits_flag() {
    let config = LlamaServerConfig { n_gpu_layers: -1, ..Default::default() };
    let args = build_cli_args(&config);
    assert!(!args.contains(&"--n-gpu-layers".to_string()));
}

#[test]
fn build_cli_args_cpu_moe_flags() {
    let both = LlamaServerConfig { cpu_moe: true, n_cpu_moe: Some(20), ..Default::default() };
    let args = build_cli_args(&both);
    assert!(args.contains(&"--cpu-moe".to_string()));
    assert!(!args.contains(&"--n-cpu-moe".to_string()));
    let partial = LlamaServerConfig { cpu_moe: false, n_cpu_moe: Some(20), ..Default::default() };
    let args = build_cli_args(&partial);
    assert!(!args.contains(&"--cpu-moe".to_string()));
    let pos = args.iter().position(|a| a == "--n-cpu-moe").unwrap();
    assert_eq!(args[pos + 1], "20");
    let none = LlamaServerConfig::default();
    let args = build_cli_args(&none);
    assert!(!args.contains(&"--cpu-moe".to_string()));
    assert!(!args.contains(&"--n-cpu-moe".to_string()));
}

#[test]
fn build_cli_args_cache_ram() {
    assert!(!build_cli_args(&LlamaServerConfig::default()).contains(&"--cache-ram".to_string()));
    let off = LlamaServerConfig { cache_ram: Some(0), ..Default::default() };
    let args = build_cli_args(&off);
    let pos = args.iter().position(|a| a == "--cache-ram").unwrap();
    assert_eq!(args[pos + 1], "0");
}

#[test]
fn build_cli_args_exact_order() {
    let args = build_cli_args(&LlamaServerConfig::default());
    assert_eq!(
        args,
        vec![
            "--model", "", "--host", "127.0.0.1", "--port", "8081", "--ctx-size", "32768",
            "--cache-type-k", "q8_0", "--cache-type-v", "q8_0", "--parallel", "1", "--jinja",
            "--n-gpu-layers", "99", "--flash-attn", "on",
        ]
    );
}
