use rift_bus::llm_cli::{gemini_account, gemini_auth_status, selected_auth};

#[test]
fn selected_auth_needs_a_non_empty_string() {
    assert_eq!(selected_auth("{\"security\":{\"auth\":{\"selectedType\":\"oauth-personal\"}}}").as_deref(), Some("oauth-personal"));
    assert_eq!(selected_auth("{\"security\":{\"auth\":{\"selectedType\":\"\"}}}"), None);
    assert_eq!(selected_auth("{\"security\":{}}"), None);
    assert_eq!(selected_auth("not json"), None);
}

#[test]
fn account_prefers_active_then_email() {
    assert_eq!(gemini_account("{\"active\":\"a@x\",\"email\":\"b@x\"}").as_deref(), Some("a@x"));
    assert_eq!(gemini_account("{\"active\":3,\"email\":\"b@x\"}").as_deref(), Some("b@x"));
    assert_eq!(gemini_account("[]"), None);
}

#[test]
fn auth_status_from_findings() {
    let s = gemini_auth_status(
        true,
        Some(120),
        Some("{\"active\":\"me@example.com\"}".into()),
        Some("{\"security\":{\"auth\":{\"selectedType\":\"oauth-personal\"}}}".into()),
    );
    assert!(s.cli_installed);
    assert!(s.authenticated);
    assert_eq!(s.account.as_deref(), Some("me@example.com"));
    assert!(s.headless_ready);
    let none = gemini_auth_status(false, Some(0), None, None);
    assert!(!none.cli_installed && !none.authenticated && none.account.is_none() && !none.headless_ready);
}

use rift_bus::llm::{LlmError, Message, Role};
use rift_bus::llm_cli::{cli_output, cli_spawn_error, cli_timeout_error, compose_prompt};

#[test]
fn compose_joins_system_and_messages() {
    let messages = vec![Message { role: Role::User, content: "question".to_string() }];
    assert_eq!(compose_prompt(&Some("be terse".to_string()), &messages), "be terse\n\nquestion");
    assert_eq!(compose_prompt(&Some(String::new()), &messages), "question");
    assert_eq!(compose_prompt(&None, &vec![]), "");
}

#[test]
fn cli_results() {
    assert_eq!(cli_output("echo", true, Some(0), b" hi \n", b"").unwrap(), "hi");
    match cli_output("gemini", false, Some(55), b"", b" untrusted dir\n") {
        Err(LlmError::Internal { message }) => assert_eq!(message, "CLI 'gemini' exited 55: untrusted dir"),
        other => panic!("unexpected {other:?}"),
    }
    match cli_output("x", false, None, b"", b"") {
        Err(LlmError::Internal { message }) => assert_eq!(message, "CLI 'x' exited -1: (no stderr)"),
        other => panic!("unexpected {other:?}"),
    }
    match cli_output("x", true, Some(0), b"  \n", b"") {
        Err(LlmError::Internal { message }) => assert_eq!(message, "CLI 'x' produced no output"),
        other => panic!("unexpected {other:?}"),
    }
    match cli_timeout_error("gemini", 120) {
        LlmError::NetworkError { message } => assert_eq!(message, "CLI 'gemini' timed out after 120s"),
        other => panic!("unexpected {other:?}"),
    }
    assert!(matches!(cli_spawn_error("nope", true, ""), LlmError::ProcessNotRunning { ref model_id } if model_id == "nope"));
    match cli_spawn_error("x", false, "permission denied") {
        LlmError::Internal { message } => assert_eq!(message, "spawn 'x' failed: permission denied"),
        other => panic!("unexpected {other:?}"),
    }
}
