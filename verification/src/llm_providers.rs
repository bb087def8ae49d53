//! Wire-vocabulary mappings of the three HTTP providers.
use vstd::prelude::*;
use crate::llm::{reason_is, reason_text, Role, StopReason};

verus! {

/// Anthropic Messages API role of a conversation role (system turns are
/// sent as user turns).
pub fn anthropic_map_role(role: &Role) -> (s: &'static str)
    ensures
        s@ == (match role {
            Role::Assistant => "assistant"@,
            _ => "user"@,
        }),
{
    proof {
        reveal_strlit("assistant");
        assert("assistant"@.len() == 9);
        reveal_strlit("user");
        assert("user"@.len() == 4);
    }
    match role {
        Role::System => "user",
        Role::User => "user",
        Role::Assistant => "assistant",
    }
}

/// Anthropic `stop_reason` to [`StopReason`]; unknown or absent reasons are
/// `EndTurn`.
pub fn anthropic_map_stop_reason(reason: &Option<String>) -> (r: StopReason)
    ensures
        r == (if reason_text(*reason) == Some("max_tokens"@) {
            StopReason::MaxTokens
        } else if reason_text(*reason) == Some("stop_sequence"@) {
            StopReason::StopSequence
        } else {
            StopReason::EndTurn
        }),
{
    proof {
        reveal_strlit("end_turn");
        assert("end_turn"@.len() == 8);
        reveal_strlit("max_tokens");
        assert("max_tokens"@.len() == 10);
        reveal_strlit("stop_sequence");
        assert("stop_sequence"@.len() == 13);
    }
    if reason_is(reason, "end_turn") {
        StopReason::EndTurn
    } else if reason_is(reason, "max_tokens") {
        StopReason::MaxTokens
    } else if reason_is(reason, "stop_sequence") {
        StopReason::StopSequence
    } else {
        StopReason::EndTurn
    }
}

/// Gemini role of a conversation role (system turns are sent as user turns).
pub fn gemini_map_role(role: &Role) -> (s: &'static str)
    ensures
        s@ == (match role {
            Role::Assistant => "model"@,
            _ => "user"@,
        }),
{
    proof {
        reveal_strlit("model");
        assert("model"@.len() == 5);
        reveal_strlit("user");
        assert("user"@.len() == 4);
    }
    match role {
        Role::System => "user",
        Role::User => "user",
        Role::Assistant => "model",
    }
}

/// Gemini `finishReason` to [`StopReason`]; unknown or absent reasons are
/// `EndTurn`.
pub fn gemini_map_finish_reason(reason: &Option<String>) -> (r: StopReason)
    ensures
        r == (if reason_text(*reason) == Some("MAX_TOKENS"@) {
            StopReason::MaxTokens
        } else if reason_text(*reason) == Some("STOP_SEQUENCE"@) {
            StopReason::StopSequence
        } else {
            StopReason::EndTurn
        }),
{
    proof {
        reveal_strlit("STOP");
        assert("STOP"@.len() == 4);
        reveal_strlit("MAX_TOKENS");
        assert("MAX_TOKENS"@.len() == 10);
        reveal_strlit("STOP_SEQUENCE");
        assert("STOP_SEQUENCE"@.len() == 13);
    }
    if reason_is(reason, "STOP") {
        StopReason::EndTurn
    } else if reason_is(reason, "MAX_TOKENS") {
        StopReason::MaxTokens
    } else if reason_is(reason, "STOP_SEQUENCE") {
        StopReason::StopSequence
    } else {
        StopReason::EndTurn
    }
}

/// OpenAI-compatible (llama-server) role of a conversation role.
pub fn server_map_role(role: &Role) -> (s: &'static str)
    ensures
        s@ == (match role {
            Role::System => "system"@,
            Role::User => "user"@,
            Role::Assistant => "assistant"@,
        }),
{
    proof {
        reveal_strlit("system");
        assert("system"@.len() == 6);
        reveal_strlit("user");
        assert("user"@.len() == 4);
        reveal_strlit("assistant");
        assert("assistant"@.len() == 9);
    }
    match role {
        Role::System => "system",
        Role::User => "user",
        Role::Assistant => "assistant",
    }
}

/// OpenAI-compatible `finish_reason` to [`StopReason`]; unknown or absent
/// reasons are `EndTurn`.
pub fn server_map_finish_reason(reason: &Option<String>) -> (r: StopReason)
    ensures
        r == (if reason_text(*reason) == Some("length"@) || reason_text(*reason) == Some("max_tokens"@) {
            StopReason::MaxTokens
        } else if reason_text(*reason) == Some("stop_sequence"@) {
            StopReason::StopSequence
        } else if reason_text(*reason) == Some("tool_calls"@) {
            StopReason::ToolUse
        } else {
            StopReason::EndTurn
        }),
{
    proof {
        reveal_strlit("stop");
        assert("stop"@.len() == 4);
        reveal_strlit("end_turn");
        assert("end_turn"@.len() == 8);
        reveal_strlit("length");
        assert("length"@.len() == 6);
        reveal_strlit("max_tokens");
        assert("max_tokens"@.len() == 10);
        reveal_strlit("stop_sequence");
        assert("stop_sequence"@.len() == 13);
        reveal_strlit("tool_calls");
        assert("tool_calls"@.len() == 10);
        assert("max_tokens"@[0] != "tool_calls"@[0]);
    }
    if reason_is(reason, "stop") || reason_is(reason, "end_turn") {
        StopReason::EndTurn
    } else if reason_is(reason, "length") || reason_is(reason, "max_tokens") {
        StopReason::MaxTokens
    } else if reason_is(reason, "stop_sequence") {
        StopReason::StopSequence
    } else if reason_is(reason, "tool_calls") {
        StopReason::ToolUse
    } else {
        StopReason::EndTurn
    }
}

} // verus!
