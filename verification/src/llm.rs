//! LLM provider model: requests, streaming chunks, stop reasons and the
//! error hierarchy the routing fallback inspects.
use vstd::prelude::*;

verus! {

/// Why a completion stopped.
#[derive(Clone, Copy, Debug, PartialEq, Eq, Structural)]
pub enum StopReason {
    EndTurn,
    MaxTokens,
    StopSequence,
    ToolUse,
    Error,
}

/// A single chunk from a streaming response.
#[derive(Clone, Debug)]
pub struct StreamChunk {
    pub text: String,
    pub is_final: bool,
    pub token_count: Option<u32>,
    pub stop_reason: Option<StopReason>,
}

/// How the model should choose among offered tools.
#[derive(Clone, Copy, Debug, PartialEq, Eq, Structural)]
pub enum ToolChoice {
    /// Model decides whether to call a tool.
    Auto,
    /// Model must call a tool this turn.
    Required,
    /// Model must not call a tool (wire value `"none"`).
    NoTool,
}

/// Conversation role.
#[derive(Clone, Copy, Debug, PartialEq, Eq, Structural)]
pub enum Role {
    System,
    User,
    Assistant,
}

/// A single message in a conversation.
#[derive(Clone, Debug)]
pub struct Message {
    pub role: Role,
    pub content: String,
}

/// Errors of LLM providers, typed so the router can tell retryable
/// failures from fatal ones.
#[derive(Debug)]
pub enum LlmError {
    AuthFailed { provider: String },
    RateLimited { retry_after: Option<std::time::Duration> },
    NetworkError { message: String },
    StreamInterrupted { partial_content: String, tokens_delivered: u64 },
    Overloaded,
    ProcessNotRunning { model_id: String },
    AllProvidersFailed { attempts: Vec<(String, String)> },
    InvalidRequest { message: String },
    Internal { message: String },
}

impl LlmError {
    /// Whether the router should attempt automatic fallback to another
    /// model: rate limiting, network errors, overload and a stopped local
    /// process are retryable; everything else is not.
    pub fn is_retryable(&self) -> (r: bool)
        ensures
            r == (self is RateLimited || self is NetworkError || self is Overloaded
                || self is ProcessNotRunning),
    {
        match self {
            LlmError::RateLimited { .. } | LlmError::NetworkError { .. } | LlmError::Overloaded
            | LlmError::ProcessNotRunning { .. } => true,
            _ => false,
        }
    }

    /// The partial content of an interrupted stream, if this is one.
    pub fn partial_content(&self) -> (r: Option<&str>)
        ensures
            match self {
                LlmError::StreamInterrupted { partial_content, .. } => r matches Some(s) && s@
                    == partial_content@,
                _ => r is None,
            },
    {
        match self {
            LlmError::StreamInterrupted { partial_content, .. } => Some(partial_content.as_str()),
            _ => None,
        }
    }
}

/// Text of an optional wire reason, when present.
pub open spec fn reason_text(reason: Option<String>) -> Option<Seq<char>> {
    match reason {
        Some(s) => Some(s@),
        None => None,
    }
}

/// Whether an optional reason equals the literal `lit`.
pub fn reason_is(reason: &Option<String>, lit: &str) -> (r: bool)
    ensures
        r == (reason_text(*reason) == Some(lit@)),
{
    match reason {
        Some(s) => {
            let c = crate::text::chars_of(s.as_str());
            crate::text::chars_eq_str(c.as_slice(), lit)
        },
        None => false,
    }
}

} // verus!
