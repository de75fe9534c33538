//! Types of the model gateway client.

use vstd::prelude::*;
use vstd::string::StringExecFns;

verus! {

/// How the gateway is reached.
#[derive(Clone, Debug)]
pub struct GatewayConfig {
    pub base_url: String,
    pub auth_token: Option<String>,
    pub timeout_ms: u64,
}

impl Default for GatewayConfig {
    /// The local gateway with a thirty-second timeout.
    fn default() -> (r: Self)
        ensures
            r.base_url@ == "http://localhost:8080"@,
            r.auth_token is None,
            r.timeout_ms == 30000,
    {
        GatewayConfig {
            base_url: String::from_str("http://localhost:8080"),
            auth_token: None,
            timeout_ms: 30000,
        }
    }
}

/// How the model may use tools.
#[derive(Clone, Debug)]
pub enum ToolChoice {
    NoTool,
    Auto,
    Required,
    Tool { kind: String, name: String },
}

/// One tool call the model requested.
#[derive(Clone, Debug)]
pub struct ToolFunctionCall {
    pub name: String,
    pub arguments: String,
}

/// A completed chat response.
#[derive(Clone, Debug)]
pub struct ChatCompletionResponse {
    pub content: String,
    pub model: String,
    pub provider: String,
    pub usage: Option<UsageInfo>,
}

/// Token accounting of one completion.
#[derive(Clone, Copy, Debug, PartialEq, Eq, Structural)]
pub struct UsageInfo {
    pub prompt_tokens: u32,
    pub completion_tokens: u32,
    pub total_tokens: u32,
}

} // verus!
