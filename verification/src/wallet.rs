//! Credential wallet types.

use vstd::prelude::*;

verus! {

/// Providers an API key can belong to.
#[derive(Clone, Copy, Debug, PartialEq, Eq, Structural)]
pub enum ApiKeyProvider {
    Openai,
    Anthropic,
    Ollama,
    Huggingface,
    Google,
    Azure,
    Cohere,
    Replicate,
    Custom,
}

/// Behavioral settings of a wallet.
#[derive(Clone, Debug)]
pub struct WalletSettings {
    pub auto_lock_timeout: u64,
    pub require_password_on_access: bool,
    pub default_providers: Vec<(String, String)>,
}

impl Default for WalletSettings {
    /// Thirty-minute auto-lock, no per-access password.
    fn default() -> (r: Self)
        ensures
            r.auto_lock_timeout == 30,
            !r.require_password_on_access,
            r.default_providers@.len() == 0,
    {
        WalletSettings {
            auto_lock_timeout: 30,
            require_password_on_access: false,
            default_providers: Vec::new(),
        }
    }
}

/// Whether the wallet is usable.
#[derive(Clone, Copy, Debug, PartialEq, Eq, Structural)]
pub enum WalletState {
    Locked,
    Unlocked,
    Uninitialized,
}

} // verus!
