//! Key material handled by the security layer.

use vstd::prelude::*;

verus! {

/// The length of a symmetric key in bytes.
pub const KEY_LENGTH: usize = 32;

/// An encrypted payload with its nonce, tag and parameters.
#[derive(Clone, Debug)]
pub struct EncryptedData {
    pub ciphertext: String,
    pub iv: String,
    pub auth_tag: String,
    pub salt: Option<String>,
    pub algorithm: String,
    pub version: u8,
}

/// A symmetric key held in memory.  Unlike the surrounding system's
/// key type, this one does not wipe its bytes on drop: the zeroing
/// derive lives in an outside crate whose derives cannot stand here, so
/// holders must not rely on the key being erased when it goes away.
#[derive(Debug)]
pub struct SecureKey {
    bytes: [u8; 32],
}

impl SecureKey {
    /// Wraps raw key bytes.
    pub fn new(key: [u8; 32]) -> (r: Self)
        ensures
            r.spec_bytes() == key,
    {
        SecureKey { bytes: key }
    }

    /// The raw key bytes.
    pub fn as_bytes(&self) -> (r: &[u8; 32])
        ensures
            *r == self.spec_bytes(),
    {
        &self.bytes
    }

    /// The key's content.
    pub closed spec fn spec_bytes(self) -> [u8; 32] {
        self.bytes
    }
}

} // verus!
