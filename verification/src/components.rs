//! Modular agent components.

use vstd::prelude::*;

verus! {

/// An agent's identity.
#[derive(Clone, Debug)]
pub struct Identity {
    pub id: String,
    pub name: String,
    pub designation: String,
    pub fingerprint: Option<String>,
    pub created: String,
    pub version: String,
}

} // verus!
