//! Extension identity, capabilities, and contract drafts.
//!
//! An extension is named by a URN built from its category, namespace,
//! name and version; a provider submits a [`ContractDraft`], which
//! becomes an [`ExtensionContract`] only by passing fairness validation.

use vstd::prelude::*;
use crate::fairness::{FairnessRequirement, Reciprocity};
use crate::text::{dec_digits, str_eq, u64_to_dec};
use vstd::string::StringExecFns;

verus! {

/// Categories an extension can belong to.
#[derive(Clone, Copy, Debug, PartialEq, Eq, Structural)]
pub enum ExtensionCategory {
    Memory,
    Ledger,
    Framework,
    Widget,
    Protocol,
    Embedding,
    Llm,
    Ide,
}

/// The category's lowercase name.
pub open spec fn category_name(c: ExtensionCategory) -> Seq<char> {
    match c {
        ExtensionCategory::Memory => "memory"@,
        ExtensionCategory::Ledger => "ledger"@,
        ExtensionCategory::Framework => "framework"@,
        ExtensionCategory::Widget => "widget"@,
        ExtensionCategory::Protocol => "protocol"@,
        ExtensionCategory::Embedding => "embedding"@,
        ExtensionCategory::Llm => "llm"@,
        ExtensionCategory::Ide => "ide"@,
    }
}

impl ExtensionCategory {
    /// The category's lowercase name.
    pub fn as_str(&self) -> (r: &'static str)
        ensures
            r@ == category_name(*self),
    {
        match self {
            ExtensionCategory::Memory => "memory",
            ExtensionCategory::Ledger => "ledger",
            ExtensionCategory::Framework => "framework",
            ExtensionCategory::Widget => "widget",
            ExtensionCategory::Protocol => "protocol",
            ExtensionCategory::Embedding => "embedding",
            ExtensionCategory::Llm => "llm",
            ExtensionCategory::Ide => "ide",
        }
    }
}

/// Whether a capability is offered or needed.
#[derive(Clone, Copy, Debug, PartialEq, Eq, Structural)]
pub enum CapabilityDirection {
    Provides,
    Requires,
}

/// A capability an extension provides or requires.
#[derive(Clone, Debug)]
pub struct Capability {
    pub urn: String,
    pub name: String,
    pub description: String,
    pub direction: CapabilityDirection,
}

/// A unique, persistent identifier for an extension.  The version is
/// held as its three numeric components.
#[derive(Clone, Debug)]
pub struct ExtensionUrn {
    pub category: ExtensionCategory,
    pub namespace: String,
    pub name: String,
    pub version_major: u64,
    pub version_minor: u64,
    pub version_patch: u64,
}

impl ExtensionUrn {
    /// Names an extension.
    pub fn new(
        category: ExtensionCategory,
        namespace: &str,
        name: &str,
        version_major: u64,
        version_minor: u64,
        version_patch: u64,
    ) -> (r: Self)
        ensures
            r.category == category,
            r.namespace@ == namespace@,
            r.name@ == name@,
            r.version_major == version_major,
            r.version_minor == version_minor,
            r.version_patch == version_patch,
    {
        ExtensionUrn {
            category,
            namespace: String::from_str(namespace),
            name: String::from_str(name),
            version_major,
            version_minor,
            version_patch,
        }
    }

    /// The URN string form:
    /// `urn:chrysalis:ext:<category>:<namespace>:<name>:<version>`.
    pub fn to_urn(&self) -> (r: String)
        ensures
            r@ == "urn:chrysalis:ext:"@ + category_name(self.category) + ":"@ + self.namespace@
                + ":"@ + self.name@ + ":"@ + dec_digits(self.version_major as nat) + "."@
                + dec_digits(self.version_minor as nat) + "."@ + dec_digits(
                self.version_patch as nat,
            ),
    {
        let mut r = String::from_str("urn:chrysalis:ext:");
        r.append(self.category.as_str());
        r.append(":");
        r.append(self.namespace.as_str());
        r.append(":");
        r.append(self.name.as_str());
        r.append(":");
        let major = u64_to_dec(self.version_major);
        r.append(major.as_str());
        r.append(".");
        let minor = u64_to_dec(self.version_minor);
        r.append(minor.as_str());
        r.append(".");
        let patch = u64_to_dec(self.version_patch);
        r.append(patch.as_str());
        r
    }
}

/// Who provides an extension and how to reach them.  Addresses are held
/// as plain strings.
#[derive(Clone, Debug)]
pub struct ProviderInfo {
    pub name: String,
    pub contact: String,
    pub website: Option<String>,
    pub support_url: Option<String>,
}

/// A contract draft as a provider submits it: not yet validated.
#[derive(Clone, Debug)]
pub struct ContractDraft {
    pub urn: ExtensionUrn,
    pub provider: ProviderInfo,
    pub description: String,
    pub capabilities: Vec<Capability>,
    pub reciprocity: Reciprocity,
    pub license: String,
}

impl ContractDraft {
    /// A fresh draft: no capabilities, no obligations, no license.
    pub fn new(urn: ExtensionUrn, provider: ProviderInfo, description: String) -> (r: Self)
        ensures
            r.urn == urn,
            r.provider == provider,
            r.description == description,
            r.capabilities@.len() == 0,
            r.reciprocity.platform_to_provider@.len() == 0,
            r.reciprocity.provider_to_platform@.len() == 0,
            r.reciprocity.provider_to_user@.len() == 0,
            r.reciprocity.user_to_provider@.len() == 0,
            r.license@.len() == 0,
    {
        ContractDraft {
            urn,
            provider,
            description,
            capabilities: Vec::new(),
            reciprocity: Reciprocity {
                platform_to_provider: Vec::new(),
                provider_to_platform: Vec::new(),
                provider_to_user: Vec::new(),
                user_to_provider: Vec::new(),
            },
            license: String::new(),
        }
    }

    /// The draft with one more capability.
    pub fn with_capability(self, capability: Capability) -> (r: Self)
        ensures
            r.urn == self.urn,
            r.provider == self.provider,
            r.description == self.description,
            r.capabilities@ == self.capabilities@.push(capability),
            r.reciprocity == self.reciprocity,
            r.license == self.license,
    {
        let mut draft = self;
        draft.capabilities.push(capability);
        draft
    }

    /// The draft with its reciprocity replaced.
    pub fn with_reciprocity(self, reciprocity: Reciprocity) -> (r: Self)
        ensures
            r.urn == self.urn,
            r.provider == self.provider,
            r.description == self.description,
            r.capabilities == self.capabilities,
            r.reciprocity == reciprocity,
            r.license == self.license,
    {
        let mut draft = self;
        draft.reciprocity = reciprocity;
        draft
    }

    /// The draft with its license set.
    pub fn with_license(self, license: &str) -> (r: Self)
        ensures
            r.urn == self.urn,
            r.provider == self.provider,
            r.description == self.description,
            r.capabilities == self.capabilities,
            r.reciprocity == self.reciprocity,
            r.license@ == license@,
    {
        let mut draft = self;
        draft.license = String::from_str(license);
        draft
    }
}

/// The complete, validated extension contract.  Constructed only by the
/// contract validator, so every held contract passed the fairness gate.
#[derive(Clone, Debug)]
pub struct ExtensionContract {
    pub id: String,
    pub urn: ExtensionUrn,
    pub provider: ProviderInfo,
    pub description: String,
    pub capabilities: Vec<Capability>,
    pub reciprocity: Reciprocity,
    pub fairness_satisfied: Vec<FairnessRequirement>,
    pub license: String,
    pub contract_version: u32,
}

impl ExtensionContract {
    /// Seals a draft that passed validation, under a fresh contract id.
    pub(crate) fn new_validated(
        urn: ExtensionUrn,
        provider: ProviderInfo,
        description: String,
        capabilities: Vec<Capability>,
        reciprocity: Reciprocity,
        license: String,
    ) -> (r: Self)
        ensures
            r.id@.len() == 36,
            r.urn == urn,
            r.provider == provider,
            r.description == description,
            r.capabilities == capabilities,
            r.reciprocity == reciprocity,
            r.fairness_satisfied@.len() == 6,
            r.license == license,
            r.contract_version == 1,
    {
        ExtensionContract {
            id: crate::state::new_unique_id(),
            urn,
            provider,
            description,
            capabilities,
            reciprocity,
            fairness_satisfied: FairnessRequirement::all(),
            license,
            contract_version: 1,
        }
    }

    /// Whether the contract provides the named capability.
    pub fn provides(&self, capability_urn: &str) -> (r: bool)
        ensures
            r == exists|i: int|
                0 <= i < self.capabilities@.len() && (#[trigger] self.capabilities@[i]).urn@
                    == capability_urn@ && self.capabilities@[i].direction
                    == CapabilityDirection::Provides,
    {
        let n = self.capabilities.len();
        let mut i: usize = 0;
        while i < n
            invariant
                0 <= i <= n,
                n == self.capabilities@.len(),
                forall|j: int|
                    0 <= j < i ==> !((#[trigger] self.capabilities@[j]).urn@ == capability_urn@
                        && self.capabilities@[j].direction == CapabilityDirection::Provides),
            decreases n - i,
        {
            if str_eq(self.capabilities[i].urn.as_str(), capability_urn) && matches!(
                self.capabilities[i].direction,
                CapabilityDirection::Provides,
            ) {
                return true;
            }
            i = i + 1;
        }
        false
    }

    /// Whether the contract requires the named capability.
    pub fn needs(&self, capability_urn: &str) -> (r: bool)
        ensures
            r == exists|i: int|
                0 <= i < self.capabilities@.len() && (#[trigger] self.capabilities@[i]).urn@
                    == capability_urn@ && self.capabilities@[i].direction
                    == CapabilityDirection::Requires,
    {
        let n = self.capabilities.len();
        let mut i: usize = 0;
        while i < n
            invariant
                0 <= i <= n,
                n == self.capabilities@.len(),
                forall|j: int|
                    0 <= j < i ==> !((#[trigger] self.capabilities@[j]).urn@ == capability_urn@
                        && self.capabilities@[j].direction == CapabilityDirection::Requires),
            decreases n - i,
        {
            if str_eq(self.capabilities[i].urn.as_str(), capability_urn) && matches!(
                self.capabilities[i].direction,
                CapabilityDirection::Requires,
            ) {
                return true;
            }
            i = i + 1;
        }
        false
    }
}

} // verus!
