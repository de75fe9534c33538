//! Fairness requirements for extension contracts.
//!
//! A contract is fair only when obligations flow in both directions
//! between the platform, the provider and the user; this module defines
//! the obligations, the requirements, and the violations that a
//! one-sided draft produces.

use vstd::prelude::*;
use vstd::string::StringExecFns;

verus! {

/// Categories of obligations.
#[derive(Clone, Copy, Debug, PartialEq, Eq, Structural)]
pub enum ObligationKind {
    Service,
    Data,
    Compensation,
    Confidentiality,
    Support,
    Constraint,
}

/// A party to the contract.
#[derive(Clone, Debug)]
pub enum Party {
    Platform,
    Provider(String),
    User,
}

/// An obligation one party owes another.
#[derive(Clone, Debug)]
pub struct Obligation {
    pub obligor: Party,
    pub obligee: Party,
    pub description: String,
    pub kind: ObligationKind,
}

/// The obligations flowing between the three parties.
#[derive(Clone, Debug)]
pub struct Reciprocity {
    pub platform_to_provider: Vec<Obligation>,
    pub provider_to_platform: Vec<Obligation>,
    pub provider_to_user: Vec<Obligation>,
    pub user_to_provider: Vec<Obligation>,
}

impl Reciprocity {
    /// Balance requires obligations both ways between platform and
    /// provider, and at least one from provider to user; users may owe
    /// nothing.
    pub open spec fn spec_balanced(self) -> bool {
        self.platform_to_provider@.len() > 0 && self.provider_to_platform@.len() > 0
            && self.provider_to_user@.len() > 0
    }

    /// Whether the obligations are balanced.
    pub fn is_balanced(&self) -> (r: bool)
        ensures
            r == self.spec_balanced(),
    {
        !self.platform_to_provider.is_empty() && !self.provider_to_platform.is_empty()
            && !self.provider_to_user.is_empty()
    }

    /// Every one-sided relation, as a violation: one entry per empty
    /// obligation list that balance requires to be filled.
    pub fn find_imbalances(&self) -> (r: Vec<FairnessViolation>)
        ensures
            r@.len() == (if self.platform_to_provider@.len() == 0 {
                1int
            } else {
                0int
            }) + (if self.provider_to_platform@.len() == 0 {
                1int
            } else {
                0int
            }) + (if self.provider_to_user@.len() == 0 {
                1int
            } else {
                0int
            }),
            self.spec_balanced() ==> r@.len() == 0,
            !self.spec_balanced() ==> r@.len() > 0,
            forall|i: int|
                0 <= i < r@.len() ==> (#[trigger] r@[i]) matches FairnessViolation::NoReciprocity {
                    ..
                },
            self.platform_to_provider@.len() == 0 ==> names_platform_to_provider(r@[0]),
            self.provider_to_platform@.len() == 0 ==> names_provider_to_platform(
                r@[if self.platform_to_provider@.len() == 0 {
                    1int
                } else {
                    0int
                }],
            ),
            self.provider_to_user@.len() == 0 ==> names_provider_to_user(
                r@[(if self.platform_to_provider@.len() == 0 {
                    1int
                } else {
                    0int
                }) + (if self.provider_to_platform@.len() == 0 {
                    1int
                } else {
                    0int
                })],
            ),
    {
        let mut violations: Vec<FairnessViolation> = Vec::new();
        if self.platform_to_provider.is_empty() {
            violations.push(
                FairnessViolation::NoReciprocity {
                    from: Party::Platform,
                    to: Party::Provider(String::from_str("*")),
                    reason: String::from_str("Platform takes but gives nothing"),
                },
            );
        }
        if self.provider_to_platform.is_empty() {
            violations.push(
                FairnessViolation::NoReciprocity {
                    from: Party::Provider(String::from_str("*")),
                    to: Party::Platform,
                    reason: String::from_str(
                        "Provider receives platform benefits without obligation",
                    ),
                },
            );
        }
        if self.provider_to_user.is_empty() {
            violations.push(
                FairnessViolation::NoReciprocity {
                    from: Party::Provider(String::from_str("*")),
                    to: Party::User,
                    reason: String::from_str("Provider offers nothing to end users"),
                },
            );
        }
        violations
    }
}

/// The violation blames the platform's duty towards the provider.
pub open spec fn names_platform_to_provider(v: FairnessViolation) -> bool {
    v matches FairnessViolation::NoReciprocity { from: Party::Platform, to: Party::Provider(_), .. }
}

/// The violation blames the provider's duty towards the platform.
pub open spec fn names_provider_to_platform(v: FairnessViolation) -> bool {
    v matches FairnessViolation::NoReciprocity { from: Party::Provider(_), to: Party::Platform, .. }
}

/// The violation blames the provider's duty towards the user.
pub open spec fn names_provider_to_user(v: FairnessViolation) -> bool {
    v matches FairnessViolation::NoReciprocity { from: Party::Provider(_), to: Party::User, .. }
}

/// A requirement that must hold for a contract to be fair.
#[derive(Clone, Copy, Debug, PartialEq, Eq, Structural)]
pub enum FairnessRequirement {
    Reciprocity,
    Transparency,
    Stability,
    ExitRight,
    DignityPreserving,
    FairDispute,
}

impl FairnessRequirement {
    /// All six requirements, each exactly once.
    pub fn all() -> (r: Vec<Self>)
        ensures
            r@.len() == 6,
            r@[0] == FairnessRequirement::Reciprocity,
            r@[1] == FairnessRequirement::Transparency,
            r@[2] == FairnessRequirement::Stability,
            r@[3] == FairnessRequirement::ExitRight,
            r@[4] == FairnessRequirement::DignityPreserving,
            r@[5] == FairnessRequirement::FairDispute,
    {
        let mut r: Vec<FairnessRequirement> = Vec::new();
        r.push(FairnessRequirement::Reciprocity);
        r.push(FairnessRequirement::Transparency);
        r.push(FairnessRequirement::Stability);
        r.push(FairnessRequirement::ExitRight);
        r.push(FairnessRequirement::DignityPreserving);
        r.push(FairnessRequirement::FairDispute);
        r
    }

    /// A short human-readable statement of the requirement.
    pub fn description(&self) -> (r: &'static str)
        ensures
            (self is Reciprocity) ==> r@ == "Obligations must be mutual between parties"@,
            (self is Transparency) ==> r@ == "Terms must be clear and comprehensible"@,
    {
        match self {
            FairnessRequirement::Reciprocity => "Obligations must be mutual between parties",
            FairnessRequirement::Transparency => "Terms must be clear and comprehensible",
            FairnessRequirement::Stability => "Material terms cannot be changed unilaterally",
            FairnessRequirement::ExitRight => "Parties may exit without punitive consequence",
            FairnessRequirement::DignityPreserving => "No terms that strip fundamental dignity",
            FairnessRequirement::FairDispute => "Disputes resolved through fair process",
        }
    }
}

/// A violation of fairness found in a contract draft.
#[derive(Clone, Debug)]
pub enum FairnessViolation {
    NoReciprocity { from: Party, to: Party, reason: String },
    LackOfTransparency { term: String, reason: String },
    UnilateralAmendment { party: Party, scope: String },
    TrapContract { exit_barrier: String },
    DignityViolation { term: String, explanation: String },
    UnfairDispute { mechanism: String, bias: String },
}

impl FairnessViolation {
    /// Every fairness violation is fatal to the contract.
    pub fn invalidates_contract(&self) -> (r: bool)
        ensures
            r,
    {
        true
    }
}

} // verus!
