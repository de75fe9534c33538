//! Validation of contract drafts against the fairness requirements.
//!
//! A draft becomes a contract only by passing through this gate: every
//! fairness requirement is checked, every one-sided obligation becomes
//! a violation with a remediation suggestion, and only a draft with no
//! violation is sealed into an [`ExtensionContract`].

use vstd::prelude::*;
use crate::extension::{ContractDraft, ExtensionContract};
use crate::fairness::{FairnessRequirement, FairnessViolation, Party};
use vstd::string::StrSliceExecFns;
use vstd::string::StringExecFns;

verus! {

/// Errors that prevent contract validation.
#[derive(Debug)]
pub enum ValidationError {
    FairnessViolation(FairnessViolation),
    MultipleFairnessViolations(Vec<FairnessViolation>),
    MissingField(String),
    InvalidLicense(String),
    InvalidUrn(String),
}

/// The outcome of validating a draft: a sealed contract, or the
/// violations with one suggestion each.
#[derive(Debug)]
pub enum ValidationResult {
    Valid(ExtensionContract),
    Invalid { violations: Vec<FairnessViolation>, suggestions: Vec<String> },
}

/// Whether a draft passes every check the validator makes: balanced
/// reciprocity, a description long enough to mean something, and a
/// license.
pub open spec fn draft_acceptable(draft: ContractDraft) -> bool {
    &&& draft.reciprocity.spec_balanced()
    &&& draft.description@.len() >= 10
    &&& draft.license@.len() > 0
}

/// Validates contract drafts against the fairness requirements.
#[derive(Debug)]
pub struct ContractValidator {
    requirements: Vec<FairnessRequirement>,
}

impl ContractValidator {
    /// The requirements the validator checks.
    pub closed spec fn spec_requirements(self) -> Seq<FairnessRequirement> {
        self.requirements@
    }

    /// The validator checks exactly the six fairness requirements, in
    /// their canonical order.
    pub open spec fn wf(self) -> bool {
        self.spec_requirements() == seq![
            FairnessRequirement::Reciprocity,
            FairnessRequirement::Transparency,
            FairnessRequirement::Stability,
            FairnessRequirement::ExitRight,
            FairnessRequirement::DignityPreserving,
            FairnessRequirement::FairDispute,
        ]
    }

    /// A validator checking all six requirements.
    pub fn new() -> (r: Self)
        ensures
            r.wf(),
    {
        let r = ContractValidator { requirements: FairnessRequirement::all() };
        proof {
            assert(r.spec_requirements() =~= seq![
                FairnessRequirement::Reciprocity,
                FairnessRequirement::Transparency,
                FairnessRequirement::Stability,
                FairnessRequirement::ExitRight,
                FairnessRequirement::DignityPreserving,
                FairnessRequirement::FairDispute,
            ]);
        }
        r
    }

    /// Checks one fairness requirement against a draft.  Only
    /// reciprocity and transparency are mechanically checkable here;
    /// stability is enforced by versioning, and the remaining
    /// requirements by platform policy.
    fn check_requirement(
        &self,
        requirement: &FairnessRequirement,
        draft: &ContractDraft,
    ) -> (r: Option<FairnessViolation>)
        ensures
            (r is Some) == ((requirement is Reciprocity && !draft.reciprocity.spec_balanced()) || (
            requirement is Transparency && draft.description@.len() < 10)),
    {
        match requirement {
            FairnessRequirement::Reciprocity => {
                if !draft.reciprocity.is_balanced() {
                    Some(
                        FairnessViolation::NoReciprocity {
                            from: Party::Platform,
                            to: Party::Provider(draft.provider.name.clone()),
                            reason: String::from_str("Obligations not mutual"),
                        },
                    )
                } else {
                    None
                }
            },
            FairnessRequirement::Transparency => {
                if draft.description.as_str().unicode_len() < 10 {
                    Some(
                        FairnessViolation::LackOfTransparency {
                            term: String::from_str("description"),
                            reason: String::from_str("Description too brief to be meaningful"),
                        },
                    )
                } else {
                    None
                }
            },
            _ => None,
        }
    }

    /// Validates a draft.  A contract comes back exactly when the draft
    /// is acceptable; otherwise every violation comes back with one
    /// remediation suggestion.
    pub fn validate(&self, draft: ContractDraft) -> (r: ValidationResult)
        requires
            self.wf(),
        ensures
            (r is Valid) == draft_acceptable(draft),
            r matches ValidationResult::Invalid { violations, suggestions } ==> violations@.len()
                > 0 && violations@.len() == suggestions@.len(),
            r matches ValidationResult::Valid(contract) ==> {
                &&& contract.urn == draft.urn
                &&& contract.provider == draft.provider
                &&& contract.description == draft.description
                &&& contract.capabilities == draft.capabilities
                &&& contract.reciprocity == draft.reciprocity
                &&& contract.license == draft.license
                &&& contract.fairness_satisfied@.len() == 6
                &&& contract.contract_version == 1
                &&& contract.id@.len() == 36
            },
    {
        let ghost balanced = draft.reciprocity.spec_balanced();
        let ghost brief = draft.description@.len() < 10;
        let mut violations: Vec<FairnessViolation> = Vec::new();
        let mut suggestions: Vec<String> = Vec::new();

        // Check each fairness requirement.
        let n = self.requirements.len();
        let mut i: usize = 0;
        while i < n
            invariant
                0 <= i <= n,
                n == 6,
                self.wf(),
                n == self.requirements@.len(),
                balanced == draft.reciprocity.spec_balanced(),
                brief == (draft.description@.len() < 10),
                violations@.len() == (if i >= 1 && !balanced {
                    1int
                } else {
                    0int
                }) + (if i >= 2 && brief {
                    1int
                } else {
                    0int
                }),
                suggestions@.len() == violations@.len(),
            decreases n - i,
        {
            let requirement = &self.requirements[i];
            match self.check_requirement(requirement, &draft) {
                Some(violation) => {
                    suggestions.push(self.suggest_remediation(requirement));
                    violations.push(violation);
                },
                None => {},
            }
            i = i + 1;
        }

        // Check reciprocity direction by direction.
        let mut imbalances = draft.reciprocity.find_imbalances();
        let ghost imbalance_count = imbalances@.len() as int;
        proof {
            assert(balanced ==> imbalance_count == 0);
            assert(!balanced ==> imbalance_count > 0);
        }
        let ghost before = violations@.len() as int;
        while imbalances.len() > 0
            invariant
                violations@.len() == before + imbalance_count - imbalances@.len(),
                suggestions@.len() == violations@.len(),
                imbalances@.len() <= imbalance_count,
            decreases imbalances@.len(),
        {
            let violation = imbalances.remove(0);
            suggestions.push(String::from_str("Add obligations to balance the one-sided relation"));
            violations.push(violation);
        }

        // Required fields.
        if draft.license.as_str().unicode_len() == 0 {
            violations.push(
                FairnessViolation::LackOfTransparency {
                    term: String::from_str("license"),
                    reason: String::from_str("No license specified"),
                },
            );
            suggestions.push(String::from_str("Specify an SPDX license identifier"));
        }
        if draft.description.as_str().unicode_len() == 0 {
            violations.push(
                FairnessViolation::LackOfTransparency {
                    term: String::from_str("description"),
                    reason: String::from_str("No description provided"),
                },
            );
            suggestions.push(
                String::from_str("Provide a clear description of what this extension does"),
            );
        }

        if violations.is_empty() {
            ValidationResult::Valid(
                ExtensionContract::new_validated(
                    draft.urn,
                    draft.provider,
                    draft.description,
                    draft.capabilities,
                    draft.reciprocity,
                    draft.license,
                ),
            )
        } else {
            ValidationResult::Invalid { violations, suggestions }
        }
    }

    /// How to mend a draft that fails `requirement`.
    pub fn suggest_remediation(&self, requirement: &FairnessRequirement) -> (r: String)
        ensures
            requirement is Reciprocity ==> r@
                == "Add mutual obligations: what does the platform provide, what does the provider commit to?"@,
            requirement is Transparency ==> r@
                == "Provide clear, comprehensible descriptions of all terms"@,
            requirement is Stability ==> r@
                == "Commit to stability: material changes require mutual agreement"@,
            requirement is ExitRight ==> r@
                == "Ensure either party can exit without punitive consequences"@,
            requirement is DignityPreserving ==> r@
                == "Remove any terms that strip fundamental dignity from any party"@,
            requirement is FairDispute ==> r@
                == "Specify a fair dispute resolution mechanism"@,
            r@.len() > 0,
    {
        proof {
            reveal_strlit(
                "Add mutual obligations: what does the platform provide, what does the provider commit to?",
            );
            reveal_strlit("Provide clear, comprehensible descriptions of all terms");
            reveal_strlit("Commit to stability: material changes require mutual agreement");
            reveal_strlit("Ensure either party can exit without punitive consequences");
            reveal_strlit("Remove any terms that strip fundamental dignity from any party");
            reveal_strlit("Specify a fair dispute resolution mechanism");
        }
        let text = match requirement {
            FairnessRequirement::Reciprocity => "Add mutual obligations: what does the platform provide, what does the provider commit to?",
            FairnessRequirement::Transparency => "Provide clear, comprehensible descriptions of all terms",
            FairnessRequirement::Stability => "Commit to stability: material changes require mutual agreement",
            FairnessRequirement::ExitRight => "Ensure either party can exit without punitive consequences",
            FairnessRequirement::DignityPreserving => "Remove any terms that strip fundamental dignity from any party",
            FairnessRequirement::FairDispute => "Specify a fair dispute resolution mechanism",
        };
        String::from_str(text)
    }
}

impl Default for ContractValidator {
    /// The same validator as [`ContractValidator::new`].
    fn default() -> (r: Self)
        ensures
            r.wf(),
    {
        ContractValidator::new()
    }
}

} // verus!
