//! Contract evolution: proposing, approving and applying changes.
//!
//! Contracts evolve over time, but material changes require agreement
//! from the party that did not propose them; only metadata updates and
//! version bumps apply on their own.  Dates are carried as plain
//! millisecond timestamps and ids as plain strings.

use vstd::prelude::*;
use crate::extension::ExtensionContract;
use crate::text::str_eq;

verus! {

/// Who initiated a contract change.
#[derive(Clone, Debug)]
pub enum ChangeInitiator {
    Platform,
    Provider(String),
    Mutual,
}

/// Where agreement to a change stands.
#[derive(Clone, Debug)]
pub enum AgreementStatus {
    Proposed,
    Agreed,
    Rejected { by: String, reason: String },
    AutoApplied,
}

/// Where a proposed migration stands.
#[derive(Clone, Copy, Debug, PartialEq, Eq, Structural)]
pub enum MigrationStatus {
    Proposed,
    AwaitingPlatformApproval,
    AwaitingProviderApproval,
    Approved,
    Rejected,
    Applied,
}

/// One change to a contract.  The extension version is carried as its
/// three numeric components.
#[derive(Clone, Debug)]
pub enum ContractChange {
    CapabilityAdded { capability_urn: String },
    CapabilityRemoved { capability_urn: String },
    ObligationModified { description: String },
    ObligationAdded { description: String },
    ObligationRemoved { description: String },
    MetadataUpdated { field: String },
    ExtensionVersionBumped {
        from_major: u64,
        from_minor: u64,
        from_patch: u64,
        to_major: u64,
        to_minor: u64,
        to_patch: u64,
    },
}

/// Whether a change alters the contract's substance, so that it needs
/// mutual agreement.
pub open spec fn change_material(c: ContractChange) -> bool {
    !(c matches ContractChange::MetadataUpdated { .. }) && !(c
        matches ContractChange::ExtensionVersionBumped { .. })
}

/// Whether any change in the list is material.
pub open spec fn any_material(changes: Seq<ContractChange>) -> bool {
    exists|i: int| 0 <= i < changes.len() && change_material(#[trigger] changes[i])
}

impl ContractChange {
    /// Whether this change needs mutual agreement.
    pub fn is_material(&self) -> (r: bool)
        ensures
            r == change_material(*self),
    {
        match self {
            ContractChange::CapabilityAdded { .. } => true,
            ContractChange::CapabilityRemoved { .. } => true,
            ContractChange::ObligationModified { .. } => true,
            ContractChange::ObligationAdded { .. } => true,
            ContractChange::ObligationRemoved { .. } => true,
            ContractChange::MetadataUpdated { .. } => false,
            ContractChange::ExtensionVersionBumped { .. } => false,
        }
    }

    /// An exact copy of this change.
    pub fn duplicate(&self) -> (r: Self)
        ensures
            r == *self,
    {
        match self {
            ContractChange::CapabilityAdded { capability_urn } => {
                ContractChange::CapabilityAdded { capability_urn: capability_urn.clone() }
            },
            ContractChange::CapabilityRemoved { capability_urn } => {
                ContractChange::CapabilityRemoved { capability_urn: capability_urn.clone() }
            },
            ContractChange::ObligationModified { description } => {
                ContractChange::ObligationModified { description: description.clone() }
            },
            ContractChange::ObligationAdded { description } => {
                ContractChange::ObligationAdded { description: description.clone() }
            },
            ContractChange::ObligationRemoved { description } => {
                ContractChange::ObligationRemoved { description: description.clone() }
            },
            ContractChange::MetadataUpdated { field } => {
                ContractChange::MetadataUpdated { field: field.clone() }
            },
            ContractChange::ExtensionVersionBumped {
                from_major,
                from_minor,
                from_patch,
                to_major,
                to_minor,
                to_patch,
            } => {
                ContractChange::ExtensionVersionBumped {
                    from_major: *from_major,
                    from_minor: *from_minor,
                    from_patch: *from_patch,
                    to_major: *to_major,
                    to_minor: *to_minor,
                    to_patch: *to_patch,
                }
            },
        }
    }
}

/// Copies a change list exactly.
fn duplicate_changes(changes: &Vec<ContractChange>) -> (r: Vec<ContractChange>)
    ensures
        r@ == changes@,
{
    let n = changes.len();
    let mut out: Vec<ContractChange> = Vec::new();
    let mut i: usize = 0;
    while i < n
        invariant
            0 <= i <= n,
            n == changes@.len(),
            out@.len() == i,
            forall|j: int| 0 <= j < i ==> out@[j] == changes@[j],
        decreases n - i,
    {
        out.push(changes[i].duplicate());
        i = i + 1;
    }
    proof {
        assert(out@ =~= changes@);
    }
    out
}

/// One applied version of a contract.
#[derive(Clone, Debug)]
pub struct ContractVersion {
    pub version: u32,
    pub created_ms: u64,
    pub changes: Vec<ContractChange>,
    pub initiator: ChangeInitiator,
    pub agreement_status: AgreementStatus,
}

/// A proposed migration from one contract version to the next.
#[derive(Clone, Debug)]
pub struct Migration {
    pub id: String,
    pub contract_id: String,
    pub from_version: u32,
    pub to_version: u32,
    pub changes: Vec<ContractChange>,
    pub proposed_at_ms: u64,
    pub proposed_by: ChangeInitiator,
    pub status: MigrationStatus,
}

/// Errors of the evolution process.
#[derive(Debug)]
pub enum EvolutionError {
    MigrationNotFound,
    CannotApply(String),
    RequiresMutualAgreement,
}

impl EvolutionError {
    /// A short description of the error kind.
    pub fn kind(&self) -> (r: &'static str)
        ensures
            (self is MigrationNotFound) ==> r@ == "migration not found"@,
    {
        match self {
            EvolutionError::MigrationNotFound => "migration not found",
            EvolutionError::CannotApply(_) => "cannot apply migration",
            EvolutionError::RequiresMutualAgreement => "material change requires mutual agreement",
        }
    }
}

/// The status a proposal enters with: material changes wait for the
/// party that did not propose them; everything else applies at once.
pub open spec fn proposal_status(
    changes: Seq<ContractChange>,
    initiator: ChangeInitiator,
) -> MigrationStatus {
    if any_material(changes) {
        match initiator {
            ChangeInitiator::Platform => MigrationStatus::AwaitingProviderApproval,
            ChangeInitiator::Provider(_) => MigrationStatus::AwaitingPlatformApproval,
            ChangeInitiator::Mutual => MigrationStatus::Approved,
        }
    } else {
        MigrationStatus::Approved
    }
}

/// The full version history of one contract, with its pending
/// migrations.
#[derive(Debug)]
pub struct EvolutionPath {
    pub contract_id: String,
    pub versions: Vec<ContractVersion>,
    pub pending_migrations: Vec<Migration>,
}

impl EvolutionPath {
    /// The current version number: the last applied one, or zero.
    pub open spec fn spec_current_version(self) -> u32 {
        if self.versions@.len() == 0 {
            0
        } else {
            self.versions@.last().version
        }
    }

    /// A fresh history for a validated contract: version one, mutually
    /// agreed, nothing pending.
    pub fn new(contract: &ExtensionContract, now_ms: u64) -> (r: Self)
        ensures
            r.contract_id == contract.id,
            r.versions@.len() == 1,
            r.versions@[0].version == 1,
            r.versions@[0].agreement_status is Agreed,
            r.pending_migrations@.len() == 0,
            r.spec_current_version() == 1,
    {
        let mut versions: Vec<ContractVersion> = Vec::new();
        versions.push(
            ContractVersion {
                version: 1,
                created_ms: now_ms,
                changes: Vec::new(),
                initiator: ChangeInitiator::Mutual,
                agreement_status: AgreementStatus::Agreed,
            },
        );
        EvolutionPath {
            contract_id: contract.id.clone(),
            versions,
            pending_migrations: Vec::new(),
        }
    }

    /// The current version number.
    pub fn current_version(&self) -> (r: u32)
        ensures
            r == self.spec_current_version(),
    {
        if self.versions.len() == 0 {
            0
        } else {
            self.versions[self.versions.len() - 1].version
        }
    }

    /// Proposes a set of changes.  A proposal without material changes,
    /// or one proposed mutually, applies at once; a material proposal by
    /// one party waits in the pending list for the other's approval.
    pub fn propose_migration(
        &mut self,
        changes: Vec<ContractChange>,
        initiator: ChangeInitiator,
        now_ms: u64,
    ) -> (r: Result<Migration, EvolutionError>)
        requires
            old(self).spec_current_version() < u32::MAX,
        ensures
            r is Ok,
            final(self).contract_id == old(self).contract_id,
            r matches Ok(migration) && {
                &&& migration.id@.len() == 36
                &&& migration.contract_id@ == old(self).contract_id@
                &&& migration.from_version == old(self).spec_current_version()
                &&& migration.to_version == old(self).spec_current_version() + 1
                &&& migration.changes@ == changes@
                &&& migration.proposed_at_ms == now_ms
                &&& migration.proposed_by == initiator
                &&& migration.status == proposal_status(changes@, initiator)
            },
            proposal_status(changes@, initiator) == MigrationStatus::Approved ==> {
                &&& final(self).versions@.len() == old(self).versions@.len() + 1
                &&& final(self).spec_current_version() == old(self).spec_current_version() + 1
                &&& final(self).versions@.last().changes@ == changes@
                &&& final(self).versions@.last().agreement_status is Agreed
                &&& final(self).pending_migrations@ == old(self).pending_migrations@
            },
            proposal_status(changes@, initiator) != MigrationStatus::Approved ==> {
                &&& final(self).versions@ == old(self).versions@
                &&& final(self).spec_current_version() == old(self).spec_current_version()
                &&& final(self).pending_migrations@.len() == old(self).pending_migrations@.len() + 1
            },
    {
        let current = self.current_version();

        let mut has_material = false;
        let n = changes.len();
        let mut i: usize = 0;
        while i < n
            invariant
                0 <= i <= n,
                n == changes@.len(),
                has_material == exists|j: int|
                    0 <= j < i && change_material(#[trigger] changes@[j]),
            decreases n - i,
        {
            if changes[i].is_material() {
                has_material = true;
                proof {
                    assert(change_material(changes@[i as int]));
                }
            }
            i = i + 1;
            proof {
                if change_material(changes@[i - 1]) {
                    assert(exists|j: int| 0 <= j < i && change_material(#[trigger] changes@[j]));
                }
            }
        }
        proof {
            assert(has_material == any_material(changes@));
        }

        let status = if has_material {
            match &initiator {
                ChangeInitiator::Platform => MigrationStatus::AwaitingProviderApproval,
                ChangeInitiator::Provider(_) => MigrationStatus::AwaitingPlatformApproval,
                ChangeInitiator::Mutual => MigrationStatus::Approved,
            }
        } else {
            MigrationStatus::Approved
        };

        let changes_copy = duplicate_changes(&changes);
        let migration = Migration {
            id: crate::state::new_unique_id(),
            contract_id: self.contract_id.clone(),
            from_version: current,
            to_version: current + 1,
            changes,
            proposed_at_ms: now_ms,
            proposed_by: initiator,
            status,
        };

        if matches!(status, MigrationStatus::Approved) {
            self.apply_changes(migration.to_version, changes_copy, migration.proposed_by.clone(), now_ms);
        } else {
            let pending = Migration {
                id: migration.id.clone(),
                contract_id: migration.contract_id.clone(),
                from_version: migration.from_version,
                to_version: migration.to_version,
                changes: changes_copy,
                proposed_at_ms: migration.proposed_at_ms,
                proposed_by: migration.proposed_by.clone(),
                status: migration.status,
            };
            self.pending_migrations.push(pending);
        }
        Ok(migration)
    }

    /// Applies one version entry to the history.
    fn apply_changes(
        &mut self,
        to_version: u32,
        changes: Vec<ContractChange>,
        initiator: ChangeInitiator,
        now_ms: u64,
    )
        ensures
            final(self).contract_id == old(self).contract_id,
            final(self).pending_migrations == old(self).pending_migrations,
            final(self).versions@.len() == old(self).versions@.len() + 1,
            final(self).versions@.last().version == to_version,
            final(self).versions@.last().changes@ == changes@,
            final(self).versions@.last().agreement_status is Agreed,
            final(self).versions@.last().created_ms == now_ms,
            final(self).spec_current_version() == to_version,
    {
        self.versions.push(
            ContractVersion {
                version: to_version,
                created_ms: now_ms,
                changes,
                initiator,
                agreement_status: AgreementStatus::Agreed,
            },
        );
    }

    /// Whether a pending migration carries `migration_id`, and where.
    fn find_pending(&self, migration_id: &str) -> (r: Option<usize>)
        ensures
            match r {
                Some(i) => {
                    &&& i < self.pending_migrations@.len()
                    &&& self.pending_migrations@[i as int].id@ == migration_id@
                    &&& forall|j: int|
                        0 <= j < i ==> (#[trigger] self.pending_migrations@[j]).id@
                            != migration_id@
                },
                None => forall|j: int|
                    0 <= j < self.pending_migrations@.len() ==> (
                    #[trigger] self.pending_migrations@[j]).id@ != migration_id@,
            },
    {
        let n = self.pending_migrations.len();
        let mut i: usize = 0;
        while i < n
            invariant
                0 <= i <= n,
                n == self.pending_migrations@.len(),
                forall|j: int|
                    0 <= j < i ==> (#[trigger] self.pending_migrations@[j]).id@ != migration_id@,
            decreases n - i,
        {
            if str_eq(self.pending_migrations[i].id.as_str(), migration_id) {
                return Some(i);
            }
            i = i + 1;
        }
        None
    }

    /// Approves a pending migration: its changes are applied as the next
    /// version and it leaves the pending list.  An unknown id is an
    /// error and changes nothing.
    pub fn approve_migration(&mut self, migration_id: &str, now_ms: u64) -> (r: Result<
        (),
        EvolutionError,
    >)
        ensures
            (r is Ok) == exists|j: int|
                0 <= j < old(self).pending_migrations@.len() && (#[trigger] old(self).pending_migrations@[j]).id@ == migration_id@,
            r is Err ==> final(self).versions@ == old(self).versions@ && final(self).pending_migrations@ == old(self).pending_migrations@,
            r is Ok ==> exists|i: int|
                {
                    &&& 0 <= i < old(self).pending_migrations@.len()
                    &&& (#[trigger] old(self).pending_migrations@[i]).id@ == migration_id@
                    &&& forall|j: int|
                        0 <= j < i ==> (#[trigger] old(self).pending_migrations@[j]).id@
                            != migration_id@
                    &&& final(self).pending_migrations@ == old(self).pending_migrations@.remove(i)
                    &&& final(self).versions@.len() == old(self).versions@.len() + 1
                    &&& final(self).versions@.last().agreement_status is Agreed
                    &&& final(self).versions@.last().version == old(self).pending_migrations@[
                        i
                    ].to_version
                },
            final(self).contract_id == old(self).contract_id,
    {
        let found = self.find_pending(migration_id);
        let i = match found {
            Some(i) => i,
            None => {
                return Err(EvolutionError::MigrationNotFound);
            },
        };
        let migration = self.pending_migrations.remove(i);
        self.apply_changes(migration.to_version, migration.changes, migration.proposed_by, now_ms);
        Ok(())
    }

    /// Rejects a pending migration in place.  An unknown id is an error
    /// and changes nothing.
    pub fn reject_migration(&mut self, migration_id: &str) -> (r: Result<(), EvolutionError>)
        ensures
            (r is Ok) == exists|j: int|
                0 <= j < old(self).pending_migrations@.len() && (#[trigger] old(self).pending_migrations@[j]).id@ == migration_id@,
            r is Err ==> final(self).versions@ == old(self).versions@ && final(self).pending_migrations@ == old(self).pending_migrations@,
            r is Ok ==> {
                &&& final(self).versions@ == old(self).versions@
                &&& final(self).pending_migrations@.len() == old(self).pending_migrations@.len()
                &&& exists|j: int|
                    0 <= j < old(self).pending_migrations@.len() && (#[trigger] old(self).pending_migrations@[j]).id@ == migration_id@ && final(self).pending_migrations@[j].status == MigrationStatus::Rejected && forall|q: int|
                        0 <= q < old(self).pending_migrations@.len() && q != j ==> final(self).pending_migrations@[q] == old(self).pending_migrations@[q]
            },
            final(self).contract_id == old(self).contract_id,
    {
        let found = self.find_pending(migration_id);
        let i = match found {
            Some(i) => i,
            None => {
                return Err(EvolutionError::MigrationNotFound);
            },
        };
        let mut migration = self.pending_migrations.remove(i);
        migration.status = MigrationStatus::Rejected;
        self.pending_migrations.insert(i, migration);
        proof {
            assert(self.pending_migrations@[i as int].status == MigrationStatus::Rejected);
            assert(self.pending_migrations@[i as int].id@ == migration_id@);
        }
        Ok(())
    }
}

} // verus!
