//! Instance registration and lifecycle.
//!
//! An [`InstanceManager`] tracks every known instance — local and
//! remote — with its configuration, externally driven status, and
//! liveness timestamps, and evicts stale records (never the local one).
//! An [`InstanceCoordinator`] binds such a manager to the replica state
//! of the one local instance.

use vstd::prelude::*;
use crate::assoc::{assoc_find, distinct_keys};
use crate::assoc::{
    lemma_assoc_find_at, lemma_assoc_find_push, lemma_assoc_find_remove, lemma_assoc_find_skip,
    lemma_assoc_find_update, lemma_assoc_has_index,
};
use crate::state::SyncState;
use crate::text::str_eq;
use vstd::pervasive::VecAdditionalExecFns;
use vstd::string::StringExecFns;

verus! {

/// The externally driven lifecycle of an instance.
#[derive(Clone, Copy, Debug, PartialEq, Eq, Structural)]
pub enum InstanceStatus {
    Starting,
    Running,
    Syncing,
    Paused,
    Stopping,
    Stopped,
    Failed,
}

/// Static description of an instance.
#[derive(Clone, Debug)]
pub struct InstanceMetadata {
    pub version: String,
    pub agent_id: String,
    pub framework: Option<String>,
    pub capabilities: Vec<String>,
    pub tags: Vec<(String, String)>,
}

impl Default for InstanceMetadata {
    /// A blank description at schema version 1.0.0.
    fn default() -> (r: Self)
        ensures
            r.version@ == "1.0.0"@,
            r.agent_id@.len() == 0,
            r.framework is None,
            r.capabilities@.len() == 0,
            r.tags@.len() == 0,
    {
        InstanceMetadata {
            version: String::from_str("1.0.0"),
            agent_id: String::new(),
            framework: None,
            capabilities: Vec::new(),
            tags: Vec::new(),
        }
    }
}

/// How one instance is to be run and synchronized.
#[derive(Clone, Debug)]
pub struct InstanceConfig {
    pub instance_id: String,
    pub metadata: InstanceMetadata,
    pub sync_enabled: bool,
    pub heartbeat_interval_ms: u64,
    pub sync_interval_ms: u64,
    pub max_offline_duration_ms: u64,
}

impl Default for InstanceConfig {
    /// A fresh unique id, synchronization on, ten-second heartbeats.
    fn default() -> (r: Self)
        ensures
            r.instance_id@.len() == 36,
            r.sync_enabled,
            r.heartbeat_interval_ms == 10000,
            r.sync_interval_ms == 5000,
            r.max_offline_duration_ms == 300000,
    {
        InstanceConfig {
            instance_id: crate::state::new_unique_id(),
            metadata: InstanceMetadata::default(),
            sync_enabled: true,
            heartbeat_interval_ms: 10000,
            sync_interval_ms: 5000,
            max_offline_duration_ms: 300000,
        }
    }
}

/// A live snapshot of an instance's health.
#[derive(Clone, Debug)]
pub struct InstanceHealth {
    pub status: InstanceStatus,
    pub last_heartbeat: u64,
    pub last_sync: u64,
    pub error_count: u32,
    pub memory_bytes: Option<u64>,
    pub event_count: usize,
}

/// One registered instance: configuration, status, health, and
/// liveness.
#[derive(Debug)]
pub struct RegisteredInstance {
    pub config: InstanceConfig,
    pub status: InstanceStatus,
    pub health: InstanceHealth,
    pub address: Option<String>,
    pub created_at_ms: u64,
    pub last_seen_ms: u64,
}

impl RegisteredInstance {
    /// A newly registered instance: starting, healthy, just seen.
    pub fn new(config: InstanceConfig, address: Option<String>, now_ms: u64) -> (r: Self)
        ensures
            r.config == config,
            r.status == InstanceStatus::Starting,
            r.health.status == InstanceStatus::Starting,
            r.health.last_heartbeat == now_ms,
            r.health.last_sync == 0,
            r.health.error_count == 0,
            r.health.memory_bytes is None,
            r.health.event_count == 0,
            r.address == address,
            r.created_at_ms == now_ms,
            r.last_seen_ms == now_ms,
    {
        RegisteredInstance {
            config,
            status: InstanceStatus::Starting,
            health: InstanceHealth {
                status: InstanceStatus::Starting,
                last_heartbeat: now_ms,
                last_sync: 0,
                error_count: 0,
                memory_bytes: None,
                event_count: 0,
            },
            address,
            created_at_ms: now_ms,
            last_seen_ms: now_ms,
        }
    }

    /// A heartbeat arrived: the instance was just seen.
    pub fn update_heartbeat(&mut self, now_ms: u64)
        ensures
            final(self).config == old(self).config,
            final(self).status == old(self).status,
            final(self).address == old(self).address,
            final(self).created_at_ms == old(self).created_at_ms,
            final(self).last_seen_ms == now_ms,
            final(self).health.last_heartbeat == now_ms,
            final(self).health.status == old(self).health.status,
            final(self).health.last_sync == old(self).health.last_sync,
            final(self).health.error_count == old(self).health.error_count,
            final(self).health.memory_bytes == old(self).health.memory_bytes,
            final(self).health.event_count == old(self).health.event_count,
    {
        self.last_seen_ms = now_ms;
        self.health.last_heartbeat = now_ms;
    }

    /// Moves the instance to `status`; transitions are externally
    /// driven, never inferred.
    pub fn update_status(&mut self, status: InstanceStatus)
        ensures
            final(self).config == old(self).config,
            final(self).status == status,
            final(self).health.status == status,
            final(self).address == old(self).address,
            final(self).created_at_ms == old(self).created_at_ms,
            final(self).last_seen_ms == old(self).last_seen_ms,
            final(self).health.last_heartbeat == old(self).health.last_heartbeat,
            final(self).health.last_sync == old(self).health.last_sync,
            final(self).health.error_count == old(self).health.error_count,
            final(self).health.memory_bytes == old(self).health.memory_bytes,
            final(self).health.event_count == old(self).health.event_count,
    {
        self.status = status;
        self.health.status = status;
    }

    /// Counts one error against the instance.
    pub fn record_error(&mut self)
        ensures
            final(self).health.error_count == (if old(self).health.error_count == u32::MAX {
                u32::MAX
            } else {
                (old(self).health.error_count + 1) as u32
            }),
            final(self).config == old(self).config,
            final(self).status == old(self).status,
            final(self).last_seen_ms == old(self).last_seen_ms,
    {
        if self.health.error_count < u32::MAX {
            self.health.error_count = self.health.error_count + 1;
        }
    }

    /// Whether the instance has been silent longer than `timeout_ms`.
    pub fn is_stale(&self, now_ms: u64, timeout_ms: u64) -> (r: bool)
        ensures
            r == (self.last_seen_ms + timeout_ms < now_ms),
    {
        if now_ms <= timeout_ms {
            false
        } else {
            self.last_seen_ms < now_ms - timeout_ms
        }
    }
}

/// Headline numbers over all registered instances.
#[derive(Clone, Debug)]
pub struct InstanceManagerStats {
    pub total_instances: usize,
    pub running_instances: usize,
    pub syncing_instances: usize,
    pub failed_instances: usize,
    pub has_local: bool,
}

/// The table of every known instance, keyed by instance id, with at
/// most one of them designated local.
#[derive(Debug)]
pub struct InstanceManager {
    pub instances: Vec<(String, RegisteredInstance)>,
    pub local_instance_id: Option<String>,
}

impl InstanceManager {
    /// The abstract instance table.
    pub open spec fn instances_view(self) -> Seq<(Seq<char>, RegisteredInstance)> {
        Seq::new(self.instances@.len(), |i: int| (self.instances@[i].0@, self.instances@[i].1))
    }

    /// The record held for one instance id.
    pub open spec fn spec_instance(self, id: Seq<char>) -> Option<RegisteredInstance> {
        assoc_find(self.instances_view(), id)
    }

    /// The id of the local instance, if one was registered.
    pub open spec fn spec_local(self) -> Option<Seq<char>> {
        match self.local_instance_id {
            Some(s) => Some(s@),
            None => None,
        }
    }

    /// Ids are unique and each record is keyed by its own configured id.
    pub open spec fn wf(self) -> bool {
        &&& distinct_keys(self.instances_view())
        &&& forall|i: int|
            0 <= i < self.instances_view().len() ==> (#[trigger] self.instances_view()[i]).0
                == self.instances_view()[i].1.config.instance_id@
    }

    /// An empty manager with no local instance.
    pub fn new() -> (r: Self)
        ensures
            r.wf(),
            r.instances_view().len() == 0,
            r.spec_local() is None,
    {
        let r = InstanceManager { instances: Vec::new(), local_instance_id: None };
        proof {
            assert(r.instances_view() =~= Seq::<(Seq<char>, RegisteredInstance)>::empty());
        }
        r
    }

    /// The index of the record for `id`, if any.
    fn find_instance(&self, id: &str) -> (r: Option<usize>)
        ensures
            match r {
                Some(i) => {
                    &&& i < self.instances_view().len()
                    &&& self.instances_view()[i as int].0 == id@
                    &&& forall|j: int| 0 <= j < i ==> self.instances_view()[j].0 != id@
                    &&& self.spec_instance(id@) == Some(self.instances_view()[i as int].1)
                },
                None => self.spec_instance(id@) is None,
            },
    {
        let n = self.instances.len();
        let mut i: usize = 0;
        while i < n
            invariant
                0 <= i <= n,
                n == self.instances@.len(),
                self.instances_view().len() == n,
                forall|j: int| 0 <= j < i ==> self.instances_view()[j].0 != id@,
            decreases n - i,
        {
            if str_eq(self.instances[i].0.as_str(), id) {
                proof {
                    lemma_assoc_find_at(self.instances_view(), id@, i as int);
                }
                return Some(i);
            }
            i = i + 1;
        }
        proof {
            lemma_assoc_find_skip(self.instances_view(), id@, n as int);
        }
        None
    }

    /// Registers an instance under its configured id, replacing any
    /// prior record with that id, and returns the id.
    pub fn register(&mut self, config: InstanceConfig, address: Option<String>, now_ms: u64) -> (r:
        String)
        requires
            old(self).wf(),
        ensures
            final(self).wf(),
            r@ == config.instance_id@,
            final(self).spec_local() == old(self).spec_local(),
            final(self).spec_instance(config.instance_id@) matches Some(inst) && {
                &&& inst.config == config
                &&& inst.status == InstanceStatus::Starting
                &&& inst.address == address
                &&& inst.last_seen_ms == now_ms
                &&& inst.created_at_ms == now_ms
                &&& inst.health.status == InstanceStatus::Starting
                &&& inst.health.last_heartbeat == now_ms
                &&& inst.health.last_sync == 0
                &&& inst.health.error_count == 0
                &&& inst.health.memory_bytes is None
                &&& inst.health.event_count == 0
            },
            forall|id: Seq<char>|
                id != config.instance_id@ ==> final(self).spec_instance(id) == old(
                    self,
                ).spec_instance(id),
            old(self).spec_instance(config.instance_id@) is None ==> final(self).instances_view().len() == old(self).instances_view().len() + 1,
            old(self).spec_instance(config.instance_id@) is Some ==> final(self).instances_view().len() == old(self).instances_view().len(),
    {
        let ghost v0 = self.instances_view();
        let id_copy = config.instance_id.clone();
        let key = config.instance_id.clone();
        let record = RegisteredInstance::new(config, address, now_ms);
        match self.find_instance(key.as_str()) {
            Some(i) => {
                let ghost pair = (key@, record);
                self.instances.set(i, (key, record));
                proof {
                    assert(self.instances_view() =~= v0.update(i as int, pair));
                    assert forall|id: Seq<char>|
                        assoc_find(self.instances_view(), id) == (if id == pair.0 {
                            Some(pair.1)
                        } else {
                            assoc_find(v0, id)
                        }) by {
                        lemma_assoc_find_update(v0, i as int, pair, id);
                    }
                    lemma_assoc_find_update(v0, i as int, pair, pair.0);
                }
            },
            None => {
                let ghost pair = (key@, record);
                self.instances.push((key, record));
                proof {
                    assert(self.instances_view() =~= v0.push(pair));
                    lemma_assoc_has_index(v0, pair.0);
                    assert forall|id: Seq<char>|
                        assoc_find(self.instances_view(), id) == (if id == pair.0 {
                            Some(pair.1)
                        } else {
                            assoc_find(v0, id)
                        }) by {
                        lemma_assoc_find_push(v0, pair, id);
                    }
                    assert(distinct_keys(self.instances_view())) by {
                        assert(forall|j: int|
                            0 <= j < v0.len() ==> self.instances_view()[j] == v0[j]);
                        assert(self.instances_view()[v0.len() as int] == pair);
                    }
                }
            },
        }
        id_copy
    }

    /// Registers the local instance: like [`Self::register`] without an
    /// address, and remembers the id as local.
    pub fn register_local(&mut self, config: InstanceConfig, now_ms: u64) -> (r: String)
        requires
            old(self).wf(),
        ensures
            final(self).wf(),
            r@ == config.instance_id@,
            final(self).spec_local() == Some(config.instance_id@),
            final(self).spec_instance(config.instance_id@) matches Some(inst) && {
                &&& inst.config == config
                &&& inst.status == InstanceStatus::Starting
                &&& inst.address is None
                &&& inst.last_seen_ms == now_ms
                &&& inst.created_at_ms == now_ms
                &&& inst.health.status == InstanceStatus::Starting
                &&& inst.health.last_heartbeat == now_ms
                &&& inst.health.last_sync == 0
                &&& inst.health.error_count == 0
                &&& inst.health.event_count == 0
            },
            forall|id: Seq<char>|
                id != config.instance_id@ ==> final(self).spec_instance(id) == old(
                    self,
                ).spec_instance(id),
            old(self).spec_instance(config.instance_id@) is None ==> final(self).instances_view().len() == old(self).instances_view().len() + 1,
            old(self).spec_instance(config.instance_id@) is Some ==> final(self).instances_view().len() == old(self).instances_view().len(),
    {
        let id = self.register(config, None, now_ms);
        self.local_instance_id = Some(id.clone());
        id
    }

    /// The id of the local instance, if one was registered.
    pub fn local_instance_id(&self) -> (r: Option<&str>)
        ensures
            match r {
                Some(s) => self.spec_local() == Some(s@),
                None => self.spec_local() is None,
            },
    {
        match &self.local_instance_id {
            Some(s) => Some(s.as_str()),
            None => None,
        }
    }

    /// Refreshes the liveness of `instance_id`; false when unknown.
    pub fn heartbeat(&mut self, instance_id: &str, now_ms: u64) -> (r: bool)
        requires
            old(self).wf(),
        ensures
            final(self).wf(),
            final(self).spec_local() == old(self).spec_local(),
            r == (old(self).spec_instance(instance_id@) is Some),
            final(self).instances_view().len() == old(self).instances_view().len(),
            old(self).spec_instance(instance_id@) is None ==> final(self).instances_view() == old(
                self,
            ).instances_view(),
            old(self).spec_instance(instance_id@) matches Some(inst) ==> {
                &&& final(self).spec_instance(instance_id@) matches Some(upd)
                &&& final(self).spec_instance(instance_id@).unwrap().last_seen_ms == now_ms
                &&& final(self).spec_instance(instance_id@).unwrap().health.last_heartbeat
                    == now_ms
                &&& final(self).spec_instance(instance_id@).unwrap().status == inst.status
                &&& final(self).spec_instance(instance_id@).unwrap().config == inst.config
                &&& forall|id: Seq<char>|
                    id != instance_id@ ==> final(self).spec_instance(id) == old(
                        self,
                    ).spec_instance(id)
            },
    {
        let ghost v0 = self.instances_view();
        match self.find_instance(instance_id) {
            Some(i) => {
                let ghost old_pair = v0[i as int];
                let mut entry = self.instances.remove(i);
                entry.1.update_heartbeat(now_ms);
                self.instances.insert(i, entry);
                proof {
                    let pair = (old_pair.0, self.instances_view()[i as int].1);
                    assert(self.instances_view() =~= v0.update(i as int, pair));
                    assert forall|id: Seq<char>|
                        assoc_find(self.instances_view(), id) == (if id == instance_id@ {
                            Some(pair.1)
                        } else {
                            assoc_find(v0, id)
                        }) by {
                        lemma_assoc_find_update(v0, i as int, pair, id);
                    }
                    lemma_assoc_find_update(v0, i as int, pair, instance_id@);
                }
                true
            },
            None => false,
        }
    }

    /// Moves `instance_id` to `status`; false when unknown.
    pub fn update_status(&mut self, instance_id: &str, status: InstanceStatus) -> (r: bool)
        requires
            old(self).wf(),
        ensures
            final(self).wf(),
            final(self).spec_local() == old(self).spec_local(),
            r == (old(self).spec_instance(instance_id@) is Some),
            final(self).instances_view().len() == old(self).instances_view().len(),
            old(self).spec_instance(instance_id@) is None ==> final(self).instances_view() == old(
                self,
            ).instances_view(),
            old(self).spec_instance(instance_id@) matches Some(inst) ==> {
                &&& final(self).spec_instance(instance_id@) matches Some(upd)
                &&& final(self).spec_instance(instance_id@).unwrap().status == status
                &&& final(self).spec_instance(instance_id@).unwrap().health.status == status
                &&& final(self).spec_instance(instance_id@).unwrap().config == inst.config
                &&& final(self).spec_instance(instance_id@).unwrap().last_seen_ms
                    == inst.last_seen_ms
                &&& forall|id: Seq<char>|
                    id != instance_id@ ==> final(self).spec_instance(id) == old(
                        self,
                    ).spec_instance(id)
            },
    {
        let ghost v0 = self.instances_view();
        match self.find_instance(instance_id) {
            Some(i) => {
                let ghost old_pair = v0[i as int];
                let mut entry = self.instances.remove(i);
                entry.1.update_status(status);
                self.instances.insert(i, entry);
                proof {
                    let pair = (old_pair.0, self.instances_view()[i as int].1);
                    assert(self.instances_view() =~= v0.update(i as int, pair));
                    assert forall|id: Seq<char>|
                        assoc_find(self.instances_view(), id) == (if id == instance_id@ {
                            Some(pair.1)
                        } else {
                            assoc_find(v0, id)
                        }) by {
                        lemma_assoc_find_update(v0, i as int, pair, id);
                    }
                    lemma_assoc_find_update(v0, i as int, pair, instance_id@);
                }
                true
            },
            None => false,
        }
    }

    /// The record for `instance_id`, if any.
    pub fn get(&self, instance_id: &str) -> (r: Option<&RegisteredInstance>)
        ensures
            match r {
                Some(inst) => self.spec_instance(instance_id@) == Some(*inst),
                None => self.spec_instance(instance_id@) is None,
            },
    {
        match self.find_instance(instance_id) {
            Some(i) => Some(&self.instances[i].1),
            None => None,
        }
    }

    /// Drops the record for `instance_id` and returns it; a removed
    /// local instance also clears the local designation.
    pub fn unregister(&mut self, instance_id: &str) -> (r: Option<RegisteredInstance>)
        requires
            old(self).wf(),
        ensures
            final(self).wf(),
            final(self).spec_instance(instance_id@) is None,
            forall|id: Seq<char>|
                id != instance_id@ ==> final(self).spec_instance(id) == old(self).spec_instance(
                    id,
                ),
            match r {
                Some(inst) => old(self).spec_instance(instance_id@) == Some(inst),
                None => old(self).spec_instance(instance_id@) is None,
            },
            final(self).spec_local() == (if old(self).spec_local() == Some(instance_id@) {
                None::<Seq<char>>
            } else {
                old(self).spec_local()
            }),
    {
        let ghost v0 = self.instances_view();
        let removed = match self.find_instance(instance_id) {
            Some(i) => {
                let entry = self.instances.remove(i);
                proof {
                    assert(self.instances_view() =~= v0.remove(i as int));
                    assert forall|id: Seq<char>|
                        assoc_find(self.instances_view(), id) == (if id == instance_id@ {
                            None::<RegisteredInstance>
                        } else {
                            assoc_find(v0, id)
                        }) by {
                        lemma_assoc_find_remove(v0, i as int, id);
                    }
                    lemma_assoc_find_remove(v0, i as int, instance_id@);
                }
                Some(entry.1)
            },
            None => None,
        };
        let clear = match &self.local_instance_id {
            Some(local) => str_eq(local.as_str(), instance_id),
            None => false,
        };
        if clear {
            self.local_instance_id = None;
        }
        removed
    }

    /// Every instance currently in `Running` status.
    pub fn running_instances(&self) -> (r: Vec<&RegisteredInstance>)
        ensures
            forall|i: int|
                0 <= i < r@.len() ==> (#[trigger] r@[i]).status == InstanceStatus::Running,
            r@.len() == self.instances_view().filter(
                |p: (Seq<char>, RegisteredInstance)| p.1.status == InstanceStatus::Running,
            ).len(),
    {
        let ghost pred = |p: (Seq<char>, RegisteredInstance)| p.1.status
            == InstanceStatus::Running;
        let n = self.instances.len();
        let mut out: Vec<&RegisteredInstance> = Vec::new();
        let mut i: usize = 0;
        proof {
            assert(self.instances_view().take(0) =~= Seq::<
                (Seq<char>, RegisteredInstance),
            >::empty());
            reveal(Seq::filter);
        }
        while i < n
            invariant
                0 <= i <= n,
                n == self.instances@.len(),
                self.instances_view().len() == n,
                pred == (|p: (Seq<char>, RegisteredInstance)| p.1.status
                    == InstanceStatus::Running),
                out@.len() == self.instances_view().take(i as int).filter(pred).len(),
                forall|j: int|
                    0 <= j < out@.len() ==> (#[trigger] out@[j]).status == InstanceStatus::Running,
            decreases n - i,
        {
            proof {
                assert(self.instances_view().take(i + 1) =~= self.instances_view().take(
                    i as int,
                ).push(self.instances_view()[i as int]));
                crate::log::lemma_filter_push(
                    self.instances_view().take(i as int),
                    self.instances_view()[i as int],
                    pred,
                );
            }
            if matches!(self.instances[i].1.status, InstanceStatus::Running) {
                out.push(&self.instances[i].1);
            }
            i = i + 1;
        }
        proof {
            assert(self.instances_view().take(n as int) =~= self.instances_view());
        }
        out
    }

    /// Every registered instance, in table order.
    pub fn all_instances(&self) -> (r: Vec<&RegisteredInstance>)
        ensures
            r@.len() == self.instances_view().len(),
            forall|i: int| 0 <= i < r@.len() ==> *r@[i] == self.instances_view()[i].1,
    {
        let n = self.instances.len();
        let mut out: Vec<&RegisteredInstance> = Vec::new();
        let mut i: usize = 0;
        while i < n
            invariant
                0 <= i <= n,
                n == self.instances@.len(),
                self.instances_view().len() == n,
                out@.len() == i,
                forall|j: int| 0 <= j < i ==> *out@[j] == self.instances_view()[j].1,
            decreases n - i,
        {
            out.push(&self.instances[i].1);
            i = i + 1;
        }
        out
    }

    /// Every registered instance other than the local one.
    pub fn remote_instances(&self) -> (r: Vec<&RegisteredInstance>)
        requires
            self.wf(),
        ensures
            forall|i: int|
                0 <= i < r@.len() ==> Some((#[trigger] r@[i]).config.instance_id@)
                    != self.spec_local(),
            r@.len() == self.instances_view().filter(
                |p: (Seq<char>, RegisteredInstance)|
                    Some(p.1.config.instance_id@) != self.spec_local(),
            ).len(),
    {
        let ghost pred = |p: (Seq<char>, RegisteredInstance)|
            Some(p.1.config.instance_id@) != self.spec_local();
        let n = self.instances.len();
        let mut out: Vec<&RegisteredInstance> = Vec::new();
        let mut i: usize = 0;
        proof {
            assert(self.instances_view().take(0) =~= Seq::<
                (Seq<char>, RegisteredInstance),
            >::empty());
            reveal(Seq::filter);
        }
        while i < n
            invariant
                0 <= i <= n,
                n == self.instances@.len(),
                self.instances_view().len() == n,
                pred == (|p: (Seq<char>, RegisteredInstance)|
                    Some(p.1.config.instance_id@) != self.spec_local()),
                self.wf(),
                out@.len() == self.instances_view().take(i as int).filter(pred).len(),
                forall|j: int|
                    0 <= j < out@.len() ==> Some((#[trigger] out@[j]).config.instance_id@)
                        != self.spec_local(),
            decreases n - i,
        {
            proof {
                assert(self.instances_view().take(i + 1) =~= self.instances_view().take(
                    i as int,
                ).push(self.instances_view()[i as int]));
                crate::log::lemma_filter_push(
                    self.instances_view().take(i as int),
                    self.instances_view()[i as int],
                    pred,
                );
            }
            let is_local = match &self.local_instance_id {
                Some(local) => str_eq(self.instances[i].1.config.instance_id.as_str(), local.as_str()),
                None => false,
            };
            if !is_local {
                out.push(&self.instances[i].1);
            }
            i = i + 1;
        }
        proof {
            assert(self.instances_view().take(n as int) =~= self.instances_view());
        }
        out
    }

    /// Evicts every instance silent beyond `timeout_ms`, except the
    /// local one, and returns the evicted ids.
    pub fn cleanup_stale(&mut self, timeout_ms: u64, now_ms: u64) -> (r: Vec<String>)
        requires
            old(self).wf(),
        ensures
            final(self).wf(),
            final(self).spec_local() == old(self).spec_local(),
            final(self).instances_view() == old(self).instances_view().filter(
                |p: (Seq<char>, RegisteredInstance)|
                    !(Some(p.0) != old(self).spec_local() && p.1.last_seen_ms + timeout_ms
                        < now_ms),
            ),
            r@.len() + final(self).instances_view().len() == old(self).instances_view().len(),
            r@.len() == old(self).instances_view().filter(
                |p: (Seq<char>, RegisteredInstance)|
                    Some(p.0) != old(self).spec_local() && p.1.last_seen_ms + timeout_ms
                        < now_ms,
            ).len(),
            forall|i: int|
                0 <= i < r@.len() ==> (#[trigger] r@[i])@ == old(self).instances_view().filter(
                    |p: (Seq<char>, RegisteredInstance)|
                        Some(p.0) != old(self).spec_local() && p.1.last_seen_ms + timeout_ms
                            < now_ms,
                )[i].0,
    {
        let ghost v0 = self.instances_view();
        let ghost pred = |p: (Seq<char>, RegisteredInstance)|
            !(Some(p.0) != old(self).spec_local() && p.1.last_seen_ms + timeout_ms < now_ms);
        let ghost gone = |p: (Seq<char>, RegisteredInstance)|
            Some(p.0) != old(self).spec_local() && p.1.last_seen_ms + timeout_ms < now_ms;
        let mut kept: Vec<(String, RegisteredInstance)> = Vec::new();
        let mut evicted: Vec<String> = Vec::new();
        let ghost mut processed: int = 0;
        proof {
            assert(v0.take(0) =~= Seq::<(Seq<char>, RegisteredInstance)>::empty());
            reveal(Seq::filter);
        }
        while self.instances.len() > 0
            invariant
                0 <= processed <= v0.len(),
                v0 == old(self).instances_view(),
                self.local_instance_id == old(self).local_instance_id,
                pred == (|p: (Seq<char>, RegisteredInstance)|
                    !(Some(p.0) != old(self).spec_local() && p.1.last_seen_ms + timeout_ms
                        < now_ms)),
                gone == (|p: (Seq<char>, RegisteredInstance)|
                    Some(p.0) != old(self).spec_local() && p.1.last_seen_ms + timeout_ms
                        < now_ms),
                self.instances@.len() == v0.len() - processed,
                forall|j: int|
                    0 <= j < self.instances@.len() ==> (self.instances@[j].0@,
                    self.instances@[j].1) == v0[j + processed],
                Seq::new(kept@.len(), |i: int| (kept@[i].0@, kept@[i].1)) == v0.take(
                    processed,
                ).filter(pred),
                evicted@.len() == v0.take(processed).filter(gone).len(),
                forall|i: int|
                    0 <= i < evicted@.len() ==> (#[trigger] evicted@[i])@ == v0.take(
                        processed,
                    ).filter(gone)[i].0,
                kept@.len() + evicted@.len() == processed,
            decreases self.instances@.len(),
        {
            let entry = self.instances.remove(0);
            proof {
                assert((entry.0@, entry.1) == v0[processed]);
                assert(v0.take(processed + 1) =~= v0.take(processed).push(v0[processed]));
                crate::log::lemma_filter_push(v0.take(processed), v0[processed], pred);
                crate::log::lemma_filter_push(v0.take(processed), v0[processed], gone);
            }
            let is_local = match &self.local_instance_id {
                Some(local) => str_eq(entry.0.as_str(), local.as_str()),
                None => false,
            };
            let stale = entry.1.is_stale(now_ms, timeout_ms);
            if !is_local && stale {
                proof {
                    assert(gone(v0[processed]));
                    assert(!pred(v0[processed]));
                }
                evicted.push(entry.0);
            } else {
                proof {
                    assert(pred(v0[processed]));
                    assert(!gone(v0[processed]));
                }
                kept.push(entry);
            }
            proof {
                processed = processed + 1;
                assert(Seq::new(kept@.len(), |i: int| (kept@[i].0@, kept@[i].1)) =~= v0.take(
                    processed,
                ).filter(pred));
                assert forall|i: int|
                    0 <= i < evicted@.len() implies (#[trigger] evicted@[i])@ == v0.take(
                    processed,
                ).filter(gone)[i].0 by {
                    if i < evicted@.len() - 1 {
                        assert(evicted@[i]@ == v0.take(processed - 1).filter(gone)[i].0);
                    }
                }
                assert(forall|j: int|
                    0 <= j < self.instances@.len() ==> (self.instances@[j].0@,
                    self.instances@[j].1) == v0[j + processed]);
            }
        }
        self.instances = kept;
        proof {
            assert(v0.take(v0.len() as int) =~= v0);
            assert(self.instances_view() =~= v0.filter(pred));
            let f = v0.filter(pred);
            crate::log::lemma_filter_subset(v0, pred);
            assert forall|i: int, j: int| 0 <= i < j < f.len() implies f[i].0 != f[j].0 by {
                lemma_instance_filter_distinct(v0, pred, i, j);
            }
            assert forall|i: int|
                0 <= i < f.len() implies (#[trigger] f[i]).0 == f[i].1.config.instance_id@ by {
                assert(v0.contains(f[i]));
                let w = choose|w: int| 0 <= w < v0.len() && v0[w] == f[i];
            }
        }
        evicted
    }

    /// Counts instances by status and whether a local one exists.
    pub fn get_stats(&self) -> (r: InstanceManagerStats)
        ensures
            r.total_instances == self.instances_view().len(),
            r.has_local == (self.spec_local() is Some),
            r.running_instances == self.instances_view().filter(
                |p: (Seq<char>, RegisteredInstance)| p.1.status == InstanceStatus::Running,
            ).len(),
            r.syncing_instances == self.instances_view().filter(
                |p: (Seq<char>, RegisteredInstance)| p.1.status == InstanceStatus::Syncing,
            ).len(),
            r.failed_instances == self.instances_view().filter(
                |p: (Seq<char>, RegisteredInstance)| p.1.status == InstanceStatus::Failed,
            ).len(),
    {
        let ghost running_pred = |p: (Seq<char>, RegisteredInstance)| p.1.status
            == InstanceStatus::Running;
        let ghost syncing_pred = |p: (Seq<char>, RegisteredInstance)| p.1.status
            == InstanceStatus::Syncing;
        let ghost failed_pred = |p: (Seq<char>, RegisteredInstance)| p.1.status
            == InstanceStatus::Failed;
        let n = self.instances.len();
        let mut running: usize = 0;
        let mut syncing: usize = 0;
        let mut failed: usize = 0;
        let mut i: usize = 0;
        proof {
            assert(self.instances_view().take(0) =~= Seq::<
                (Seq<char>, RegisteredInstance),
            >::empty());
            reveal(Seq::filter);
        }
        while i < n
            invariant
                0 <= i <= n,
                n == self.instances@.len(),
                self.instances_view().len() == n,
                running_pred == (|p: (Seq<char>, RegisteredInstance)| p.1.status
                    == InstanceStatus::Running),
                syncing_pred == (|p: (Seq<char>, RegisteredInstance)| p.1.status
                    == InstanceStatus::Syncing),
                failed_pred == (|p: (Seq<char>, RegisteredInstance)| p.1.status
                    == InstanceStatus::Failed),
                running == self.instances_view().take(i as int).filter(running_pred).len(),
                syncing == self.instances_view().take(i as int).filter(syncing_pred).len(),
                failed == self.instances_view().take(i as int).filter(failed_pred).len(),
                running <= i && syncing <= i && failed <= i,
            decreases n - i,
        {
            proof {
                assert(self.instances_view().take(i + 1) =~= self.instances_view().take(
                    i as int,
                ).push(self.instances_view()[i as int]));
                crate::log::lemma_filter_push(
                    self.instances_view().take(i as int),
                    self.instances_view()[i as int],
                    running_pred,
                );
                crate::log::lemma_filter_push(
                    self.instances_view().take(i as int),
                    self.instances_view()[i as int],
                    syncing_pred,
                );
                crate::log::lemma_filter_push(
                    self.instances_view().take(i as int),
                    self.instances_view()[i as int],
                    failed_pred,
                );
            }
            match self.instances[i].1.status {
                InstanceStatus::Running => {
                    running = running + 1;
                },
                InstanceStatus::Syncing => {
                    syncing = syncing + 1;
                },
                InstanceStatus::Failed => {
                    failed = failed + 1;
                },
                _ => {},
            }
            i = i + 1;
        }
        proof {
            assert(self.instances_view().take(n as int) =~= self.instances_view());
        }
        InstanceManagerStats {
            total_instances: n,
            running_instances: running,
            syncing_instances: syncing,
            failed_instances: failed,
            has_local: self.local_instance_id.is_some(),
        }
    }
}

/// Filtering an id-keyed table keeps its keys distinct.
proof fn lemma_instance_filter_distinct(
    s: Seq<(Seq<char>, RegisteredInstance)>,
    pred: spec_fn((Seq<char>, RegisteredInstance)) -> bool,
    i: int,
    j: int,
)
    requires
        distinct_keys(s),
        0 <= i < j < s.filter(pred).len(),
    ensures
        s.filter(pred)[i].0 != s.filter(pred)[j].0,
    decreases s.len(),
{
    reveal(Seq::filter);
    let f = s.filter(pred);
    if s.len() > 0 {
        let sub = s.drop_last();
        assert(distinct_keys(sub)) by {
            assert(forall|p: int| 0 <= p < sub.len() ==> sub[p] == s[p]);
        }
        if pred(s.last()) {
            assert(f == sub.filter(pred).push(s.last()));
            if j < f.len() - 1 {
                lemma_instance_filter_distinct(sub, pred, i, j);
            } else {
                assert(f[j] == s.last());
                crate::log::lemma_filter_subset(sub, pred);
                assert(sub.contains(sub.filter(pred)[i]));
                let w = choose|w: int| 0 <= w < sub.len() && sub[w] == sub.filter(pred)[i];
                assert(s[w] == f[i]);
                assert(s[w].0 != s[s.len() - 1].0);
            }
        } else {
            assert(f == sub.filter(pred));
            lemma_instance_filter_distinct(sub, pred, i, j);
        }
    }
}

/// The composition for one local instance: its registry and its replica
/// state.
#[derive(Debug)]
pub struct InstanceCoordinator {
    pub manager: InstanceManager,
    pub local_state: SyncState,
}

impl InstanceCoordinator {
    /// A coordinator whose local instance is registered and starting.
    pub fn new(instance_id: String, now_ms: u64) -> (r: Self)
        ensures
            r.manager.wf(),
            r.local_state.wf(),
            r.manager.spec_local() == Some(instance_id@),
            r.local_state.instance_id@ == instance_id@,
            r.manager.instances_view().len() == 1,
            r.manager.spec_instance(instance_id@) matches Some(inst) && {
                &&& inst.status == InstanceStatus::Starting
                &&& inst.address is None
                &&& inst.config.instance_id@ == instance_id@
                &&& inst.health.error_count == 0
            },
    {
        let mut manager = InstanceManager::new();
        let config = InstanceConfig {
            instance_id: instance_id.clone(),
            metadata: InstanceMetadata::default(),
            sync_enabled: true,
            heartbeat_interval_ms: 10000,
            sync_interval_ms: 5000,
            max_offline_duration_ms: 300000,
        };
        manager.register_local(config, now_ms);
        InstanceCoordinator { manager, local_state: SyncState::new(instance_id) }
    }

    /// The registry.
    pub fn manager(&self) -> (r: &InstanceManager)
        ensures
            r == self.manager,
    {
        &self.manager
    }

    /// The local replica state.
    pub fn state(&self) -> (r: &SyncState)
        ensures
            r == self.local_state,
    {
        &self.local_state
    }

    /// Marks the local instance running.
    pub fn start(&mut self)
        requires
            old(self).manager.wf(),
        ensures
            final(self).manager.wf(),
            final(self).local_state == old(self).local_state,
            final(self).manager.spec_local() == old(self).manager.spec_local(),
            final(self).manager.instances_view().len() == old(
                self,
            ).manager.instances_view().len(),
            (old(self).manager.spec_local() matches Some(id) && old(self).manager.spec_instance(
                id,
            ) is Some) ==> final(self).manager.spec_instance(
                old(self).manager.spec_local().unwrap(),
            ).unwrap().status == InstanceStatus::Running,
    {
        let id = match &self.manager.local_instance_id {
            Some(s) => s.clone(),
            None => {
                return ;
            },
        };
        self.manager.update_status(id.as_str(), InstanceStatus::Running);
    }

    /// Marks the local instance stopped.
    pub fn stop(&mut self)
        requires
            old(self).manager.wf(),
        ensures
            final(self).manager.wf(),
            final(self).local_state == old(self).local_state,
            final(self).manager.spec_local() == old(self).manager.spec_local(),
            final(self).manager.instances_view().len() == old(
                self,
            ).manager.instances_view().len(),
            (old(self).manager.spec_local() matches Some(id) && old(self).manager.spec_instance(
                id,
            ) is Some) ==> final(self).manager.spec_instance(
                old(self).manager.spec_local().unwrap(),
            ).unwrap().status == InstanceStatus::Stopped,
    {
        let id = match &self.manager.local_instance_id {
            Some(s) => s.clone(),
            None => {
                return ;
            },
        };
        self.manager.update_status(id.as_str(), InstanceStatus::Stopped);
    }
}

} // verus!
