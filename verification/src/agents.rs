//! The system agent manager.
//!
//! Holds the built-in system agents, archived conversation threads and
//! the arbitration counters.

use vstd::prelude::*;
use crate::assoc::assoc_find;
use crate::assoc::{lemma_assoc_find_at, lemma_assoc_find_skip};
use crate::models::{ArbiterMetrics, ConversationHistoryEntry, SystemAgent};
use crate::text::str_eq;
use vstd::string::StringExecFns;

verus! {

/// Manages the system agents and their conversations.
#[derive(Debug)]
pub struct AgentManager {
    pub agents: Vec<(String, SystemAgent)>,
    pub conversation_history: Vec<(String, Vec<ConversationHistoryEntry>)>,
    pub metrics: ArbiterMetrics,
    pub round_robin_index: usize,
}

impl AgentManager {
    /// The abstract agent table.
    pub open spec fn agents_view(self) -> Seq<(Seq<char>, SystemAgent)> {
        Seq::new(self.agents@.len(), |i: int| (self.agents@[i].0@, self.agents@[i].1))
    }

    /// The agent registered under `id`, if any.
    pub open spec fn spec_agent(self, id: Seq<char>) -> Option<SystemAgent> {
        assoc_find(self.agents_view(), id)
    }

    /// The abstract conversation table.
    pub open spec fn history_view(self) -> Seq<(Seq<char>, Vec<ConversationHistoryEntry>)> {
        Seq::new(
            self.conversation_history@.len(),
            |i: int| (self.conversation_history@[i].0@, self.conversation_history@[i].1),
        )
    }

    /// A manager holding the four built-in system agents and no
    /// conversations.
    pub fn new() -> (r: Self)
        ensures
            r.agents_view().len() == 4,
            r.spec_agent("ada"@) is Some,
            r.spec_agent("lea"@) is Some,
            r.spec_agent("phil"@) is Some,
            r.spec_agent("david"@) is Some,
            r.history_view().len() == 0,
            r.spec_agent("ada"@).unwrap().is_active && r.spec_agent("ada"@).unwrap().id@
                == "ada"@,
            r.spec_agent("lea"@).unwrap().is_active && r.spec_agent("lea"@).unwrap().id@
                == "lea"@,
            r.spec_agent("phil"@).unwrap().is_active && r.spec_agent("phil"@).unwrap().id@
                == "phil"@,
            r.spec_agent("david"@).unwrap().is_active && r.spec_agent("david"@).unwrap().id@
                == "david"@,
            r.agents_view()[0].1.is_active && r.agents_view()[0].1.id@ == "ada"@,
            r.agents_view()[1].1.is_active && r.agents_view()[1].1.id@ == "lea"@,
            r.agents_view()[2].1.is_active && r.agents_view()[2].1.id@ == "phil"@,
            r.agents_view()[3].1.is_active && r.agents_view()[3].1.id@ == "david"@,
    {
        let mut agents: Vec<(String, SystemAgent)> = Vec::new();
        let ada = SystemAgent {
            id: String::from_str("ada"),
            name: String::from_str("Ada"),
            role: String::from_str("Architecture Agent"),
            description: String::from_str("System architect and design pattern expert"),
            is_active: true,
            supported_models: None,
            capabilities: None,
        };
        let lea = SystemAgent {
            id: String::from_str("lea"),
            name: String::from_str("Lea"),
            role: String::from_str("Learning Agent"),
            description: String::from_str("Continuous learning and adaptation expert"),
            is_active: true,
            supported_models: None,
            capabilities: None,
        };
        let phil = SystemAgent {
            id: String::from_str("phil"),
            name: String::from_str("Phil"),
            role: String::from_str("Philosophy Agent"),
            description: String::from_str("Reasoning and epistemology expert"),
            is_active: true,
            supported_models: None,
            capabilities: None,
        };
        let david = SystemAgent {
            id: String::from_str("david"),
            name: String::from_str("David"),
            role: String::from_str("Devil's Advocate Agent"),
            description: String::from_str("Critical thinking and bias detection expert"),
            is_active: true,
            supported_models: None,
            capabilities: None,
        };
        agents.push((String::from_str("ada"), ada));
        agents.push((String::from_str("lea"), lea));
        agents.push((String::from_str("phil"), phil));
        agents.push((String::from_str("david"), david));
        let r = AgentManager {
            agents,
            conversation_history: Vec::new(),
            metrics: ArbiterMetrics {
                total_arbitrations: 0,
                agents_selected: Vec::new(),
                pile_on_prevented: 0,
                diversity_bonus_applied: 0,
                budget_enforcements: 0,
                last_arbitration_ms: 0,
            },
            round_robin_index: 0,
        };
        proof {
            reveal_strlit("ada");
            reveal_strlit("lea");
            reveal_strlit("phil");
            reveal_strlit("david");
            assert(r.history_view() =~= Seq::<
                (Seq<char>, Vec<ConversationHistoryEntry>),
            >::empty());
            assert("ada"@[0] == 'a' && "lea"@[0] == 'l' && "phil"@[0] == 'p' && "david"@[0]
                == 'd');
            assert("ada"@ != "lea"@ && "ada"@ != "phil"@ && "ada"@ != "david"@);
            assert("lea"@ != "phil"@ && "lea"@ != "david"@ && "phil"@ != "david"@);
            lemma_assoc_find_at(r.agents_view(), "ada"@, 0);
            lemma_assoc_find_at(r.agents_view(), "lea"@, 1);
            lemma_assoc_find_at(r.agents_view(), "phil"@, 2);
            lemma_assoc_find_at(r.agents_view(), "david"@, 3);
        }
        r
    }

    /// Every registered system agent, in table order.
    pub fn list_agents(&self) -> (r: Vec<&SystemAgent>)
        ensures
            r@.len() == self.agents_view().len(),
            forall|i: int| 0 <= i < r@.len() ==> *r@[i] == self.agents_view()[i].1,
    {
        let n = self.agents.len();
        let mut out: Vec<&SystemAgent> = Vec::new();
        let mut i: usize = 0;
        while i < n
            invariant
                0 <= i <= n,
                n == self.agents@.len(),
                self.agents_view().len() == n,
                out@.len() == i,
                forall|j: int| 0 <= j < i ==> *out@[j] == self.agents_view()[j].1,
            decreases n - i,
        {
            out.push(&self.agents[i].1);
            i = i + 1;
        }
        out
    }

    /// The agent registered under `agent_id`, if any.
    pub fn get_agent(&self, agent_id: &str) -> (r: Option<&SystemAgent>)
        ensures
            match r {
                Some(a) => self.spec_agent(agent_id@) == Some(*a),
                None => self.spec_agent(agent_id@) is None,
            },
    {
        let n = self.agents.len();
        let mut i: usize = 0;
        while i < n
            invariant
                0 <= i <= n,
                n == self.agents@.len(),
                self.agents_view().len() == n,
                forall|j: int| 0 <= j < i ==> self.agents_view()[j].0 != agent_id@,
            decreases n - i,
        {
            if str_eq(self.agents[i].0.as_str(), agent_id) {
                proof {
                    lemma_assoc_find_at(self.agents_view(), agent_id@, i as int);
                }
                return Some(&self.agents[i].1);
            }
            i = i + 1;
        }
        proof {
            lemma_assoc_find_skip(self.agents_view(), agent_id@, n as int);
        }
        None
    }

    /// The archived conversation of `thread_id`, if any.
    pub fn get_conversation_history(&self, thread_id: &str) -> (r: Option<
        &Vec<ConversationHistoryEntry>,
    >)
        ensures
            match r {
                Some(v) => assoc_find(self.history_view(), thread_id@) == Some(*v),
                None => assoc_find(self.history_view(), thread_id@) is None,
            },
    {
        let n = self.conversation_history.len();
        let mut i: usize = 0;
        while i < n
            invariant
                0 <= i <= n,
                n == self.conversation_history@.len(),
                self.history_view().len() == n,
                forall|j: int| 0 <= j < i ==> self.history_view()[j].0 != thread_id@,
            decreases n - i,
        {
            if str_eq(self.conversation_history[i].0.as_str(), thread_id) {
                proof {
                    lemma_assoc_find_at(self.history_view(), thread_id@, i as int);
                }
                return Some(&self.conversation_history[i].1);
            }
            i = i + 1;
        }
        proof {
            lemma_assoc_find_skip(self.history_view(), thread_id@, n as int);
        }
        None
    }

    /// The arbitration counters.
    pub fn get_metrics(&self) -> (r: &ArbiterMetrics)
        ensures
            r == self.metrics,
    {
        &self.metrics
    }
}

impl Default for AgentManager {
    /// The same manager as [`AgentManager::new`].
    fn default() -> (r: Self)
        ensures
            r.agents_view().len() == 4,
    {
        AgentManager::new()
    }
}

} // verus!
