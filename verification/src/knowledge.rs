//! Knowledge graphs for agent reasoning.
//!
//! A graph holds typed nodes and related edges; the reasoning layer
//! reads workflow stages off `precedes` edges, collects methods and
//! constraints, and suggests the next workflow action.  Parsing graph
//! files is a collaborator's concern; the graph itself is built node by
//! node and edge by edge.

use vstd::prelude::*;
use crate::assoc::{assoc_find, distinct_keys};
use crate::assoc::{lemma_assoc_find_at, lemma_assoc_find_push, lemma_assoc_find_skip, lemma_assoc_find_update, lemma_assoc_has_index};
use crate::text::str_eq;
use vstd::pervasive::VecAdditionalExecFns;
use vstd::string::StringExecFns;

verus! {

/// One node of a knowledge graph.
#[derive(Clone, Debug)]
pub struct KnowledgeNode {
    pub id: String,
    pub label: String,
    pub node_type: String,
    pub description: String,
}

impl KnowledgeNode {
    /// An exact copy of this node.
    pub fn duplicate(&self) -> (r: Self)
        ensures
            r == *self,
    {
        KnowledgeNode {
            id: self.id.clone(),
            label: self.label.clone(),
            node_type: self.node_type.clone(),
            description: self.description.clone(),
        }
    }
}

/// One edge of a knowledge graph.  The endpoints name nodes by id.
#[derive(Clone, Debug)]
pub struct KnowledgeEdge {
    pub from: String,
    pub to: String,
    pub relation: String,
}

/// The reasoning context extracted from one graph.
#[derive(Debug)]
pub struct ReasoningContext {
    pub graph_name: String,
    pub source: Option<String>,
    pub workflow: Vec<KnowledgeNode>,
    pub methods: Vec<KnowledgeNode>,
    pub rigor_constraints: Vec<KnowledgeNode>,
    pub priorities: Vec<KnowledgeNode>,
    pub frameworks: Vec<KnowledgeNode>,
    pub total_nodes: usize,
    pub total_edges: usize,
}

/// The suggested next workflow action.
#[derive(Debug)]
pub struct NextActionSuggestion {
    pub current_stage: Option<String>,
    pub next_stage: Option<KnowledgeNode>,
    pub methods: Vec<KnowledgeNode>,
    pub constraints: Vec<KnowledgeNode>,
    pub workflow_complete: bool,
    pub error: Option<String>,
}

/// A knowledge graph: nodes keyed by id, and edges between them.
#[derive(Debug)]
pub struct KnowledgeGraph {
    pub name: String,
    pub source: Option<String>,
    pub nodes: Vec<(String, KnowledgeNode)>,
    pub edges: Vec<KnowledgeEdge>,
}

impl KnowledgeGraph {
    /// The abstract node table.
    pub open spec fn nodes_view(self) -> Seq<(Seq<char>, KnowledgeNode)> {
        Seq::new(self.nodes@.len(), |i: int| (self.nodes@[i].0@, self.nodes@[i].1))
    }

    /// The node registered under `id`, if any.
    pub open spec fn spec_node(self, id: Seq<char>) -> Option<KnowledgeNode> {
        assoc_find(self.nodes_view(), id)
    }

    /// Whether a node with `id` exists.
    pub open spec fn has_node(self, id: Seq<char>) -> bool {
        self.spec_node(id) is Some
    }

    /// Node ids are unique and each node is keyed by its own id.
    pub open spec fn wf(self) -> bool {
        &&& distinct_keys(self.nodes_view())
        &&& forall|i: int|
            0 <= i < self.nodes_view().len() ==> (#[trigger] self.nodes_view()[i]).0
                == self.nodes_view()[i].1.id@
    }

    /// Every edge names two known nodes.
    pub open spec fn spec_edges_valid(self) -> bool {
        forall|i: int|
            0 <= i < self.edges@.len() ==> self.has_node((#[trigger] self.edges@[i]).from@)
                && self.has_node(self.edges@[i].to@)
    }

    /// An empty graph.
    pub fn new(name: String) -> (r: Self)
        ensures
            r.wf(),
            r.name == name,
            r.source is None,
            r.nodes_view().len() == 0,
            r.edges@.len() == 0,
    {
        let r = KnowledgeGraph { name, source: None, nodes: Vec::new(), edges: Vec::new() };
        proof {
            assert(r.nodes_view() =~= Seq::<(Seq<char>, KnowledgeNode)>::empty());
        }
        r
    }

    /// The index of the node entry for `id`, if any.
    fn find_node(&self, id: &str) -> (r: Option<usize>)
        ensures
            match r {
                Some(i) => {
                    &&& i < self.nodes_view().len()
                    &&& self.nodes_view()[i as int].0 == id@
                    &&& forall|j: int| 0 <= j < i ==> self.nodes_view()[j].0 != id@
                    &&& self.spec_node(id@) == Some(self.nodes_view()[i as int].1)
                },
                None => self.spec_node(id@) is None,
            },
    {
        let n = self.nodes.len();
        let mut i: usize = 0;
        while i < n
            invariant
                0 <= i <= n,
                n == self.nodes@.len(),
                self.nodes_view().len() == n,
                forall|j: int| 0 <= j < i ==> self.nodes_view()[j].0 != id@,
            decreases n - i,
        {
            if str_eq(self.nodes[i].0.as_str(), id) {
                proof {
                    lemma_assoc_find_at(self.nodes_view(), id@, i as int);
                }
                return Some(i);
            }
            i = i + 1;
        }
        proof {
            lemma_assoc_find_skip(self.nodes_view(), id@, n as int);
        }
        None
    }

    /// Registers a node under its id, replacing any earlier node with
    /// the same id.
    pub fn add_node(&mut self, node: KnowledgeNode)
        requires
            old(self).wf(),
        ensures
            final(self).wf(),
            final(self).name == old(self).name,
            final(self).source == old(self).source,
            final(self).edges == old(self).edges,
            final(self).spec_node(node.id@) == Some(node),
            forall|id: Seq<char>|
                id != node.id@ ==> final(self).spec_node(id) == old(self).spec_node(id),
    {
        let ghost v0 = self.nodes_view();
        let key = node.id.clone();
        match self.find_node(key.as_str()) {
            Some(i) => {
                let ghost pair = (key@, node);
                self.nodes.set(i, (key, node));
                proof {
                    assert(self.nodes_view() =~= v0.update(i as int, pair));
                    assert forall|id: Seq<char>|
                        assoc_find(self.nodes_view(), id) == (if id == pair.0 {
                            Some(pair.1)
                        } else {
                            assoc_find(v0, id)
                        }) by {
                        lemma_assoc_find_update(v0, i as int, pair, id);
                    }
                    lemma_assoc_find_update(v0, i as int, pair, pair.0);
                }
            },
            None => {
                let ghost pair = (key@, node);
                self.nodes.push((key, node));
                proof {
                    assert(self.nodes_view() =~= v0.push(pair));
                    lemma_assoc_has_index(v0, pair.0);
                    assert forall|id: Seq<char>|
                        assoc_find(self.nodes_view(), id) == (if id == pair.0 {
                            Some(pair.1)
                        } else {
                            assoc_find(v0, id)
                        }) by {
                        lemma_assoc_find_push(v0, pair, id);
                    }
                    assert(distinct_keys(self.nodes_view())) by {
                        assert(forall|j: int|
                            0 <= j < v0.len() ==> self.nodes_view()[j] == v0[j]);
                        assert(self.nodes_view()[v0.len() as int] == pair);
                    }
                }
            },
        }
    }

    /// Appends an edge.
    pub fn add_edge(&mut self, edge: KnowledgeEdge)
        requires
            old(self).wf(),
        ensures
            final(self).wf(),
            final(self).name == old(self).name,
            final(self).source == old(self).source,
            final(self).nodes_view() == old(self).nodes_view(),
            final(self).edges@ == old(self).edges@.push(edge),
    {
        self.edges.push(edge);
    }

    /// Checks the graph: one error per edge endpoint that names no
    /// node; an empty result means every edge is well connected.
    pub fn validate(&self) -> (r: Vec<String>)
        ensures
            (r@.len() == 0) == self.spec_edges_valid(),
    {
        let mut errors: Vec<String> = Vec::new();
        let n = self.edges.len();
        let mut i: usize = 0;
        while i < n
            invariant
                0 <= i <= n,
                n == self.edges@.len(),
                (errors@.len() == 0) == (forall|j: int|
                    0 <= j < i ==> self.has_node((#[trigger] self.edges@[j]).from@)
                        && self.has_node(self.edges@[j].to@)),
            decreases n - i,
        {
            if self.find_node(self.edges[i].from.as_str()).is_none() {
                errors.push(String::from_str("edge names an unknown source node"));
            }
            if self.find_node(self.edges[i].to.as_str()).is_none() {
                errors.push(String::from_str("edge names an unknown target node"));
            }
            i = i + 1;
        }
        errors
    }

    /// The node registered under `node_id`, if any.
    pub fn get_node(&self, node_id: &str) -> (r: Option<&KnowledgeNode>)
        ensures
            match r {
                Some(node) => self.spec_node(node_id@) == Some(*node),
                None => self.spec_node(node_id@) is None,
            },
    {
        match self.find_node(node_id) {
            Some(i) => Some(&self.nodes[i].1),
            None => None,
        }
    }

    /// Every node of the given type, in insertion order.
    pub fn get_nodes_by_type(&self, node_type: &str) -> (r: Vec<&KnowledgeNode>)
        ensures
            r@.len() == self.nodes_view().filter(
                |p: (Seq<char>, KnowledgeNode)| p.1.node_type@ == node_type@,
            ).len(),
            forall|i: int|
                0 <= i < r@.len() ==> *(#[trigger] r@[i]) == self.nodes_view().filter(
                    |p: (Seq<char>, KnowledgeNode)| p.1.node_type@ == node_type@,
                )[i].1,
    {
        let ghost pred = |p: (Seq<char>, KnowledgeNode)| p.1.node_type@ == node_type@;
        let n = self.nodes.len();
        let mut out: Vec<&KnowledgeNode> = Vec::new();
        let mut i: usize = 0;
        proof {
            assert(self.nodes_view().take(0) =~= Seq::<(Seq<char>, KnowledgeNode)>::empty());
            reveal(Seq::filter);
        }
        while i < n
            invariant
                0 <= i <= n,
                n == self.nodes@.len(),
                self.nodes_view().len() == n,
                pred == (|p: (Seq<char>, KnowledgeNode)| p.1.node_type@ == node_type@),
                out@.len() == self.nodes_view().take(i as int).filter(pred).len(),
                forall|j: int|
                    0 <= j < out@.len() ==> *(#[trigger] out@[j]) == self.nodes_view().take(
                        i as int,
                    ).filter(pred)[j].1,
            decreases n - i,
        {
            proof {
                assert(self.nodes_view().take(i + 1) =~= self.nodes_view().take(i as int).push(
                    self.nodes_view()[i as int],
                ));
                crate::log::lemma_filter_push(
                    self.nodes_view().take(i as int),
                    self.nodes_view()[i as int],
                    pred,
                );
            }
            if str_eq(self.nodes[i].1.node_type.as_str(), node_type) {
                out.push(&self.nodes[i].1);
            }
            i = i + 1;
        }
        proof {
            assert(self.nodes_view().take(n as int) =~= self.nodes_view());
        }
        out
    }

    /// Every edge leaving `node_id`.
    pub fn get_edges_from(&self, node_id: &str) -> (r: Vec<&KnowledgeEdge>)
        ensures
            r@.len() == self.edges@.filter(|e: KnowledgeEdge| e.from@ == node_id@).len(),
            forall|i: int|
                0 <= i < r@.len() ==> *(#[trigger] r@[i]) == self.edges@.filter(
                    |e: KnowledgeEdge| e.from@ == node_id@,
                )[i],
    {
        let ghost pred = |e: KnowledgeEdge| e.from@ == node_id@;
        let n = self.edges.len();
        let mut out: Vec<&KnowledgeEdge> = Vec::new();
        let mut i: usize = 0;
        proof {
            assert(self.edges@.take(0) =~= Seq::<KnowledgeEdge>::empty());
            reveal(Seq::filter);
        }
        while i < n
            invariant
                0 <= i <= n,
                n == self.edges@.len(),
                pred == (|e: KnowledgeEdge| e.from@ == node_id@),
                out@.len() == self.edges@.take(i as int).filter(pred).len(),
                forall|j: int|
                    0 <= j < out@.len() ==> *(#[trigger] out@[j]) == self.edges@.take(
                        i as int,
                    ).filter(pred)[j],
            decreases n - i,
        {
            proof {
                assert(self.edges@.take(i + 1) =~= self.edges@.take(i as int).push(
                    self.edges@[i as int],
                ));
                crate::log::lemma_filter_push(
                    self.edges@.take(i as int),
                    self.edges@[i as int],
                    pred,
                );
            }
            if str_eq(self.edges[i].from.as_str(), node_id) {
                out.push(&self.edges[i]);
            }
            i = i + 1;
        }
        proof {
            assert(self.edges@.take(n as int) =~= self.edges@);
        }
        out
    }

    /// Every edge entering `node_id`.
    pub fn get_edges_to(&self, node_id: &str) -> (r: Vec<&KnowledgeEdge>)
        ensures
            r@.len() == self.edges@.filter(|e: KnowledgeEdge| e.to@ == node_id@).len(),
            forall|i: int|
                0 <= i < r@.len() ==> *(#[trigger] r@[i]) == self.edges@.filter(
                    |e: KnowledgeEdge| e.to@ == node_id@,
                )[i],
    {
        let ghost pred = |e: KnowledgeEdge| e.to@ == node_id@;
        let n = self.edges.len();
        let mut out: Vec<&KnowledgeEdge> = Vec::new();
        let mut i: usize = 0;
        proof {
            assert(self.edges@.take(0) =~= Seq::<KnowledgeEdge>::empty());
            reveal(Seq::filter);
        }
        while i < n
            invariant
                0 <= i <= n,
                n == self.edges@.len(),
                pred == (|e: KnowledgeEdge| e.to@ == node_id@),
                out@.len() == self.edges@.take(i as int).filter(pred).len(),
                forall|j: int|
                    0 <= j < out@.len() ==> *(#[trigger] out@[j]) == self.edges@.take(
                        i as int,
                    ).filter(pred)[j],
            decreases n - i,
        {
            proof {
                assert(self.edges@.take(i + 1) =~= self.edges@.take(i as int).push(
                    self.edges@[i as int],
                ));
                crate::log::lemma_filter_push(
                    self.edges@.take(i as int),
                    self.edges@[i as int],
                    pred,
                );
            }
            if str_eq(self.edges[i].to.as_str(), node_id) {
                out.push(&self.edges[i]);
            }
            i = i + 1;
        }
        proof {
            assert(self.edges@.take(n as int) =~= self.edges@);
        }
        out
    }

    /// Whether some `precedes` edge leads from `from_id` to `to_id`.
    pub open spec fn spec_precedes(self, from_id: Seq<char>, to_id: Seq<char>) -> bool {
        exists|i: int|
            0 <= i < self.edges@.len() && (#[trigger] self.edges@[i]).relation@ == "precedes"@
                && self.edges@[i].from@ == from_id && self.edges@[i].to@ == to_id
    }

    /// The first `precedes` successor of `node_id`, if any.
    fn successor_of(&self, node_id: &str) -> (r: Option<&String>)
        ensures
            match r {
                Some(next) => self.spec_precedes(node_id@, next@),
                None => forall|to: Seq<char>| !self.spec_precedes(node_id@, to),
            },
    {
        let n = self.edges.len();
        let mut i: usize = 0;
        while i < n
            invariant
                0 <= i <= n,
                n == self.edges@.len(),
                forall|j: int|
                    0 <= j < i ==> !((#[trigger] self.edges@[j]).relation@ == "precedes"@
                        && self.edges@[j].from@ == node_id@),
            decreases n - i,
        {
            if str_eq(self.edges[i].relation.as_str(), "precedes") && str_eq(
                self.edges[i].from.as_str(),
                node_id,
            ) {
                return Some(&self.edges[i].to);
            }
            i = i + 1;
        }
        None
    }

    /// Whether `node_id` is the target of any `precedes` edge.
    fn is_precedes_target(&self, node_id: &str) -> (r: bool)
        ensures
            r == exists|i: int|
                0 <= i < self.edges@.len() && (#[trigger] self.edges@[i]).relation@
                    == "precedes"@ && self.edges@[i].to@ == node_id@,
    {
        let n = self.edges.len();
        let mut i: usize = 0;
        while i < n
            invariant
                0 <= i <= n,
                n == self.edges@.len(),
                forall|j: int|
                    0 <= j < i ==> !((#[trigger] self.edges@[j]).relation@ == "precedes"@
                        && self.edges@[j].to@ == node_id@),
            decreases n - i,
        {
            if str_eq(self.edges[i].relation.as_str(), "precedes") && str_eq(
                self.edges[i].to.as_str(),
                node_id,
            ) {
                return true;
            }
            i = i + 1;
        }
        false
    }

    /// The workflow stages in order: starting from a stage no `precedes`
    /// edge points to (or from the first stage, when every stage is a
    /// target), following `precedes` edges until the chain ends or
    /// would repeat.  Consecutive returned stages are always linked by
    /// a `precedes` edge, every returned stage is a node of the graph,
    /// and no stage appears twice.
    pub fn get_workflow_sequence(&self) -> (r: Vec<KnowledgeNode>)
        requires
            self.wf(),
        ensures
            forall|i: int|
                0 <= i < r@.len() - 1 ==> self.spec_precedes(
                    (#[trigger] r@[i]).id@,
                    r@[i + 1].id@,
                ),
            forall|i: int| 0 <= i < r@.len() ==> self.has_node((#[trigger] r@[i]).id@),
            forall|i: int, j: int| 0 <= i < j < r@.len() ==> r@[i].id@ != r@[j].id@,
    {
        let stages = self.get_nodes_by_type("workflow_stage");
        if stages.is_empty() {
            return Vec::new();
        }

        // The start: the first stage that no precedes edge targets, or
        // the first stage at all when the chain is cyclic.
        let mut start: usize = 0;
        let count = stages.len();
        let mut found = false;
        let mut i: usize = 0;
        while i < count
            invariant
                0 <= i <= count,
                count == stages@.len(),
                start < count,
            decreases count - i,
        {
            if !found && !self.is_precedes_target(stages[i].id.as_str()) {
                start = i;
                found = true;
            }
            i = i + 1;
        }

        let mut sequence: Vec<KnowledgeNode> = Vec::new();
        let mut current: String = stages[start].id.clone();
        let total = self.nodes.len();
        let mut steps: usize = 0;
        while steps <= total
            invariant
                steps <= total + 1,
                total == self.nodes@.len(),
                forall|i: int|
                    0 <= i < sequence@.len() - 1 ==> self.spec_precedes(
                        (#[trigger] sequence@[i]).id@,
                        sequence@[i + 1].id@,
                    ),
                forall|i: int|
                    0 <= i < sequence@.len() ==> self.has_node((#[trigger] sequence@[i]).id@),
                forall|i: int, j: int|
                    0 <= i < j < sequence@.len() ==> sequence@[i].id@ != sequence@[j].id@,
                sequence@.len() > 0 ==> self.spec_precedes(sequence@.last().id@, current@),
                self.wf(),
            decreases total + 1 - steps,
        {
            // Stop on a repeat.
            let mut seen = false;
            let sn = sequence.len();
            let mut j: usize = 0;
            while j < sn
                invariant
                    0 <= j <= sn,
                    sn == sequence@.len(),
                    seen == exists|q: int| 0 <= q < j && (#[trigger] sequence@[q]).id@ == current@,
                decreases sn - j,
            {
                if str_eq(sequence[j].id.as_str(), current.as_str()) {
                    seen = true;
                    proof {
                        assert(sequence@[j as int].id@ == current@);
                    }
                }
                j = j + 1;
                proof {
                    if sequence@[j - 1].id@ == current@ {
                        assert(exists|q: int|
                            0 <= q < j && (#[trigger] sequence@[q]).id@ == current@);
                    }
                }
            }
            if seen {
                break ;
            }
            let node = match self.find_node(current.as_str()) {
                Some(i) => self.nodes[i].1.duplicate(),
                None => {
                    break ;
                },
            };
            proof {
                assert(node.id@ == current@) by {
                    let w = choose|w: int|
                        0 <= w < self.nodes_view().len() && self.nodes_view()[w].0 == current@;
                }
            }
            let ghost before = sequence@;
            sequence.push(node);
            proof {
                assert(sequence@.last().id@ == current@);
                assert forall|i: int|
                    0 <= i < sequence@.len() - 1 implies self.spec_precedes(
                    (#[trigger] sequence@[i]).id@,
                    sequence@[i + 1].id@,
                ) by {
                    if i < before.len() - 1 {
                        assert(sequence@[i] == before[i]);
                        assert(sequence@[i + 1] == before[i + 1]);
                    } else if before.len() > 0 {
                        assert(sequence@[i] == before.last());
                    }
                }
                assert forall|i: int, j2: int|
                    0 <= i < j2 < sequence@.len() implies sequence@[i].id@ != sequence@[
                    j2
                ].id@ by {
                    if j2 == sequence@.len() - 1 {
                        assert(sequence@[i] == before[i]);
                        assert(!(exists|q: int|
                            0 <= q < before.len() && (#[trigger] before[q]).id@ == current@));
                    }
                }
            }
            let next = match self.successor_of(current.as_str()) {
                Some(next) => next.clone(),
                None => {
                    return sequence;
                },
            };
            current = next;
            if steps == usize::MAX {
                break ;
            }
            steps = steps + 1;
        }
        sequence
    }

    /// The method nodes of the graph.
    pub fn get_methods(&self) -> (r: Vec<&KnowledgeNode>)
        ensures
            r@.len() == self.nodes_view().filter(
                |p: (Seq<char>, KnowledgeNode)| p.1.node_type@ == "method"@,
            ).len(),
    {
        self.get_nodes_by_type("method")
    }

    /// The rigor-constraint nodes of the graph.
    pub fn get_rigor_constraints(&self) -> (r: Vec<&KnowledgeNode>)
        ensures
            r@.len() == self.nodes_view().filter(
                |p: (Seq<char>, KnowledgeNode)| p.1.node_type@ == "rigor"@,
            ).len(),
    {
        self.get_nodes_by_type("rigor")
    }

    /// The priority nodes of the graph.
    pub fn get_priorities(&self) -> (r: Vec<&KnowledgeNode>)
        ensures
            r@.len() == self.nodes_view().filter(
                |p: (Seq<char>, KnowledgeNode)| p.1.node_type@ == "priority"@,
            ).len(),
    {
        self.get_nodes_by_type("priority")
    }

    /// The framework nodes of the graph.
    pub fn get_frameworks(&self) -> (r: Vec<&KnowledgeNode>)
        ensures
            r@.len() == self.nodes_view().filter(
                |p: (Seq<char>, KnowledgeNode)| p.1.node_type@ == "framework"@,
            ).len(),
    {
        self.get_nodes_by_type("framework")
    }

    /// Collects the reasoning context: the ordered workflow and the
    /// method, rigor, priority and framework nodes, with the totals.
    pub fn get_reasoning_context(&self) -> (r: ReasoningContext)
        requires
            self.wf(),
        ensures
            r.graph_name == self.name,
            r.source == self.source,
            r.total_nodes == self.nodes_view().len(),
            r.total_edges == self.edges@.len(),
            r.methods@.len() == self.nodes_view().filter(
                |p: (Seq<char>, KnowledgeNode)| p.1.node_type@ == "method"@,
            ).len(),
            r.rigor_constraints@.len() == self.nodes_view().filter(
                |p: (Seq<char>, KnowledgeNode)| p.1.node_type@ == "rigor"@,
            ).len(),
            r.priorities@.len() == self.nodes_view().filter(
                |p: (Seq<char>, KnowledgeNode)| p.1.node_type@ == "priority"@,
            ).len(),
            r.frameworks@.len() == self.nodes_view().filter(
                |p: (Seq<char>, KnowledgeNode)| p.1.node_type@ == "framework"@,
            ).len(),
    {
        let workflow = self.get_workflow_sequence();
        ReasoningContext {
            graph_name: self.name.clone(),
            source: match &self.source {
                Some(s) => Some(s.clone()),
                None => None,
            },
            workflow,
            methods: copy_nodes(self.get_methods()),
            rigor_constraints: copy_nodes(self.get_rigor_constraints()),
            priorities: copy_nodes(self.get_priorities()),
            frameworks: copy_nodes(self.get_frameworks()),
            total_nodes: self.nodes.len(),
            total_edges: self.edges.len(),
        }
    }
}

/// Owned copies of a list of borrowed nodes.
fn copy_nodes(nodes: Vec<&KnowledgeNode>) -> (r: Vec<KnowledgeNode>)
    ensures
        r@.len() == nodes@.len(),
        forall|i: int| 0 <= i < r@.len() ==> r@[i] == *(#[trigger] nodes@[i]),
{
    let n = nodes.len();
    let mut out: Vec<KnowledgeNode> = Vec::new();
    let mut i: usize = 0;
    while i < n
        invariant
            0 <= i <= n,
            n == nodes@.len(),
            out@.len() == i,
            forall|j: int| 0 <= j < i ==> out@[j] == *(#[trigger] nodes@[j]),
        decreases n - i,
    {
        out.push(nodes[i].duplicate());
        i = i + 1;
    }
    out
}

/// Drives reasoning over a set of loaded graphs, one of them active.
#[derive(Debug)]
pub struct ReasoningEngine {
    pub graphs: Vec<(String, KnowledgeGraph)>,
    pub active_graph: Option<String>,
}

impl ReasoningEngine {
    /// The abstract graph table.
    pub open spec fn graphs_view(self) -> Seq<(Seq<char>, KnowledgeGraph)> {
        Seq::new(self.graphs@.len(), |i: int| (self.graphs@[i].0@, self.graphs@[i].1))
    }

    /// The graph registered under `name`, if any.
    pub open spec fn spec_graph(self, name: Seq<char>) -> Option<KnowledgeGraph> {
        assoc_find(self.graphs_view(), name)
    }

    /// The active graph's name, if one is set.
    pub open spec fn spec_active(self) -> Option<Seq<char>> {
        match self.active_graph {
            Some(name) => Some(name@),
            None => None,
        }
    }

    /// Graph names are unique and each graph is keyed by its own name.
    pub open spec fn wf(self) -> bool {
        &&& distinct_keys(self.graphs_view())
        &&& forall|i: int|
            0 <= i < self.graphs_view().len() ==> (#[trigger] self.graphs_view()[i]).0
                == self.graphs_view()[i].1.name@
    }

    /// An engine with no graphs.
    pub fn new() -> (r: Self)
        ensures
            r.wf(),
            r.graphs_view().len() == 0,
            r.spec_active() is None,
    {
        let r = ReasoningEngine { graphs: Vec::new(), active_graph: None };
        proof {
            assert(r.graphs_view() =~= Seq::<(Seq<char>, KnowledgeGraph)>::empty());
        }
        r
    }

    /// The index of the graph entry named `name`, if any.
    fn find_graph(&self, name: &str) -> (r: Option<usize>)
        ensures
            match r {
                Some(i) => {
                    &&& i < self.graphs_view().len()
                    &&& self.graphs_view()[i as int].0 == name@
                    &&& forall|j: int| 0 <= j < i ==> self.graphs_view()[j].0 != name@
                    &&& self.spec_graph(name@) == Some(self.graphs_view()[i as int].1)
                },
                None => self.spec_graph(name@) is None,
            },
    {
        let n = self.graphs.len();
        let mut i: usize = 0;
        while i < n
            invariant
                0 <= i <= n,
                n == self.graphs@.len(),
                self.graphs_view().len() == n,
                forall|j: int| 0 <= j < i ==> self.graphs_view()[j].0 != name@,
            decreases n - i,
        {
            if str_eq(self.graphs[i].0.as_str(), name) {
                proof {
                    lemma_assoc_find_at(self.graphs_view(), name@, i as int);
                }
                return Some(i);
            }
            i = i + 1;
        }
        proof {
            lemma_assoc_find_skip(self.graphs_view(), name@, n as int);
        }
        None
    }

    /// Loads a graph under its name, replacing any graph of that name;
    /// the first loaded graph becomes active.
    pub fn load_graph(&mut self, graph: KnowledgeGraph)
        requires
            old(self).wf(),
        ensures
            final(self).wf(),
            final(self).spec_graph(graph.name@) == Some(graph),
            forall|name: Seq<char>|
                name != graph.name@ ==> final(self).spec_graph(name) == old(self).spec_graph(
                    name,
                ),
            final(self).spec_active() == (if old(self).spec_active() is None {
                Some(graph.name@)
            } else {
                old(self).spec_active()
            }),
    {
        let ghost v0 = self.graphs_view();
        let key = graph.name.clone();
        if self.active_graph.is_none() {
            self.active_graph = Some(graph.name.clone());
        }
        let found = self.find_graph(key.as_str());
        match found {
            Some(i) => {
                let ghost pair = (key@, graph);
                self.graphs.set(i, (key, graph));
                proof {
                    assert(self.graphs_view() =~= v0.update(i as int, pair));
                    assert forall|name: Seq<char>|
                        assoc_find(self.graphs_view(), name) == (if name == pair.0 {
                            Some(pair.1)
                        } else {
                            assoc_find(v0, name)
                        }) by {
                        lemma_assoc_find_update(v0, i as int, pair, name);
                    }
                    lemma_assoc_find_update(v0, i as int, pair, pair.0);
                }
            },
            None => {
                let ghost pair = (key@, graph);
                self.graphs.push((key, graph));
                proof {
                    assert(self.graphs_view() =~= v0.push(pair));
                    lemma_assoc_has_index(v0, pair.0);
                    assert forall|name: Seq<char>|
                        assoc_find(self.graphs_view(), name) == (if name == pair.0 {
                            Some(pair.1)
                        } else {
                            assoc_find(v0, name)
                        }) by {
                        lemma_assoc_find_push(v0, pair, name);
                    }
                    assert(distinct_keys(self.graphs_view())) by {
                        assert(forall|j: int|
                            0 <= j < v0.len() ==> self.graphs_view()[j] == v0[j]);
                        assert(self.graphs_view()[v0.len() as int] == pair);
                    }
                }
            },
        }
    }

    /// Makes `name` the active graph; an unknown name is an error and
    /// changes nothing.
    pub fn set_active_graph(&mut self, name: &str) -> (r: Result<(), String>)
        requires
            old(self).wf(),
        ensures
            final(self).wf(),
            final(self).graphs_view() == old(self).graphs_view(),
            (r is Ok) == (old(self).spec_graph(name@) is Some),
            r is Ok ==> final(self).spec_active() == Some(name@),
            r is Err ==> final(self).spec_active() == old(self).spec_active(),
    {
        if self.find_graph(name).is_none() {
            return Err(String::from_str("unknown graph"));
        }
        self.active_graph = Some(String::from_str(name));
        Ok(())
    }

    /// The active graph, if one is set and loaded.
    pub fn get_active_graph(&self) -> (r: Option<&KnowledgeGraph>)
        ensures
            match r {
                Some(g) => self.spec_active() matches Some(name) && self.spec_graph(name)
                    == Some(*g),
                None => self.spec_active() is None || self.spec_graph(
                    self.spec_active().unwrap(),
                ) is None,
            },
    {
        match &self.active_graph {
            Some(name) => {
                match self.find_graph(name.as_str()) {
                    Some(i) => Some(&self.graphs[i].1),
                    None => None,
                }
            },
            None => None,
        }
    }

    /// The reasoning context of the active graph, if one is set.
    pub fn get_reasoning_context(&self) -> (r: Option<ReasoningContext>)
        requires
            self.wf(),
            forall|i: int| 0 <= i < self.graphs_view().len() ==> (#[trigger] self.graphs_view()[i]).1.wf(),
        ensures
            (r is Some) == (self.spec_active() matches Some(name) && self.spec_graph(name)
                is Some),
            r matches Some(context) ==> self.spec_active() matches Some(name)
                && context.graph_name@ == name,
    {
        let graph = match self.get_active_graph() {
            Some(g) => g,
            None => {
                return None;
            },
        };
        proof {
            let name = self.spec_active().unwrap();
            lemma_assoc_has_index(self.graphs_view(), name);
            let w = choose|w: int|
                0 <= w < self.graphs_view().len() && self.graphs_view()[w].0 == name;
            assert forall|j: int| 0 <= j < w implies self.graphs_view()[j].0 != name by {
                assert(distinct_keys(self.graphs_view()));
            }
            lemma_assoc_find_at(self.graphs_view(), name, w);
            assert(*graph == self.graphs_view()[w].1);
            assert(graph.wf());
            assert(graph.name@ == name);
        }
        Some(graph.get_reasoning_context())
    }

    /// Suggests the next workflow action: the stage after the current
    /// one in the active graph's workflow, with the graph's methods and
    /// rigor constraints; without an active graph or a workflow, an
    /// error message comes back instead.
    pub fn suggest_next_action(&self, current_stage: Option<&str>) -> (r: NextActionSuggestion)
        requires
            self.wf(),
            forall|i: int| 0 <= i < self.graphs_view().len() ==> (#[trigger] self.graphs_view()[i]).1.wf(),
        ensures
            (r.error is Some) == (!(self.spec_active() matches Some(name) && self.spec_graph(
                name,
            ) is Some) || (r.error is Some && r.methods@.len() == 0)),
            r.error is Some ==> r.next_stage is None && !r.workflow_complete,
            r.workflow_complete ==> r.next_stage is None && current_stage is Some,
    {
        let graph = match self.get_active_graph() {
            Some(g) => g,
            None => {
                return NextActionSuggestion {
                    current_stage: copy_opt_str(current_stage),
                    next_stage: None,
                    methods: Vec::new(),
                    constraints: Vec::new(),
                    workflow_complete: false,
                    error: Some(String::from_str("No active knowledge graph")),
                };
            },
        };
        proof {
            let name = self.spec_active().unwrap();
            lemma_assoc_has_index(self.graphs_view(), name);
            let w = choose|w: int|
                0 <= w < self.graphs_view().len() && self.graphs_view()[w].0 == name;
            assert forall|j: int| 0 <= j < w implies self.graphs_view()[j].0 != name by {
                assert(distinct_keys(self.graphs_view()));
            }
            lemma_assoc_find_at(self.graphs_view(), name, w);
            assert(*graph == self.graphs_view()[w].1);
            assert(graph.wf());
        }

        let workflow = graph.get_workflow_sequence();
        if workflow.is_empty() {
            return NextActionSuggestion {
                current_stage: copy_opt_str(current_stage),
                next_stage: None,
                methods: Vec::new(),
                constraints: Vec::new(),
                workflow_complete: false,
                error: Some(String::from_str("No workflow defined")),
            };
        }

        // The current position in the workflow, if the caller named one.
        let mut position: Option<usize> = None;
        if let Some(current) = current_stage {
            let n = workflow.len();
            let mut i: usize = 0;
            while i < n
                invariant
                    0 <= i <= n,
                    n == workflow@.len(),
                    match position {
                        Some(p) => p < n,
                        None => true,
                    },
                decreases n - i,
            {
                if position.is_none() && str_eq(workflow[i].id.as_str(), current) {
                    position = Some(i);
                }
                i = i + 1;
            }
        }

        let next_stage = match position {
            Some(p) => {
                if p + 1 < workflow.len() {
                    Some(workflow[p + 1].duplicate())
                } else {
                    None
                }
            },
            None => None,
        };
        let workflow_complete = next_stage.is_none() && position.is_some();

        NextActionSuggestion {
            current_stage: copy_opt_str(current_stage),
            next_stage,
            methods: copy_nodes(graph.get_methods()),
            constraints: copy_nodes(graph.get_rigor_constraints()),
            workflow_complete,
            error: None,
        }
    }
}

impl Default for ReasoningEngine {
    /// The same engine as [`ReasoningEngine::new`].
    fn default() -> (r: Self)
        ensures
            r.wf(),
            r.graphs_view().len() == 0,
    {
        ReasoningEngine::new()
    }
}

/// An owned copy of an optional borrowed string.
fn copy_opt_str(s: Option<&str>) -> (r: Option<String>)
    ensures
        match (s, r) {
            (Some(a), Some(b)) => a@ == b@,
            (None, None) => true,
            _ => false,
        },
{
    match s {
        Some(text) => Some(String::from_str(text)),
        None => None,
    }
}

} // verus!
