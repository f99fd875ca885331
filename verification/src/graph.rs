use vstd::prelude::*;

use crate::errors::DebugError;
use crate::errors::ErrorModel;
use crate::util::string_eq;
use crate::value::Value;
use crate::value::ValueModel;
use vstd::string::StringExecFns;

verus! {

/// One labeled outcome edge of a node: the outcome name and the node the
/// flow proceeds to, or `None` when the flow ends on that outcome.
#[derive(Debug, PartialEq, Eq)]
pub struct EdgeDef {
    pub outcome: String,
    pub target: Option<String>,
}

/// The mathematical abstraction of an edge.
pub ghost struct EdgeModel {
    pub outcome: Seq<char>,
    pub target: Option<Seq<char>>,
}

impl View for EdgeDef {
    type V = EdgeModel;

    open spec fn view(&self) -> EdgeModel {
        EdgeModel {
            outcome: self.outcome@,
            target: match self.target {
                Some(t) => Some(t@),
                None => None,
            },
        }
    }
}

/// One node of a flow: its id, type, display label, configuration, and the
/// labeled edges leading out of it, in declaration order.
#[derive(Debug, PartialEq, Eq)]
pub struct FlowNode {
    pub id: String,
    pub node_type: String,
    pub label: String,
    pub config: Value,
    pub output_edges: Vec<EdgeDef>,
}

/// The mathematical abstraction of a node.
pub ghost struct NodeModel {
    pub id: Seq<char>,
    pub node_type: Seq<char>,
    pub label: Seq<char>,
    pub config: ValueModel,
    pub output_edges: Seq<EdgeModel>,
}

impl View for FlowNode {
    type V = NodeModel;

    open spec fn view(&self) -> NodeModel {
        NodeModel {
            id: self.id@,
            node_type: self.node_type@,
            label: self.label@,
            config: self.config@,
            output_edges: Seq::new(self.output_edges@.len(), |i: int| self.output_edges@[i]@),
        }
    }
}

/// An immutable directed graph of nodes, in declaration order.
///
/// Built once from the compiled flow before a debug session starts; the
/// session itself never mutates it.
#[derive(Debug, PartialEq, Eq)]
pub struct FlowGraph {
    pub nodes: Vec<FlowNode>,
}

/// The mathematical abstraction of a flow graph.
pub ghost struct GraphModel {
    pub nodes: Seq<NodeModel>,
}

impl View for FlowGraph {
    type V = GraphModel;

    open spec fn view(&self) -> GraphModel {
        GraphModel { nodes: Seq::new(self.nodes@.len(), |i: int| self.nodes@[i]@) }
    }
}

/// Index of the first node with id `id` at or after position `i`, or `-1`.
pub open spec fn node_index_from(g: GraphModel, id: Seq<char>, i: int) -> int
    decreases g.nodes.len() - i,
{
    if i < 0 || i >= g.nodes.len() {
        -1
    } else if g.nodes[i].id == id {
        i
    } else {
        node_index_from(g, id, i + 1)
    }
}

/// Index of the first node with id `id`, or `-1` if the id is unknown.
pub open spec fn node_index(g: GraphModel, id: Seq<char>) -> int {
    node_index_from(g, id, 0)
}

/// Whether the graph has a node with id `id`.
pub open spec fn has_node(g: GraphModel, id: Seq<char>) -> bool {
    node_index(g, id) >= 0
}

/// The node with id `id` (meaningful only when `has_node`).
pub open spec fn node_of(g: GraphModel, id: Seq<char>) -> NodeModel {
    g.nodes[node_index(g, id)]
}

/// What `node_index_from` finds is the first occurrence, and only that.
pub proof fn lemma_node_index_from(g: GraphModel, id: Seq<char>, i: int)
    requires
        0 <= i <= g.nodes.len(),
    ensures
        -1 <= node_index_from(g, id, i) < g.nodes.len(),
        node_index_from(g, id, i) == -1 ==> forall|j: int|
            i <= j < g.nodes.len() ==> g.nodes[j].id != id,
        node_index_from(g, id, i) >= 0 ==> {
            &&& i <= node_index_from(g, id, i) < g.nodes.len()
            &&& g.nodes[node_index_from(g, id, i)].id == id
            &&& forall|j: int| i <= j < node_index_from(g, id, i) ==> g.nodes[j].id != id
        },
    decreases g.nodes.len() - i,
{
    if i < g.nodes.len() && g.nodes[i].id != id {
        lemma_node_index_from(g, id, i + 1);
    }
}

/// A witness at position `i`, with no earlier occurrence, pins `node_index`.
pub proof fn lemma_node_index_of(g: GraphModel, id: Seq<char>, i: int)
    requires
        0 <= i < g.nodes.len(),
        g.nodes[i].id == id,
        forall|j: int| 0 <= j < i ==> g.nodes[j].id != id,
    ensures
        node_index(g, id) == i,
{
    lemma_node_index_from(g, id, 0);
    let r = node_index(g, id);
    if r == -1 {
        assert(g.nodes[i].id != id);
        assert(false);
    } else if r < i {
        assert(g.nodes[r].id != id);
        assert(false);
    } else if r > i {
        assert(g.nodes[i].id != id);
        assert(false);
    }
}

/// Index of the first edge of `n` labeled `outcome` at or after `i`, or `-1`.
pub open spec fn edge_index_from(n: NodeModel, outcome: Seq<char>, i: int) -> int
    decreases n.output_edges.len() - i,
{
    if i < 0 || i >= n.output_edges.len() {
        -1
    } else if n.output_edges[i].outcome == outcome {
        i
    } else {
        edge_index_from(n, outcome, i + 1)
    }
}

/// Index of the first edge of `n` labeled `outcome`, or `-1`.
pub open spec fn edge_index(n: NodeModel, outcome: Seq<char>) -> int {
    edge_index_from(n, outcome, 0)
}

/// What `edge_index_from` finds is the first occurrence, and only that.
pub proof fn lemma_edge_index_from(n: NodeModel, outcome: Seq<char>, i: int)
    requires
        0 <= i <= n.output_edges.len(),
    ensures
        -1 <= edge_index_from(n, outcome, i) < n.output_edges.len(),
        edge_index_from(n, outcome, i) == -1 ==> forall|j: int|
            i <= j < n.output_edges.len() ==> n.output_edges[j].outcome != outcome,
        edge_index_from(n, outcome, i) >= 0 ==> {
            &&& i <= edge_index_from(n, outcome, i) < n.output_edges.len()
            &&& n.output_edges[edge_index_from(n, outcome, i)].outcome == outcome
            &&& forall|j: int|
                i <= j < edge_index_from(n, outcome, i) ==> n.output_edges[j].outcome != outcome
        },
    decreases n.output_edges.len() - i,
{
    if i < n.output_edges.len() && n.output_edges[i].outcome != outcome {
        lemma_edge_index_from(n, outcome, i + 1);
    }
}

/// A witness at position `i`, with no earlier occurrence, pins `edge_index`.
pub proof fn lemma_edge_index_of(n: NodeModel, outcome: Seq<char>, i: int)
    requires
        0 <= i < n.output_edges.len(),
        n.output_edges[i].outcome == outcome,
        forall|j: int| 0 <= j < i ==> n.output_edges[j].outcome != outcome,
    ensures
        edge_index(n, outcome) == i,
{
    lemma_edge_index_from(n, outcome, 0);
    let r = edge_index(n, outcome);
    if r == -1 {
        assert(n.output_edges[i].outcome != outcome);
        assert(false);
    } else if r < i {
        assert(n.output_edges[r].outcome != outcome);
        assert(false);
    } else if r > i {
        assert(n.output_edges[i].outcome != outcome);
        assert(false);
    }
}

/// The node the flow proceeds to from `n` on `outcome`: the target of the
/// first edge declared for that outcome.  `None` when the node declares no
/// such edge, or declares it with an empty target — either way the flow
/// terminates there on that outcome.
pub open spec fn next_target(n: NodeModel, outcome: Seq<char>) -> Option<Seq<char>> {
    if edge_index(n, outcome) >= 0 {
        n.output_edges[edge_index(n, outcome)].target
    } else {
        None
    }
}

/// Whether an edge's target, if it names one, is a node of the graph.
pub open spec fn edge_target_ok(g: GraphModel, e: EdgeModel) -> bool {
    match e.target {
        Some(t) => has_node(g, t),
        None => true,
    }
}

/// Whether every declared edge of `n` points at a node of the graph.
pub open spec fn node_edges_closed(g: GraphModel, n: NodeModel) -> bool {
    forall|j: int| 0 <= j < n.output_edges.len() ==> edge_target_ok(g, #[trigger] n.output_edges[j])
}

/// Whether every edge of the graph points at a node of the graph.
pub open spec fn graph_closed(g: GraphModel) -> bool {
    forall|i: int| 0 <= i < g.nodes.len() ==> node_edges_closed(g, #[trigger] g.nodes[i])
}

/// In a graph whose edges are closed, whatever `next_target` selects is a
/// node of the graph.
pub proof fn lemma_next_target_closed(g: GraphModel, id: Seq<char>, outcome: Seq<char>)
    requires
        has_node(g, id),
        node_edges_closed(g, node_of(g, id)),
    ensures
        match next_target(node_of(g, id), outcome) {
            Some(t) => has_node(g, t),
            None => true,
        },
{
    let n = node_of(g, id);
    lemma_edge_index_from(n, outcome, 0);
}

/// A closed graph has closed edges at every node.
pub proof fn lemma_graph_closed_node(g: GraphModel, id: Seq<char>)
    requires
        graph_closed(g),
        has_node(g, id),
    ensures
        node_edges_closed(g, node_of(g, id)),
{
    lemma_node_index_from(g, id, 0);
    assert(node_edges_closed(g, g.nodes[node_index(g, id)]));
}

/// Whether some edge of the graph points at `id`.
pub open spec fn has_incoming(g: GraphModel, id: Seq<char>) -> bool {
    exists|i: int, j: int|
        0 <= i < g.nodes.len() && 0 <= j < g.nodes[i].output_edges.len()
            && g.nodes[i].output_edges[j].target == Some(id)
}

/// Index of the first node with no incoming edges at or after `i`, or `-1`.
pub open spec fn entry_search(g: GraphModel, i: int) -> int
    decreases g.nodes.len() - i,
{
    if i < 0 || i >= g.nodes.len() {
        -1
    } else if !has_incoming(g, g.nodes[i].id) {
        i
    } else {
        entry_search(g, i + 1)
    }
}

/// The id of the entry node: the first declared node with no incoming
/// edges, or — in a fully cyclic graph — the first declared node.  `None`
/// only for an empty graph.
pub open spec fn spec_entry(g: GraphModel) -> Option<Seq<char>> {
    if g.nodes.len() == 0 {
        None
    } else if entry_search(g, 0) >= 0 {
        Some(g.nodes[entry_search(g, 0)].id)
    } else {
        Some(g.nodes[0].id)
    }
}

/// A witness at position `i`, with no earlier candidate, pins `entry_search`.
pub proof fn lemma_entry_search_of(g: GraphModel, i: int)
    requires
        0 <= i < g.nodes.len(),
        !has_incoming(g, g.nodes[i].id),
        forall|j: int| 0 <= j < i ==> has_incoming(g, g.nodes[j].id),
    ensures
        entry_search(g, 0) == i,
{
    lemma_entry_search(g, 0);
    let r = entry_search(g, 0);
    if r == -1 {
        assert(has_incoming(g, g.nodes[i].id));
        assert(false);
    } else if r < i {
        assert(has_incoming(g, g.nodes[r].id));
        assert(false);
    } else if r > i {
        assert(has_incoming(g, g.nodes[i].id));
        assert(false);
    }
}

/// What `entry_search` finds is the first entry candidate, and only that.
pub proof fn lemma_entry_search(g: GraphModel, i: int)
    requires
        0 <= i <= g.nodes.len(),
    ensures
        -1 <= entry_search(g, i) < g.nodes.len(),
        entry_search(g, i) == -1 ==> forall|j: int|
            i <= j < g.nodes.len() ==> has_incoming(g, g.nodes[j].id),
        entry_search(g, i) >= 0 ==> {
            &&& i <= entry_search(g, i) < g.nodes.len()
            &&& !has_incoming(g, g.nodes[entry_search(g, i)].id)
            &&& forall|j: int| i <= j < entry_search(g, i) ==> has_incoming(g, g.nodes[j].id)
        },
    decreases g.nodes.len() - i,
{
    if i < g.nodes.len() && has_incoming(g, g.nodes[i].id) {
        lemma_entry_search(g, i + 1);
    }
}

impl FlowGraph {
    /// Index of the node with id `id`, if any.
    fn find_node(&self, id: &str) -> (r: Option<usize>)
        ensures
            match r {
                Some(i) => 0 <= i < self@.nodes.len() && node_index(self@, id@) == i,
                None => node_index(self@, id@) == -1,
            },
    {
        let n = self.nodes.len();
        let mut i: usize = 0;
        while i < n
            invariant
                i <= n,
                n == self.nodes@.len(),
                self@.nodes.len() == n,
                forall|j: int| 0 <= j < n ==> self@.nodes[j] == self.nodes@[j]@,
                forall|j: int| 0 <= j < i ==> self@.nodes[j].id != id@,
            decreases n - i,
        {
            if string_eq(&self.nodes[i].id, id) {
                proof {
                    assert(self@.nodes[i as int].id == id@);
                    lemma_node_index_of(self@, id@, i as int);
                }
                return Some(i);
            }
            i = i + 1;
        }
        proof {
            lemma_node_index_from(self@, id@, 0);
        }
        None
    }

    /// Look a node up by id; fails with `UnknownNode` if the id is absent.
    pub fn resolve(&self, id: &str) -> (r: Result<&FlowNode, DebugError>)
        ensures
            match r {
                Ok(node) => has_node(self@, id@) && node@ == node_of(self@, id@),
                Err(e) => !has_node(self@, id@) && e@ == ErrorModel::UnknownNode(id@),
            },
    {
        match self.find_node(id) {
            Some(i) => Ok(&self.nodes[i]),
            None => Err(DebugError::UnknownNode(String::from_str(id))),
        }
    }

    /// The node the flow proceeds to from `node_id` on `outcome`, or `None`
    /// when the flow terminates there; fails with `UnknownNode` if `node_id`
    /// is absent.
    pub fn next_node(&self, node_id: &str, outcome: &str) -> (r: Result<
        Option<&String>,
        DebugError,
    >)
        ensures
            match r {
                Ok(Some(t)) => has_node(self@, node_id@) && next_target(
                    node_of(self@, node_id@),
                    outcome@,
                ) == Some(t@),
                Ok(None) => has_node(self@, node_id@) && next_target(
                    node_of(self@, node_id@),
                    outcome@,
                ) is None,
                Err(e) => !has_node(self@, node_id@) && e@ == ErrorModel::UnknownNode(node_id@),
            },
    {
        let node = self.resolve(node_id)?;
        let m = node.output_edges.len();
        let mut j: usize = 0;
        while j < m
            invariant
                j <= m,
                m == node.output_edges@.len(),
                node@.output_edges.len() == m,
                has_node(self@, node_id@),
                node@ == node_of(self@, node_id@),
                forall|k: int| 0 <= k < m ==> node@.output_edges[k] == node.output_edges@[k]@,
                forall|k: int| 0 <= k < j ==> node@.output_edges[k].outcome != outcome@,
            decreases m - j,
        {
            if string_eq(&node.output_edges[j].outcome, outcome) {
                proof {
                    assert(node@.output_edges[j as int].outcome == outcome@);
                    lemma_edge_index_of(node@, outcome@, j as int);
                }
                return match &node.output_edges[j].target {
                    Some(t) => Ok(Some(t)),
                    None => Ok(None),
                };
            }
            j = j + 1;
        }
        proof {
            lemma_edge_index_from(node@, outcome@, 0);
        }
        Ok(None)
    }

    /// Whether some edge of the graph points at `id`.
    pub fn has_incoming_edge(&self, id: &str) -> (r: bool)
        ensures
            r == has_incoming(self@, id@),
    {
        let n = self.nodes.len();
        let mut i: usize = 0;
        while i < n
            invariant
                i <= n,
                n == self.nodes@.len(),
                self@.nodes.len() == n,
                forall|j: int| 0 <= j < n ==> self@.nodes[j] == self.nodes@[j]@,
                forall|a: int, b: int|
                    0 <= a < i && 0 <= b < self@.nodes[a].output_edges.len()
                        ==> self@.nodes[a].output_edges[b].target != Some(id@),
            decreases n - i,
        {
            let node = &self.nodes[i];
            let m = node.output_edges.len();
            let mut j: usize = 0;
            while j < m
                invariant
                    j <= m,
                    m == node.output_edges@.len(),
                    node@.output_edges.len() == m,
                    node@ == self@.nodes[i as int],
                    0 <= i < self@.nodes.len(),
                    forall|k: int| 0 <= k < m ==> node@.output_edges[k] == node.output_edges@[k]@,
                    forall|k: int| 0 <= k < j ==> node@.output_edges[k].target != Some(id@),
                decreases m - j,
            {
                let hit = match &node.output_edges[j].target {
                    Some(t) => string_eq(t, id),
                    None => false,
                };
                if hit {
                    proof {
                        assert(self@.nodes[i as int].output_edges[j as int].target == Some(id@));
                    }
                    return true;
                }
                j = j + 1;
            }
            i = i + 1;
        }
        false
    }

    /// The id of the entry node: the first declared node with no incoming
    /// edges, or — in a fully cyclic graph — the first declared node.
    /// `None` only for an empty graph.
    pub fn entry_node(&self) -> (r: Option<&String>)
        ensures
            match r {
                Some(id) => spec_entry(self@) == Some(id@),
                None => spec_entry(self@) is None,
            },
    {
        let n = self.nodes.len();
        if n == 0 {
            return None;
        }
        let mut i: usize = 0;
        while i < n
            invariant
                i <= n,
                n == self.nodes@.len(),
                n > 0,
                self@.nodes.len() == n,
                forall|j: int| 0 <= j < n ==> self@.nodes[j] == self.nodes@[j]@,
                forall|j: int| 0 <= j < i ==> has_incoming(self@, self@.nodes[j].id),
            decreases n - i,
        {
            if !self.has_incoming_edge(self.nodes[i].id.as_str()) {
                proof {
                    assert(!has_incoming(self@, self@.nodes[i as int].id));
                    lemma_entry_search_of(self@, i as int);
                }
                return Some(&self.nodes[i].id);
            }
            i = i + 1;
        }
        proof {
            lemma_entry_search(self@, 0);
        }
        Some(&self.nodes[0].id)
    }
}

} // verus!
