use vstd::prelude::*;

use crate::errors::DebugError;
use crate::errors::ErrorModel;
use crate::graph::has_node;
use crate::graph::next_target;
use crate::graph::node_of;
use crate::graph::spec_entry;
use crate::graph::FlowGraph;
use crate::graph::FlowNode;
use crate::graph::GraphModel;
use crate::util::contains_string;
use crate::util::dup_opt_string;
use crate::util::dup_strings;
use crate::util::string_eq;
use crate::util::strs_view;
use crate::value::duplicate_opt;
use crate::value::opt_value_model;
use crate::value::Value;
use crate::value::ValueModel;
use crate::vars::merge;
use crate::vars::VarMap;

verus! {

/// Execution status of one node record.
///
/// `Pending` until first visited; `Running` only transiently inside a single
/// step (it is never observable in a returned snapshot); `Success`, `Error`
/// and `Skipped` are terminal.
#[derive(Debug, Clone, Copy, PartialEq, Eq, Structural)]
pub enum NodeStatus {
    Pending,
    Running,
    Success,
    Error,
    Skipped,
}

/// Whether a node status is terminal.
pub open spec fn status_terminal(st: NodeStatus) -> bool {
    st == NodeStatus::Success || st == NodeStatus::Error || st == NodeStatus::Skipped
}

/// Overall state of a debug session.
#[derive(Debug, Clone, Copy, PartialEq, Eq, Structural)]
pub enum SessionState {
    Running,
    Paused,
    Completed,
    Failed,
    Stopped,
}

/// Whether a session state is terminal: once reached, no command mutates the
/// session any further.
pub open spec fn state_terminal(st: SessionState) -> bool {
    st == SessionState::Completed || st == SessionState::Failed || st == SessionState::Stopped
}

/// What executing one node produced, as reported by the node-execution
/// adapter: an outcome name ("success", "error", or a custom outcome used
/// for edge selection), an opaque output value, local variable bindings, and
/// an error message when the node failed.
#[derive(Debug, PartialEq, Eq)]
pub struct NodeOutcome {
    pub outcome: String,
    pub output: Option<Value>,
    pub bindings: VarMap,
    pub error_message: Option<String>,
}

/// The mathematical abstraction of a `NodeOutcome`.
#[verifier::ext_equal]
pub ghost struct OutcomeModel {
    pub outcome: Seq<char>,
    pub output: Option<ValueModel>,
    pub bindings: Seq<(Seq<char>, ValueModel)>,
    pub error_message: Option<Seq<char>>,
}

impl View for NodeOutcome {
    type V = OutcomeModel;

    open spec fn view(&self) -> OutcomeModel {
        OutcomeModel {
            outcome: self.outcome@,
            output: opt_value_model(self.output),
            bindings: self.bindings@,
            error_message: match self.error_message {
                Some(s) => Some(s@),
                None => None,
            },
        }
    }
}

/// Record of one node's execution within a session.  The node's type and
/// label are copied from the graph at creation time, so a snapshot stays
/// interpretable without the graph.
#[derive(Debug, PartialEq, Eq)]
pub struct NodeExecution {
    pub node_id: String,
    pub node_type: String,
    pub label: String,
    pub status: NodeStatus,
    pub start_time: Option<i64>,
    pub end_time: Option<i64>,
    pub output: Option<Value>,
    pub error: Option<String>,
    pub variables: VarMap,
}

/// The mathematical abstraction of a `NodeExecution`.
#[verifier::ext_equal]
pub ghost struct RecordModel {
    pub node_id: Seq<char>,
    pub node_type: Seq<char>,
    pub label: Seq<char>,
    pub status: NodeStatus,
    pub start_time: Option<i64>,
    pub end_time: Option<i64>,
    pub output: Option<ValueModel>,
    pub error: Option<Seq<char>>,
    pub variables: Seq<(Seq<char>, ValueModel)>,
}

impl View for NodeExecution {
    type V = RecordModel;

    open spec fn view(&self) -> RecordModel {
        RecordModel {
            node_id: self.node_id@,
            node_type: self.node_type@,
            label: self.label@,
            status: self.status,
            start_time: self.start_time,
            end_time: self.end_time,
            output: opt_value_model(self.output),
            error: match self.error {
                Some(s) => Some(s@),
                None => None,
            },
            variables: self.variables@,
        }
    }
}

impl NodeExecution {
    /// Deep copy with a full specification.
    pub fn duplicate(&self) -> (r: NodeExecution)
        ensures
            r@ == self@,
    {
        NodeExecution {
            node_id: self.node_id.clone(),
            node_type: self.node_type.clone(),
            label: self.label.clone(),
            status: self.status,
            start_time: self.start_time,
            end_time: self.end_time,
            output: duplicate_opt(&self.output),
            error: dup_opt_string(&self.error),
            variables: self.variables.duplicate(),
        }
    }
}

/// The complete state of a debug session.  Every command takes a prior
/// snapshot and returns a new one; nothing survives between calls except
/// what is in this structure.
#[derive(Debug, PartialEq, Eq)]
pub struct DebugSession {
    /// Opaque unique identifier, assigned at `start`.
    pub session_id: String,
    /// Overall state; see `state_terminal`.
    pub state: SessionState,
    /// The node about to execute (paused), or the one just completed
    /// (completed/failed), depending on `state`.
    pub current_node_id: Option<String>,
    /// Node ids at which `continue` pauses before executing; immutable for
    /// the life of the session.
    pub breakpoints: Vec<String>,
    /// Node ids successfully executed so far, in order, without consecutive
    /// duplicates.
    pub execution_order: Vec<String>,
    /// One record per node touched during the session.
    pub node_executions: Vec<NodeExecution>,
    /// Variables accumulated from successful node executions.
    pub global_variables: VarMap,
    /// Session creation timestamp (seconds).
    pub start_time: i64,
    /// Whether the session is paused because a breakpoint was hit, rather
    /// than because stepping was requested.
    pub paused_at_breakpoint: bool,
    /// Session-level failure reason: set only by the divergence safeguard.
    pub error: Option<String>,
}

/// The mathematical abstraction of a `DebugSession`.
#[verifier::ext_equal]
pub ghost struct SessionModel {
    pub session_id: Seq<char>,
    pub state: SessionState,
    pub current_node_id: Option<Seq<char>>,
    pub breakpoints: Seq<Seq<char>>,
    pub execution_order: Seq<Seq<char>>,
    pub node_executions: Seq<RecordModel>,
    pub global_variables: Seq<(Seq<char>, ValueModel)>,
    pub start_time: i64,
    pub paused_at_breakpoint: bool,
    pub error: Option<Seq<char>>,
}

/// The models of a sequence of records, element by element.
pub open spec fn records_view(v: Seq<NodeExecution>) -> Seq<RecordModel> {
    Seq::new(v.len(), |i: int| v[i]@)
}

impl View for DebugSession {
    type V = SessionModel;

    open spec fn view(&self) -> SessionModel {
        SessionModel {
            session_id: self.session_id@,
            state: self.state,
            current_node_id: match self.current_node_id {
                Some(s) => Some(s@),
                None => None,
            },
            breakpoints: strs_view(self.breakpoints@),
            execution_order: strs_view(self.execution_order@),
            node_executions: records_view(self.node_executions@),
            global_variables: self.global_variables@,
            start_time: self.start_time,
            paused_at_breakpoint: self.paused_at_breakpoint,
            error: match self.error {
                Some(s) => Some(s@),
                None => None,
            },
        }
    }
}

/// Index of the first record with node id `id` at or after `i`, or `-1`.
pub open spec fn record_index_from(rs: Seq<RecordModel>, id: Seq<char>, i: int) -> int
    decreases rs.len() - i,
{
    if i < 0 || i >= rs.len() {
        -1
    } else if rs[i].node_id == id {
        i
    } else {
        record_index_from(rs, id, i + 1)
    }
}

/// Index of the first record with node id `id`, or `-1`.
pub open spec fn record_index(rs: Seq<RecordModel>, id: Seq<char>) -> int {
    record_index_from(rs, id, 0)
}

/// What `record_index_from` finds is the first occurrence, and only that.
pub proof fn lemma_record_index_from(rs: Seq<RecordModel>, id: Seq<char>, i: int)
    requires
        0 <= i <= rs.len(),
    ensures
        -1 <= record_index_from(rs, id, i) < rs.len(),
        record_index_from(rs, id, i) == -1 ==> forall|j: int|
            i <= j < rs.len() ==> rs[j].node_id != id,
        record_index_from(rs, id, i) >= 0 ==> {
            &&& i <= record_index_from(rs, id, i) < rs.len()
            &&& rs[record_index_from(rs, id, i)].node_id == id
            &&& forall|j: int| i <= j < record_index_from(rs, id, i) ==> rs[j].node_id != id
        },
    decreases rs.len() - i,
{
    if i < rs.len() && rs[i].node_id != id {
        lemma_record_index_from(rs, id, i + 1);
    }
}

/// A witness at position `i`, with no earlier occurrence, pins
/// `record_index`.
pub proof fn lemma_record_index_of(rs: Seq<RecordModel>, id: Seq<char>, i: int)
    requires
        0 <= i < rs.len(),
        rs[i].node_id == id,
        forall|j: int| 0 <= j < i ==> rs[j].node_id != id,
    ensures
        record_index(rs, id) == i,
{
    lemma_record_index_from(rs, id, 0);
    let r = record_index(rs, id);
    if r == -1 {
        assert(rs[i].node_id != id);
        assert(false);
    } else if r < i {
        assert(rs[r].node_id != id);
        assert(false);
    } else if r > i {
        assert(rs[i].node_id != id);
        assert(false);
    }
}

/// The record for node `id` within a record sequence, if present.
pub open spec fn record_of_seq(rs: Seq<RecordModel>, id: Seq<char>) -> Option<RecordModel> {
    if record_index(rs, id) >= 0 {
        Some(rs[record_index(rs, id)])
    } else {
        None
    }
}

/// The record for node `id`, if the session has touched it.
pub open spec fn spec_record_of(m: SessionModel, id: Seq<char>) -> Option<RecordModel> {
    record_of_seq(m.node_executions, id)
}

/// The status of node `id` in session `m`: `Pending` until the session has
/// touched it.
pub open spec fn status_of(m: SessionModel, id: Seq<char>) -> NodeStatus {
    match spec_record_of(m, id) {
        Some(r) => r.status,
        None => NodeStatus::Pending,
    }
}

/// Store `rec` under its node id: overwrite the node's record in place if
/// one exists, else append.
pub open spec fn upsert_record(rs: Seq<RecordModel>, rec: RecordModel) -> Seq<RecordModel> {
    if record_index(rs, rec.node_id) >= 0 {
        rs.update(record_index(rs, rec.node_id), rec)
    } else {
        rs.push(rec)
    }
}

/// No two records describe the same node.
pub open spec fn records_distinct(rs: Seq<RecordModel>) -> bool {
    forall|i: int, j: int|
        0 <= i < j < rs.len() ==> rs[i].node_id != rs[j].node_id
}

/// `upsert_record` keeps records distinct.
pub proof fn lemma_upsert_distinct(rs: Seq<RecordModel>, rec: RecordModel)
    requires
        records_distinct(rs),
    ensures
        records_distinct(upsert_record(rs, rec)),
{
    lemma_record_index_from(rs, rec.node_id, 0);
    let k = record_index(rs, rec.node_id);
    if k >= 0 {
        let rs2 = rs.update(k, rec);
        assert forall|i: int, j: int|
            0 <= i < j < rs2.len() implies rs2[i].node_id != rs2[j].node_id by {
            if i != k && j != k {
                assert(rs2[i] == rs[i] && rs2[j] == rs[j]);
            } else if i == k {
                assert(rs2[j] == rs[j]);
                assert(rs[k].node_id == rec.node_id);
            } else {
                assert(rs2[i] == rs[i]);
                assert(rs[k].node_id == rec.node_id);
            }
        }
    } else {
        let rs2 = rs.push(rec);
        assert forall|i: int, j: int|
            0 <= i < j < rs2.len() implies rs2[i].node_id != rs2[j].node_id by {
            if j < rs.len() {
                assert(rs2[i] == rs[i] && rs2[j] == rs[j]);
            } else {
                assert(rs2[j] == rec);
                assert(rs2[i] == rs[i]);
                assert(rs[i].node_id != rec.node_id);
            }
        }
    }
}

/// Storing a record for one node leaves every other node's record as it
/// was.
pub proof fn lemma_upsert_other(rs: Seq<RecordModel>, rec: RecordModel, id: Seq<char>)
    requires
        id != rec.node_id,
    ensures
        record_of_seq(upsert_record(rs, rec), id) == record_of_seq(rs, id),
{
    lemma_record_index_from(rs, rec.node_id, 0);
    lemma_record_index_from(rs, id, 0);
    let rs2 = upsert_record(rs, rec);
    let k = record_index(rs, rec.node_id);
    let i = record_index(rs, id);
    if k >= 0 {
        // overwrite in place; node ids are unchanged position by position
        assert(rs[k].node_id == rec.node_id);
        if i >= 0 {
            assert(i != k);
            assert(rs2[i].node_id == id);
            assert forall|j: int| 0 <= j < i implies rs2[j].node_id != id by {
                if j == k {
                    assert(rs2[j].node_id == rec.node_id);
                } else {
                    assert(rs2[j] == rs[j]);
                }
            }
            lemma_record_index_of(rs2, id, i);
            assert(rs2[i] == rs[i]);
        } else {
            lemma_record_index_from(rs2, id, 0);
            let i2 = record_index(rs2, id);
            if i2 >= 0 {
                if i2 == k {
                    assert(rs2[i2].node_id == rec.node_id);
                    assert(false);
                } else {
                    assert(rs2[i2] == rs[i2]);
                    assert(rs[i2].node_id != id);
                    assert(false);
                }
            }
        }
    } else {
        if i >= 0 {
            assert(rs2[i].node_id == id);
            assert forall|j: int| 0 <= j < i implies rs2[j].node_id != id by {
                assert(rs2[j] == rs[j]);
            }
            lemma_record_index_of(rs2, id, i);
            assert(rs2[i] == rs[i]);
        } else {
            lemma_record_index_from(rs2, id, 0);
            let i2 = record_index(rs2, id);
            if i2 >= 0 {
                if i2 == rs.len() {
                    assert(rs2[i2] == rec);
                    assert(false);
                } else {
                    assert(rs2[i2] == rs[i2]);
                    assert(rs[i2].node_id != id);
                    assert(false);
                }
            }
        }
    }
}

/// Storing a record for a node makes it that node's record.
pub proof fn lemma_upsert_self(rs: Seq<RecordModel>, rec: RecordModel)
    ensures
        record_of_seq(upsert_record(rs, rec), rec.node_id) == Some(rec),
{
    lemma_record_index_from(rs, rec.node_id, 0);
    let rs2 = upsert_record(rs, rec);
    let k = record_index(rs, rec.node_id);
    if k >= 0 {
        assert(rs2[k].node_id == rec.node_id);
        assert forall|j: int| 0 <= j < k implies rs2[j].node_id != rec.node_id by {
            assert(rs2[j] == rs[j]);
        }
        lemma_record_index_of(rs2, rec.node_id, k);
    } else {
        assert(rs2[rs.len() as int] == rec);
        assert forall|j: int| 0 <= j < rs.len() implies rs2[j].node_id != rec.node_id by {
            assert(rs2[j] == rs[j]);
        }
        lemma_record_index_of(rs2, rec.node_id, rs.len() as int);
    }
}

/// One step changes no record but the executed node's own.
pub proof fn lemma_apply_other_record(
    g: GraphModel,
    m: SessionModel,
    oc: OutcomeModel,
    started: i64,
    ended: i64,
    id: Seq<char>,
)
    requires
        spec_apply(g, m, oc, started, ended) is Ok,
        m.current_node_id matches Some(cur) && id != cur,
    ensures
        record_of_seq(spec_apply(g, m, oc, started, ended)->Ok_0.node_executions, id)
            == record_of_seq(m.node_executions, id),
{
    let cur = m.current_node_id->0;
    let node = node_of(g, cur);
    let failed = oc.outcome == "error"@;
    let rec = RecordModel {
        node_id: cur,
        node_type: node.node_type,
        label: node.label,
        status: if failed {
            NodeStatus::Error
        } else {
            NodeStatus::Success
        },
        start_time: Some(started),
        end_time: Some(ended),
        output: if failed {
            None
        } else {
            oc.output
        },
        error: if failed {
            oc.error_message
        } else {
            None
        },
        variables: if failed {
            Seq::empty()
        } else {
            oc.bindings
        },
    };
    lemma_upsert_other(m.node_executions, rec, id);
}

/// Well-formedness of a session snapshot: one record per node, and a
/// current node whenever the session can still advance.
pub open spec fn wf(m: SessionModel) -> bool {
    &&& records_distinct(m.node_executions)
    &&& (!state_terminal(m.state) ==> m.current_node_id is Some)
}

/// The result of `start`: the initial paused snapshot, before any node has
/// executed.  Fails with `UnknownNode` if a breakpoint names a node the
/// graph does not have (the first such breakpoint, in order), or — with the
/// empty id — if the graph has no nodes at all.
pub open spec fn spec_start(
    g: GraphModel,
    breakpoints: Seq<Seq<char>>,
    session_id: Seq<char>,
    now: i64,
) -> Result<SessionModel, ErrorModel> {
    if bad_bp_from(g, breakpoints, 0) >= 0 {
        Err(ErrorModel::UnknownNode(breakpoints[bad_bp_from(g, breakpoints, 0)]))
    } else {
        match spec_entry(g) {
            None => Err(ErrorModel::UnknownNode(Seq::empty())),
            Some(entry) => Ok(
                SessionModel {
                    session_id: session_id,
                    state: SessionState::Paused,
                    current_node_id: Some(entry),
                    breakpoints: breakpoints,
                    execution_order: Seq::empty(),
                    node_executions: Seq::empty(),
                    global_variables: Seq::empty(),
                    start_time: now,
                    paused_at_breakpoint: breakpoints.contains(entry),
                    error: None,
                },
            ),
        }
    }
}

/// Index of the first breakpoint at or after `i` that is not a node of the
/// graph, or `-1`.
pub open spec fn bad_bp_from(g: GraphModel, bps: Seq<Seq<char>>, i: int) -> int
    decreases bps.len() - i,
{
    if i < 0 || i >= bps.len() {
        -1
    } else if !has_node(g, bps[i]) {
        i
    } else {
        bad_bp_from(g, bps, i + 1)
    }
}

/// What `bad_bp_from` finds is the first invalid breakpoint, and only that.
pub proof fn lemma_bad_bp_from(g: GraphModel, bps: Seq<Seq<char>>, i: int)
    requires
        0 <= i <= bps.len(),
    ensures
        -1 <= bad_bp_from(g, bps, i) < bps.len(),
        bad_bp_from(g, bps, i) == -1 ==> forall|j: int|
            i <= j < bps.len() ==> has_node(g, bps[j]),
        bad_bp_from(g, bps, i) >= 0 ==> {
            &&& i <= bad_bp_from(g, bps, i) < bps.len()
            &&& !has_node(g, bps[bad_bp_from(g, bps, i)])
            &&& forall|j: int| i <= j < bad_bp_from(g, bps, i) ==> has_node(g, bps[j])
        },
    decreases bps.len() - i,
{
    if i < bps.len() && has_node(g, bps[i]) {
        lemma_bad_bp_from(g, bps, i + 1);
    }
}

/// One step of execution: the session after applying the adapter's reported
/// `outcome` for the current node, with `started`/`ended` as the node's
/// execution timestamps.
///
/// - Against a terminal session: `SessionTerminated`.
/// - Against a snapshot with no current node: `MalformedSnapshot`
///   (unreachable for snapshots this library produced).
/// - Current node, or the target the taken edge names, absent from the
///   graph: `UnknownNode`, with the session unchanged.
/// - An "error" outcome records the failure on the node; any other outcome
///   records success, stores the output and bindings, merges the bindings
///   into the global variables, and appends the node to the execution order
///   (unless it is already its last entry).
/// - The outcome name selects the next edge.  No edge (or an empty target)
///   ends the flow: `Completed` after success, `Failed` after an error.
///   Otherwise the session pauses before the edge's target.
pub open spec fn spec_apply(
    g: GraphModel,
    m: SessionModel,
    oc: OutcomeModel,
    started: i64,
    ended: i64,
) -> Result<SessionModel, ErrorModel> {
    if state_terminal(m.state) {
        Err(ErrorModel::SessionTerminated)
    } else {
        match m.current_node_id {
            None => Err(ErrorModel::MalformedSnapshot),
            Some(cur) => {
                if !has_node(g, cur) {
                    Err(ErrorModel::UnknownNode(cur))
                } else {
                    let node = node_of(g, cur);
                    let failed = oc.outcome == "error"@;
                    let rec = RecordModel {
                        node_id: cur,
                        node_type: node.node_type,
                        label: node.label,
                        status: if failed {
                            NodeStatus::Error
                        } else {
                            NodeStatus::Success
                        },
                        start_time: Some(started),
                        end_time: Some(ended),
                        output: if failed {
                            None
                        } else {
                            oc.output
                        },
                        error: if failed {
                            oc.error_message
                        } else {
                            None
                        },
                        variables: if failed {
                            Seq::empty()
                        } else {
                            oc.bindings
                        },
                    };
                    let records = upsert_record(m.node_executions, rec);
                    let globals = if failed {
                        m.global_variables
                    } else {
                        merge(m.global_variables, oc.bindings)
                    };
                    let order = if failed {
                        m.execution_order
                    } else if m.execution_order.len() > 0 && m.execution_order.last() == cur {
                        m.execution_order
                    } else {
                        m.execution_order.push(cur)
                    };
                    match next_target(node, oc.outcome) {
                        None => Ok(
                            SessionModel {
                                state: if failed {
                                    SessionState::Failed
                                } else {
                                    SessionState::Completed
                                },
                                current_node_id: Some(cur),
                                execution_order: order,
                                node_executions: records,
                                global_variables: globals,
                                paused_at_breakpoint: false,
                                ..m
                            },
                        ),
                        Some(t) => {
                            if !has_node(g, t) {
                                Err(ErrorModel::UnknownNode(t))
                            } else {
                                Ok(
                                    SessionModel {
                                        state: SessionState::Paused,
                                        current_node_id: Some(t),
                                        execution_order: order,
                                        node_executions: records,
                                        global_variables: globals,
                                        paused_at_breakpoint: false,
                                        ..m
                                    },
                                )
                            }
                        },
                    }
                }
            },
        }
    }
}

/// The result of an unexpected adapter failure (a crash, a malformed
/// report) while the current node was being executed: the session
/// transitions to `Failed` with the synthetic error attached to the
/// current node — it is never left running.  The node's existing record,
/// if any, keeps its identity fields, timestamps, output and variables;
/// only its status and error change.  A node never touched before gets a
/// fresh record with empty type and label (the graph never reported on
/// it).
pub open spec fn spec_fail(m: SessionModel, message: Seq<char>) -> Result<
    SessionModel,
    ErrorModel,
> {
    if state_terminal(m.state) {
        Err(ErrorModel::SessionTerminated)
    } else {
        match m.current_node_id {
            None => Err(ErrorModel::MalformedSnapshot),
            Some(cur) => {
                let rec = match record_of_seq(m.node_executions, cur) {
                    Some(r) => RecordModel {
                        status: NodeStatus::Error,
                        error: Some(message),
                        ..r
                    },
                    None => RecordModel {
                        node_id: cur,
                        node_type: Seq::empty(),
                        label: Seq::empty(),
                        status: NodeStatus::Error,
                        start_time: None,
                        end_time: None,
                        output: None,
                        error: Some(message),
                        variables: Seq::empty(),
                    },
                };
                Ok(
                    SessionModel {
                        state: SessionState::Failed,
                        node_executions: upsert_record(m.node_executions, rec),
                        paused_at_breakpoint: false,
                        ..m
                    },
                )
            },
        }
    }
}

/// An adapter failure changes no record but the current node's own.
pub proof fn lemma_fail_other_record(m: SessionModel, message: Seq<char>, id: Seq<char>)
    requires
        spec_fail(m, message) is Ok,
        m.current_node_id matches Some(cur) && id != cur,
    ensures
        record_of_seq(spec_fail(m, message)->Ok_0.node_executions, id) == record_of_seq(
            m.node_executions,
            id,
        ),
{
    let cur = m.current_node_id->0;
    lemma_record_index_from(m.node_executions, cur, 0);
    let rec = match record_of_seq(m.node_executions, cur) {
        Some(r) => RecordModel { status: NodeStatus::Error, error: Some(message), ..r },
        None => RecordModel {
            node_id: cur,
            node_type: Seq::empty(),
            label: Seq::empty(),
            status: NodeStatus::Error,
            start_time: None,
            end_time: None,
            output: None,
            error: Some(message),
            variables: Seq::empty(),
        },
    };
    assert(rec.node_id == cur);
    lemma_upsert_other(m.node_executions, rec, id);
}

/// Record an unexpected adapter failure; see `spec_fail`.  The input
/// snapshot is never mutated.
pub fn fail_step(session: &DebugSession, message: &str) -> (r: Result<DebugSession, DebugError>)
    ensures
        match r {
            Ok(s2) => {
                &&& spec_fail(session@, message@) == Ok::<SessionModel, ErrorModel>(s2@)
                &&& (wf(session@) ==> wf(s2@))
            },
            Err(e) => spec_fail(session@, message@) == Err::<SessionModel, ErrorModel>(e@),
        },
{
    if session.is_terminal() {
        return Err(DebugError::SessionTerminated);
    }
    let cur: &String = match &session.current_node_id {
        Some(c) => c,
        None => {
            return Err(DebugError::MalformedSnapshot);
        },
    };
    let rec = match find_record(&session.node_executions, cur.as_str()) {
        Some(i) => {
            let touched = &session.node_executions[i];
            NodeExecution {
                node_id: touched.node_id.clone(),
                node_type: touched.node_type.clone(),
                label: touched.label.clone(),
                status: NodeStatus::Error,
                start_time: touched.start_time,
                end_time: touched.end_time,
                output: duplicate_opt(&touched.output),
                error: Some(String::from_str(message)),
                variables: touched.variables.duplicate(),
            }
        },
        None => NodeExecution {
            node_id: cur.clone(),
            node_type: String::new(),
            label: String::new(),
            status: NodeStatus::Error,
            start_time: None,
            end_time: None,
            output: None,
            error: Some(String::from_str(message)),
            variables: VarMap::new(),
        },
    };
    let mut records = dup_records(&session.node_executions);
    proof {
        if wf(session@) {
            lemma_upsert_distinct(records_view(session.node_executions@), rec@);
        }
    }
    put_record(&mut records, rec);
    let s2 = DebugSession {
        session_id: session.session_id.clone(),
        state: SessionState::Failed,
        current_node_id: Some(cur.clone()),
        breakpoints: dup_strings(&session.breakpoints),
        execution_order: dup_strings(&session.execution_order),
        node_executions: records,
        global_variables: session.global_variables.duplicate(),
        start_time: session.start_time,
        paused_at_breakpoint: false,
        error: dup_opt_string(&session.error),
    };
    proof {
        let expected = spec_fail(session@, message@);
        assert(expected is Ok);
        assert(s2@ =~~= expected->Ok_0);
    }
    Ok(s2)
}

/// The result of `stop`: the same snapshot frozen in `Stopped`; a terminal
/// session is returned unchanged.
pub open spec fn spec_stop(m: SessionModel) -> SessionModel {
    if state_terminal(m.state) {
        m
    } else {
        SessionModel { state: SessionState::Stopped, ..m }
    }
}

/// The result of `get_variables`: a node's local bindings (empty until the
/// session has touched the node), or the global variables when no node is
/// named.  A pure read.
pub open spec fn spec_variables(m: SessionModel, id: Option<Seq<char>>) -> Seq<
    (Seq<char>, ValueModel),
> {
    match id {
        None => m.global_variables,
        Some(nid) => match spec_record_of(m, nid) {
            Some(r) => r.variables,
            None => Seq::empty(),
        },
    }
}

/// Index of the record for node `id`, if any.
fn find_record(records: &Vec<NodeExecution>, id: &str) -> (r: Option<usize>)
    ensures
        match r {
            Some(i) => 0 <= i < records@.len() && record_index(records_view(records@), id@) == i,
            None => record_index(records_view(records@), id@) == -1,
        },
{
    let n = records.len();
    let mut i: usize = 0;
    while i < n
        invariant
            i <= n,
            n == records@.len(),
            forall|j: int| 0 <= j < n ==> records_view(records@)[j] == records@[j]@,
            forall|j: int| 0 <= j < i ==> records_view(records@)[j].node_id != id@,
        decreases n - i,
    {
        if string_eq(&records[i].node_id, id) {
            proof {
                assert(records_view(records@)[i as int].node_id == id@);
                lemma_record_index_of(records_view(records@), id@, i as int);
            }
            return Some(i);
        }
        i = i + 1;
    }
    proof {
        lemma_record_index_from(records_view(records@), id@, 0);
    }
    None
}

/// Store `rec` under its node id, overwriting the node's previous record.
fn put_record(records: &mut Vec<NodeExecution>, rec: NodeExecution)
    ensures
        records_view(final(records)@) == upsert_record(records_view(old(records)@), rec@),
{
    let ghost before = records_view(records@);
    match find_record(records, rec.node_id.as_str()) {
        Some(i) => {
            records[i] = rec;
            proof {
                assert(records_view(records@) =~= before.update(i as int, rec@));
            }
        },
        None => {
            records.push(rec);
            proof {
                assert(records_view(records@) =~= before.push(rec@));
            }
        },
    }
}

/// Copy of a record vector, model-equal to the original.
fn dup_records(v: &Vec<NodeExecution>) -> (r: Vec<NodeExecution>)
    ensures
        records_view(r@) == records_view(v@),
{
    let n = v.len();
    let mut out: Vec<NodeExecution> = Vec::new();
    let mut i: usize = 0;
    while i < n
        invariant
            i <= n,
            n == v@.len(),
            out@.len() == i,
            forall|j: int| 0 <= j < i ==> out@[j]@ == v@[j]@,
        decreases n - i,
    {
        out.push(v[i].duplicate());
        i = i + 1;
    }
    proof {
        assert(records_view(out@) =~~= records_view(v@));
    }
    out
}

impl DebugSession {
    /// Whether the session is in a terminal state.
    pub fn is_terminal(&self) -> (r: bool)
        ensures
            r == state_terminal(self@.state),
    {
        match self.state {
            SessionState::Completed => true,
            SessionState::Failed => true,
            SessionState::Stopped => true,
            _ => false,
        }
    }

    /// Deep copy with a full specification.
    pub fn duplicate(&self) -> (r: DebugSession)
        ensures
            r@ == self@,
    {
        let r = DebugSession {
            session_id: self.session_id.clone(),
            state: self.state,
            current_node_id: dup_opt_string(&self.current_node_id),
            breakpoints: dup_strings(&self.breakpoints),
            execution_order: dup_strings(&self.execution_order),
            node_executions: dup_records(&self.node_executions),
            global_variables: self.global_variables.duplicate(),
            start_time: self.start_time,
            paused_at_breakpoint: self.paused_at_breakpoint,
            error: dup_opt_string(&self.error),
        };
        proof {
            assert(r@ =~~= self@);
        }
        r
    }
}

/// Begin a debug session over `graph`: validate the breakpoints, find the
/// entry node, and return the initial paused snapshot.  No node executes.
pub fn start_session(
    graph: &FlowGraph,
    breakpoints: Vec<String>,
    session_id: String,
    now: i64,
) -> (r: Result<DebugSession, DebugError>)
    ensures
        match r {
            Ok(s) => {
                &&& spec_start(graph@, strs_view(breakpoints@), session_id@, now) == Ok::<
                    SessionModel,
                    ErrorModel,
                >(s@)
                &&& wf(s@)
            },
            Err(e) => spec_start(graph@, strs_view(breakpoints@), session_id@, now) == Err::<
                SessionModel,
                ErrorModel,
            >(e@),
        },
{
    let ghost bps = strs_view(breakpoints@);
    let n = breakpoints.len();
    let mut i: usize = 0;
    while i < n
        invariant
            i <= n,
            n == breakpoints@.len(),
            bps == strs_view(breakpoints@),
            bps.len() == n,
            forall|j: int| 0 <= j < n ==> bps[j] == breakpoints@[j]@,
            forall|j: int| 0 <= j < i ==> has_node(graph@, bps[j]),
        decreases n - i,
    {
        match graph.resolve(breakpoints[i].as_str()) {
            Ok(_) => {},
            Err(e) => {
                proof {
                    lemma_bad_bp_from(graph@, bps, 0);
                    let b = bad_bp_from(graph@, bps, 0);
                    if b == -1 {
                        assert(has_node(graph@, bps[i as int]));
                        assert(false);
                    } else if b < i {
                        assert(has_node(graph@, bps[b]));
                        assert(false);
                    } else if b > i {
                        assert(has_node(graph@, bps[i as int]));
                        assert(false);
                    }
                }
                return Err(e);
            },
        }
        i = i + 1;
    }
    proof {
        lemma_bad_bp_from(graph@, bps, 0);
        let b = bad_bp_from(graph@, bps, 0);
        if b >= 0 {
            assert(has_node(graph@, bps[b]));
            assert(false);
        }
    }
    let entry: String = match graph.entry_node() {
        Some(id) => id.clone(),
        None => {
            return Err(DebugError::UnknownNode(String::new()));
        },
    };
    let paused_at_breakpoint = contains_string(&breakpoints, entry.as_str());
    let s = DebugSession {
        session_id,
        state: SessionState::Paused,
        current_node_id: Some(entry),
        breakpoints,
        execution_order: Vec::new(),
        node_executions: Vec::new(),
        global_variables: VarMap::new(),
        start_time: now,
        paused_at_breakpoint,
        error: None,
    };
    proof {
        let expected = spec_start(graph@, bps, s.session_id@, now);
        assert(expected is Ok);
        assert(s@ =~~= expected->Ok_0);
    }
    Ok(s)
}

/// Apply one reported node outcome to the session; see `spec_apply` for the
/// full transition.  The input snapshot is never mutated; on an error the
/// caller's snapshot stands as it was.
pub fn apply_step(
    graph: &FlowGraph,
    session: &DebugSession,
    outcome: &NodeOutcome,
    started: i64,
    ended: i64,
) -> (r: Result<DebugSession, DebugError>)
    ensures
        match r {
            Ok(s2) => {
                &&& spec_apply(graph@, session@, outcome@, started, ended) == Ok::<
                    SessionModel,
                    ErrorModel,
                >(s2@)
                &&& (wf(session@) ==> wf(s2@))
            },
            Err(e) => spec_apply(graph@, session@, outcome@, started, ended) == Err::<
                SessionModel,
                ErrorModel,
            >(e@),
        },
{
    if session.is_terminal() {
        return Err(DebugError::SessionTerminated);
    }
    let cur: &String = match &session.current_node_id {
        Some(c) => c,
        None => {
            return Err(DebugError::MalformedSnapshot);
        },
    };
    let node: &FlowNode = match graph.resolve(cur.as_str()) {
        Ok(n) => n,
        Err(e) => {
            return Err(e);
        },
    };
    let failed = string_eq(&outcome.outcome, "error");

    // Resolve the next node before building the new snapshot, so that a
    // dangling edge target fails the call without mutation.
    let next: Option<String> = match graph.next_node(cur.as_str(), outcome.outcome.as_str()) {
        Ok(Some(t)) => {
            let t2 = t.clone();
            match graph.resolve(t2.as_str()) {
                Ok(_) => {},
                Err(e) => {
                    return Err(e);
                },
            }
            Some(t2)
        },
        Ok(None) => None,
        Err(_) => {
            proof {
                assert(false);
            }
            None
        },
    };

    let rec = NodeExecution {
        node_id: cur.clone(),
        node_type: node.node_type.clone(),
        label: node.label.clone(),
        status: if failed {
            NodeStatus::Error
        } else {
            NodeStatus::Success
        },
        start_time: Some(started),
        end_time: Some(ended),
        output: if failed {
            None
        } else {
            duplicate_opt(&outcome.output)
        },
        error: if failed {
            dup_opt_string(&outcome.error_message)
        } else {
            None
        },
        variables: if failed {
            VarMap::new()
        } else {
            outcome.bindings.duplicate()
        },
    };

    let mut records = dup_records(&session.node_executions);
    proof {
        if wf(session@) {
            lemma_upsert_distinct(records_view(session.node_executions@), rec@);
        }
    }
    put_record(&mut records, rec);

    let mut globals = session.global_variables.duplicate();
    if !failed {
        globals.merge_from(&outcome.bindings);
    }

    let mut order = dup_strings(&session.execution_order);
    if !failed {
        let already_last = if order.len() > 0 {
            string_eq(&order[order.len() - 1], cur.as_str())
        } else {
            false
        };
        if !already_last {
            order.push(cur.clone());
            proof {
                assert(strs_view(order@) =~= strs_view(
                    session.execution_order@,
                ).push(cur@));
            }
        }
    }
    proof {
        assert(strs_view(order@) == {
            let m = session@;
            if (outcome@.outcome == "error"@) {
                m.execution_order
            } else if m.execution_order.len() > 0 && m.execution_order.last() == cur@ {
                m.execution_order
            } else {
                m.execution_order.push(cur@)
            }
        });
    }

    let (new_state, new_current): (SessionState, Option<String>) = match next {
        None => (
            if failed {
                SessionState::Failed
            } else {
                SessionState::Completed
            },
            Some(cur.clone()),
        ),
        Some(t) => (SessionState::Paused, Some(t)),
    };

    let s2 = DebugSession {
        session_id: session.session_id.clone(),
        state: new_state,
        current_node_id: new_current,
        breakpoints: dup_strings(&session.breakpoints),
        execution_order: order,
        node_executions: records,
        global_variables: globals,
        start_time: session.start_time,
        paused_at_breakpoint: false,
        error: dup_opt_string(&session.error),
    };
    proof {
        let expected = spec_apply(graph@, session@, outcome@, started, ended);
        assert(expected is Ok);
        assert(s2@ =~~= expected->Ok_0);
    }
    Ok(s2)
}

/// Freeze the session: any non-terminal state becomes `Stopped`; a session
/// already terminal is returned unchanged.  Idempotent.
pub fn stop(session: &DebugSession) -> (r: DebugSession)
    ensures
        r@ == spec_stop(session@),
        wf(session@) ==> wf(r@),
{
    let mut s = session.duplicate();
    if !s.is_terminal() {
        s.state = SessionState::Stopped;
        proof {
            assert(s@ =~~= spec_stop(session@));
        }
    }
    s
}

/// Read variables out of a snapshot: a node's local bindings, or the global
/// variables when no node id is given.  Never mutates the session.
pub fn get_variables(session: &DebugSession, node_id: Option<&str>) -> (r: VarMap)
    ensures
        r@ == spec_variables(
            session@,
            match node_id {
                Some(s) => Some(s@),
                None => None,
            },
        ),
{
    match node_id {
        None => session.global_variables.duplicate(),
        Some(id) => match find_record(&session.node_executions, id) {
            Some(i) => session.node_executions[i].variables.duplicate(),
            None => VarMap::new(),
        },
    }
}

} // verus!
