use vstd::prelude::*;

use crate::errors::DebugError;
use crate::errors::ErrorModel;
use crate::graph::graph_closed;
use crate::graph::has_node;
use crate::graph::lemma_graph_closed_node;
use crate::graph::lemma_next_target_closed;
use crate::graph::node_edges_closed;
use crate::graph::node_of;
use crate::graph::FlowGraph;
use crate::graph::FlowNode;
use crate::graph::GraphModel;
use crate::laws::lemma_spec_run_snoc;
use crate::laws::spec_run;
use crate::platform::fresh_uuid;
use crate::platform::unix_now_seconds;
use crate::session::apply_step;
use crate::session::fail_step;
use crate::session::lemma_apply_other_record;
use crate::session::lemma_fail_other_record;
use crate::session::record_of_seq;
use crate::session::spec_apply;
use crate::session::spec_fail;
use crate::session::spec_start;
use crate::session::start_session;
use crate::session::state_terminal;
use crate::session::wf;
use crate::session::DebugSession;
use crate::session::NodeOutcome;
use crate::session::OutcomeModel;
use crate::session::SessionModel;
use crate::session::SessionState;
use crate::util::contains_string;
use crate::util::strs_view;
use crate::vars::VarMap;
use vstd::string::StringExecFns;

verus! {

/// The node-execution adapter: the single capability the debugger depends
/// on.  `execute` runs one node — an opaque, potentially slow, potentially
/// failing operation — and `now` reads a timestamp.  Neither carries a
/// contract: every property of the session core is proved to hold for
/// whatever an implementation returns.
pub trait NodeExecutor {
    /// Run one node, given its definition and the current global
    /// variables, and report its outcome.  `Err` means the adapter itself
    /// failed unexpectedly (it crashed, or returned a malformed report):
    /// the session then fails with the message as a synthetic error on the
    /// node, without consulting the node's error edges (see `spec_fail`).
    fn execute(&mut self, node: &FlowNode, globals: &VarMap) -> Result<NodeOutcome, String>;

    /// The current timestamp, in the implementation's clock.
    fn now(&mut self) -> i64;
}

/// A deterministic adapter: replays a recorded list of outcome reports in
/// order, with a counting clock, and faults once the recording runs out.
/// It lets a caller replay a recorded run without the external engine and
/// drive the commands from ordinary code.
pub struct ScriptedExecutor {
    pub reports: Vec<Result<NodeOutcome, String>>,
    pub clock: i64,
}

impl ScriptedExecutor {
    /// An executor that will hand out `reports` front to back.
    pub fn new(reports: Vec<Result<NodeOutcome, String>>) -> (r: ScriptedExecutor)
        ensures
            r.reports == reports,
            r.clock == 0,
    {
        ScriptedExecutor { reports, clock: 0 }
    }
}

impl NodeExecutor for ScriptedExecutor {
    fn execute(&mut self, _node: &FlowNode, _globals: &VarMap) -> Result<NodeOutcome, String> {
        if self.reports.len() > 0 {
            self.reports.remove(0)
        } else {
            Err(String::from_str("no recorded outcome left"))
        }
    }

    fn now(&mut self) -> i64 {
        if self.clock < i64::MAX {
            self.clock = self.clock + 1;
        }
        self.clock
    }
}

/// An arbitrary outcome model, used as a witness where a step failed before
/// any node ran.
pub open spec fn no_outcome() -> OutcomeModel {
    OutcomeModel {
        outcome: Seq::empty(),
        output: None,
        bindings: Seq::empty(),
        error_message: None,
    }
}

/// The inputs on which `step` owes the caller a new snapshot, whatever the
/// adapter reports: a session that can still advance, whose current node
/// the graph resolves, with every edge of that node pointing back into the
/// graph.
pub open spec fn step_promised(g: GraphModel, m: SessionModel) -> bool {
    &&& !state_terminal(m.state)
    &&& m.current_node_id matches Some(c) && has_node(g, c) && node_edges_closed(g, node_of(g, c))
}

/// The inputs on which `continue_run` owes the caller a new snapshot: a
/// session that can still advance, a current node the graph resolves, and a
/// graph all of whose edges point back into it.
pub open spec fn continue_promised(g: GraphModel, m: SessionModel) -> bool {
    &&& !state_terminal(m.state)
    &&& m.current_node_id matches Some(c) && has_node(g, c)
    &&& graph_closed(g)
}

/// The session-level failure message recorded by the divergence safeguard.
pub open spec fn spec_divergence_message() -> Seq<char> {
    "DivergenceDetected: node visit limit exceeded"@
}

/// The session-level failure message recorded by the divergence safeguard.
pub fn divergence_message() -> (r: String)
    ensures
        r@ == spec_divergence_message(),
{
    String::from_str("DivergenceDetected: node visit limit exceeded")
}

/// Begin a debug session: draw a fresh session id, stamp the current
/// time, and return the initial paused snapshot (see `spec_start`).  The
/// drawn id and clock reading cannot be pinned down; `start_session`
/// carries the exact contract for given values.
pub fn start(graph: &FlowGraph, breakpoints: Vec<String>) -> (r: Result<DebugSession, DebugError>)
    ensures
        r matches Ok(s) ==> wf(s@),
        match r {
            Ok(s) => exists|sid: Seq<char>, now: i64|
                #[trigger] spec_start(graph@, strs_view(breakpoints@), sid, now) == Ok::<
                    SessionModel,
                    ErrorModel,
                >(s@),
            Err(e) => exists|sid: Seq<char>, now: i64|
                #[trigger] spec_start(graph@, strs_view(breakpoints@), sid, now) == Err::<
                    SessionModel,
                    ErrorModel,
                >(e@),
        },
{
    let session_id = fresh_uuid();
    let now = unix_now_seconds();
    start_session(graph, breakpoints, session_id, now)
}

/// Execute exactly one node and pause, regardless of breakpoints.
///
/// The returned snapshot is `spec_apply` of the adapter's report — one
/// node executed, then paused before the next node, or completed/failed
/// at the end of the flow — or `spec_fail` of the adapter's fault, where
/// the adapter itself failed unexpectedly.  Fails with
/// `SessionTerminated` against a terminal session, and with
/// `UnknownNode` where the session or the taken edge points outside the
/// graph; the caller's snapshot is never mutated.
pub fn step<E: NodeExecutor>(graph: &FlowGraph, session: &DebugSession, executor: &mut E) -> (r:
    Result<DebugSession, DebugError>)
    ensures
        state_terminal(session@.state) <==> (r matches Err(e) && e@
            == ErrorModel::SessionTerminated),
        step_promised(graph@, session@) ==> r is Ok,
        match r {
            Ok(s2) => {
                &&& !state_terminal(session@.state)
                &&& (wf(session@) ==> wf(s2@))
                &&& ((exists|oc: OutcomeModel, t1: i64, t2: i64|
                    spec_apply(graph@, session@, oc, t1, t2) == Ok::<SessionModel, ErrorModel>(
                        s2@,
                    )) || (exists|msg: Seq<char>|
                    spec_fail(session@, msg) == Ok::<SessionModel, ErrorModel>(s2@)))
            },
            Err(e) => exists|oc: OutcomeModel, t1: i64, t2: i64|
                spec_apply(graph@, session@, oc, t1, t2) == Err::<SessionModel, ErrorModel>(e@),
        },
{
    if session.is_terminal() {
        proof {
            assert(spec_apply(graph@, session@, no_outcome(), 0, 0) == Err::<
                SessionModel,
                ErrorModel,
            >(ErrorModel::SessionTerminated));
        }
        return Err(DebugError::SessionTerminated);
    }
    let cur: String = match &session.current_node_id {
        Some(c) => c.clone(),
        None => {
            proof {
                assert(spec_apply(graph@, session@, no_outcome(), 0, 0) == Err::<
                    SessionModel,
                    ErrorModel,
                >(ErrorModel::MalformedSnapshot));
            }
            return Err(DebugError::MalformedSnapshot);
        },
    };
    let node: &FlowNode = match graph.resolve(cur.as_str()) {
        Ok(n) => n,
        Err(e) => {
            proof {
                assert(spec_apply(graph@, session@, no_outcome(), 0, 0) == Err::<
                    SessionModel,
                    ErrorModel,
                >(e@));
            }
            return Err(e);
        },
    };
    let started = executor.now();
    let outcome = match executor.execute(node, &session.global_variables) {
        Ok(oc) => oc,
        Err(message) => {
            let failed = match fail_step(session, message.as_str()) {
                Ok(x) => x,
                Err(_) => {
                    proof {
                        assert(false);
                    }
                    return Err(DebugError::MalformedSnapshot);
                },
            };
            return Ok(failed);
        },
    };
    let ended = executor.now();
    let r = apply_step(graph, session, &outcome, started, ended);
    proof {
        if r is Err && step_promised(graph@, session@) {
            lemma_next_target_closed(graph@, cur@, outcome@.outcome);
            assert(false);
        }
    }
    r
}

/// Resume execution until a breakpoint, the end of the flow, a failure, or
/// the visit cap.
///
/// Repeats single steps without pausing in between.  Before executing a
/// node it checks the breakpoint set: a breakpointed node never executes on
/// this call — the session pauses immediately before it with
/// `paused_at_breakpoint` set.  The one exception is resuming: when the
/// session is already paused at a breakpoint, that node runs first.  After
/// `max_visits` node executions in one call the divergence safeguard forces
/// the session to `Failed` with `spec_divergence_message` recorded, so a
/// cyclic flow cannot hang the caller; the contract bounds the replayed
/// steps by `max_visits` and ties the divergence failure to exactly that
/// many.  An adapter fault mid-run fails the session on the spot, as in
/// `spec_fail`.
pub fn continue_run<E: NodeExecutor>(
    graph: &FlowGraph,
    session: &DebugSession,
    executor: &mut E,
    max_visits: u64,
) -> (r: Result<DebugSession, DebugError>)
    ensures
        state_terminal(session@.state) <==> (r matches Err(e) && e@
            == ErrorModel::SessionTerminated),
        continue_promised(graph@, session@) ==> r is Ok,
        match r {
            Ok(s2) => {
                &&& !state_terminal(session@.state)
                &&& s2@.session_id == session@.session_id
                &&& s2@.breakpoints == session@.breakpoints
                &&& s2@.start_time == session@.start_time
                &&& (wf(session@) ==> wf(s2@))
                &&& (state_terminal(s2@.state) || (s2@.state == SessionState::Paused
                    && s2@.paused_at_breakpoint && (s2@.current_node_id matches Some(b)
                    && session@.breakpoints.contains(b))))
                &&& (forall|id: Seq<char>|
                    #[trigger] session@.breakpoints.contains(id) && !(
                    session@.paused_at_breakpoint && session@.current_node_id == Some(id))
                        ==> record_of_seq(s2@.node_executions, id) == record_of_seq(
                        session@.node_executions,
                        id,
                    ))
                &&& (s2@.error == session@.error || (s2@.state == SessionState::Failed
                    && s2@.error == Some(spec_divergence_message())))
                &&& (exists|steps: Seq<(OutcomeModel, i64, i64)>|
                    #[trigger] spec_run(graph@, session@, steps) matches Ok(mm) && steps.len()
                        <= max_visits && (s2@ == mm || s2@ == (SessionModel {
                        state: SessionState::Paused,
                        paused_at_breakpoint: true,
                        ..mm
                    }) || (steps.len() == max_visits && s2@ == (SessionModel {
                        state: SessionState::Failed,
                        error: Some(spec_divergence_message()),
                        ..mm
                    })) || (exists|msg: Seq<char>|
                        spec_fail(mm, msg) == Ok::<SessionModel, ErrorModel>(s2@))))
            },
            Err(e) => !continue_promised(graph@, session@),
        },
{
    if session.is_terminal() {
        return Err(DebugError::SessionTerminated);
    }
    let ghost promise = continue_promised(graph@, session@);
    let mut s = session.duplicate();
    let ghost mut steps = Seq::<(OutcomeModel, i64, i64)>::empty();
    let mut resume = s.paused_at_breakpoint;
    let mut visits: u64 = 0;
    loop
        invariant
            visits <= max_visits,
            steps.len() == visits,
            spec_run(graph@, session@, steps) == Ok::<SessionModel, ErrorModel>(s@),
            !state_terminal(session@.state),
            s@.session_id == session@.session_id,
            s@.breakpoints == session@.breakpoints,
            s@.start_time == session@.start_time,
            s@.error == session@.error,
            wf(session@) ==> wf(s@),
            resume ==> s@ == session@ && session@.paused_at_breakpoint,
            forall|id: Seq<char>|
                #[trigger] session@.breakpoints.contains(id) && !(session@.paused_at_breakpoint
                    && session@.current_node_id == Some(id)) ==> record_of_seq(
                    s@.node_executions,
                    id,
                ) == record_of_seq(session@.node_executions, id),
            promise == continue_promised(graph@, session@),
            promise ==> (s@.current_node_id matches Some(c) && has_node(graph@, c)),
        decreases max_visits - visits,
    {
        if s.is_terminal() {
            return Ok(s);
        }
        let cur: String = match &s.current_node_id {
            Some(c) => c.clone(),
            None => {
                proof {
                    if promise {
                        assert(false);
                    }
                }
                return Err(DebugError::MalformedSnapshot);
            },
        };
        if !resume && contains_string(&s.breakpoints, cur.as_str()) {
            let ghost pre = s@;
            s.state = SessionState::Paused;
            s.paused_at_breakpoint = true;
            proof {
                assert(session@.breakpoints.contains(cur@));
                assert(s@ =~~= (SessionModel {
                    state: SessionState::Paused,
                    paused_at_breakpoint: true,
                    ..pre
                }));
            }
            return Ok(s);
        }
        if visits >= max_visits {
            let ghost pre = s@;
            s.state = SessionState::Failed;
            s.error = Some(divergence_message());
            proof {
                assert(s@ =~~= (SessionModel {
                    state: SessionState::Failed,
                    error: Some(spec_divergence_message()),
                    ..pre
                }));
            }
            return Ok(s);
        }
        let node: &FlowNode = match graph.resolve(cur.as_str()) {
            Ok(n) => n,
            Err(e) => {
                proof {
                    if promise {
                        assert(false);
                    }
                }
                return Err(e);
            },
        };
        let started = executor.now();
        let outcome = match executor.execute(node, &s.global_variables) {
            Ok(oc) => oc,
            Err(message) => {
                let failed = match fail_step(&s, message.as_str()) {
                    Ok(x) => x,
                    Err(_) => {
                        proof {
                            assert(false);
                        }
                        return Err(DebugError::MalformedSnapshot);
                    },
                };
                proof {
                    assert forall|id: Seq<char>|
                        #[trigger] session@.breakpoints.contains(id) && !(
                        session@.paused_at_breakpoint && session@.current_node_id == Some(
                            id,
                        )) implies record_of_seq(failed@.node_executions, id) == record_of_seq(
                        session@.node_executions,
                        id,
                    ) by {
                        if id == cur@ {
                            if resume {
                                assert(session@.current_node_id == Some(id));
                                assert(false);
                            } else {
                                assert(!s@.breakpoints.contains(cur@));
                                assert(false);
                            }
                        } else {
                            lemma_fail_other_record(s@, message@, id);
                        }
                    }
                }
                return Ok(failed);
            },
        };
        let ended = executor.now();
        let s2 = match apply_step(graph, &s, &outcome, started, ended) {
            Ok(x) => x,
            Err(e) => {
                proof {
                    if promise {
                        lemma_graph_closed_node(graph@, cur@);
                        lemma_next_target_closed(graph@, cur@, outcome@.outcome);
                        assert(false);
                    }
                }
                return Err(e);
            },
        };
        proof {
            let stepped = spec_apply(graph@, s@, outcome@, started, ended);
            assert(stepped == Ok::<SessionModel, ErrorModel>(s2@));
            assert forall|id: Seq<char>|
                #[trigger] session@.breakpoints.contains(id) && !(session@.paused_at_breakpoint
                    && session@.current_node_id == Some(id)) implies record_of_seq(
                s2@.node_executions,
                id,
            ) == record_of_seq(session@.node_executions, id) by {
                if id == cur@ {
                    // the node we just executed: it is either not a
                    // breakpoint, or it is the node the session was already
                    // paused at — which the quantifier excludes
                    if resume {
                        assert(session@.current_node_id == Some(id));
                        assert(false);
                    } else {
                        assert(!s@.breakpoints.contains(cur@));
                        assert(false);
                    }
                } else {
                    lemma_apply_other_record(
                        graph@,
                        s@,
                        outcome@,
                        started,
                        ended,
                        id,
                    );
                }
            }
            if promise {
                lemma_graph_closed_node(graph@, cur@);
                lemma_next_target_closed(graph@, cur@, outcome@.outcome);
            }
            lemma_spec_run_snoc(graph@, session@, steps, (outcome@, started, ended));
            steps = steps.push((outcome@, started, ended));
            assert(spec_run(graph@, session@, steps) == Ok::<SessionModel, ErrorModel>(s2@));
        }
        s = s2;
        resume = false;
        visits = visits + 1;
    }
}

} // verus!
