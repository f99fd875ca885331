use skuldbot::codec::deserialize;
use skuldbot::codec::serialize;
use skuldbot::errors::DebugError;
use skuldbot::graph::EdgeDef;
use skuldbot::graph::FlowGraph;
use skuldbot::graph::FlowNode;
use skuldbot::run::continue_run;
use skuldbot::run::step;
use skuldbot::run::NodeExecutor;
use skuldbot::session::apply_step;
use skuldbot::session::get_variables;
use skuldbot::session::start_session;
use skuldbot::session::stop;
use skuldbot::session::DebugSession;
use skuldbot::session::NodeOutcome;
use skuldbot::session::NodeStatus;
use skuldbot::session::SessionState;
use skuldbot::value::Value;
use skuldbot::vars::VarMap;

struct ScriptExec {
    outcome: String,
    bindings: Vec<(String, i64)>,
    error_message: Option<String>,
    fault: Option<String>,
    calls: u32,
    clock: i64,
}

impl ScriptExec {
    fn success() -> ScriptExec {
        ScriptExec {
            outcome: "success".to_string(),
            bindings: Vec::new(),
            error_message: None,
            fault: None,
            calls: 0,
            clock: 0,
        }
    }

    fn failure(message: &str) -> ScriptExec {
        ScriptExec {
            outcome: "error".to_string(),
            bindings: Vec::new(),
            error_message: Some(message.to_string()),
            fault: None,
            calls: 0,
            clock: 0,
        }
    }

    fn crashing(message: &str) -> ScriptExec {
        let mut exec = ScriptExec::success();
        exec.fault = Some(message.to_string());
        exec
    }
}

impl NodeExecutor for ScriptExec {
    fn execute(&mut self, _node: &FlowNode, _globals: &VarMap) -> Result<NodeOutcome, String> {
        self.calls += 1;
        if let Some(fault) = &self.fault {
            return Err(fault.clone());
        }
        let mut bindings = VarMap::new();
        for (name, value) in &self.bindings {
            bindings.set(name.clone(), Value::Int(*value));
        }
        Ok(NodeOutcome {
            outcome: self.outcome.clone(),
            output: Some(Value::Str("done".to_string())),
            bindings,
            error_message: self.error_message.clone(),
        })
    }

    fn now(&mut self) -> i64 {
        self.clock += 1;
        self.clock
    }
}

fn node(id: &str, edges: Vec<(&str, Option<&str>)>) -> FlowNode {
    FlowNode {
        id: id.to_string(),
        node_type: "task".to_string(),
        label: id.to_string(),
        config: Value::Null,
        output_edges: edges
            .into_iter()
            .map(|(outcome, target)| EdgeDef {
                outcome: outcome.to_string(),
                target: target.map(|t| t.to_string()),
            })
            .collect(),
    }
}

fn linear_graph() -> FlowGraph {
    FlowGraph {
        nodes: vec![
            node("A", vec![("success", Some("B"))]),
            node("B", vec![]),
        ],
    }
}

fn started(graph: &FlowGraph, breakpoints: Vec<&str>) -> DebugSession {
    start_session(
        graph,
        breakpoints.into_iter().map(|b| b.to_string()).collect(),
        "session-1".to_string(),
        100,
    )
    .unwrap()
}

#[test]
fn start_pauses_at_entry() {
    let graph = linear_graph();
    let session = started(&graph, vec![]);
    assert_eq!(session.state, SessionState::Paused);
    assert_eq!(session.current_node_id, Some("A".to_string()));
    assert!(!session.paused_at_breakpoint);
    assert!(session.execution_order.is_empty());
    assert!(session.node_executions.is_empty());
}

#[test]
fn start_rejects_unknown_breakpoint() {
    let graph = linear_graph();
    let err = start_session(
        &graph,
        vec!["ghost".to_string()],
        "session-1".to_string(),
        100,
    )
    .unwrap_err();
    assert_eq!(err, DebugError::UnknownNode("ghost".to_string()));
}

#[test]
fn start_flags_breakpoint_on_entry_node() {
    let graph = linear_graph();
    let session = started(&graph, vec!["A"]);
    assert_eq!(session.state, SessionState::Paused);
    assert!(session.paused_at_breakpoint);
}

#[test]
fn two_steps_complete_a_linear_flow() {
    // graph A --success--> B --success--> (end), no breakpoints
    let graph = linear_graph();
    let session = started(&graph, vec![]);
    let mut exec = ScriptExec::success();
    let after_one = step(&graph, &session, &mut exec).unwrap();
    assert_eq!(after_one.state, SessionState::Paused);
    assert_eq!(after_one.current_node_id, Some("B".to_string()));
    let after_two = step(&graph, &after_one, &mut exec).unwrap();
    assert_eq!(after_two.state, SessionState::Completed);
    assert_eq!(
        after_two.execution_order,
        vec!["A".to_string(), "B".to_string()]
    );
    for record in &after_two.node_executions {
        assert_eq!(record.status, NodeStatus::Success);
    }
}

#[test]
fn continue_pauses_before_breakpoint() {
    // same graph, breakpoint on B
    let graph = linear_graph();
    let session = started(&graph, vec!["B"]);
    let mut exec = ScriptExec::success();
    let paused = continue_run(&graph, &session, &mut exec, 100).unwrap();
    assert_eq!(paused.state, SessionState::Paused);
    assert_eq!(paused.current_node_id, Some("B".to_string()));
    assert!(paused.paused_at_breakpoint);
    let record_a = paused
        .node_executions
        .iter()
        .find(|r| r.node_id == "A")
        .expect("A executed");
    assert_eq!(record_a.status, NodeStatus::Success);
    // B itself never ran on this call
    assert!(paused.node_executions.iter().all(|r| r.node_id != "B"));
    assert_eq!(exec.calls, 1);
}

#[test]
fn continue_resumes_past_breakpoint() {
    let graph = linear_graph();
    let session = started(&graph, vec!["B"]);
    let mut exec = ScriptExec::success();
    let paused = continue_run(&graph, &session, &mut exec, 100).unwrap();
    let finished = continue_run(&graph, &paused, &mut exec, 100).unwrap();
    assert_eq!(finished.state, SessionState::Completed);
    assert_eq!(exec.calls, 2);
}

#[test]
fn error_without_error_edge_fails_session() {
    // A --error--> (no edge)
    let graph = FlowGraph {
        nodes: vec![node("A", vec![])],
    };
    let session = started(&graph, vec![]);
    let mut exec = ScriptExec::failure("boom");
    let failed = step(&graph, &session, &mut exec).unwrap();
    assert_eq!(failed.state, SessionState::Failed);
    let record_a = &failed.node_executions[0];
    assert_eq!(record_a.node_id, "A");
    assert_eq!(record_a.status, NodeStatus::Error);
    assert_eq!(record_a.error, Some("boom".to_string()));
}

#[test]
fn error_edge_recovers_the_flow() {
    let graph = FlowGraph {
        nodes: vec![node("A", vec![("error", Some("B"))]), node("B", vec![])],
    };
    let session = started(&graph, vec![]);
    let mut exec = ScriptExec::failure("handled");
    let after = step(&graph, &session, &mut exec).unwrap();
    assert_eq!(after.state, SessionState::Paused);
    assert_eq!(after.current_node_id, Some("B".to_string()));
}

#[test]
fn divergence_guard_stops_cyclic_flow() {
    // cyclic graph A --success--> A with a visit cap of 3
    let graph = FlowGraph {
        nodes: vec![node("A", vec![("success", Some("A"))])],
    };
    let session = started(&graph, vec![]);
    let mut exec = ScriptExec::success();
    let failed = continue_run(&graph, &session, &mut exec, 3).unwrap();
    assert_eq!(failed.state, SessionState::Failed);
    assert_eq!(exec.calls, 3);
    assert_eq!(
        failed.error,
        Some("DivergenceDetected: node visit limit exceeded".to_string())
    );
}

#[test]
fn variables_empty_before_execution_and_bound_after() {
    let graph = linear_graph();
    let session = started(&graph, vec![]);
    let before = get_variables(&session, Some("A"));
    assert_eq!(before.len(), 0);
    let mut exec = ScriptExec::success();
    exec.bindings.push(("x".to_string(), 1));
    let after = step(&graph, &session, &mut exec).unwrap();
    let locals = get_variables(&after, Some("A"));
    assert_eq!(locals.get("x"), Some(&Value::Int(1)));
    assert_eq!(locals.len(), 1);
    let globals = get_variables(&after, None);
    assert_eq!(globals.get("x"), Some(&Value::Int(1)));
}

#[test]
fn step_rejects_terminated_session() {
    let graph = linear_graph();
    let session = started(&graph, vec![]);
    let stopped = stop(&session);
    let mut exec = ScriptExec::success();
    assert_eq!(
        step(&graph, &stopped, &mut exec).unwrap_err(),
        DebugError::SessionTerminated
    );
    assert_eq!(
        continue_run(&graph, &stopped, &mut exec, 10).unwrap_err(),
        DebugError::SessionTerminated
    );
}

#[test]
fn stop_is_idempotent() {
    let graph = linear_graph();
    let session = started(&graph, vec![]);
    let once = stop(&session);
    let twice = stop(&once);
    assert_eq!(once.state, SessionState::Stopped);
    assert_eq!(once, twice);
}

#[test]
fn replay_is_deterministic() {
    let graph = linear_graph();
    let run = || {
        let session = started(&graph, vec![]);
        let mut exec = ScriptExec::success();
        exec.bindings.push(("n".to_string(), 7));
        let s1 = step(&graph, &session, &mut exec).unwrap();
        step(&graph, &s1, &mut exec).unwrap()
    };
    assert_eq!(run(), run());
}

#[test]
fn dangling_edge_fails_the_call_not_the_session() {
    let graph = FlowGraph {
        nodes: vec![node("A", vec![("success", Some("missing"))])],
    };
    let session = started(&graph, vec![]);
    let mut exec = ScriptExec::success();
    let err = step(&graph, &session, &mut exec).unwrap_err();
    assert_eq!(err, DebugError::UnknownNode("missing".to_string()));
}

#[test]
fn apply_step_records_timestamps() {
    let graph = linear_graph();
    let session = started(&graph, vec![]);
    let outcome = NodeOutcome {
        outcome: "success".to_string(),
        output: None,
        bindings: VarMap::new(),
        error_message: None,
    };
    let after = apply_step(&graph, &session, &outcome, 5, 9).unwrap();
    let record = &after.node_executions[0];
    assert_eq!(record.start_time, Some(5));
    assert_eq!(record.end_time, Some(9));
    assert_eq!(record.node_type, "task");
}

#[test]
fn snapshot_round_trip_restores_the_session() {
    // build a session with every kind of content, then serialize and back
    let graph = linear_graph();
    let session = started(&graph, vec!["B"]);
    let mut exec = ScriptExec::success();
    exec.bindings.push(("x".to_string(), 42));
    let rich = continue_run(&graph, &session, &mut exec, 10).unwrap();
    let doc = serialize(&rich);
    let back = deserialize(&doc).unwrap();
    assert_eq!(back, rich);
}

#[test]
fn round_trip_of_terminal_and_failed_sessions() {
    let graph = FlowGraph {
        nodes: vec![node("A", vec![])],
    };
    let session = started(&graph, vec![]);
    let mut exec = ScriptExec::failure("bad input");
    let failed = step(&graph, &session, &mut exec).unwrap();
    assert_eq!(deserialize(&serialize(&failed)).unwrap(), failed);
    let stopped = stop(&session);
    assert_eq!(deserialize(&serialize(&stopped)).unwrap(), stopped);
}

#[test]
fn deserialize_rejects_malformed_documents() {
    assert_eq!(
        deserialize(&Value::Null).unwrap_err(),
        DebugError::MalformedSnapshot
    );
    assert_eq!(
        deserialize(&Value::Obj(vec![])).unwrap_err(),
        DebugError::MalformedSnapshot
    );
    // a valid document with one key renamed no longer decodes
    let graph = linear_graph();
    let session = started(&graph, vec![]);
    let doc = serialize(&session);
    if let Value::Obj(mut entries) = doc {
        entries[0].0 = "renamed".to_string();
        assert_eq!(
            deserialize(&Value::Obj(entries)).unwrap_err(),
            DebugError::MalformedSnapshot
        );
    } else {
        panic!("snapshot document is an object");
    }
}

#[test]
fn breakpoint_holds_in_a_cycle() {
    // A --success--> B --success--> A, breakpoint on B: every round of
    // continue executes A and pauses before B without ever running B
    let graph = FlowGraph {
        nodes: vec![
            node("A", vec![("success", Some("B"))]),
            node("B", vec![("success", Some("A"))]),
        ],
    };
    let session = started(&graph, vec!["B"]);
    let mut exec = ScriptExec::success();
    let paused = continue_run(&graph, &session, &mut exec, 100).unwrap();
    assert_eq!(paused.current_node_id, Some("B".to_string()));
    assert!(paused.paused_at_breakpoint);
    assert!(paused.node_executions.iter().all(|r| r.node_id != "B"));
    assert_eq!(exec.calls, 1);
    // resuming runs B once, then pauses before it again on the next lap
    let paused_again = continue_run(&graph, &paused, &mut exec, 100).unwrap();
    assert_eq!(paused_again.current_node_id, Some("B".to_string()));
    assert!(paused_again.paused_at_breakpoint);
    assert_eq!(exec.calls, 3);
}

#[test]
fn handwritten_snapshots_round_trip() {
    let session = DebugSession {
        session_id: "s-9".to_string(),
        state: SessionState::Running,
        current_node_id: None,
        breakpoints: vec!["X".to_string()],
        execution_order: vec!["X".to_string(), "Y".to_string(), "X".to_string()],
        node_executions: vec![skuldbot::session::NodeExecution {
            node_id: "X".to_string(),
            node_type: "task".to_string(),
            label: "X label".to_string(),
            status: NodeStatus::Skipped,
            start_time: None,
            end_time: Some(-3),
            output: Some(Value::Null),
            error: None,
            variables: VarMap::new(),
        }],
        global_variables: VarMap::new(),
        start_time: -1,
        paused_at_breakpoint: false,
        error: Some("note".to_string()),
    };
    assert_eq!(deserialize(&serialize(&session)).unwrap(), session);
}

#[test]
fn scripted_replay_honors_breakpoints() {
    // the library's own deterministic adapter: a recorded run replayed
    // without implementing the executor trait
    let graph = linear_graph();
    let session = started(&graph, vec!["B"]);
    let outcome = || {
        Ok(NodeOutcome {
            outcome: "success".to_string(),
            output: None,
            bindings: VarMap::new(),
            error_message: None,
        })
    };
    let mut exec = skuldbot::run::ScriptedExecutor::new(vec![outcome(), outcome()]);
    let paused = continue_run(&graph, &session, &mut exec, 100).unwrap();
    assert_eq!(paused.current_node_id, Some("B".to_string()));
    assert!(paused.paused_at_breakpoint);
    assert!(paused.node_executions.iter().all(|r| r.node_id != "B"));
    // one recorded outcome consumed for A; B never ran
    assert_eq!(exec.reports.len(), 1);
    // an exhausted recording is an adapter fault, failing the session
    let mut empty = skuldbot::run::ScriptedExecutor::new(Vec::new());
    let failed = continue_run(&graph, &paused, &mut empty, 100).unwrap();
    assert_eq!(failed.state, SessionState::Failed);
}

#[test]
fn adapter_crash_fails_the_session_despite_error_edges() {
    // the node declares an error edge, but an adapter fault is not a node
    // error outcome: the session fails on the spot instead of rerouting
    let graph = FlowGraph {
        nodes: vec![node("A", vec![("error", Some("B"))]), node("B", vec![])],
    };
    let session = started(&graph, vec![]);
    let mut exec = ScriptExec::crashing("engine exited with signal");
    let failed = step(&graph, &session, &mut exec).unwrap();
    assert_eq!(failed.state, SessionState::Failed);
    assert_eq!(failed.current_node_id, Some("A".to_string()));
    let record = &failed.node_executions[0];
    assert_eq!(record.node_id, "A");
    assert_eq!(record.status, NodeStatus::Error);
    assert_eq!(record.error, Some("engine exited with signal".to_string()));
}

#[test]
fn adapter_crash_fails_continue_too() {
    let graph = linear_graph();
    let session = started(&graph, vec![]);
    let mut exec = ScriptExec::crashing("engine unreachable");
    let failed = continue_run(&graph, &session, &mut exec, 100).unwrap();
    assert_eq!(failed.state, SessionState::Failed);
    assert_eq!(
        failed.node_executions[0].error,
        Some("engine unreachable".to_string())
    );
    // the session-level error field is reserved for the divergence guard
    assert_eq!(failed.error, None);
}

#[test]
fn entry_node_prefers_first_without_incoming_edges() {
    let graph = FlowGraph {
        nodes: vec![
            node("B", vec![]),
            node("A", vec![("success", Some("B"))]),
        ],
    };
    // B has an incoming edge from A, so A is the entry despite declaration order
    let session = started(&graph, vec![]);
    assert_eq!(session.current_node_id, Some("A".to_string()));
}

#[test]
fn fully_cyclic_graph_falls_back_to_first_node() {
    let graph = FlowGraph {
        nodes: vec![
            node("A", vec![("success", Some("B"))]),
            node("B", vec![("success", Some("A"))]),
        ],
    };
    let session = started(&graph, vec![]);
    assert_eq!(session.current_node_id, Some("A".to_string()));
}

#[test]
fn custom_outcome_follows_its_edge() {
    let graph = FlowGraph {
        nodes: vec![
            node("A", vec![("success", Some("B")), ("retry", Some("A"))]),
            node("B", vec![]),
        ],
    };
    let session = started(&graph, vec![]);
    let mut exec = ScriptExec::success();
    exec.outcome = "retry".to_string();
    let after = step(&graph, &session, &mut exec).unwrap();
    // a custom outcome is treated as a success and follows its own edge
    assert_eq!(after.current_node_id, Some("A".to_string()));
    assert_eq!(after.state, SessionState::Paused);
    assert_eq!(after.node_executions[0].status, NodeStatus::Success);
}
