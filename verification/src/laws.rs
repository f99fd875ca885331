use vstd::prelude::*;

use crate::errors::ErrorModel;
use crate::graph::node_of;
use crate::graph::GraphModel;
use crate::session::lemma_apply_other_record;
use crate::session::lemma_upsert_self;
use crate::session::record_of_seq;
use crate::session::spec_apply;
use crate::session::spec_start;
use crate::session::spec_stop;
use crate::session::status_of;
use crate::session::status_terminal;
use crate::session::NodeStatus;
use crate::session::OutcomeModel;
use crate::session::RecordModel;
use crate::session::SessionModel;
use crate::vars::has_key;
use crate::vars::lemma_merge_keeps_keys;

verus! {

/// Replaying a sequence of reported outcomes from a snapshot: `spec_apply`
/// folded over the steps, stopping at the first rejected call.
pub open spec fn spec_run(
    g: GraphModel,
    m: SessionModel,
    steps: Seq<(OutcomeModel, i64, i64)>,
) -> Result<SessionModel, ErrorModel>
    decreases steps.len(),
{
    if steps.len() == 0 {
        Ok(m)
    } else {
        match spec_apply(g, m, steps[0].0, steps[0].1, steps[0].2) {
            Ok(m2) => spec_run(g, m2, steps.drop_first()),
            Err(e) => Err(e),
        }
    }
}

/// Replaying one more reported outcome applies one more step.
pub proof fn lemma_spec_run_snoc(
    g: GraphModel,
    m: SessionModel,
    steps: Seq<(OutcomeModel, i64, i64)>,
    e: (OutcomeModel, i64, i64),
)
    ensures
        spec_run(g, m, steps.push(e)) == (match spec_run(g, m, steps) {
            Ok(mm) => spec_apply(g, mm, e.0, e.1, e.2),
            Err(err) => Err(err),
        }),
    decreases steps.len(),
{
    let p = steps.push(e);
    if steps.len() == 0 {
        assert(p[0] == e);
        assert(p.drop_first() =~= Seq::<(OutcomeModel, i64, i64)>::empty());
        match spec_apply(g, m, e.0, e.1, e.2) {
            Ok(m2) => {
                assert(spec_run(g, m, p) == spec_run(g, m2, p.drop_first()));
                assert(spec_run(g, m2, p.drop_first()) == Ok::<SessionModel, ErrorModel>(m2));
            },
            Err(_) => {},
        }
    } else {
        assert(p[0] == steps[0]);
        assert(p.drop_first() =~= steps.drop_first().push(e));
        match spec_apply(g, m, steps[0].0, steps[0].1, steps[0].2) {
            Ok(m2) => {
                lemma_spec_run_snoc(g, m2, steps.drop_first(), e);
                assert(spec_run(g, m, p) == spec_run(g, m2, p.drop_first()));
            },
            Err(_) => {},
        }
    }
}

/// Determinism of replay: every command is a pure function of the prior
/// snapshot and its inputs, so starting a session twice over equivalent
/// flows and replaying the same sequence of reported outcomes yields
/// identical snapshots at every point.
pub proof fn lemma_replay_deterministic(
    g1: GraphModel,
    g2: GraphModel,
    breakpoints1: Seq<Seq<char>>,
    breakpoints2: Seq<Seq<char>>,
    session_id1: Seq<char>,
    session_id2: Seq<char>,
    now1: i64,
    now2: i64,
    steps1: Seq<(OutcomeModel, i64, i64)>,
    steps2: Seq<(OutcomeModel, i64, i64)>,
)
    requires
        g1 == g2,
        breakpoints1 == breakpoints2,
        session_id1 == session_id2,
        now1 == now2,
        steps1 == steps2,
    ensures
        spec_start(g1, breakpoints1, session_id1, now1) == spec_start(
            g2,
            breakpoints2,
            session_id2,
            now2,
        ),
        spec_start(g1, breakpoints1, session_id1, now1) matches Ok(m) ==> spec_run(g1, m, steps1)
            == spec_run(g2, m, steps2),
{
}

/// Monotonic status: a single step moves the executed node to a terminal
/// status and leaves every other node's record — terminal or not — exactly
/// as it was.  In particular no node ever leaves a terminal status, except
/// that re-executing the same node in a cyclic flow refreshes its own
/// record with a new terminal status.
pub proof fn lemma_status_monotonic(
    g: GraphModel,
    m: SessionModel,
    oc: OutcomeModel,
    started: i64,
    ended: i64,
    id: Seq<char>,
)
    requires
        spec_apply(g, m, oc, started, ended) is Ok,
    ensures
        m.current_node_id == Some(id) ==> status_terminal(
            status_of(spec_apply(g, m, oc, started, ended)->Ok_0, id),
        ),
        (m.current_node_id matches Some(cur) && id != cur) ==> status_of(
            spec_apply(g, m, oc, started, ended)->Ok_0,
            id,
        ) == status_of(m, id),
{
    let m2 = spec_apply(g, m, oc, started, ended)->Ok_0;
    let cur = m.current_node_id->0;
    if m.current_node_id == Some(id) {
        let node = node_of(g, cur);
        let failed = oc.outcome == "error"@;
        let rec = RecordModel {
            node_id: cur,
            node_type: node.node_type,
            label: node.label,
            status: if failed {
                NodeStatus::Error
            } else {
                NodeStatus::Success
            },
            start_time: Some(started),
            end_time: Some(ended),
            output: if failed {
                None
            } else {
                oc.output
            },
            error: if failed {
                oc.error_message
            } else {
                None
            },
            variables: if failed {
                Seq::empty()
            } else {
                oc.bindings
            },
        };
        lemma_upsert_self(m.node_executions, rec);
        assert(record_of_seq(m2.node_executions, id) == Some(rec));
    } else if m.current_node_id is Some && id != cur {
        lemma_apply_other_record(g, m, oc, started, ended, id);
    }
}

/// Whether a sequence has no two equal neighboring entries.
pub open spec fn no_consecutive_dups(s: Seq<Seq<char>>) -> bool {
    forall|i: int| 0 <= i < s.len() - 1 ==> s[i] != #[trigger] s[i + 1]
}

/// Global variables only accumulate: no step removes a key from the
/// global scope.
pub proof fn lemma_globals_monotonic(
    g: GraphModel,
    m: SessionModel,
    oc: OutcomeModel,
    started: i64,
    ended: i64,
    key: Seq<char>,
)
    requires
        spec_apply(g, m, oc, started, ended) is Ok,
        has_key(m.global_variables, key),
    ensures
        has_key(spec_apply(g, m, oc, started, ended)->Ok_0.global_variables, key),
{
    if oc.outcome != "error"@ {
        lemma_merge_keeps_keys(m.global_variables, oc.bindings, key);
    }
}

/// The planned traversal never gains duplicate consecutive entries: a
/// node is appended to the execution order only when it is not already
/// its last entry.
pub proof fn lemma_order_no_consecutive_dups(
    g: GraphModel,
    m: SessionModel,
    oc: OutcomeModel,
    started: i64,
    ended: i64,
)
    requires
        spec_apply(g, m, oc, started, ended) is Ok,
        no_consecutive_dups(m.execution_order),
    ensures
        no_consecutive_dups(spec_apply(g, m, oc, started, ended)->Ok_0.execution_order),
{
    let m2 = spec_apply(g, m, oc, started, ended)->Ok_0;
    let before = m.execution_order;
    let after = m2.execution_order;
    if after != before {
        let cur = m.current_node_id->0;
        assert(after == before.push(cur));
        assert(before.len() == 0 || before.last() != cur);
        assert forall|i: int| 0 <= i < after.len() - 1 implies #[trigger] after[i] != after[i
            + 1] by {
            if i < before.len() - 1 {
                assert(before[i] != before[i + 1]);
            } else {
                assert(after[i] == before.last());
                assert(after[i + 1] == cur);
            }
        }
    }
}

/// Idempotent stop: stopping an already stopped session is a no-op, so
/// stopping twice produces the same stopped snapshot both times.
pub proof fn lemma_stop_idempotent(m: SessionModel)
    ensures
        spec_stop(spec_stop(m)) == spec_stop(m),
{
}

} // verus!
