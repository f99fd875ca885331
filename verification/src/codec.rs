use vstd::prelude::*;

use crate::errors::DebugError;
use crate::errors::ErrorModel;
use crate::session::records_view;
use crate::session::DebugSession;
use crate::session::NodeExecution;
use crate::session::NodeStatus;
use crate::session::RecordModel;
use crate::session::SessionModel;
use crate::session::SessionState;
use crate::util::dup_opt_string;
use crate::util::opt_str_view;
use crate::util::string_eq;
use crate::util::strs_view;
use crate::value::duplicate_opt;
use crate::value::entries_model;
use crate::value::lemma_entries_model;
use crate::value::lemma_values_model;
use crate::value::values_model;
use crate::value::opt_value_model;
use crate::value::value_model;
use crate::value::Value;
use crate::value::ValueModel;
use crate::vars::VarMap;
use vstd::string::StringExecFns;

verus! {

// ------------------------------------------------------------------
// The canonical snapshot document.
//
// A serialized session is one `Value` tree: an object with a fixed set of
// keys in a fixed order, so that every session has exactly one document and
// every document decodes back to exactly one session.  Optional strings and
// timestamps are `Null` when absent; an optional opaque value is wrapped in
// a list (empty or one-element), since the value itself may be `Null`.
// ------------------------------------------------------------------

/// The document name of a node status.
pub open spec fn encode_status(st: NodeStatus) -> Seq<char> {
    match st {
        NodeStatus::Pending => "pending"@,
        NodeStatus::Running => "running"@,
        NodeStatus::Success => "success"@,
        NodeStatus::Error => "error"@,
        NodeStatus::Skipped => "skipped"@,
    }
}

/// The document name of a session state.
pub open spec fn encode_state(st: SessionState) -> Seq<char> {
    match st {
        SessionState::Running => "running"@,
        SessionState::Paused => "paused"@,
        SessionState::Completed => "completed"@,
        SessionState::Failed => "failed"@,
        SessionState::Stopped => "stopped"@,
    }
}

/// An optional string: `Null` or the string itself.
pub open spec fn encode_opt_str(o: Option<Seq<char>>) -> ValueModel {
    match o {
        Some(s) => ValueModel::Str(s),
        None => ValueModel::Null,
    }
}

/// An optional timestamp: `Null` or the integer itself.
pub open spec fn encode_opt_i64(o: Option<i64>) -> ValueModel {
    match o {
        Some(i) => ValueModel::Int(i as int),
        None => ValueModel::Null,
    }
}

/// An optional opaque value, wrapped in a list so that `Null` stays
/// distinguishable from "absent".
pub open spec fn encode_opt_value(o: Option<ValueModel>) -> ValueModel {
    match o {
        Some(v) => ValueModel::List(seq![v]),
        None => ValueModel::List(Seq::empty()),
    }
}

/// A list of strings.
pub open spec fn encode_strs(s: Seq<Seq<char>>) -> ValueModel {
    ValueModel::List(Seq::new(s.len(), |i: int| ValueModel::Str(s[i])))
}

/// One node-execution record, as an object with fixed keys.
pub open spec fn encode_record(r: RecordModel) -> ValueModel {
    ValueModel::Obj(
        seq![
            ("node_id"@, ValueModel::Str(r.node_id)),
            ("node_type"@, ValueModel::Str(r.node_type)),
            ("label"@, ValueModel::Str(r.label)),
            ("status"@, ValueModel::Str(encode_status(r.status))),
            ("start_time"@, encode_opt_i64(r.start_time)),
            ("end_time"@, encode_opt_i64(r.end_time)),
            ("output"@, encode_opt_value(r.output)),
            ("error"@, encode_opt_str(r.error)),
            ("variables"@, ValueModel::Obj(r.variables)),
        ],
    )
}

/// The list of node-execution records.
pub open spec fn encode_records(rs: Seq<RecordModel>) -> ValueModel {
    ValueModel::List(Seq::new(rs.len(), |i: int| encode_record(rs[i])))
}

/// The whole session, as an object with fixed keys.
pub open spec fn spec_encode_session(m: SessionModel) -> ValueModel {
    ValueModel::Obj(
        seq![
            ("session_id"@, ValueModel::Str(m.session_id)),
            ("state"@, ValueModel::Str(encode_state(m.state))),
            ("current_node_id"@, encode_opt_str(m.current_node_id)),
            ("breakpoints"@, encode_strs(m.breakpoints)),
            ("execution_order"@, encode_strs(m.execution_order)),
            ("node_executions"@, encode_records(m.node_executions)),
            ("global_variables"@, ValueModel::Obj(m.global_variables)),
            ("start_time"@, ValueModel::Int(m.start_time as int)),
            ("paused_at_breakpoint"@, ValueModel::Bool(m.paused_at_breakpoint)),
            ("error"@, encode_opt_str(m.error)),
        ],
    )
}

/// What `deserialize` computes: the unique session a document encodes, if
/// it encodes one.
pub open spec fn spec_decode(v: ValueModel) -> Option<SessionModel> {
    if exists|m: SessionModel| v == spec_encode_session(m) {
        Some(choose|m: SessionModel| v == spec_encode_session(m))
    } else {
        None
    }
}

// ------------------------------------------------------------------
// Injectivity: distinct sessions have distinct documents.
// ------------------------------------------------------------------

/// Status names are distinct.
pub proof fn lemma_status_injective(a: NodeStatus, b: NodeStatus)
    requires
        encode_status(a) == encode_status(b),
    ensures
        a == b,
{
    reveal_strlit("pending");
    reveal_strlit("running");
    reveal_strlit("success");
    reveal_strlit("error");
    reveal_strlit("skipped");
    assert("pending"@.len() == 7);
    assert("running"@.len() == 7);
    assert("success"@.len() == 7);
    assert("error"@.len() == 5);
    assert("skipped"@.len() == 7);
    assert("pending"@[0] == 'p');
    assert("running"@[0] == 'r');
    assert("success"@[0] == 's');
    assert("skipped"@[0] == 's');
    assert("success"@[1] == 'u');
    assert("skipped"@[1] == 'k');
}

/// State names are distinct.
pub proof fn lemma_state_injective(a: SessionState, b: SessionState)
    requires
        encode_state(a) == encode_state(b),
    ensures
        a == b,
{
    reveal_strlit("running");
    reveal_strlit("paused");
    reveal_strlit("completed");
    reveal_strlit("failed");
    reveal_strlit("stopped");
    assert("running"@.len() == 7);
    assert("paused"@.len() == 6);
    assert("completed"@.len() == 9);
    assert("failed"@.len() == 6);
    assert("stopped"@.len() == 7);
    assert("running"@[0] == 'r');
    assert("stopped"@[0] == 's');
    assert("paused"@[0] == 'p');
    assert("failed"@[0] == 'f');
}

/// String lists decode uniquely.
pub proof fn lemma_strs_injective(a: Seq<Seq<char>>, b: Seq<Seq<char>>)
    requires
        encode_strs(a) == encode_strs(b),
    ensures
        a == b,
{
    let ea = Seq::new(a.len(), |i: int| ValueModel::Str(a[i]));
    let eb = Seq::new(b.len(), |i: int| ValueModel::Str(b[i]));
    assert(ea == eb);
    assert(a.len() == b.len());
    assert forall|i: int| 0 <= i < a.len() implies a[i] == b[i] by {
        assert(ea[i] == eb[i]);
    }
    assert(a =~= b);
}

/// Records encode uniquely.
pub proof fn lemma_record_injective(a: RecordModel, b: RecordModel)
    requires
        encode_record(a) == encode_record(b),
    ensures
        a == b,
{
    let ea = encode_record(a)->Obj_0;
    let eb = encode_record(b)->Obj_0;
    assert(ea == eb);
    assert(ea[3] == eb[3]);
    lemma_status_injective(a.status, b.status);
    assert(ea[6] == eb[6]);
    match (a.output, b.output) {
        (Some(x), Some(y)) => {
            assert(seq![x] == seq![y]);
            assert(seq![x][0] == seq![y][0]);
        },
        (Some(x), None) => {
            assert(seq![x].len() == Seq::<ValueModel>::empty().len());
            assert(false);
        },
        (None, Some(y)) => {
            assert(seq![y].len() == Seq::<ValueModel>::empty().len());
            assert(false);
        },
        (None, None) => {},
    }
    assert(ea[0] == eb[0]);
    assert(ea[1] == eb[1]);
    assert(ea[2] == eb[2]);
    assert(ea[4] == eb[4]);
    assert(ea[5] == eb[5]);
    assert(ea[7] == eb[7]);
    assert(ea[8] == eb[8]);
}

/// Record lists encode uniquely.
pub proof fn lemma_records_injective(a: Seq<RecordModel>, b: Seq<RecordModel>)
    requires
        encode_records(a) == encode_records(b),
    ensures
        a == b,
{
    let ea = Seq::new(a.len(), |i: int| encode_record(a[i]));
    let eb = Seq::new(b.len(), |i: int| encode_record(b[i]));
    assert(ea == eb);
    assert(a.len() == b.len());
    assert forall|i: int| 0 <= i < a.len() implies a[i] == b[i] by {
        assert(ea[i] == eb[i]);
        lemma_record_injective(a[i], b[i]);
    }
    assert(a =~= b);
}

/// Serialization is injective: two sessions with the same document are the
/// same session.
pub proof fn lemma_encode_injective(m1: SessionModel, m2: SessionModel)
    requires
        spec_encode_session(m1) == spec_encode_session(m2),
    ensures
        m1 == m2,
{
    let e1 = spec_encode_session(m1)->Obj_0;
    let e2 = spec_encode_session(m2)->Obj_0;
    assert(e1 == e2);
    assert(e1[0] == e2[0]);
    assert(e1[1] == e2[1]);
    lemma_state_injective(m1.state, m2.state);
    assert(e1[2] == e2[2]);
    assert(e1[3] == e2[3]);
    lemma_strs_injective(m1.breakpoints, m2.breakpoints);
    assert(e1[4] == e2[4]);
    lemma_strs_injective(m1.execution_order, m2.execution_order);
    assert(e1[5] == e2[5]);
    lemma_records_injective(m1.node_executions, m2.node_executions);
    assert(e1[6] == e2[6]);
    assert(e1[7] == e2[7]);
    assert(e1[8] == e2[8]);
    assert(e1[9] == e2[9]);
}

/// Round trip: decoding the document of any session yields that session.
pub proof fn lemma_round_trip(m: SessionModel)
    ensures
        spec_decode(spec_encode_session(m)) == Some(m),
{
    let v = spec_encode_session(m);
    assert(v == spec_encode_session(m));
    let m2 = choose|m2: SessionModel| v == spec_encode_session(m2);
    lemma_encode_injective(m, m2);
}

// ------------------------------------------------------------------
// Serialization.
// ------------------------------------------------------------------

/// The document name of a node status, as a fresh string.
fn status_name(st: NodeStatus) -> (r: String)
    ensures
        r@ == encode_status(st),
{
    match st {
        NodeStatus::Pending => String::from_str("pending"),
        NodeStatus::Running => String::from_str("running"),
        NodeStatus::Success => String::from_str("success"),
        NodeStatus::Error => String::from_str("error"),
        NodeStatus::Skipped => String::from_str("skipped"),
    }
}

/// The document name of a session state, as a fresh string.
fn state_name(st: SessionState) -> (r: String)
    ensures
        r@ == encode_state(st),
{
    match st {
        SessionState::Running => String::from_str("running"),
        SessionState::Paused => String::from_str("paused"),
        SessionState::Completed => String::from_str("completed"),
        SessionState::Failed => String::from_str("failed"),
        SessionState::Stopped => String::from_str("stopped"),
    }
}

/// Encode an optional string.
fn opt_str_value(o: &Option<String>) -> (r: Value)
    ensures
        r@ == encode_opt_str(opt_str_view(*o)),
{
    match o {
        Some(s) => Value::Str(s.clone()),
        None => Value::Null,
    }
}

/// Encode an optional timestamp.
fn opt_i64_value(o: &Option<i64>) -> (r: Value)
    ensures
        r@ == encode_opt_i64(*o),
{
    match o {
        Some(i) => Value::Int(*i),
        None => Value::Null,
    }
}

/// Encode an optional opaque value.
fn opt_value_value(o: &Option<Value>) -> (r: Value)
    ensures
        r@ == encode_opt_value(opt_value_model(*o)),
{
    match o {
        Some(v) => {
            let mut items: Vec<Value> = Vec::new();
            items.push(v.duplicate());
            let r = Value::List(items);
            proof {
                lemma_values_model(items@);
                assert(values_model(items@) =~= seq![value_model(*v)]);
            }
            r
        },
        None => {
            let items: Vec<Value> = Vec::new();
            let r = Value::List(items);
            proof {
                lemma_values_model(items@);
                assert(values_model(items@) =~= Seq::<ValueModel>::empty());
            }
            r
        },
    }
}

/// Encode a list of strings.
fn strs_value(v: &Vec<String>) -> (r: Value)
    ensures
        r@ == encode_strs(strs_view(v@)),
{
    let n = v.len();
    let mut items: Vec<Value> = Vec::new();
    let mut i: usize = 0;
    while i < n
        invariant
            i <= n,
            n == v@.len(),
            items@.len() == i,
            forall|j: int| 0 <= j < i ==> items@[j]@ == ValueModel::Str(v@[j]@),
        decreases n - i,
    {
        items.push(Value::Str(v[i].clone()));
        i = i + 1;
    }
    let r = Value::List(items);
    proof {
        lemma_values_model(items@);
        assert(values_model(items@) =~= Seq::new(
            strs_view(v@).len(),
            |j: int| ValueModel::Str(strs_view(v@)[j]),
        ));
    }
    r
}

/// Encode a variable map.
fn vars_value(vm: &VarMap) -> (r: Value)
    ensures
        r@ == ValueModel::Obj(vm@),
{
    let copy = vm.duplicate();
    let r = Value::Obj(copy.entries);
    proof {
        assert(r@ == ValueModel::Obj(entries_model(copy.entries@)));
    }
    r
}

/// Encode one node-execution record.
fn record_value(rec: &NodeExecution) -> (r: Value)
    ensures
        r@ == encode_record(rec@),
{
    let mut entries: Vec<(String, Value)> = Vec::new();
    entries.push((String::from_str("node_id"), Value::Str(rec.node_id.clone())));
    entries.push((String::from_str("node_type"), Value::Str(rec.node_type.clone())));
    entries.push((String::from_str("label"), Value::Str(rec.label.clone())));
    entries.push((String::from_str("status"), Value::Str(status_name(rec.status))));
    entries.push((String::from_str("start_time"), opt_i64_value(&rec.start_time)));
    entries.push((String::from_str("end_time"), opt_i64_value(&rec.end_time)));
    entries.push((String::from_str("output"), opt_value_value(&rec.output)));
    entries.push((String::from_str("error"), opt_str_value(&rec.error)));
    entries.push((String::from_str("variables"), vars_value(&rec.variables)));
    let r = Value::Obj(entries);
    proof {
        lemma_entries_model(entries@);
        assert(r@ matches ValueModel::Obj(s) && s =~~= encode_record(rec@)->Obj_0);
    }
    r
}

/// Encode the list of node-execution records.
fn records_value(v: &Vec<NodeExecution>) -> (r: Value)
    ensures
        r@ == encode_records(records_view(v@)),
{
    let n = v.len();
    let mut items: Vec<Value> = Vec::new();
    let mut i: usize = 0;
    while i < n
        invariant
            i <= n,
            n == v@.len(),
            items@.len() == i,
            forall|j: int| 0 <= j < i ==> items@[j]@ == encode_record(v@[j]@),
        decreases n - i,
    {
        items.push(record_value(&v[i]));
        i = i + 1;
    }
    let r = Value::List(items);
    proof {
        lemma_values_model(items@);
        assert(values_model(items@) =~= Seq::new(
            records_view(v@).len(),
            |j: int| encode_record(records_view(v@)[j]),
        ));
    }
    r
}

/// Serialize a session into its canonical snapshot document.
///
/// The result is a self-contained tree of plain values, suitable for
/// storage or transport; `deserialize` restores exactly this session from
/// it.
pub fn serialize(session: &DebugSession) -> (r: Value)
    ensures
        r@ == spec_encode_session(session@),
{
    let mut entries: Vec<(String, Value)> = Vec::new();
    entries.push((String::from_str("session_id"), Value::Str(session.session_id.clone())));
    entries.push((String::from_str("state"), Value::Str(state_name(session.state))));
    entries.push((String::from_str("current_node_id"), opt_str_value(&session.current_node_id)));
    entries.push((String::from_str("breakpoints"), strs_value(&session.breakpoints)));
    entries.push((String::from_str("execution_order"), strs_value(&session.execution_order)));
    entries.push((String::from_str("node_executions"), records_value(&session.node_executions)));
    entries.push((String::from_str("global_variables"), vars_value(&session.global_variables)));
    entries.push((String::from_str("start_time"), Value::Int(session.start_time)));
    entries.push((
        String::from_str("paused_at_breakpoint"),
        Value::Bool(session.paused_at_breakpoint),
    ));
    entries.push((String::from_str("error"), opt_str_value(&session.error)));
    let r = Value::Obj(entries);
    proof {
        lemma_entries_model(entries@);
        assert(r@ matches ValueModel::Obj(s) && s =~~= spec_encode_session(session@)->Obj_0);
    }
    r
}

// ------------------------------------------------------------------
// Deserialization.
//
// Decoding is strict: a document decodes successfully exactly when it is
// the canonical encoding of some session, and then to that session alone.
// ------------------------------------------------------------------

/// Decode a string slot.
fn decode_str(v: &Value) -> (r: Result<String, DebugError>)
    ensures
        match r {
            Ok(s) => v@ == ValueModel::Str(s@),
            Err(e) => e@ == ErrorModel::MalformedSnapshot && !(v@ is Str),
        },
{
    match v {
        Value::Str(s) => Ok(s.clone()),
        _ => Err(DebugError::MalformedSnapshot),
    }
}

/// Decode an integer slot.
fn decode_i64(v: &Value) -> (r: Result<i64, DebugError>)
    ensures
        match r {
            Ok(i) => v@ == ValueModel::Int(i as int),
            Err(e) => e@ == ErrorModel::MalformedSnapshot && !(v@ is Int),
        },
{
    match v {
        Value::Int(i) => Ok(*i),
        _ => Err(DebugError::MalformedSnapshot),
    }
}

/// Decode a boolean slot.
fn decode_bool(v: &Value) -> (r: Result<bool, DebugError>)
    ensures
        match r {
            Ok(b) => v@ == ValueModel::Bool(b),
            Err(e) => e@ == ErrorModel::MalformedSnapshot && !(v@ is Bool),
        },
{
    match v {
        Value::Bool(b) => Ok(*b),
        _ => Err(DebugError::MalformedSnapshot),
    }
}

/// Decode an optional string slot.
fn decode_opt_str(v: &Value) -> (r: Result<Option<String>, DebugError>)
    ensures
        match r {
            Ok(o) => v@ == encode_opt_str(opt_str_view(o)),
            Err(e) => e@ == ErrorModel::MalformedSnapshot && !(v@ is Str) && !(v@ is Null),
        },
{
    match v {
        Value::Null => Ok(None),
        Value::Str(s) => Ok(Some(s.clone())),
        _ => Err(DebugError::MalformedSnapshot),
    }
}

/// Decode an optional timestamp slot.
fn decode_opt_i64(v: &Value) -> (r: Result<Option<i64>, DebugError>)
    ensures
        match r {
            Ok(o) => v@ == encode_opt_i64(o),
            Err(e) => e@ == ErrorModel::MalformedSnapshot && !(v@ is Int) && !(v@ is Null),
        },
{
    match v {
        Value::Null => Ok(None),
        Value::Int(i) => Ok(Some(*i)),
        _ => Err(DebugError::MalformedSnapshot),
    }
}

/// Decode an optional opaque-value slot.
fn decode_opt_value(v: &Value) -> (r: Result<Option<Value>, DebugError>)
    ensures
        match r {
            Ok(o) => v@ == encode_opt_value(opt_value_model(o)),
            Err(e) => e@ == ErrorModel::MalformedSnapshot && (forall|o: Option<ValueModel>|
                v@ != encode_opt_value(o)),
        },
{
    match v {
        Value::List(items) => {
            if items.len() == 0 {
                proof {
                    lemma_values_model(items@);
                    assert(values_model(items@) =~= Seq::<ValueModel>::empty());
                }
                Ok(None)
            } else if items.len() == 1 {
                let out = Some(items[0].duplicate());
                proof {
                    lemma_values_model(items@);
                    assert(values_model(items@) =~= seq![value_model(items@[0])]);
                }
                Ok(out)
            } else {
                proof {
                    lemma_values_model(items@);
                    assert forall|o: Option<ValueModel>| v@ != encode_opt_value(o) by {
                        if v@ == encode_opt_value(o) {
                            match o {
                                Some(x) => {
                                    assert(values_model(items@) == seq![x]);
                                    assert(values_model(items@).len() == 1);
                                },
                                None => {
                                    assert(values_model(items@).len() == 0);
                                },
                            }
                            assert(false);
                        }
                    }
                }
                Err(DebugError::MalformedSnapshot)
            }
        },
        _ => {
            proof {
                assert forall|o: Option<ValueModel>| v@ != encode_opt_value(o) by {
                    if v@ == encode_opt_value(o) {
                        assert(v@ is List);
                        assert(false);
                    }
                }
            }
            Err(DebugError::MalformedSnapshot)
        },
    }
}

/// Decode a list-of-strings slot.
fn decode_strs(v: &Value) -> (r: Result<Vec<String>, DebugError>)
    ensures
        match r {
            Ok(out) => v@ == encode_strs(strs_view(out@)),
            Err(e) => e@ == ErrorModel::MalformedSnapshot && (forall|s: Seq<Seq<char>>|
                v@ != encode_strs(s)),
        },
{
    match v {
        Value::List(items) => {
            let n = items.len();
            let mut out: Vec<String> = Vec::new();
            let mut i: usize = 0;
            while i < n
                invariant
                    i <= n,
                    n == items@.len(),
                    v@ == ValueModel::List(values_model(items@)),
                    out@.len() == i,
                    forall|j: int| 0 <= j < i ==> value_model(items@[j]) == ValueModel::Str(
                        out@[j]@,
                    ),
                decreases n - i,
            {
                match &items[i] {
                    Value::Str(s) => {
                        out.push(s.clone());
                    },
                    _ => {
                        proof {
                            lemma_values_model(items@);
                            assert forall|s: Seq<Seq<char>>| v@ != encode_strs(s) by {
                                if v@ == encode_strs(s) {
                                    assert(values_model(items@) == Seq::new(
                                        s.len(),
                                        |j: int| ValueModel::Str(s[j]),
                                    ));
                                    assert(values_model(items@)[i as int] == ValueModel::Str(
                                        s[i as int],
                                    ));
                                    assert(value_model(items@[i as int]) is Str);
                                    assert(false);
                                }
                            }
                        }
                        return Err(DebugError::MalformedSnapshot);
                    },
                }
                i = i + 1;
            }
            proof {
                lemma_values_model(items@);
                assert(values_model(items@) =~= Seq::new(
                    strs_view(out@).len(),
                    |j: int| ValueModel::Str(strs_view(out@)[j]),
                ));
            }
            Ok(out)
        },
        _ => {
            proof {
                assert forall|s: Seq<Seq<char>>| v@ != encode_strs(s) by {
                    if v@ == encode_strs(s) {
                        assert(v@ is List);
                        assert(false);
                    }
                }
            }
            Err(DebugError::MalformedSnapshot)
        },
    }
}

/// Decode a variable-map slot.
fn decode_vars(v: &Value) -> (r: Result<VarMap, DebugError>)
    ensures
        match r {
            Ok(vm) => v@ == ValueModel::Obj(vm@),
            Err(e) => e@ == ErrorModel::MalformedSnapshot && !(v@ is Obj),
        },
{
    match v {
        Value::Obj(entries) => {
            let n = entries.len();
            let mut out: Vec<(String, Value)> = Vec::new();
            let mut i: usize = 0;
            while i < n
                invariant
                    i <= n,
                    n == entries@.len(),
                    out@.len() == i,
                    forall|j: int| 0 <= j < i ==> out@[j].0@ == entries@[j].0@ && value_model(
                        out@[j].1,
                    ) == value_model(entries@[j].1),
                decreases n - i,
            {
                let key = entries[i].0.clone();
                let val = entries[i].1.duplicate();
                out.push((key, val));
                i = i + 1;
            }
            proof {
                lemma_entries_model(out@);
                lemma_entries_model(entries@);
                assert(entries_model(out@) =~= entries_model(entries@));
            }
            Ok(VarMap { entries: out })
        },
        _ => Err(DebugError::MalformedSnapshot),
    }
}

/// Decode a node-status slot.
fn decode_status(v: &Value) -> (r: Result<NodeStatus, DebugError>)
    ensures
        match r {
            Ok(st) => v@ == ValueModel::Str(encode_status(st)),
            Err(e) => e@ == ErrorModel::MalformedSnapshot && (forall|st: NodeStatus|
                v@ != ValueModel::Str(encode_status(st))),
        },
{
    match v {
        Value::Str(s) => {
            if string_eq(s, "pending") {
                Ok(NodeStatus::Pending)
            } else if string_eq(s, "running") {
                Ok(NodeStatus::Running)
            } else if string_eq(s, "success") {
                Ok(NodeStatus::Success)
            } else if string_eq(s, "error") {
                Ok(NodeStatus::Error)
            } else if string_eq(s, "skipped") {
                Ok(NodeStatus::Skipped)
            } else {
                proof {
                    assert forall|st: NodeStatus| v@ != ValueModel::Str(encode_status(st)) by {
                        if v@ == ValueModel::Str(encode_status(st)) {
                            assert(s@ == encode_status(st));
                            assert(false);
                        }
                    }
                }
                Err(DebugError::MalformedSnapshot)
            }
        },
        _ => {
            proof {
                assert forall|st: NodeStatus| v@ != ValueModel::Str(encode_status(st)) by {
                    if v@ == ValueModel::Str(encode_status(st)) {
                        assert(v@ is Str);
                        assert(false);
                    }
                }
            }
            Err(DebugError::MalformedSnapshot)
        },
    }
}

/// Decode a session-state slot.
fn decode_state(v: &Value) -> (r: Result<SessionState, DebugError>)
    ensures
        match r {
            Ok(st) => v@ == ValueModel::Str(encode_state(st)),
            Err(e) => e@ == ErrorModel::MalformedSnapshot && (forall|st: SessionState|
                v@ != ValueModel::Str(encode_state(st))),
        },
{
    match v {
        Value::Str(s) => {
            if string_eq(s, "running") {
                Ok(SessionState::Running)
            } else if string_eq(s, "paused") {
                Ok(SessionState::Paused)
            } else if string_eq(s, "completed") {
                Ok(SessionState::Completed)
            } else if string_eq(s, "failed") {
                Ok(SessionState::Failed)
            } else if string_eq(s, "stopped") {
                Ok(SessionState::Stopped)
            } else {
                proof {
                    assert forall|st: SessionState| v@ != ValueModel::Str(encode_state(st)) by {
                        if v@ == ValueModel::Str(encode_state(st)) {
                            assert(s@ == encode_state(st));
                            assert(false);
                        }
                    }
                }
                Err(DebugError::MalformedSnapshot)
            }
        },
        _ => {
            proof {
                assert forall|st: SessionState| v@ != ValueModel::Str(encode_state(st)) by {
                    if v@ == ValueModel::Str(encode_state(st)) {
                        assert(v@ is Str);
                        assert(false);
                    }
                }
            }
            Err(DebugError::MalformedSnapshot)
        },
    }
}

/// Decode one node-execution record.
fn decode_record(v: &Value) -> (r: Result<NodeExecution, DebugError>)
    ensures
        match r {
            Ok(rec) => v@ == encode_record(rec@),
            Err(e) => e@ == ErrorModel::MalformedSnapshot && (forall|rm: RecordModel|
                v@ != encode_record(rm)),
        },
{
    let entries: &Vec<(String, Value)> = match v {
        Value::Obj(entries) => entries,
        _ => {
            proof {
                assert forall|rm: RecordModel| v@ != encode_record(rm) by {
                    if v@ == encode_record(rm) {
                        assert(v@ is Obj);
                        assert(false);
                    }
                }
            }
            return Err(DebugError::MalformedSnapshot);
        },
    };
    proof {
        lemma_entries_model(entries@);
    }
    let ghost em = entries_model(entries@);
    if entries.len() != 9 {
        proof {
            assert forall|rm: RecordModel| v@ != encode_record(rm) by {
                if v@ == encode_record(rm) {
                    assert(em == encode_record(rm)->Obj_0);
                    assert(em.len() == 9);
                    assert(false);
                }
            }
        }
        return Err(DebugError::MalformedSnapshot);
    }
    let f0 = &entries[0];
    if !string_eq(&f0.0, "node_id") {
        proof {
            assert forall|rm: RecordModel| v@ != encode_record(rm) by {
                if v@ == encode_record(rm) {
                    assert(em[0].0 == "node_id"@);
                    assert(false);
                }
            }
        }
        return Err(DebugError::MalformedSnapshot);
    }
    let node_id = match decode_str(&f0.1) {
        Ok(x) => x,
        Err(_) => {
            proof {
                assert forall|rm: RecordModel| v@ != encode_record(rm) by {
                    if v@ == encode_record(rm) {
                        assert(em[0].1 == ValueModel::Str(rm.node_id));
                        assert(false);
                    }
                }
            }
            return Err(DebugError::MalformedSnapshot);
        },
    };
    let f1 = &entries[1];
    if !string_eq(&f1.0, "node_type") {
        proof {
            assert forall|rm: RecordModel| v@ != encode_record(rm) by {
                if v@ == encode_record(rm) {
                    assert(em[1].0 == "node_type"@);
                    assert(false);
                }
            }
        }
        return Err(DebugError::MalformedSnapshot);
    }
    let node_type = match decode_str(&f1.1) {
        Ok(x) => x,
        Err(_) => {
            proof {
                assert forall|rm: RecordModel| v@ != encode_record(rm) by {
                    if v@ == encode_record(rm) {
                        assert(em[1].1 == ValueModel::Str(rm.node_type));
                        assert(false);
                    }
                }
            }
            return Err(DebugError::MalformedSnapshot);
        },
    };
    let f2 = &entries[2];
    if !string_eq(&f2.0, "label") {
        proof {
            assert forall|rm: RecordModel| v@ != encode_record(rm) by {
                if v@ == encode_record(rm) {
                    assert(em[2].0 == "label"@);
                    assert(false);
                }
            }
        }
        return Err(DebugError::MalformedSnapshot);
    }
    let label = match decode_str(&f2.1) {
        Ok(x) => x,
        Err(_) => {
            proof {
                assert forall|rm: RecordModel| v@ != encode_record(rm) by {
                    if v@ == encode_record(rm) {
                        assert(em[2].1 == ValueModel::Str(rm.label));
                        assert(false);
                    }
                }
            }
            return Err(DebugError::MalformedSnapshot);
        },
    };
    let f3 = &entries[3];
    if !string_eq(&f3.0, "status") {
        proof {
            assert forall|rm: RecordModel| v@ != encode_record(rm) by {
                if v@ == encode_record(rm) {
                    assert(em[3].0 == "status"@);
                    assert(false);
                }
            }
        }
        return Err(DebugError::MalformedSnapshot);
    }
    let status = match decode_status(&f3.1) {
        Ok(x) => x,
        Err(_) => {
            proof {
                assert forall|rm: RecordModel| v@ != encode_record(rm) by {
                    if v@ == encode_record(rm) {
                        assert(em[3].1 == ValueModel::Str(encode_status(rm.status)));
                        assert(false);
                    }
                }
            }
            return Err(DebugError::MalformedSnapshot);
        },
    };
    let f4 = &entries[4];
    if !string_eq(&f4.0, "start_time") {
        proof {
            assert forall|rm: RecordModel| v@ != encode_record(rm) by {
                if v@ == encode_record(rm) {
                    assert(em[4].0 == "start_time"@);
                    assert(false);
                }
            }
        }
        return Err(DebugError::MalformedSnapshot);
    }
    let start_time = match decode_opt_i64(&f4.1) {
        Ok(x) => x,
        Err(_) => {
            proof {
                assert forall|rm: RecordModel| v@ != encode_record(rm) by {
                    if v@ == encode_record(rm) {
                        assert(em[4].1 == encode_opt_i64(rm.start_time));
                        assert(false);
                    }
                }
            }
            return Err(DebugError::MalformedSnapshot);
        },
    };
    let f5 = &entries[5];
    if !string_eq(&f5.0, "end_time") {
        proof {
            assert forall|rm: RecordModel| v@ != encode_record(rm) by {
                if v@ == encode_record(rm) {
                    assert(em[5].0 == "end_time"@);
                    assert(false);
                }
            }
        }
        return Err(DebugError::MalformedSnapshot);
    }
    let end_time = match decode_opt_i64(&f5.1) {
        Ok(x) => x,
        Err(_) => {
            proof {
                assert forall|rm: RecordModel| v@ != encode_record(rm) by {
                    if v@ == encode_record(rm) {
                        assert(em[5].1 == encode_opt_i64(rm.end_time));
                        assert(false);
                    }
                }
            }
            return Err(DebugError::MalformedSnapshot);
        },
    };
    let f6 = &entries[6];
    if !string_eq(&f6.0, "output") {
        proof {
            assert forall|rm: RecordModel| v@ != encode_record(rm) by {
                if v@ == encode_record(rm) {
                    assert(em[6].0 == "output"@);
                    assert(false);
                }
            }
        }
        return Err(DebugError::MalformedSnapshot);
    }
    let output = match decode_opt_value(&f6.1) {
        Ok(x) => x,
        Err(_) => {
            proof {
                assert forall|rm: RecordModel| v@ != encode_record(rm) by {
                    if v@ == encode_record(rm) {
                        assert(em[6].1 == encode_opt_value(rm.output));
                        assert(false);
                    }
                }
            }
            return Err(DebugError::MalformedSnapshot);
        },
    };
    let f7 = &entries[7];
    if !string_eq(&f7.0, "error") {
        proof {
            assert forall|rm: RecordModel| v@ != encode_record(rm) by {
                if v@ == encode_record(rm) {
                    assert(em[7].0 == "error"@);
                    assert(false);
                }
            }
        }
        return Err(DebugError::MalformedSnapshot);
    }
    let error = match decode_opt_str(&f7.1) {
        Ok(x) => x,
        Err(_) => {
            proof {
                assert forall|rm: RecordModel| v@ != encode_record(rm) by {
                    if v@ == encode_record(rm) {
                        assert(em[7].1 == encode_opt_str(rm.error));
                        assert(false);
                    }
                }
            }
            return Err(DebugError::MalformedSnapshot);
        },
    };
    let f8 = &entries[8];
    if !string_eq(&f8.0, "variables") {
        proof {
            assert forall|rm: RecordModel| v@ != encode_record(rm) by {
                if v@ == encode_record(rm) {
                    assert(em[8].0 == "variables"@);
                    assert(false);
                }
            }
        }
        return Err(DebugError::MalformedSnapshot);
    }
    let variables = match decode_vars(&f8.1) {
        Ok(x) => x,
        Err(_) => {
            proof {
                assert forall|rm: RecordModel| v@ != encode_record(rm) by {
                    if v@ == encode_record(rm) {
                        assert(em[8].1 == ValueModel::Obj(rm.variables));
                        assert(false);
                    }
                }
            }
            return Err(DebugError::MalformedSnapshot);
        },
    };
    let rec = NodeExecution {
        node_id,
        node_type,
        label,
        status,
        start_time,
        end_time,
        output,
        error,
        variables,
    };
    proof {
        assert(em =~~= encode_record(rec@)->Obj_0);
        assert(v@ == encode_record(rec@));
    }
    Ok(rec)
}

/// Decode the list of node-execution records.
fn decode_records(v: &Value) -> (r: Result<Vec<NodeExecution>, DebugError>)
    ensures
        match r {
            Ok(out) => v@ == encode_records(records_view(out@)),
            Err(e) => e@ == ErrorModel::MalformedSnapshot && (forall|rs: Seq<RecordModel>|
                v@ != encode_records(rs)),
        },
{
    match v {
        Value::List(items) => {
            let n = items.len();
            let mut out: Vec<NodeExecution> = Vec::new();
            let mut i: usize = 0;
            while i < n
                invariant
                    i <= n,
                    n == items@.len(),
                    v@ == ValueModel::List(values_model(items@)),
                    out@.len() == i,
                    forall|j: int| 0 <= j < i ==> value_model(items@[j]) == encode_record(
                        out@[j]@,
                    ),
                decreases n - i,
            {
                match decode_record(&items[i]) {
                    Ok(rec) => {
                        out.push(rec);
                    },
                    Err(_) => {
                        proof {
                            lemma_values_model(items@);
                            assert forall|rs: Seq<RecordModel>| v@ != encode_records(rs) by {
                                if v@ == encode_records(rs) {
                                    assert(values_model(items@) == Seq::new(
                                        rs.len(),
                                        |j: int| encode_record(rs[j]),
                                    ));
                                    assert(values_model(items@)[i as int] == encode_record(
                                        rs[i as int],
                                    ));
                                    assert(value_model(items@[i as int]) == encode_record(
                                        rs[i as int],
                                    ));
                                    assert(false);
                                }
                            }
                        }
                        return Err(DebugError::MalformedSnapshot);
                    },
                }
                i = i + 1;
            }
            proof {
                lemma_values_model(items@);
                assert(values_model(items@) =~= Seq::new(
                    records_view(out@).len(),
                    |j: int| encode_record(records_view(out@)[j]),
                ));
            }
            Ok(out)
        },
        _ => {
            proof {
                assert forall|rs: Seq<RecordModel>| v@ != encode_records(rs) by {
                    if v@ == encode_records(rs) {
                        assert(v@ is List);
                        assert(false);
                    }
                }
            }
            Err(DebugError::MalformedSnapshot)
        },
    }
}

/// Decode a whole session document.
fn decode_session(v: &Value) -> (r: Result<DebugSession, DebugError>)
    ensures
        match r {
            Ok(s) => v@ == spec_encode_session(s@),
            Err(e) => e@ == ErrorModel::MalformedSnapshot && (forall|m: SessionModel|
                v@ != spec_encode_session(m)),
        },
{
    let entries: &Vec<(String, Value)> = match v {
        Value::Obj(entries) => entries,
        _ => {
            proof {
                assert forall|m: SessionModel| v@ != spec_encode_session(m) by {
                    if v@ == spec_encode_session(m) {
                        assert(v@ is Obj);
                        assert(false);
                    }
                }
            }
            return Err(DebugError::MalformedSnapshot);
        },
    };
    proof {
        lemma_entries_model(entries@);
    }
    let ghost em = entries_model(entries@);
    if entries.len() != 10 {
        proof {
            assert forall|m: SessionModel| v@ != spec_encode_session(m) by {
                if v@ == spec_encode_session(m) {
                    assert(em == spec_encode_session(m)->Obj_0);
                    assert(em.len() == 10);
                    assert(false);
                }
            }
        }
        return Err(DebugError::MalformedSnapshot);
    }
    let f0 = &entries[0];
    if !string_eq(&f0.0, "session_id") {
        proof {
            assert forall|m: SessionModel| v@ != spec_encode_session(m) by {
                if v@ == spec_encode_session(m) {
                    assert(em[0].0 == "session_id"@);
                    assert(false);
                }
            }
        }
        return Err(DebugError::MalformedSnapshot);
    }
    let session_id = match decode_str(&f0.1) {
        Ok(x) => x,
        Err(_) => {
            proof {
                assert forall|m: SessionModel| v@ != spec_encode_session(m) by {
                    if v@ == spec_encode_session(m) {
                        assert(em[0].1 == ValueModel::Str(m.session_id));
                        assert(false);
                    }
                }
            }
            return Err(DebugError::MalformedSnapshot);
        },
    };
    let f1 = &entries[1];
    if !string_eq(&f1.0, "state") {
        proof {
            assert forall|m: SessionModel| v@ != spec_encode_session(m) by {
                if v@ == spec_encode_session(m) {
                    assert(em[1].0 == "state"@);
                    assert(false);
                }
            }
        }
        return Err(DebugError::MalformedSnapshot);
    }
    let state = match decode_state(&f1.1) {
        Ok(x) => x,
        Err(_) => {
            proof {
                assert forall|m: SessionModel| v@ != spec_encode_session(m) by {
                    if v@ == spec_encode_session(m) {
                        assert(em[1].1 == ValueModel::Str(encode_state(m.state)));
                        assert(false);
                    }
                }
            }
            return Err(DebugError::MalformedSnapshot);
        },
    };
    let f2 = &entries[2];
    if !string_eq(&f2.0, "current_node_id") {
        proof {
            assert forall|m: SessionModel| v@ != spec_encode_session(m) by {
                if v@ == spec_encode_session(m) {
                    assert(em[2].0 == "current_node_id"@);
                    assert(false);
                }
            }
        }
        return Err(DebugError::MalformedSnapshot);
    }
    let current_node_id = match decode_opt_str(&f2.1) {
        Ok(x) => x,
        Err(_) => {
            proof {
                assert forall|m: SessionModel| v@ != spec_encode_session(m) by {
                    if v@ == spec_encode_session(m) {
                        assert(em[2].1 == encode_opt_str(m.current_node_id));
                        assert(false);
                    }
                }
            }
            return Err(DebugError::MalformedSnapshot);
        },
    };
    let f3 = &entries[3];
    if !string_eq(&f3.0, "breakpoints") {
        proof {
            assert forall|m: SessionModel| v@ != spec_encode_session(m) by {
                if v@ == spec_encode_session(m) {
                    assert(em[3].0 == "breakpoints"@);
                    assert(false);
                }
            }
        }
        return Err(DebugError::MalformedSnapshot);
    }
    let breakpoints = match decode_strs(&f3.1) {
        Ok(x) => x,
        Err(_) => {
            proof {
                assert forall|m: SessionModel| v@ != spec_encode_session(m) by {
                    if v@ == spec_encode_session(m) {
                        assert(em[3].1 == encode_strs(m.breakpoints));
                        assert(false);
                    }
                }
            }
            return Err(DebugError::MalformedSnapshot);
        },
    };
    let f4 = &entries[4];
    if !string_eq(&f4.0, "execution_order") {
        proof {
            assert forall|m: SessionModel| v@ != spec_encode_session(m) by {
                if v@ == spec_encode_session(m) {
                    assert(em[4].0 == "execution_order"@);
                    assert(false);
                }
            }
        }
        return Err(DebugError::MalformedSnapshot);
    }
    let execution_order = match decode_strs(&f4.1) {
        Ok(x) => x,
        Err(_) => {
            proof {
                assert forall|m: SessionModel| v@ != spec_encode_session(m) by {
                    if v@ == spec_encode_session(m) {
                        assert(em[4].1 == encode_strs(m.execution_order));
                        assert(false);
                    }
                }
            }
            return Err(DebugError::MalformedSnapshot);
        },
    };
    let f5 = &entries[5];
    if !string_eq(&f5.0, "node_executions") {
        proof {
            assert forall|m: SessionModel| v@ != spec_encode_session(m) by {
                if v@ == spec_encode_session(m) {
                    assert(em[5].0 == "node_executions"@);
                    assert(false);
                }
            }
        }
        return Err(DebugError::MalformedSnapshot);
    }
    let node_executions = match decode_records(&f5.1) {
        Ok(x) => x,
        Err(_) => {
            proof {
                assert forall|m: SessionModel| v@ != spec_encode_session(m) by {
                    if v@ == spec_encode_session(m) {
                        assert(em[5].1 == encode_records(m.node_executions));
                        assert(false);
                    }
                }
            }
            return Err(DebugError::MalformedSnapshot);
        },
    };
    let f6 = &entries[6];
    if !string_eq(&f6.0, "global_variables") {
        proof {
            assert forall|m: SessionModel| v@ != spec_encode_session(m) by {
                if v@ == spec_encode_session(m) {
                    assert(em[6].0 == "global_variables"@);
                    assert(false);
                }
            }
        }
        return Err(DebugError::MalformedSnapshot);
    }
    let global_variables = match decode_vars(&f6.1) {
        Ok(x) => x,
        Err(_) => {
            proof {
                assert forall|m: SessionModel| v@ != spec_encode_session(m) by {
                    if v@ == spec_encode_session(m) {
                        assert(em[6].1 == ValueModel::Obj(m.global_variables));
                        assert(false);
                    }
                }
            }
            return Err(DebugError::MalformedSnapshot);
        },
    };
    let f7 = &entries[7];
    if !string_eq(&f7.0, "start_time") {
        proof {
            assert forall|m: SessionModel| v@ != spec_encode_session(m) by {
                if v@ == spec_encode_session(m) {
                    assert(em[7].0 == "start_time"@);
                    assert(false);
                }
            }
        }
        return Err(DebugError::MalformedSnapshot);
    }
    let start_time = match decode_i64(&f7.1) {
        Ok(x) => x,
        Err(_) => {
            proof {
                assert forall|m: SessionModel| v@ != spec_encode_session(m) by {
                    if v@ == spec_encode_session(m) {
                        assert(em[7].1 == ValueModel::Int(m.start_time as int));
                        assert(false);
                    }
                }
            }
            return Err(DebugError::MalformedSnapshot);
        },
    };
    let f8 = &entries[8];
    if !string_eq(&f8.0, "paused_at_breakpoint") {
        proof {
            assert forall|m: SessionModel| v@ != spec_encode_session(m) by {
                if v@ == spec_encode_session(m) {
                    assert(em[8].0 == "paused_at_breakpoint"@);
                    assert(false);
                }
            }
        }
        return Err(DebugError::MalformedSnapshot);
    }
    let paused_at_breakpoint = match decode_bool(&f8.1) {
        Ok(x) => x,
        Err(_) => {
            proof {
                assert forall|m: SessionModel| v@ != spec_encode_session(m) by {
                    if v@ == spec_encode_session(m) {
                        assert(em[8].1 == ValueModel::Bool(m.paused_at_breakpoint));
                        assert(false);
                    }
                }
            }
            return Err(DebugError::MalformedSnapshot);
        },
    };
    let f9 = &entries[9];
    if !string_eq(&f9.0, "error") {
        proof {
            assert forall|m: SessionModel| v@ != spec_encode_session(m) by {
                if v@ == spec_encode_session(m) {
                    assert(em[9].0 == "error"@);
                    assert(false);
                }
            }
        }
        return Err(DebugError::MalformedSnapshot);
    }
    let error = match decode_opt_str(&f9.1) {
        Ok(x) => x,
        Err(_) => {
            proof {
                assert forall|m: SessionModel| v@ != spec_encode_session(m) by {
                    if v@ == spec_encode_session(m) {
                        assert(em[9].1 == encode_opt_str(m.error));
                        assert(false);
                    }
                }
            }
            return Err(DebugError::MalformedSnapshot);
        },
    };
    let s = DebugSession {
        session_id,
        state,
        current_node_id,
        breakpoints,
        execution_order,
        node_executions,
        global_variables,
        start_time,
        paused_at_breakpoint,
        error,
    };
    proof {
        assert(em =~~= spec_encode_session(s@)->Obj_0);
        assert(v@ == spec_encode_session(s@));
    }
    Ok(s)
}

/// Deserialize a snapshot document back into the session it encodes.
///
/// Exactly the canonical documents produced by `serialize` decode; any
/// other value is rejected as malformed.  Together with `serialize` and
/// `lemma_round_trip` this makes the round trip lossless: deserializing a
/// serialized snapshot restores that snapshot.
pub fn deserialize(doc: &Value) -> (r: Result<DebugSession, DebugError>)
    ensures
        match r {
            Ok(s) => doc@ == spec_encode_session(s@) && spec_decode(doc@) == Some(s@),
            Err(e) => e@ == ErrorModel::MalformedSnapshot && spec_decode(doc@) is None,
        },
{
    let r = decode_session(doc);
    proof {
        if r is Ok {
            let s = r->Ok_0;
            assert(doc@ == spec_encode_session(s@));
            let m2 = choose|m2: SessionModel| doc@ == spec_encode_session(m2);
            lemma_encode_injective(s@, m2);
        }
    }
    r
}

} // verus!
