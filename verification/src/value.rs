use vstd::prelude::*;

verus! {

/// A plain, self-contained data value: the currency of node configurations,
/// node outputs, variable bindings, and serialized session snapshots.
///
/// Lists and objects nest arbitrarily, so a whole debug-session snapshot can
/// be represented as one `Value` tree of plain data.
#[derive(Debug, PartialEq, Eq)]
pub enum Value {
    Null,
    Bool(bool),
    Int(i64),
    Str(String),
    List(Vec<Value>),
    Obj(Vec<(String, Value)>),
}

/// The mathematical abstraction of a `Value`: the same tree over `int`,
/// `Seq<char>` and `Seq`.
pub ghost enum ValueModel {
    Null,
    Bool(bool),
    Int(int),
    Str(Seq<char>),
    List(Seq<ValueModel>),
    Obj(Seq<(Seq<char>, ValueModel)>),
}

/// The model of one value.
pub open spec fn value_model(v: Value) -> ValueModel
    decreases v, 1int,
{
    match v {
        Value::Null => ValueModel::Null,
        Value::Bool(b) => ValueModel::Bool(b),
        Value::Int(i) => ValueModel::Int(i as int),
        Value::Str(s) => ValueModel::Str(s@),
        Value::List(items) => ValueModel::List(
            {
                proof {
                    assert(decreases_to!(v => v->List_0));
                    assert(decreases_to!(v->List_0 => v->List_0@));
                }
                values_model(items@)
            },
        ),
        Value::Obj(entries) => ValueModel::Obj(
            {
                proof {
                    assert(decreases_to!(v => v->Obj_0));
                    assert(decreases_to!(v->Obj_0 => v->Obj_0@));
                }
                entries_model(entries@)
            },
        ),
    }
}

/// The models of a sequence of values, element by element.
pub open spec fn values_model(s: Seq<Value>) -> Seq<ValueModel>
    decreases s, 0int,
{
    if s.len() == 0 {
        Seq::empty()
    } else {
        values_model(s.drop_last()).push(value_model(s.last()))
    }
}

/// The models of a sequence of key/value entries, element by element.
pub open spec fn entries_model(s: Seq<(String, Value)>) -> Seq<(Seq<char>, ValueModel)>
    decreases s, 0int,
{
    if s.len() == 0 {
        Seq::empty()
    } else {
        proof {
            let last = s[s.len() - 1];
            assert(decreases_to!(s => last));
            assert(decreases_to!(last => last.1));
        }
        entries_model(s.drop_last()).push((s.last().0@, value_model(s.last().1)))
    }
}

impl View for Value {
    type V = ValueModel;

    open spec fn view(&self) -> ValueModel {
        value_model(*self)
    }
}

/// `values_model` maps element by element.
pub proof fn lemma_values_model(s: Seq<Value>)
    ensures
        values_model(s).len() == s.len(),
        forall|i: int| 0 <= i < s.len() ==> values_model(s)[i] == value_model(s[i]),
    decreases s.len(),
{
    if s.len() > 0 {
        lemma_values_model(s.drop_last());
    }
}

/// `entries_model` maps element by element.
pub proof fn lemma_entries_model(s: Seq<(String, Value)>)
    ensures
        entries_model(s).len() == s.len(),
        forall|i: int| 0 <= i < s.len() ==> entries_model(s)[i] == (
            s[i].0@,
            value_model(s[i].1),
        ),
    decreases s.len(),
{
    if s.len() > 0 {
        lemma_entries_model(s.drop_last());
    }
}

impl Value {
    /// Deep copy with a full specification.  (A derived `Clone` would be
    /// opaque to the verifier, so verified callers use this instead.)
    pub fn duplicate(&self) -> (r: Value)
        ensures
            r@ == self@,
        decreases self,
    {
        match self {
            Value::Null => Value::Null,
            Value::Bool(b) => Value::Bool(*b),
            Value::Int(i) => Value::Int(*i),
            Value::Str(s) => Value::Str(s.clone()),
            Value::List(items) => {
                let n = items.len();
                let mut out: Vec<Value> = Vec::new();
                let mut i: usize = 0;
                while i < n
                    invariant
                        i <= n,
                        n == items@.len(),
                        (*self == Value::List(*items)),
                        out@.len() == i,
                        forall|j: int| 0 <= j < i ==> value_model(out@[j]) == value_model(
                            items@[j],
                        ),
                    decreases n - i,
                {
                    proof {
                        assert(decreases_to!(*self => (*self)->List_0));
                        assert(decreases_to!((*self)->List_0 => (*self)->List_0@));
                        assert(decreases_to!(items@ => items@[i as int]));
                    }
                    out.push(items[i].duplicate());
                    i = i + 1;
                }
                proof {
                    lemma_values_model(out@);
                    lemma_values_model(items@);
                    assert(values_model(out@) =~= values_model(items@));
                }
                Value::List(out)
            },
            Value::Obj(entries) => {
                let n = entries.len();
                let mut out: Vec<(String, Value)> = Vec::new();
                let mut i: usize = 0;
                while i < n
                    invariant
                        i <= n,
                        n == entries@.len(),
                        (*self == Value::Obj(*entries)),
                        out@.len() == i,
                        forall|j: int| 0 <= j < i ==> out@[j].0@ == entries@[j].0@
                            && value_model(out@[j].1) == value_model(entries@[j].1),
                    decreases n - i,
                {
                    proof {
                        assert(decreases_to!(*self => (*self)->Obj_0));
                        assert(decreases_to!((*self)->Obj_0 => (*self)->Obj_0@));
                        assert(decreases_to!(entries@ => entries@[i as int]));
                        assert(decreases_to!(entries@[i as int] => entries@[i as int].1));
                    }
                    let key = entries[i].0.clone();
                    let val = entries[i].1.duplicate();
                    out.push((key, val));
                    i = i + 1;
                }
                proof {
                    lemma_entries_model(out@);
                    lemma_entries_model(entries@);
                    assert(entries_model(out@) =~= entries_model(entries@));
                }
                Value::Obj(out)
            },
        }
    }
}

/// The models of an optional value.
pub open spec fn opt_value_model(o: Option<Value>) -> Option<ValueModel> {
    match o {
        Some(v) => Some(value_model(v)),
        None => None,
    }
}

/// Deep copy of an optional value.
pub fn duplicate_opt(o: &Option<Value>) -> (r: Option<Value>)
    ensures
        opt_value_model(r) == opt_value_model(*o),
{
    match o {
        Some(v) => Some(v.duplicate()),
        None => None,
    }
}

} // verus!
