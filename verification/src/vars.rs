use vstd::prelude::*;

use crate::util::string_eq;
use crate::value::entries_model;
use crate::value::lemma_entries_model;
use crate::value::value_model;
use crate::value::Value;
use crate::value::ValueModel;

verus! {

/// A mapping from names to values, kept in insertion order.
///
/// Used for a node's local output bindings and for the session's global
/// variables.  Names are unique in every map the library constructs; lookups
/// find the first (and then only) entry with the requested name.
#[derive(Debug, PartialEq, Eq)]
pub struct VarMap {
    pub entries: Vec<(String, Value)>,
}

impl View for VarMap {
    type V = Seq<(Seq<char>, ValueModel)>;

    open spec fn view(&self) -> Seq<(Seq<char>, ValueModel)> {
        entries_model(self.entries@)
    }
}

/// Index of the first entry with key `k`, or `-1` if there is none.
pub open spec fn key_index(m: Seq<(Seq<char>, ValueModel)>, k: Seq<char>) -> int
    decreases m.len(),
{
    if m.len() == 0 {
        -1
    } else if m[0].0 == k {
        0
    } else {
        let r = key_index(m.drop_first(), k);
        if r < 0 {
            -1
        } else {
            r + 1
        }
    }
}

/// Whether the map holds key `k`.
pub open spec fn has_key(m: Seq<(Seq<char>, ValueModel)>, k: Seq<char>) -> bool {
    key_index(m, k) >= 0
}

/// The value bound to key `k`, if any.
pub open spec fn lookup(m: Seq<(Seq<char>, ValueModel)>, k: Seq<char>) -> Option<ValueModel> {
    if has_key(m, k) {
        Some(m[key_index(m, k)].1)
    } else {
        None
    }
}

/// Bind `k` to `v`: overwrite in place if `k` is present, else append.
pub open spec fn upsert(
    m: Seq<(Seq<char>, ValueModel)>,
    k: Seq<char>,
    v: ValueModel,
) -> Seq<(Seq<char>, ValueModel)> {
    if has_key(m, k) {
        m.update(key_index(m, k), (k, v))
    } else {
        m.push((k, v))
    }
}

/// Bind every entry of `other` into `m`, in order.
pub open spec fn merge(
    m: Seq<(Seq<char>, ValueModel)>,
    other: Seq<(Seq<char>, ValueModel)>,
) -> Seq<(Seq<char>, ValueModel)>
    decreases other.len(),
{
    if other.len() == 0 {
        m
    } else {
        merge(upsert(m, other[0].0, other[0].1), other.drop_first())
    }
}

/// `key_index` finds the first occurrence of the key, and only that.
pub proof fn lemma_key_index(m: Seq<(Seq<char>, ValueModel)>, k: Seq<char>)
    ensures
        key_index(m, k) == -1 ==> forall|j: int| 0 <= j < m.len() ==> m[j].0 != k,
        key_index(m, k) >= 0 ==> {
            &&& key_index(m, k) < m.len()
            &&& m[key_index(m, k)].0 == k
            &&& forall|j: int| 0 <= j < key_index(m, k) ==> m[j].0 != k
        },
    decreases m.len(),
{
    if m.len() > 0 && m[0].0 != k {
        lemma_key_index(m.drop_first(), k);
        let r = key_index(m.drop_first(), k);
        if r < 0 {
            assert forall|j: int| 0 <= j < m.len() implies m[j].0 != k by {
                if j > 0 {
                    assert(m.drop_first()[j - 1] == m[j]);
                }
            }
        } else {
            assert(m.drop_first()[r] == m[r + 1]);
            assert forall|j: int| 0 <= j < r + 1 implies m[j].0 != k by {
                if j > 0 {
                    assert(m.drop_first()[j - 1] == m[j]);
                }
            }
        }
    }
}

/// Conversely, a first occurrence pins `key_index` down.
pub proof fn lemma_key_index_of(m: Seq<(Seq<char>, ValueModel)>, k: Seq<char>, i: int)
    requires
        0 <= i < m.len(),
        m[i].0 == k,
        forall|j: int| 0 <= j < i ==> m[j].0 != k,
    ensures
        key_index(m, k) == i,
    decreases m.len(),
{
    if m[0].0 != k {
        lemma_key_index_of(m.drop_first(), k, i - 1);
    }
}

/// Merging one more entry is one more `upsert`.
pub proof fn lemma_merge_snoc(
    m: Seq<(Seq<char>, ValueModel)>,
    other: Seq<(Seq<char>, ValueModel)>,
    e: (Seq<char>, ValueModel),
)
    ensures
        merge(m, other.push(e)) == upsert(merge(m, other), e.0, e.1),
    decreases other.len(),
{
    let p = other.push(e);
    if other.len() == 0 {
        assert(p[0] == e);
        assert(p.drop_first() =~= Seq::<(Seq<char>, ValueModel)>::empty());
        assert(merge(m, p) == merge(upsert(m, e.0, e.1), p.drop_first()));
        assert(merge(upsert(m, e.0, e.1), p.drop_first()) == upsert(m, e.0, e.1));
        assert(merge(m, other) == m);
    } else {
        assert(p[0] == other[0]);
        assert(p.drop_first() =~= other.drop_first().push(e));
        lemma_merge_snoc(upsert(m, other[0].0, other[0].1), other.drop_first(), e);
        assert(merge(m, p) == merge(upsert(m, p[0].0, p[0].1), p.drop_first()));
        assert(merge(m, other) == merge(upsert(m, other[0].0, other[0].1), other.drop_first()));
    }
}

/// A key is present exactly when some entry holds it.
pub proof fn lemma_has_key_iff(m: Seq<(Seq<char>, ValueModel)>, k: Seq<char>)
    ensures
        has_key(m, k) <==> exists|i: int| 0 <= i < m.len() && m[i].0 == k,
{
    lemma_key_index(m, k);
    if has_key(m, k) {
        assert(m[key_index(m, k)].0 == k);
    }
}

/// Binding one key never removes another.
pub proof fn lemma_upsert_keeps_keys(
    m: Seq<(Seq<char>, ValueModel)>,
    k: Seq<char>,
    v: ValueModel,
    k2: Seq<char>,
)
    requires
        has_key(m, k2),
    ensures
        has_key(upsert(m, k, v), k2),
{
    lemma_has_key_iff(m, k2);
    lemma_key_index(m, k);
    let m2 = upsert(m, k, v);
    let i = choose|i: int| 0 <= i < m.len() && m[i].0 == k2;
    if has_key(m, k) {
        let j = key_index(m, k);
        if i == j {
            assert(m[j].0 == k);
            assert(m2[j].0 == k);
            lemma_has_key_iff(m2, k2);
        } else {
            assert(m2[i].0 == k2);
            lemma_has_key_iff(m2, k2);
        }
    } else {
        assert(m2[i].0 == k2);
        lemma_has_key_iff(m2, k2);
    }
}

/// Merging maps never removes a key.
pub proof fn lemma_merge_keeps_keys(
    m: Seq<(Seq<char>, ValueModel)>,
    other: Seq<(Seq<char>, ValueModel)>,
    k: Seq<char>,
)
    requires
        has_key(m, k),
    ensures
        has_key(merge(m, other), k),
    decreases other.len(),
{
    if other.len() > 0 {
        lemma_upsert_keeps_keys(m, other[0].0, other[0].1, k);
        lemma_merge_keeps_keys(upsert(m, other[0].0, other[0].1), other.drop_first(), k);
    }
}

impl VarMap {
    /// The empty map.
    pub fn new() -> (r: VarMap)
        ensures
            r@ == Seq::<(Seq<char>, ValueModel)>::empty(),
    {
        VarMap { entries: Vec::new() }
    }

    /// Number of bindings.
    pub fn len(&self) -> (r: usize)
        ensures
            r == self@.len(),
    {
        proof {
            lemma_entries_model(self.entries@);
        }
        self.entries.len()
    }

    /// Index of the entry bound to `name`, if any.
    fn find(&self, name: &str) -> (r: Option<usize>)
        ensures
            match r {
                Some(i) => {
                    &&& 0 <= i < self@.len()
                    &&& key_index(self@, name@) == i
                },
                None => key_index(self@, name@) == -1,
            },
    {
        proof {
            lemma_entries_model(self.entries@);
        }
        let n = self.entries.len();
        let mut i: usize = 0;
        while i < n
            invariant
                i <= n,
                n == self.entries@.len(),
                self@ == entries_model(self.entries@),
                self@.len() == n,
                forall|j: int| 0 <= j < n ==> self@[j] == (
                    self.entries@[j].0@,
                    value_model(self.entries@[j].1),
                ),
                forall|j: int| 0 <= j < i ==> self@[j].0 != name@,
            decreases n - i,
        {
            if string_eq(&self.entries[i].0, name) {
                proof {
                    lemma_key_index_of(self@, name@, i as int);
                }
                return Some(i);
            }
            i = i + 1;
        }
        proof {
            lemma_key_index(self@, name@);
            if key_index(self@, name@) >= 0 {
                assert(self@[key_index(self@, name@)].0 == name@);
            }
        }
        None
    }

    /// The value bound to `name`, if any.
    pub fn get(&self, name: &str) -> (r: Option<&Value>)
        ensures
            match r {
                Some(v) => lookup(self@, name@) == Some(v@),
                None => lookup(self@, name@) is None,
            },
    {
        proof {
            lemma_entries_model(self.entries@);
        }
        match self.find(name) {
            Some(i) => Some(&self.entries[i].1),
            None => None,
        }
    }

    /// Bind `name` to `value`, overwriting any existing binding in place.
    pub fn set(&mut self, name: String, value: Value)
        ensures
            final(self)@ == upsert(old(self)@, name@, value@),
    {
        proof {
            lemma_entries_model(self.entries@);
        }
        match self.find(&name) {
            Some(i) => {
                self.entries[i] = (name, value);
                proof {
                    lemma_entries_model(self.entries@);
                    assert(self@ =~= upsert(old(self)@, name@, value@));
                }
            },
            None => {
                self.entries.push((name, value));
                proof {
                    lemma_entries_model(self.entries@);
                    assert(self@ =~= upsert(old(self)@, name@, value@));
                }
            },
        }
    }

    /// Bind every entry of `other` into `self`, in order.
    pub fn merge_from(&mut self, other: &VarMap)
        ensures
            final(self)@ == merge(old(self)@, other@),
    {
        proof {
            lemma_entries_model(other.entries@);
        }
        let n = other.entries.len();
        let mut i: usize = 0;
        while i < n
            invariant
                i <= n,
                n == other.entries@.len(),
                other@.len() == n,
                forall|j: int| 0 <= j < n ==> other@[j] == (
                    other.entries@[j].0@,
                    value_model(other.entries@[j].1),
                ),
                self@ == merge(old(self)@, other@.take(i as int)),
            decreases n - i,
        {
            let name = other.entries[i].0.clone();
            let value = other.entries[i].1.duplicate();
            self.set(name, value);
            proof {
                assert(other@.take(i + 1) =~= other@.take(i as int).push(other@[i as int]));
                lemma_merge_snoc(old(self)@, other@.take(i as int), other@[i as int]);
            }
            i = i + 1;
        }
        proof {
            assert(other@.take(n as int) =~= other@);
        }
    }

    /// Deep copy with a full specification.
    pub fn duplicate(&self) -> (r: VarMap)
        ensures
            r@ == self@,
    {
        proof {
            lemma_entries_model(self.entries@);
        }
        let n = self.entries.len();
        let mut out: Vec<(String, Value)> = Vec::new();
        let mut i: usize = 0;
        while i < n
            invariant
                i <= n,
                n == self.entries@.len(),
                out@.len() == i,
                forall|j: int| 0 <= j < i ==> out@[j].0@ == self.entries@[j].0@
                    && value_model(out@[j].1) == value_model(self.entries@[j].1),
            decreases n - i,
        {
            let key = self.entries[i].0.clone();
            let val = self.entries[i].1.duplicate();
            out.push((key, val));
            i = i + 1;
        }
        proof {
            lemma_entries_model(out@);
            lemma_entries_model(self.entries@);
            assert(entries_model(out@) =~= entries_model(self.entries@));
        }
        VarMap { entries: out }
    }
}

} // verus!
