use vstd::prelude::*;

use crate::util::dup_opt_string;
use crate::util::opt_str_view;
use crate::util::string_eq;

verus! {

/// What the index stores about one secret: everything but the secret's
/// value, which lives in the operating system's keyring.
#[derive(Debug, PartialEq, Eq)]
pub struct SecretMetadata {
    pub name: String,
    pub description: Option<String>,
    pub created_at: String,
    pub updated_at: String,
}

/// The mathematical abstraction of a `SecretMetadata`.
#[verifier::ext_equal]
pub ghost struct MetadataModel {
    pub name: Seq<char>,
    pub description: Option<Seq<char>>,
    pub created_at: Seq<char>,
    pub updated_at: Seq<char>,
}

impl View for SecretMetadata {
    type V = MetadataModel;

    open spec fn view(&self) -> MetadataModel {
        MetadataModel {
            name: self.name@,
            description: opt_str_view(self.description),
            created_at: self.created_at@,
            updated_at: self.updated_at@,
        }
    }
}

impl SecretMetadata {
    /// Deep copy with a full specification.
    pub fn duplicate(&self) -> (r: SecretMetadata)
        ensures
            r@ == self@,
    {
        SecretMetadata {
            name: self.name.clone(),
            description: dup_opt_string(&self.description),
            created_at: self.created_at.clone(),
            updated_at: self.updated_at.clone(),
        }
    }
}

/// The models of a sequence of metadata entries, element by element.
pub open spec fn metas_view(v: Seq<SecretMetadata>) -> Seq<MetadataModel> {
    Seq::new(v.len(), |i: int| v[i]@)
}

/// Index of the first entry named `name` at or after `i`, or `-1`.
pub open spec fn meta_index_from(ms: Seq<MetadataModel>, name: Seq<char>, i: int) -> int
    decreases ms.len() - i,
{
    if i < 0 || i >= ms.len() {
        -1
    } else if ms[i].name == name {
        i
    } else {
        meta_index_from(ms, name, i + 1)
    }
}

/// Index of the first entry named `name`, or `-1`.
pub open spec fn meta_index(ms: Seq<MetadataModel>, name: Seq<char>) -> int {
    meta_index_from(ms, name, 0)
}

/// What `meta_index_from` finds is the first occurrence, and only that.
pub proof fn lemma_meta_index_from(ms: Seq<MetadataModel>, name: Seq<char>, i: int)
    requires
        0 <= i <= ms.len(),
    ensures
        -1 <= meta_index_from(ms, name, i) < ms.len(),
        meta_index_from(ms, name, i) == -1 ==> forall|j: int|
            i <= j < ms.len() ==> ms[j].name != name,
        meta_index_from(ms, name, i) >= 0 ==> {
            &&& i <= meta_index_from(ms, name, i) < ms.len()
            &&& ms[meta_index_from(ms, name, i)].name == name
            &&& forall|j: int| i <= j < meta_index_from(ms, name, i) ==> ms[j].name != name
        },
    decreases ms.len() - i,
{
    if i < ms.len() && ms[i].name != name {
        lemma_meta_index_from(ms, name, i + 1);
    }
}

/// A witness at position `i`, with no earlier occurrence, pins
/// `meta_index`.
pub proof fn lemma_meta_index_of(ms: Seq<MetadataModel>, name: Seq<char>, i: int)
    requires
        0 <= i < ms.len(),
        ms[i].name == name,
        forall|j: int| 0 <= j < i ==> ms[j].name != name,
    ensures
        meta_index(ms, name) == i,
{
    lemma_meta_index_from(ms, name, 0);
    let r = meta_index(ms, name);
    if r == -1 {
        assert(ms[i].name != name);
        assert(false);
    } else if r < i {
        assert(ms[r].name != name);
        assert(false);
    } else if r > i {
        assert(ms[i].name != name);
        assert(false);
    }
}

/// Storing or refreshing a secret's metadata: a new entry is appended
/// with both timestamps set to `now`; an existing entry keeps its place
/// and creation time, gets `now` as its update time, and keeps its old
/// description where none is supplied.
pub open spec fn spec_upsert_meta(
    ms: Seq<MetadataModel>,
    name: Seq<char>,
    description: Option<Seq<char>>,
    now: Seq<char>,
) -> Seq<MetadataModel> {
    if meta_index(ms, name) >= 0 {
        let k = meta_index(ms, name);
        ms.update(
            k,
            MetadataModel {
                name: name,
                description: (match description {
                    Some(d) => Some(d),
                    None => ms[k].description,
                }),
                created_at: ms[k].created_at,
                updated_at: now,
            },
        )
    } else {
        ms.push(
            MetadataModel { name: name, description: description, created_at: now, updated_at: now },
        )
    }
}

/// Removing a secret's metadata: the first entry with the name leaves the
/// index; an unknown name leaves it unchanged.
pub open spec fn spec_remove_meta(ms: Seq<MetadataModel>, name: Seq<char>) -> Seq<MetadataModel> {
    if meta_index(ms, name) >= 0 {
        ms.remove(meta_index(ms, name))
    } else {
        ms
    }
}

/// No two entries share a name, so lookups, updates and removals by name
/// are unambiguous.
pub open spec fn names_distinct(ms: Seq<MetadataModel>) -> bool {
    forall|i: int, j: int| 0 <= i < j < ms.len() ==> ms[i].name != ms[j].name
}

/// Storing or refreshing metadata keeps names unique.
pub proof fn lemma_upsert_meta_distinct(
    ms: Seq<MetadataModel>,
    name: Seq<char>,
    description: Option<Seq<char>>,
    now: Seq<char>,
)
    requires
        names_distinct(ms),
    ensures
        names_distinct(spec_upsert_meta(ms, name, description, now)),
{
    lemma_meta_index_from(ms, name, 0);
    let ms2 = spec_upsert_meta(ms, name, description, now);
    let k = meta_index(ms, name);
    if k >= 0 {
        assert(ms[k].name == name);
        assert forall|i: int, j: int| 0 <= i < j < ms2.len() implies ms2[i].name
            != ms2[j].name by {
            if i != k && j != k {
                assert(ms2[i] == ms[i] && ms2[j] == ms[j]);
            } else if i == k {
                assert(ms2[j] == ms[j]);
                assert(ms2[i].name == name);
            } else {
                assert(ms2[i] == ms[i]);
                assert(ms2[j].name == name);
            }
        }
    } else {
        assert forall|i: int, j: int| 0 <= i < j < ms2.len() implies ms2[i].name
            != ms2[j].name by {
            if j < ms.len() {
                assert(ms2[i] == ms[i] && ms2[j] == ms[j]);
            } else {
                assert(ms2[j].name == name);
                assert(ms2[i] == ms[i]);
                assert(ms[i].name != name);
            }
        }
    }
}

/// Removing metadata keeps names unique.
pub proof fn lemma_remove_meta_distinct(ms: Seq<MetadataModel>, name: Seq<char>)
    requires
        names_distinct(ms),
    ensures
        names_distinct(spec_remove_meta(ms, name)),
{
    lemma_meta_index_from(ms, name, 0);
    let k = meta_index(ms, name);
    if k >= 0 {
        let ms2 = ms.remove(k);
        assert forall|i: int, j: int| 0 <= i < j < ms2.len() implies ms2[i].name
            != ms2[j].name by {
            assert(ms2[i] == (if i < k {
                ms[i]
            } else {
                ms[i + 1]
            }));
            assert(ms2[j] == (if j < k {
                ms[j]
            } else {
                ms[j + 1]
            }));
        }
    }
}

/// The index of stored secrets: their metadata, in insertion order with
/// unique names (`names_distinct`, established empty and preserved by
/// every mutation).  The secrets' values are not here — they live in the
/// operating system's keyring, which the caller talks to.
#[derive(Debug, PartialEq, Eq)]
pub struct SecretsIndex {
    pub secrets: Vec<SecretMetadata>,
}

impl View for SecretsIndex {
    type V = Seq<MetadataModel>;

    open spec fn view(&self) -> Seq<MetadataModel> {
        metas_view(self.secrets@)
    }
}

impl SecretsIndex {
    /// The empty index.
    pub fn new() -> (r: SecretsIndex)
        ensures
            r@ == Seq::<MetadataModel>::empty(),
            names_distinct(r@),
    {
        let r = SecretsIndex { secrets: Vec::new() };
        proof {
            assert(r@ =~= Seq::<MetadataModel>::empty());
        }
        r
    }

    /// Index of the entry named `name`, if any.
    fn find(&self, name: &str) -> (r: Option<usize>)
        ensures
            match r {
                Some(i) => 0 <= i < self@.len() && meta_index(self@, name@) == i,
                None => meta_index(self@, name@) == -1,
            },
    {
        let n = self.secrets.len();
        let mut i: usize = 0;
        while i < n
            invariant
                i <= n,
                n == self.secrets@.len(),
                self@.len() == n,
                forall|j: int| 0 <= j < n ==> self@[j] == self.secrets@[j]@,
                forall|j: int| 0 <= j < i ==> self@[j].name != name@,
            decreases n - i,
        {
            if string_eq(&self.secrets[i].name, name) {
                proof {
                    assert(self@[i as int].name == name@);
                    lemma_meta_index_of(self@, name@, i as int);
                }
                return Some(i);
            }
            i = i + 1;
        }
        proof {
            lemma_meta_index_from(self@, name@, 0);
        }
        None
    }

    /// Whether a secret named `name` is stored.
    pub fn has_secret(&self, name: &str) -> (r: bool)
        ensures
            r == (meta_index(self@, name@) >= 0),
    {
        match self.find(name) {
            Some(_) => true,
            None => false,
        }
    }

    /// All stored metadata, in order.
    pub fn list_secrets(&self) -> (r: Vec<SecretMetadata>)
        ensures
            metas_view(r@) == self@,
    {
        let n = self.secrets.len();
        let mut out: Vec<SecretMetadata> = Vec::new();
        let mut i: usize = 0;
        while i < n
            invariant
                i <= n,
                n == self.secrets@.len(),
                out@.len() == i,
                forall|j: int| 0 <= j < i ==> out@[j]@ == self.secrets@[j]@,
            decreases n - i,
        {
            out.push(self.secrets[i].duplicate());
            i = i + 1;
        }
        proof {
            assert(metas_view(out@) =~~= metas_view(self.secrets@));
        }
        out
    }

    /// Store or refresh a secret's metadata; see `spec_upsert_meta`.  The
    /// caller stores the value itself in the keyring and supplies the
    /// current timestamp.
    pub fn set_secret(&mut self, name: String, description: Option<String>, now: String)
        ensures
            final(self)@ == spec_upsert_meta(
                old(self)@,
                name@,
                opt_str_view(description),
                now@,
            ),
            names_distinct(old(self)@) ==> names_distinct(final(self)@),
    {
        proof {
            if names_distinct(self@) {
                lemma_upsert_meta_distinct(self@, name@, opt_str_view(description), now@);
            }
        }
        match self.find(name.as_str()) {
            Some(i) => {
                let kept_description = match description {
                    Some(d) => Some(d),
                    None => dup_opt_string(&self.secrets[i].description),
                };
                let created_at = self.secrets[i].created_at.clone();
                let entry = SecretMetadata {
                    name,
                    description: kept_description,
                    created_at,
                    updated_at: now,
                };
                self.secrets[i] = entry;
                proof {
                    assert(self@ =~~= spec_upsert_meta(
                        old(self)@,
                        name@,
                        opt_str_view(description),
                        now@,
                    ));
                }
            },
            None => {
                let entry = SecretMetadata {
                    name,
                    description,
                    created_at: now.clone(),
                    updated_at: now,
                };
                self.secrets.push(entry);
                proof {
                    assert(self@ =~~= spec_upsert_meta(
                        old(self)@,
                        name@,
                        opt_str_view(description),
                        now@,
                    ));
                }
            },
        }
    }

    /// Remove a secret's metadata; see `spec_remove_meta`.  The caller
    /// removes the value itself from the keyring.
    pub fn delete_secret(&mut self, name: &str)
        ensures
            final(self)@ == spec_remove_meta(old(self)@, name@),
            names_distinct(old(self)@) ==> names_distinct(final(self)@),
    {
        proof {
            if names_distinct(self@) {
                lemma_remove_meta_distinct(self@, name@);
            }
        }
        match self.find(name) {
            Some(i) => {
                self.secrets.remove(i);
                proof {
                    assert(self@ =~~= spec_remove_meta(old(self)@, name@));
                }
            },
            None => {},
        }
    }
}

} // verus!
