use vstd::prelude::*;

use crate::platform::slug_of;
use crate::platform::slugify;
use crate::util::opt_str_view;
use crate::util::string_eq;
use vstd::string::StringExecFns;

verus! {

/// One entry of the recently-opened-projects list.
#[derive(Debug, PartialEq, Eq)]
pub struct RecentProject {
    pub path: String,
    pub name: String,
    pub last_opened: String,
    pub thumbnail: Option<String>,
}

/// The mathematical abstraction of a `RecentProject`.
#[verifier::ext_equal]
pub ghost struct RecentModel {
    pub path: Seq<char>,
    pub name: Seq<char>,
    pub last_opened: Seq<char>,
    pub thumbnail: Option<Seq<char>>,
}

impl View for RecentProject {
    type V = RecentModel;

    open spec fn view(&self) -> RecentModel {
        RecentModel {
            path: self.path@,
            name: self.name@,
            last_opened: self.last_opened@,
            thumbnail: opt_str_view(self.thumbnail),
        }
    }
}

/// The models of a sequence of recent-project entries.
pub open spec fn recents_view(v: Seq<RecentProject>) -> Seq<RecentModel> {
    Seq::new(v.len(), |i: int| v[i]@)
}

/// The entries among the first `i` whose path differs from `path`, in
/// order.
pub open spec fn spec_keep_others(rs: Seq<RecentModel>, path: Seq<char>, i: int) -> Seq<
    RecentModel,
>
    decreases i,
{
    if i <= 0 {
        Seq::empty()
    } else if rs[i - 1].path == path {
        spec_keep_others(rs, path, i - 1)
    } else {
        spec_keep_others(rs, path, i - 1).push(rs[i - 1])
    }
}

/// Recording a just-opened project: any entry with the same path leaves
/// the list, a fresh entry goes to the front, and only the ten most
/// recent entries are kept.
pub open spec fn spec_add_recent(
    rs: Seq<RecentModel>,
    path: Seq<char>,
    name: Seq<char>,
    now: Seq<char>,
) -> Seq<RecentModel> {
    let entry = RecentModel { path: path, name: name, last_opened: now, thumbnail: None };
    let all = seq![entry] + spec_keep_others(rs, path, rs.len() as int);
    if all.len() > 10 {
        all.take(10)
    } else {
        all
    }
}

/// Record a just-opened project in the recent list; see
/// `spec_add_recent`.  The caller loads the list from disk before and
/// stores it after.
pub fn add_recent_project(
    recent: &Vec<RecentProject>,
    path: &str,
    name: &str,
    now: String,
) -> (r: Vec<RecentProject>)
    ensures
        recents_view(r@) == spec_add_recent(recents_view(recent@), path@, name@, now@),
{
    let ghost rs = recents_view(recent@);
    let ghost entry = RecentModel { path: path@, name: name@, last_opened: now@, thumbnail: None };
    let mut out: Vec<RecentProject> = Vec::new();
    out.push(
        RecentProject {
            path: String::from_str(path),
            name: String::from_str(name),
            last_opened: now,
            thumbnail: None,
        },
    );
    let n = recent.len();
    let mut i: usize = 0;
    while i < n
        invariant
            i <= n,
            n == recent@.len(),
            rs == recents_view(recent@),
            rs.len() == n,
            forall|j: int| 0 <= j < n ==> rs[j] == recent@[j]@,
            out@.len() == 1 + spec_keep_others(rs, path@, i as int).len(),
            out@[0]@ == entry,
            forall|j: int| 1 <= j < out@.len() ==> out@[j]@ == spec_keep_others(
                rs,
                path@,
                i as int,
            )[j - 1],
        decreases n - i,
    {
        let e = &recent[i];
        if !string_eq(&e.path, path) {
            out.push(
                RecentProject {
                    path: e.path.clone(),
                    name: e.name.clone(),
                    last_opened: e.last_opened.clone(),
                    thumbnail: match &e.thumbnail {
                        Some(t) => Some(t.clone()),
                        None => None,
                    },
                },
            );
            proof {
                assert(rs[i as int].path != path@);
                assert(out@[out@.len() - 1]@ == rs[i as int]);
                assert(spec_keep_others(rs, path@, i + 1) == spec_keep_others(
                    rs,
                    path@,
                    i as int,
                ).push(rs[i as int]));
            }
        } else {
            proof {
                assert(spec_keep_others(rs, path@, i + 1) == spec_keep_others(
                    rs,
                    path@,
                    i as int,
                ));
            }
        }
        i = i + 1;
    }
    proof {
        assert(recents_view(out@) =~~= seq![entry] + spec_keep_others(rs, path@, n as int));
    }
    out.truncate(10);
    proof {
        let all = seq![entry] + spec_keep_others(rs, path@, rs.len() as int);
        if all.len() > 10 {
            assert(recents_view(out@) =~~= all.take(10));
        } else {
            assert(recents_view(out@) =~~= all);
        }
    }
    out
}

/// Drop a project from the recent list by path; every other entry keeps
/// its place.
pub fn remove_recent_project(recent: &Vec<RecentProject>, path: &str) -> (r: Vec<RecentProject>)
    ensures
        recents_view(r@) == spec_keep_others(
            recents_view(recent@),
            path@,
            recent@.len() as int,
        ),
{
    let ghost rs = recents_view(recent@);
    let mut out: Vec<RecentProject> = Vec::new();
    let n = recent.len();
    let mut i: usize = 0;
    while i < n
        invariant
            i <= n,
            n == recent@.len(),
            rs == recents_view(recent@),
            rs.len() == n,
            forall|j: int| 0 <= j < n ==> rs[j] == recent@[j]@,
            recents_view(out@) =~= spec_keep_others(rs, path@, i as int),
        decreases n - i,
    {
        let e = &recent[i];
        if !string_eq(&e.path, path) {
            out.push(
                RecentProject {
                    path: e.path.clone(),
                    name: e.name.clone(),
                    last_opened: e.last_opened.clone(),
                    thumbnail: match &e.thumbnail {
                        Some(t) => Some(t.clone()),
                        None => None,
                    },
                },
            );
        }
        proof {
            assert(recents_view(out@) =~= spec_keep_others(rs, path@, i + 1));
        }
        i = i + 1;
    }
    out
}

/// Index of the first occurrence of `c` at or after `i`, or `-1`.
pub open spec fn spec_find_from(s: Seq<char>, c: char, i: int) -> int
    decreases s.len() - i,
{
    if i < 0 || i >= s.len() {
        -1
    } else if s[i] == c {
        i
    } else {
        spec_find_from(s, c, i + 1)
    }
}

/// Index of the last occurrence of `c` at or before `i`, or `-1`.
pub open spec fn spec_rfind_upto(s: Seq<char>, c: char, i: int) -> int
    decreases i + 1,
{
    if i < 0 || i >= s.len() {
        -1
    } else if s[i] == c {
        i
    } else {
        spec_rfind_upto(s, c, i - 1)
    }
}

/// The span of the JSON array inside a model response, as character
/// positions: from the first `'['` (or the start, if there is none) to
/// just after the last `']'` (or the end, if there is none past the
/// opening bracket).
pub open spec fn spec_json_array_span(s: Seq<char>) -> (int, int) {
    let start = spec_find_from(s, '[', 0);
    if start < 0 {
        (0, s.len() as int)
    } else {
        let end = spec_rfind_upto(s, ']', s.len() - 1);
        if end < start {
            (start, s.len() as int)
        } else {
            (start, end + 1)
        }
    }
}

/// Index of the first occurrence of `c` in `s`, if any.
fn find_char(s: &str, c: char) -> (r: Option<usize>)
    ensures
        match r {
            Some(k) => k < s@.len() && spec_find_from(s@, c, 0) == k,
            None => spec_find_from(s@, c, 0) == -1,
        },
{
    let n = s.unicode_len();
    let mut i: usize = 0;
    while i < n
        invariant
            i <= n,
            n == s@.len(),
            forall|j: int| 0 <= j < i ==> s@[j] != c,
        decreases n - i,
    {
        if s.get_char(i) == c {
            proof {
                lemma_find_from(s@, c, 0);
                let f = spec_find_from(s@, c, 0);
                if f == -1 {
                    assert(s@[i as int] != c);
                    assert(false);
                } else if f < i {
                    assert(s@[f] != c);
                    assert(false);
                } else if f > i {
                    assert(s@[i as int] != c);
                    assert(false);
                }
            }
            return Some(i);
        }
        i = i + 1;
    }
    proof {
        lemma_find_from(s@, c, 0);
        let f = spec_find_from(s@, c, 0);
        if f >= 0 {
            assert(s@[f] != c);
            assert(false);
        }
    }
    None
}

/// Index of the last occurrence of `c` in `s`, if any.
fn rfind_char(s: &str, c: char) -> (r: Option<usize>)
    ensures
        match r {
            Some(k) => k < s@.len() && spec_rfind_upto(s@, c, s@.len() - 1) == k,
            None => spec_rfind_upto(s@, c, s@.len() - 1) == -1,
        },
{
    let n = s.unicode_len();
    let mut j: usize = n;
    while j > 0
        invariant
            j <= n,
            n == s@.len(),
            forall|k: int| j <= k < n ==> s@[k] != c,
        decreases j,
    {
        j = j - 1;
        if s.get_char(j) == c {
            proof {
                lemma_rfind_upto(s@, c, n as int - 1);
                let f = spec_rfind_upto(s@, c, n as int - 1);
                if f == -1 {
                    assert(s@[j as int] != c);
                    assert(false);
                } else if f < j {
                    assert(s@[j as int] != c);
                    assert(false);
                } else if f > j {
                    assert(s@[f] != c);
                    assert(false);
                }
            }
            return Some(j);
        }
    }
    proof {
        lemma_rfind_upto(s@, c, n as int - 1);
        let f = spec_rfind_upto(s@, c, n as int - 1);
        if f >= 0 {
            assert(s@[f] != c);
            assert(false);
        }
    }
    None
}

/// Extract the JSON array embedded in a model response: the text from the
/// first `'['` through the last `']'`, or the whole text where no such
/// span is found.  The caller parses the result as JSON.
pub fn extract_json_array(response: &str) -> (r: String)
    ensures
        r@ == response@.subrange(
            spec_json_array_span(response@).0,
            spec_json_array_span(response@).1,
        ),
{
    let n = response.unicode_len();
    let start: usize = match find_char(response, '[') {
        Some(k) => k,
        None => {
            let r = String::from_str(response);
            proof {
                assert(r@ =~= response@.subrange(0, n as int));
            }
            return r;
        },
    };
    let end_excl: usize = match rfind_char(response, ']') {
        Some(j) => {
            if j >= start {
                j + 1
            } else {
                n
            }
        },
        None => n,
    };
    let piece = response.substring_char(start, end_excl);
    String::from_str(piece)
}

/// What `spec_find_from` finds is the first occurrence, and only that.
pub proof fn lemma_find_from(s: Seq<char>, c: char, i: int)
    requires
        0 <= i <= s.len(),
    ensures
        -1 <= spec_find_from(s, c, i) < s.len(),
        spec_find_from(s, c, i) == -1 ==> forall|j: int| i <= j < s.len() ==> s[j] != c,
        spec_find_from(s, c, i) >= 0 ==> {
            &&& i <= spec_find_from(s, c, i) < s.len()
            &&& s[spec_find_from(s, c, i)] == c
            &&& forall|j: int| i <= j < spec_find_from(s, c, i) ==> s[j] != c
        },
    decreases s.len() - i,
{
    if i < s.len() && s[i] != c {
        lemma_find_from(s, c, i + 1);
    }
}

/// What `spec_rfind_upto` finds is the last occurrence, and only that.
pub proof fn lemma_rfind_upto(s: Seq<char>, c: char, i: int)
    requires
        -1 <= i < s.len(),
    ensures
        -1 <= spec_rfind_upto(s, c, i) <= i,
        spec_rfind_upto(s, c, i) == -1 ==> forall|j: int| 0 <= j <= i ==> s[j] != c,
        spec_rfind_upto(s, c, i) >= 0 ==> {
            &&& 0 <= spec_rfind_upto(s, c, i) <= i
            &&& s[spec_rfind_upto(s, c, i)] == c
            &&& forall|j: int| spec_rfind_upto(s, c, i) < j <= i ==> s[j] != c
        },
    decreases i + 1,
{
    if 0 <= i && s[i] != c {
        lemma_rfind_upto(s, c, i - 1);
    }
}

/// One entry of a bot's version history, as the listing shows it.
#[derive(Debug, PartialEq, Eq)]
pub struct VersionInfo {
    pub id: String,
    pub timestamp: String,
    pub description: Option<String>,
}

/// The mathematical abstraction of a `VersionInfo`.
#[verifier::ext_equal]
pub ghost struct VersionModel {
    pub id: Seq<char>,
    pub timestamp: Seq<char>,
    pub description: Option<Seq<char>>,
}

impl View for VersionInfo {
    type V = VersionModel;

    open spec fn view(&self) -> VersionModel {
        VersionModel {
            id: self.id@,
            timestamp: self.timestamp@,
            description: opt_str_view(self.description),
        }
    }
}

/// The models of a sequence of version entries.
pub open spec fn versions_view(v: Seq<VersionInfo>) -> Seq<VersionModel> {
    Seq::new(v.len(), |i: int| v[i]@)
}

/// Lexicographic order on character sequences, by code point; total.
pub open spec fn spec_str_le(a: Seq<char>, b: Seq<char>) -> bool
    decreases a.len(),
{
    if a.len() == 0 {
        true
    } else if b.len() == 0 {
        false
    } else if (a[0] as int) < (b[0] as int) {
        true
    } else if (a[0] as int) > (b[0] as int) {
        false
    } else {
        spec_str_le(a.drop_first(), b.drop_first())
    }
}

/// The order is total.
pub proof fn lemma_str_le_total(a: Seq<char>, b: Seq<char>)
    ensures
        spec_str_le(a, b) || spec_str_le(b, a),
    decreases a.len(),
{
    if a.len() > 0 && b.len() > 0 && a[0] == b[0] {
        lemma_str_le_total(a.drop_first(), b.drop_first());
    }
}

/// The order is transitive.
pub proof fn lemma_str_le_trans(a: Seq<char>, b: Seq<char>, c: Seq<char>)
    requires
        spec_str_le(a, b),
        spec_str_le(b, c),
    ensures
        spec_str_le(a, c),
    decreases a.len(),
{
    if a.len() > 0 && b.len() > 0 && c.len() > 0 && a[0] == b[0] && b[0] == c[0] {
        lemma_str_le_trans(a.drop_first(), b.drop_first(), c.drop_first());
    }
}

/// Lexicographic string comparison, specified against the views.
fn str_le(a: &str, b: &str) -> (r: bool)
    ensures
        r == spec_str_le(a@, b@),
{
    let n = a.unicode_len();
    let m = b.unicode_len();
    let mut i: usize = 0;
    proof {
        assert(a@.skip(0) =~= a@);
        assert(b@.skip(0) =~= b@);
    }
    loop
        invariant
            i <= n,
            i <= m,
            n == a@.len(),
            m == b@.len(),
            spec_str_le(a@, b@) == spec_str_le(a@.skip(i as int), b@.skip(i as int)),
        decreases n - i,
    {
        if i >= n {
            proof {
                assert(a@.skip(i as int).len() == 0);
            }
            return true;
        }
        if i >= m {
            proof {
                assert(b@.skip(i as int).len() == 0);
                assert(a@.skip(i as int).len() > 0);
            }
            return false;
        }
        let ca = a.get_char(i);
        let cb = b.get_char(i);
        proof {
            assert(a@.skip(i as int)[0] == a@[i as int]);
            assert(b@.skip(i as int)[0] == b@[i as int]);
        }
        if (ca as u32) < (cb as u32) {
            return true;
        }
        if (ca as u32) > (cb as u32) {
            return false;
        }
        proof {
            assert(a@.skip(i as int).drop_first() =~= a@.skip(i + 1));
            assert(b@.skip(i as int).drop_first() =~= b@.skip(i + 1));
        }
        i = i + 1;
    }
}

/// Whether a version listing runs newest first: every later entry's
/// timestamp is at or below every earlier one's.
pub open spec fn versions_sorted_desc(s: Seq<VersionModel>) -> bool {
    forall|i: int, j: int|
        0 <= i < j < s.len() ==> spec_str_le(#[trigger] s[j].timestamp, #[trigger] s[i].timestamp)
}

/// Sort a bot's version listing newest first: the same entries, in
/// descending timestamp order.
pub fn sort_versions_desc(versions: Vec<VersionInfo>) -> (r: Vec<VersionInfo>)
    ensures
        versions_view(r@).to_multiset() == versions_view(versions@).to_multiset(),
        versions_sorted_desc(versions_view(r@)),
{
    broadcast use vstd::seq_lib::group_to_multiset_ensures;

    let ghost total = versions_view(versions@).to_multiset();
    let mut working = versions;
    let mut out: Vec<VersionInfo> = Vec::new();
    while working.len() > 0
        invariant
            versions_view(out@).to_multiset().add(versions_view(working@).to_multiset())
                == total,
            total == versions_view(versions@).to_multiset(),
            versions_sorted_desc(versions_view(out@)),
            forall|x: int, y: int|
                0 <= x < versions_view(out@).len() && 0 <= y < versions_view(working@).len()
                    ==> spec_str_le(
                    #[trigger] versions_view(working@)[y].timestamp,
                    #[trigger] versions_view(out@)[x].timestamp,
                ),
        decreases working.len(),
    {
        let n = working.len();
        let mut best: usize = 0;
        let mut k: usize = 1;
        proof {
            lemma_str_le_total(
                versions_view(working@)[0].timestamp,
                versions_view(working@)[0].timestamp,
            );
        }
        while k < n
            invariant
                best < k <= n,
                n == working@.len(),
                versions_view(working@).len() == n,
                forall|j: int| 0 <= j < n ==> versions_view(working@)[j] == working@[j]@,
                forall|j: int|
                    0 <= j < k ==> spec_str_le(
                        #[trigger] versions_view(working@)[j].timestamp,
                        versions_view(working@)[best as int].timestamp,
                    ),
            decreases n - k,
        {
            if str_le(working[best].timestamp.as_str(), working[k].timestamp.as_str()) {
                proof {
                    let wm = versions_view(working@);
                    assert forall|j: int| 0 <= j < k + 1 implies spec_str_le(
                        #[trigger] wm[j].timestamp,
                        wm[k as int].timestamp,
                    ) by {
                        if j < k {
                            lemma_str_le_trans(
                                wm[j].timestamp,
                                wm[best as int].timestamp,
                                wm[k as int].timestamp,
                            );
                        } else {
                            lemma_str_le_total(wm[j].timestamp, wm[j].timestamp);
                        }
                    }
                }
                best = k;
            } else {
                proof {
                    let wm = versions_view(working@);
                    lemma_str_le_total(
                        wm[best as int].timestamp,
                        wm[k as int].timestamp,
                    );
                }
            }
            k = k + 1;
        }
        let ghost om = versions_view(out@);
        let ghost wm = versions_view(working@);
        let element = working.remove(best);
        out.push(element);
        proof {
            om.to_multiset_ensures();
            wm.to_multiset_ensures();
            assert(versions_view(working@) =~= wm.remove(best as int));
            assert(versions_view(out@) =~= om.push(wm[best as int]));
            assert(wm.contains(wm[best as int]));
            assert(om.push(wm[best as int]).to_multiset() =~= om.to_multiset().insert(
                wm[best as int],
            ));
            assert(versions_view(out@).to_multiset() =~= om.to_multiset().insert(
                wm[best as int],
            ));
            assert(wm.remove(best as int).to_multiset() =~= wm.to_multiset().remove(
                wm[best as int],
            ));
            assert(versions_view(working@).to_multiset() =~= wm.to_multiset().remove(
                wm[best as int],
            ));
            assert(versions_view(out@).to_multiset().add(
                versions_view(working@).to_multiset(),
            ) =~= om.to_multiset().add(wm.to_multiset()));
            // the extracted entry goes after everything already sorted, and
            // everything still waiting is at or below it
            assert forall|x: int, y: int|
                0 <= x < versions_view(out@).len() && 0 <= y < versions_view(
                    working@,
                ).len() implies spec_str_le(
                #[trigger] versions_view(working@)[y].timestamp,
                #[trigger] versions_view(out@)[x].timestamp,
            ) by {
                let rest = wm.remove(best as int);
                if y < best {
                    assert(rest[y] == wm[y]);
                } else {
                    assert(rest[y] == wm[y + 1]);
                }
                if x < om.len() {
                    assert(versions_view(out@)[x] == om[x]);
                } else {
                    assert(versions_view(out@)[x] == wm[best as int]);
                }
            }
            assert(versions_sorted_desc(versions_view(out@)));
        }
    }
    out
}

/// The project-relative directory of a bot: `bots/` followed by the
/// slugified bot name.
pub fn bot_directory(name: &str) -> (r: String)
    ensures
        r@ == "bots/"@ + slug_of(name@),
{
    let mut s = String::from_str("bots/");
    let slug = slugify(name);
    s.append(slug.as_str());
    s
}

} // verus!
