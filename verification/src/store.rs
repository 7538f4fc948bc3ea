use vstd::prelude::*;
use crate::models::analysis::Analysis;
use crate::models::dataset::Dataset;
use crate::models::dataview::Dataview;
use crate::models::model::Model;
use crate::models::plot::Plot;
use crate::models::project::Project;
use crate::models::project_user_role::{ProjectUserRole, Role};
use crate::models::statistic::Statistic;
use crate::models::user::User;
use crate::models::user_refresh_token::UserRefreshToken;

verus! {

broadcast use vstd::seq_lib::group_seq_properties;

/// No two elements share a key under `f`.
pub open spec fn distinct_by<T>(s: Seq<T>, f: spec_fn(T) -> u64) -> bool {
    forall|i: int, j: int| 0 <= i < j < s.len() ==> f(s[i]) != f(s[j])
}

/// Every element of a filtered sequence comes from the original.
pub proof fn lemma_filter_elements<T>(s: Seq<T>, p: spec_fn(T) -> bool)
    ensures
        forall|i: int| 0 <= i < s.filter(p).len() ==> s.contains(#[trigger] s.filter(p)[i]),
    decreases s.len(),
{
    reveal(Seq::filter);
    if s.len() == 0 {
    } else {
        let t = s.drop_last();
        lemma_filter_elements(t, p);
        assert forall|i: int| 0 <= i < s.filter(p).len() implies s.contains(
            #[trigger] s.filter(p)[i],
        ) by {
            if p(s.last()) && i == s.filter(p).len() - 1 {
                assert(s[s.len() - 1] == s.filter(p)[i]);
            } else {
                assert(t.contains(t.filter(p)[i]));
                let j = choose|j: int| 0 <= j < t.len() && t[j] == t.filter(p)[i];
                assert(s[j] == t.filter(p)[i]);
            }
        }
    }
}

/// Filtering keeps keys distinct.
pub proof fn lemma_filter_distinct_by<T>(s: Seq<T>, p: spec_fn(T) -> bool, f: spec_fn(T) -> u64)
    requires
        distinct_by(s, f),
    ensures
        distinct_by(s.filter(p), f),
    decreases s.len(),
{
    reveal(Seq::filter);
    if s.len() == 0 {
    } else {
        let t = s.drop_last();
        assert(distinct_by(t, f));
        lemma_filter_distinct_by(t, p, f);
        if p(s.last()) {
            lemma_filter_elements(t, p);
            assert forall|i: int, j: int|
                0 <= i < j < s.filter(p).len() implies f(s.filter(p)[i]) != f(
                s.filter(p)[j],
            ) by {
                if j == s.filter(p).len() - 1 {
                    assert(s.filter(p)[i] == t.filter(p)[i]);
                    assert(t.contains(t.filter(p)[i]));
                    let k = choose|k: int| 0 <= k < t.len() && t[k] == t.filter(p)[i];
                    assert(f(s[k]) != f(s[s.len() - 1]));
                }
            }
        }
    }
}

/// One unfolding step of `filter` for a sequence grown on the right.
pub proof fn lemma_filter_push<T>(s: Seq<T>, p: spec_fn(T) -> bool, x: T)
    ensures
        s.push(x).filter(p) == if p(x) {
            s.filter(p).push(x)
        } else {
            s.filter(p)
        },
{
    reveal(Seq::filter);
    assert(s.push(x).drop_last() =~= s);
    assert(s.push(x).last() == x);
}

/// Whether `ids` holds `x`.
pub fn contains_u64(ids: &Vec<u64>, x: u64) -> (r: bool)
    ensures
        r == ids@.contains(x),
{
    let mut i: usize = 0;
    while i < ids.len()
        invariant
            i <= ids@.len(),
            forall|j: int| 0 <= j < i ==> ids@[j] != x,
        decreases ids@.len() - i,
    {
        if ids[i] == x {
            return true;
        }
        i = i + 1;
    }
    false
}

/// The metadata store: one table of rows per entity kind, a monotone
/// identifier counter, and the wall clock that creation stamps are read from.
/// This is the authoritative store of the system; the physical-data store and
/// the blob store are external and reconciled by the garbage collector.
pub struct Store {
    pub users: Vec<User>,
    pub projects: Vec<Project>,
    pub roles: Vec<ProjectUserRole>,
    pub datasets: Vec<Dataset>,
    pub analyses: Vec<Analysis>,
    pub dataviews: Vec<Dataview>,
    pub plots: Vec<Plot>,
    pub statistics: Vec<Statistic>,
    pub models: Vec<Model>,
    pub refresh_tokens: Vec<UserRefreshToken>,
    pub next_id: u64,
    pub clock: u64,
}

pub open spec fn pr_has(s: Seq<Project>, id: u64) -> bool {
    exists|i: int| 0 <= i < s.len() && s[i].uuid == id
}

pub open spec fn pr_idx(s: Seq<Project>, id: u64) -> int {
    choose|i: int| 0 <= i < s.len() && s[i].uuid == id
}

pub open spec fn us_has(s: Seq<User>, id: u64) -> bool {
    exists|i: int| 0 <= i < s.len() && s[i].uuid == id
}

pub open spec fn us_idx(s: Seq<User>, id: u64) -> int {
    choose|i: int| 0 <= i < s.len() && s[i].uuid == id
}

pub open spec fn ds_has(s: Seq<Dataset>, id: u64) -> bool {
    exists|i: int| 0 <= i < s.len() && s[i].uuid == id
}

pub open spec fn ds_idx(s: Seq<Dataset>, id: u64) -> int {
    choose|i: int| 0 <= i < s.len() && s[i].uuid == id
}

pub open spec fn an_has(s: Seq<Analysis>, id: u64) -> bool {
    exists|i: int| 0 <= i < s.len() && s[i].uuid == id
}

pub open spec fn an_idx(s: Seq<Analysis>, id: u64) -> int {
    choose|i: int| 0 <= i < s.len() && s[i].uuid == id
}

pub open spec fn dv_has(s: Seq<Dataview>, id: u64) -> bool {
    exists|i: int| 0 <= i < s.len() && s[i].uuid == id
}

pub open spec fn dv_idx(s: Seq<Dataview>, id: u64) -> int {
    choose|i: int| 0 <= i < s.len() && s[i].uuid == id
}

pub open spec fn pl_has(s: Seq<Plot>, id: u64) -> bool {
    exists|i: int| 0 <= i < s.len() && s[i].uuid == id
}

pub open spec fn pl_idx(s: Seq<Plot>, id: u64) -> int {
    choose|i: int| 0 <= i < s.len() && s[i].uuid == id
}

pub open spec fn st_has(s: Seq<Statistic>, id: u64) -> bool {
    exists|i: int| 0 <= i < s.len() && s[i].uuid == id
}

pub open spec fn st_idx(s: Seq<Statistic>, id: u64) -> int {
    choose|i: int| 0 <= i < s.len() && s[i].uuid == id
}

pub open spec fn mo_has(s: Seq<Model>, id: u64) -> bool {
    exists|i: int| 0 <= i < s.len() && s[i].uuid == id
}

pub open spec fn mo_idx(s: Seq<Model>, id: u64) -> int {
    choose|i: int| 0 <= i < s.len() && s[i].uuid == id
}

pub open spec fn role_has(s: Seq<ProjectUserRole>, project: u64, user: u64) -> bool {
    exists|i: int| 0 <= i < s.len() && s[i].project_uuid == project && s[i].user_uuid == user
}

pub open spec fn role_idx(s: Seq<ProjectUserRole>, project: u64, user: u64) -> int {
    choose|i: int| 0 <= i < s.len() && s[i].project_uuid == project && s[i].user_uuid == user
}

pub open spec fn tok_has(s: Seq<UserRefreshToken>, value: Seq<char>) -> bool {
    exists|i: int| 0 <= i < s.len() && s[i].value@ == value
}

pub open spec fn tok_idx(s: Seq<UserRefreshToken>, value: Seq<char>) -> int {
    choose|i: int| 0 <= i < s.len() && s[i].value@ == value
}

/// Every non-root dataview's parent stands earlier in the table and belongs
/// to the same analysis; chains of parents therefore always end in a root.
pub open spec fn parent_earlier(s: Seq<Dataview>) -> bool {
    forall|i: int|
        0 <= i < s.len() ==> (#[trigger] s[i].is_root() || (exists|j: int|
            0 <= j < i && (#[trigger] s[j].uuid) == s[i].parent_uuid && s[j].analysis_uuid
                == s[i].analysis_uuid))
}

/// Filtering the dataview table keeps parents before children, as long as the
/// survivor set is closed upward: a survivor's parent survives.
#[verifier::rlimit(100)]
pub proof fn lemma_filter_parent_earlier(s: Seq<Dataview>, p: spec_fn(Dataview) -> bool)
    requires
        parent_earlier(s),
        distinct_by(s, |d: Dataview| d.uuid),
        forall|i: int, j: int|
            #![trigger s[i].parent_uuid, s[j].uuid]
            (0 <= i < s.len() && 0 <= j < s.len() && !s[i].is_root() && s[j].uuid
                == s[i].parent_uuid && p(s[i])) ==> p(s[j]),
    ensures
        parent_earlier(s.filter(p)),
    decreases s.len(),
{
    broadcast use vstd::seq_lib::group_filter_ensures;

    reveal(Seq::filter);
    if s.len() == 0 {
    } else {
        let t = s.drop_last();
        assert(parent_earlier(t)) by {
            assert forall|i: int| 0 <= i < t.len() implies (#[trigger] t[i].is_root() || (
            exists|j: int|
                0 <= j < i && (#[trigger] t[j].uuid) == t[i].parent_uuid && t[j].analysis_uuid
                    == t[i].analysis_uuid)) by {
                assert(t[i] == s[i]);
                if !s[i].is_root() {
                    let j = choose|j: int|
                        0 <= j < i && (#[trigger] s[j].uuid) == s[i].parent_uuid
                            && s[j].analysis_uuid == s[i].analysis_uuid;
                    assert(t[j] == s[j]);
                }
            }
        }
        lemma_filter_parent_earlier(t, p);
        if p(s.last()) {
            let f = s.filter(p);
            let ft = t.filter(p);
            assert(f == ft.push(s.last()));
            assert forall|i: int| 0 <= i < f.len() implies (#[trigger] f[i].is_root() || (
            exists|j: int|
                0 <= j < i && (#[trigger] f[j].uuid) == f[i].parent_uuid && f[j].analysis_uuid
                    == f[i].analysis_uuid)) by {
                if i < f.len() - 1 {
                    assert(f[i] == ft[i]);
                    if !ft[i].is_root() {
                        let j = choose|j: int|
                            0 <= j < i && (#[trigger] ft[j].uuid) == ft[i].parent_uuid
                                && ft[j].analysis_uuid == ft[i].analysis_uuid;
                        assert(f[j] == ft[j]);
                    }
                } else {
                    let x = s.last();
                    assert(f[i] == x);
                    if !x.is_root() {
                        assert(0 <= s.len() - 1 < s.len());
                        assert(s[s.len() - 1].is_root() == x.is_root());
                        let j = choose|j: int|
                            0 <= j < s.len() - 1 && (#[trigger] s[j].uuid) == x.parent_uuid
                                && s[j].analysis_uuid == x.analysis_uuid;
                        assert(s[s.len() - 1] == x);
                        assert(p(s[j]));
                        assert(t[j] == s[j]);
                        assert(0 <= j < t.len() && p(t[j]));
                        assert(ft.contains(t[j]));
                        let k = choose|k: int| 0 <= k < ft.len() && ft[k] == t[j];
                        assert(f[k] == s[j]);
                        assert(0 <= k < i && f[k].uuid == f[i].parent_uuid && f[k].analysis_uuid
                            == f[i].analysis_uuid);
                    }
                }
            }
        }
    }
}

/// Empties a table, handing its rows back.
pub fn take_vec<T>(v: &mut Vec<T>) -> (r: Vec<T>)
    ensures
        r@ == old(v)@,
        final(v)@.len() == 0,
{
    let mut tmp: Vec<T> = Vec::new();
    core::mem::swap(v, &mut tmp);
    tmp
}

/// The project that a project has under it: itself.
pub open spec fn project_of_project(s: Store, id: u64) -> Option<u64> {
    if pr_has(s.projects@, id) {
        Some(id)
    } else {
        None
    }
}

/// The project owning a dataset.
pub open spec fn project_of_dataset(s: Store, id: u64) -> Option<u64> {
    if ds_has(s.datasets@, id) {
        Some(s.datasets@[ds_idx(s.datasets@, id)].project_uuid)
    } else {
        None
    }
}

/// The project owning an analysis, through its dataset.
pub open spec fn project_of_analysis(s: Store, id: u64) -> Option<u64> {
    if an_has(s.analyses@, id) {
        project_of_dataset(s, s.analyses@[an_idx(s.analyses@, id)].dataset_uuid)
    } else {
        None
    }
}

/// The project owning a dataview, through its analysis.
pub open spec fn project_of_dataview(s: Store, id: u64) -> Option<u64> {
    if dv_has(s.dataviews@, id) {
        project_of_analysis(s, s.dataviews@[dv_idx(s.dataviews@, id)].analysis_uuid)
    } else {
        None
    }
}

pub open spec fn project_of_plot(s: Store, id: u64) -> Option<u64> {
    if pl_has(s.plots@, id) {
        project_of_dataview(s, s.plots@[pl_idx(s.plots@, id)].dataview_uuid)
    } else {
        None
    }
}

pub open spec fn project_of_statistic(s: Store, id: u64) -> Option<u64> {
    if st_has(s.statistics@, id) {
        project_of_dataview(s, s.statistics@[st_idx(s.statistics@, id)].dataview_uuid)
    } else {
        None
    }
}

pub open spec fn project_of_model(s: Store, id: u64) -> Option<u64> {
    if mo_has(s.models@, id) {
        project_of_dataview(s, s.models@[mo_idx(s.models@, id)].dataview_uuid)
    } else {
        None
    }
}

/// The role stored for a user on a project, if a row exists.
pub open spec fn stored_role(s: Store, project: u64, user: u64) -> Option<Role> {
    if role_has(s.roles@, project, user) {
        Some(s.roles@[role_idx(s.roles@, project, user)].role)
    } else {
        None
    }
}

impl Store {
    pub open spec fn users_ok(self) -> bool {
        &&& distinct_by(self.users@, |u: User| u.uuid)
        &&& (forall|i: int, j: int|
            0 <= i < j < self.users@.len() ==> self.users@[i].email@ != self.users@[j].email@)
        &&& (forall|i: int| 0 <= i < self.users@.len() ==> #[trigger] self.users@[i].uuid < self.next_id)
    }

    pub open spec fn projects_ok(self) -> bool {
        &&& distinct_by(self.projects@, |p: Project| p.uuid)
        &&& (forall|i: int|
            0 <= i < self.projects@.len() ==> #[trigger] self.projects@[i].uuid < self.next_id)
    }

    pub open spec fn roles_ok(self) -> bool {
        &&& (forall|i: int, j: int|
            0 <= i < j < self.roles@.len() ==> !(self.roles@[i].project_uuid
                == self.roles@[j].project_uuid && self.roles@[i].user_uuid
                == self.roles@[j].user_uuid))
        &&& (forall|i: int|
            0 <= i < self.roles@.len() ==> pr_has(
                self.projects@,
                #[trigger] self.roles@[i].project_uuid,
            ))
        &&& (forall|i: int|
            0 <= i < self.roles@.len() ==> us_has(self.users@, #[trigger] self.roles@[i].user_uuid))
    }

    pub open spec fn datasets_ok(self) -> bool {
        &&& distinct_by(self.datasets@, |d: Dataset| d.uuid)
        &&& (forall|i: int|
            0 <= i < self.datasets@.len() ==> pr_has(
                self.projects@,
                #[trigger] self.datasets@[i].project_uuid,
            ))
        &&& (forall|i: int|
            0 <= i < self.datasets@.len() ==> #[trigger] self.datasets@[i].uuid < self.next_id)
    }

    pub open spec fn analyses_ok(self) -> bool {
        &&& distinct_by(self.analyses@, |a: Analysis| a.uuid)
        &&& (forall|i: int|
            0 <= i < self.analyses@.len() ==> ds_has(
                self.datasets@,
                #[trigger] self.analyses@[i].dataset_uuid,
            ))
        &&& (forall|i: int|
            0 <= i < self.analyses@.len() ==> dv_has(
                self.dataviews@,
                #[trigger] self.analyses@[i].dataview_uuid,
            ) && self.dataviews@[dv_idx(self.dataviews@, self.analyses@[i].dataview_uuid)].analysis_uuid
                == self.analyses@[i].uuid)
        &&& (forall|i: int|
            0 <= i < self.analyses@.len() ==> #[trigger] self.analyses@[i].uuid < self.next_id)
    }

    pub open spec fn dataviews_ok(self) -> bool {
        &&& distinct_by(self.dataviews@, |d: Dataview| d.uuid)
        &&& (forall|i: int|
            0 <= i < self.dataviews@.len() ==> an_has(
                self.analyses@,
                #[trigger] self.dataviews@[i].analysis_uuid,
            ))
        &&& parent_earlier(self.dataviews@)
        &&& (forall|i: int, j: int|
            0 <= i < self.dataviews@.len() && 0 <= j < self.dataviews@.len()
                && self.dataviews@[i].is_root() && self.dataviews@[j].is_root()
                && self.dataviews@[i].analysis_uuid == self.dataviews@[j].analysis_uuid ==> i == j)
        &&& (forall|i: int|
            0 <= i < self.dataviews@.len() ==> #[trigger] self.dataviews@[i].uuid < self.next_id)
    }

    pub open spec fn artifacts_ok(self) -> bool {
        &&& distinct_by(self.plots@, |p: Plot| p.uuid)
        &&& (forall|i: int|
            0 <= i < self.plots@.len() ==> dv_has(
                self.dataviews@,
                #[trigger] self.plots@[i].dataview_uuid,
            ))
        &&& (forall|i: int| 0 <= i < self.plots@.len() ==> #[trigger] self.plots@[i].uuid < self.next_id)
        &&& distinct_by(self.statistics@, |p: Statistic| p.uuid)
        &&& (forall|i: int|
            0 <= i < self.statistics@.len() ==> dv_has(
                self.dataviews@,
                #[trigger] self.statistics@[i].dataview_uuid,
            ))
        &&& (forall|i: int|
            0 <= i < self.statistics@.len() ==> #[trigger] self.statistics@[i].uuid < self.next_id)
        &&& distinct_by(self.models@, |p: Model| p.uuid)
        &&& (forall|i: int|
            0 <= i < self.models@.len() ==> dv_has(
                self.dataviews@,
                #[trigger] self.models@[i].dataview_uuid,
            ))
        &&& (forall|i: int|
            0 <= i < self.models@.len() ==> #[trigger] self.models@[i].uuid < self.next_id)
    }

    pub open spec fn tokens_ok(self) -> bool {
        &&& (forall|i: int, j: int|
            0 <= i < j < self.refresh_tokens@.len() ==> self.refresh_tokens@[i].value@
                != self.refresh_tokens@[j].value@)
        &&& (forall|i: int|
            0 <= i < self.refresh_tokens@.len() ==> us_has(
                self.users@,
                #[trigger] self.refresh_tokens@[i].user_uuid,
            ))
    }

    /// Well-formedness of the whole store: identifiers unique and below the
    /// counter, every row's owner present, and the dataview forest shaped as
    /// trees whose parents precede their children.
    pub open spec fn wf(self) -> bool {
        &&& self.users_ok()
        &&& self.projects_ok()
        &&& self.roles_ok()
        &&& self.datasets_ok()
        &&& self.analyses_ok()
        &&& self.dataviews_ok()
        &&& self.artifacts_ok()
        &&& self.tokens_ok()
    }

    /// A fresh, empty store.
    pub fn new() -> (r: Store)
        ensures
            r.wf(),
            r.users@.len() == 0,
            r.projects@.len() == 0,
            r.roles@.len() == 0,
            r.datasets@.len() == 0,
            r.analyses@.len() == 0,
            r.dataviews@.len() == 0,
            r.plots@.len() == 0,
            r.statistics@.len() == 0,
            r.models@.len() == 0,
            r.refresh_tokens@.len() == 0,
            r.next_id == 0,
            r.clock == 0,
    {
        Store {
            users: Vec::new(),
            projects: Vec::new(),
            roles: Vec::new(),
            datasets: Vec::new(),
            analyses: Vec::new(),
            dataviews: Vec::new(),
            plots: Vec::new(),
            statistics: Vec::new(),
            models: Vec::new(),
            refresh_tokens: Vec::new(),
            next_id: 0,
            clock: 0,
        }
    }

    /// Sets the wall clock that creation and update stamps are read from.
    pub fn set_clock(&mut self, now: u64)
        ensures
            *final(self) == (Store { clock: now, ..*old(self) }),
    {
        self.clock = now;
    }

    pub fn user_index(&self, uuid: u64) -> (r: Option<usize>)
        ensures
            (match r {
                Some(i) => i < self.users@.len() && self.users@[i as int].uuid == uuid,
                None => !us_has(self.users@, uuid),
            }),
    {
        let mut i: usize = 0;
        while i < self.users.len()
            invariant
                i <= self.users@.len(),
                forall|j: int| 0 <= j < i ==> self.users@[j].uuid != uuid,
            decreases self.users@.len() - i,
        {
            if self.users[i].uuid == uuid {
                return Some(i);
            }
            i = i + 1;
        }
        None
    }

    pub fn user_index_by_email(&self, email: &String) -> (r: Option<usize>)
        ensures
            (match r {
                Some(i) => i < self.users@.len() && self.users@[i as int].email@ == email@,
                None => forall|j: int|
                    0 <= j < self.users@.len() ==> self.users@[j].email@ != email@,
            }),
    {
        let mut i: usize = 0;
        while i < self.users.len()
            invariant
                i <= self.users@.len(),
                forall|j: int| 0 <= j < i ==> self.users@[j].email@ != email@,
            decreases self.users@.len() - i,
        {
            if self.users[i].email == *email {
                return Some(i);
            }
            i = i + 1;
        }
        None
    }

    pub fn project_index(&self, uuid: u64) -> (r: Option<usize>)
        ensures
            (match r {
                Some(i) => i < self.projects@.len() && self.projects@[i as int].uuid == uuid,
                None => !pr_has(self.projects@, uuid),
            }),
    {
        let mut i: usize = 0;
        while i < self.projects.len()
            invariant
                i <= self.projects@.len(),
                forall|j: int| 0 <= j < i ==> self.projects@[j].uuid != uuid,
            decreases self.projects@.len() - i,
        {
            if self.projects[i].uuid == uuid {
                return Some(i);
            }
            i = i + 1;
        }
        None
    }

    pub fn dataset_index(&self, uuid: u64) -> (r: Option<usize>)
        ensures
            (match r {
                Some(i) => i < self.datasets@.len() && self.datasets@[i as int].uuid == uuid,
                None => !ds_has(self.datasets@, uuid),
            }),
    {
        let mut i: usize = 0;
        while i < self.datasets.len()
            invariant
                i <= self.datasets@.len(),
                forall|j: int| 0 <= j < i ==> self.datasets@[j].uuid != uuid,
            decreases self.datasets@.len() - i,
        {
            if self.datasets[i].uuid == uuid {
                return Some(i);
            }
            i = i + 1;
        }
        None
    }

    pub fn analysis_index(&self, uuid: u64) -> (r: Option<usize>)
        ensures
            (match r {
                Some(i) => i < self.analyses@.len() && self.analyses@[i as int].uuid == uuid,
                None => !an_has(self.analyses@, uuid),
            }),
    {
        let mut i: usize = 0;
        while i < self.analyses.len()
            invariant
                i <= self.analyses@.len(),
                forall|j: int| 0 <= j < i ==> self.analyses@[j].uuid != uuid,
            decreases self.analyses@.len() - i,
        {
            if self.analyses[i].uuid == uuid {
                return Some(i);
            }
            i = i + 1;
        }
        None
    }

    pub fn dataview_index(&self, uuid: u64) -> (r: Option<usize>)
        ensures
            (match r {
                Some(i) => i < self.dataviews@.len() && self.dataviews@[i as int].uuid == uuid,
                None => !dv_has(self.dataviews@, uuid),
            }),
    {
        let mut i: usize = 0;
        while i < self.dataviews.len()
            invariant
                i <= self.dataviews@.len(),
                forall|j: int| 0 <= j < i ==> self.dataviews@[j].uuid != uuid,
            decreases self.dataviews@.len() - i,
        {
            if self.dataviews[i].uuid == uuid {
                return Some(i);
            }
            i = i + 1;
        }
        None
    }

    pub fn plot_index(&self, uuid: u64) -> (r: Option<usize>)
        ensures
            (match r {
                Some(i) => i < self.plots@.len() && self.plots@[i as int].uuid == uuid,
                None => !pl_has(self.plots@, uuid),
            }),
    {
        let mut i: usize = 0;
        while i < self.plots.len()
            invariant
                i <= self.plots@.len(),
                forall|j: int| 0 <= j < i ==> self.plots@[j].uuid != uuid,
            decreases self.plots@.len() - i,
        {
            if self.plots[i].uuid == uuid {
                return Some(i);
            }
            i = i + 1;
        }
        None
    }

    pub fn statistic_index(&self, uuid: u64) -> (r: Option<usize>)
        ensures
            (match r {
                Some(i) => i < self.statistics@.len() && self.statistics@[i as int].uuid == uuid,
                None => !st_has(self.statistics@, uuid),
            }),
    {
        let mut i: usize = 0;
        while i < self.statistics.len()
            invariant
                i <= self.statistics@.len(),
                forall|j: int| 0 <= j < i ==> self.statistics@[j].uuid != uuid,
            decreases self.statistics@.len() - i,
        {
            if self.statistics[i].uuid == uuid {
                return Some(i);
            }
            i = i + 1;
        }
        None
    }

    pub fn model_index(&self, uuid: u64) -> (r: Option<usize>)
        ensures
            (match r {
                Some(i) => i < self.models@.len() && self.models@[i as int].uuid == uuid,
                None => !mo_has(self.models@, uuid),
            }),
    {
        let mut i: usize = 0;
        while i < self.models.len()
            invariant
                i <= self.models@.len(),
                forall|j: int| 0 <= j < i ==> self.models@[j].uuid != uuid,
            decreases self.models@.len() - i,
        {
            if self.models[i].uuid == uuid {
                return Some(i);
            }
            i = i + 1;
        }
        None
    }

    pub fn role_index(&self, project: u64, user: u64) -> (r: Option<usize>)
        ensures
            (match r {
                Some(i) => i < self.roles@.len() && self.roles@[i as int].project_uuid == project
                    && self.roles@[i as int].user_uuid == user,
                None => !role_has(self.roles@, project, user),
            }),
    {
        let mut i: usize = 0;
        while i < self.roles.len()
            invariant
                i <= self.roles@.len(),
                forall|j: int|
                    0 <= j < i ==> !(self.roles@[j].project_uuid == project
                        && self.roles@[j].user_uuid == user),
            decreases self.roles@.len() - i,
        {
            if self.roles[i].project_uuid == project && self.roles[i].user_uuid == user {
                return Some(i);
            }
            i = i + 1;
        }
        None
    }

    pub fn token_index(&self, value: &String) -> (r: Option<usize>)
        ensures
            (match r {
                Some(i) => i < self.refresh_tokens@.len() && self.refresh_tokens@[i as int].value@
                    == value@,
                None => !tok_has(self.refresh_tokens@, value@),
            }),
    {
        let mut i: usize = 0;
        while i < self.refresh_tokens.len()
            invariant
                i <= self.refresh_tokens@.len(),
                forall|j: int| 0 <= j < i ==> self.refresh_tokens@[j].value@ != value@,
            decreases self.refresh_tokens@.len() - i,
        {
            if self.refresh_tokens[i].value == *value {
                return Some(i);
            }
            i = i + 1;
        }
        None
    }
}


/// Two filters agree when their predicates agree on every element.
pub proof fn lemma_filter_ext<T>(s: Seq<T>, p1: spec_fn(T) -> bool, p2: spec_fn(T) -> bool)
    requires
        forall|i: int| 0 <= i < s.len() ==> p1(#[trigger] s[i]) == p2(s[i]),
    ensures
        s.filter(p1) == s.filter(p2),
    decreases s.len(),
{
    reveal(Seq::filter);
    if s.len() > 0 {
        let t = s.drop_last();
        lemma_filter_ext(t, p1, p2);
        assert(p1(s.last()) == p2(s.last()));
    }
}

/// A surviving dataset keeps its row: looking an identifier up in a filtered
/// table finds the same row as in the original.
pub proof fn lemma_ds_lookup(s: Seq<Dataset>, p: spec_fn(Dataset) -> bool, id: u64)
    requires
        distinct_by(s, |d: Dataset| d.uuid),
        ds_has(s.filter(p), id),
    ensures
        ds_has(s, id),
        s.filter(p)[ds_idx(s.filter(p), id)] == s[ds_idx(s, id)],
{
    lemma_filter_elements(s, p);
    let t = s.filter(p);
    let i = ds_idx(t, id);
    assert(0 <= i < t.len() && t[i].uuid == id);
    assert(s.contains(t[i]));
    let j = choose|j: int| 0 <= j < s.len() && s[j] == t[i];
    assert(s[j].uuid == id);
    assert(ds_has(s, id));
    let k = ds_idx(s, id);
    assert(0 <= k < s.len() && s[k].uuid == id);
    assert(s[k] == s[j]);
}

/// The analysis analogue of `lemma_ds_lookup`.
pub proof fn lemma_an_lookup(s: Seq<Analysis>, p: spec_fn(Analysis) -> bool, id: u64)
    requires
        distinct_by(s, |a: Analysis| a.uuid),
        an_has(s.filter(p), id),
    ensures
        an_has(s, id),
        s.filter(p)[an_idx(s.filter(p), id)] == s[an_idx(s, id)],
{
    lemma_filter_elements(s, p);
    let t = s.filter(p);
    let i = an_idx(t, id);
    assert(0 <= i < t.len() && t[i].uuid == id);
    assert(s.contains(t[i]));
    let j = choose|j: int| 0 <= j < s.len() && s[j] == t[i];
    assert(s[j].uuid == id);
    assert(an_has(s, id));
    let k = an_idx(s, id);
    assert(0 <= k < s.len() && s[k].uuid == id);
    assert(s[k] == s[j]);
}

/// The dataview analogue of `lemma_ds_lookup`.
pub proof fn lemma_dv_lookup(s: Seq<Dataview>, p: spec_fn(Dataview) -> bool, id: u64)
    requires
        distinct_by(s, |d: Dataview| d.uuid),
        dv_has(s.filter(p), id),
    ensures
        dv_has(s, id),
        s.filter(p)[dv_idx(s.filter(p), id)] == s[dv_idx(s, id)],
{
    lemma_filter_elements(s, p);
    let t = s.filter(p);
    let i = dv_idx(t, id);
    assert(0 <= i < t.len() && t[i].uuid == id);
    assert(s.contains(t[i]));
    let j = choose|j: int| 0 <= j < s.len() && s[j] == t[i];
    assert(s[j].uuid == id);
    assert(dv_has(s, id));
    let k = dv_idx(s, id);
    assert(0 <= k < s.len() && s[k].uuid == id);
    assert(s[k] == s[j]);
}


/// A member of a filtered sequence, traced back to its source index.
pub proof fn lemma_filter_member_src<T>(s: Seq<T>, p: spec_fn(T) -> bool, i: int) -> (j: int)
    requires
        0 <= i < s.filter(p).len(),
    ensures
        0 <= j < s.len() && s[j] == s.filter(p)[i] && p(s[j]),
{
    broadcast use vstd::seq_lib::group_filter_ensures;

    lemma_filter_elements(s, p);
    assert(s.contains(s.filter(p)[i]));
    let j = choose|j: int| 0 <= j < s.len() && s[j] == s.filter(p)[i];
    assert(p(s.filter(p)[i]));
    j
}

/// Whether `id` names a dataset owned by `project`.
pub open spec fn dataset_under_project(s: Store, project: u64, id: u64) -> bool {
    exists|j: int|
        0 <= j < s.datasets@.len() && (#[trigger] s.datasets@[j].uuid) == id
            && s.datasets@[j].project_uuid == project
}

/// Whether `id` names an analysis owned, through its dataset, by `project`.
pub open spec fn analysis_under_project(s: Store, project: u64, id: u64) -> bool {
    exists|j: int|
        0 <= j < s.analyses@.len() && (#[trigger] s.analyses@[j].uuid) == id
            && dataset_under_project(s, project, s.analyses@[j].dataset_uuid)
}

/// Whether `id` names a dataview owned, through its analysis, by `project`.
pub open spec fn dataview_under_project(s: Store, project: u64, id: u64) -> bool {
    exists|j: int|
        0 <= j < s.dataviews@.len() && (#[trigger] s.dataviews@[j].uuid) == id
            && analysis_under_project(s, project, s.dataviews@[j].analysis_uuid)
}


/// Whether `id` names an analysis owned by dataset `ds`.
pub open spec fn analysis_under_dataset(s: Store, ds: u64, id: u64) -> bool {
    exists|j: int|
        0 <= j < s.analyses@.len() && (#[trigger] s.analyses@[j].uuid) == id
            && s.analyses@[j].dataset_uuid == ds
}

/// Whether `id` names a dataview owned, through its analysis, by dataset `ds`.
pub open spec fn dataview_under_dataset(s: Store, ds: u64, id: u64) -> bool {
    exists|j: int|
        0 <= j < s.dataviews@.len() && (#[trigger] s.dataviews@[j].uuid) == id
            && analysis_under_dataset(s, ds, s.dataviews@[j].analysis_uuid)
}

/// Whether `id` names a dataview owned by analysis `a`.
pub open spec fn dataview_under_analysis(s: Store, a: u64, id: u64) -> bool {
    exists|j: int|
        0 <= j < s.dataviews@.len() && (#[trigger] s.dataviews@[j].uuid) == id
            && s.dataviews@[j].analysis_uuid == a
}


/// Whether `id` names a dataview whose analysis is among `set`.
pub open spec fn dataview_of_analyses(s: Store, set: Seq<u64>, id: u64) -> bool {
    exists|j: int|
        0 <= j < s.dataviews@.len() && (#[trigger] s.dataviews@[j].uuid) == id && set.contains(
            s.dataviews@[j].analysis_uuid,
        )
}

impl Store {
    /// The stored role of `user` on `project`, if any row exists.
    pub fn role_lookup(&self, project: u64, user: u64) -> (r: Option<Role>)
        requires
            self.wf(),
        ensures
            r == stored_role(*self, project, user),
    {
        match self.role_index(project, user) {
            Some(i) => {
                proof {
                    assert(role_has(self.roles@, project, user));
                    let k = role_idx(self.roles@, project, user);
                    assert(self.roles@[k].project_uuid == project && self.roles@[k].user_uuid
                        == user);
                    assert(k == i as int);
                }
                Some(self.roles[i].role)
            },
            None => None,
        }
    }

    /// Removes the given analyses together with all their dataviews and the
    /// artifacts attached to those dataviews, in one step.
    #[verifier::rlimit(100)]
    pub fn purge_analyses(&mut self, dead_an: &Vec<u64>)
        requires
            old(self).wf(),
        ensures
            final(self).wf(),
            final(self).analyses@ == old(self).analyses@.filter(
                crate::retain::analysis_not_among(dead_an@),
            ),
            final(self).dataviews@ == old(self).dataviews@.filter(
                crate::retain::dataview_outside(dead_an@),
            ),
            final(self).plots@ == old(self).plots@.filter(
                (|p: Plot| !dataview_of_analyses(*old(self), dead_an@, p.dataview_uuid)),
            ),
            final(self).statistics@ == old(self).statistics@.filter(
                (|p: Statistic| !dataview_of_analyses(*old(self), dead_an@, p.dataview_uuid)),
            ),
            final(self).models@ == old(self).models@.filter(
                (|p: Model| !dataview_of_analyses(*old(self), dead_an@, p.dataview_uuid)),
            ),
            final(self).users@ == old(self).users@,
            final(self).projects@ == old(self).projects@,
            final(self).roles@ == old(self).roles@,
            final(self).datasets@ == old(self).datasets@,
            final(self).refresh_tokens@ == old(self).refresh_tokens@,
            final(self).next_id == old(self).next_id,
            final(self).clock == old(self).clock,
    {
        let ghost s0 = *old(self);
        let dead_dv = crate::retain::collect_dataviews_of_analyses(&self.dataviews, dead_an);
        proof {
            assert forall|x: u64| #[trigger] dead_dv@.contains(x) <==> dataview_of_analyses(
                s0,
                dead_an@,
                x,
            ) by {}
        }
        let analyses = take_vec(&mut self.analyses);
        self.analyses = crate::retain::retain_analyses_not_among(analyses, dead_an);
        let dataviews = take_vec(&mut self.dataviews);
        self.dataviews = crate::retain::retain_dataviews_outside(dataviews, dead_an);
        let plots = take_vec(&mut self.plots);
        self.plots = crate::retain::retain_plots_outside(plots, &dead_dv);
        let statistics = take_vec(&mut self.statistics);
        self.statistics = crate::retain::retain_statistics_outside(statistics, &dead_dv);
        let models = take_vec(&mut self.models);
        self.models = crate::retain::retain_models_outside(models, &dead_dv);
        proof {
            let s1 = *self;
            lemma_filter_ext(
                s0.plots@,
                crate::retain::plot_outside(dead_dv@),
                (|p: Plot| !dataview_of_analyses(s0, dead_an@, p.dataview_uuid)),
            );
            lemma_filter_ext(
                s0.statistics@,
                crate::retain::statistic_outside(dead_dv@),
                (|p: Statistic| !dataview_of_analyses(s0, dead_an@, p.dataview_uuid)),
            );
            lemma_filter_ext(
                s0.models@,
                crate::retain::model_outside(dead_dv@),
                (|p: Model| !dataview_of_analyses(s0, dead_an@, p.dataview_uuid)),
            );
            lemma_purge_analyses_wf(s0, s1, dead_an@);
        }
    }
}

/// After removing a set of analyses, their dataviews and those dataviews'
/// artifacts, the store is well-formed again.
#[verifier::rlimit(100)]
#[verifier::spinoff_prover]
proof fn lemma_purge_analyses_wf(s0: Store, s1: Store, dead_an: Seq<u64>)
    requires
        s0.wf(),
        s1.analyses@ == s0.analyses@.filter(crate::retain::analysis_not_among(dead_an)),
        s1.dataviews@ == s0.dataviews@.filter(crate::retain::dataview_outside(dead_an)),
        s1.plots@ == s0.plots@.filter(
            (|p: Plot| !dataview_of_analyses(s0, dead_an, p.dataview_uuid)),
        ),
        s1.statistics@ == s0.statistics@.filter(
            (|p: Statistic| !dataview_of_analyses(s0, dead_an, p.dataview_uuid)),
        ),
        s1.models@ == s0.models@.filter(
            (|p: Model| !dataview_of_analyses(s0, dead_an, p.dataview_uuid)),
        ),
        s1.users@ == s0.users@,
        s1.projects@ == s0.projects@,
        s1.roles@ == s0.roles@,
        s1.datasets@ == s0.datasets@,
        s1.refresh_tokens@ == s0.refresh_tokens@,
        s1.next_id == s0.next_id,
    ensures
        s1.wf(),
{
    broadcast use vstd::seq_lib::group_filter_ensures;

    {
            let apred = crate::retain::analysis_not_among(dead_an);
            let vpred = crate::retain::dataview_outside(dead_an);
            let plpred = (|p: Plot| !dataview_of_analyses(s0, dead_an, p.dataview_uuid));
            let stpred = (|p: Statistic| !dataview_of_analyses(s0, dead_an, p.dataview_uuid));
            let mopred = (|p: Model| !dataview_of_analyses(s0, dead_an, p.dataview_uuid));
            lemma_filter_distinct_by(s0.analyses@, apred, |a: Analysis| a.uuid);
            lemma_filter_distinct_by(s0.dataviews@, vpred, |d: Dataview| d.uuid);
            lemma_filter_distinct_by(s0.plots@, plpred, |p: Plot| p.uuid);
            lemma_filter_distinct_by(s0.statistics@, stpred, |p: Statistic| p.uuid);
            lemma_filter_distinct_by(s0.models@, mopred, |p: Model| p.uuid);
            assert forall|i: int| 0 <= i < s1.analyses@.len() implies ds_has(
                s1.datasets@,
                #[trigger] s1.analyses@[i].dataset_uuid,
            ) && s1.analyses@[i].uuid < s1.next_id by {
                let a = lemma_filter_member_src(s0.analyses@, apred, i);
            }
            assert forall|i: int| 0 <= i < s1.analyses@.len() implies dv_has(
                s1.dataviews@,
                #[trigger] s1.analyses@[i].dataview_uuid,
            ) && s1.dataviews@[dv_idx(s1.dataviews@, s1.analyses@[i].dataview_uuid)].analysis_uuid
                == s1.analyses@[i].uuid by {
                let a = lemma_filter_member_src(s0.analyses@, apred, i);
                let row = s0.analyses@[a];
                let k = dv_idx(s0.dataviews@, row.dataview_uuid);
                assert(s0.dataviews@[k].uuid == row.dataview_uuid);
                assert(s0.dataviews@[k].analysis_uuid == row.uuid);
                assert(vpred(s0.dataviews@[k]));
                assert(s1.dataviews@.contains(s0.dataviews@[k]));
                let k2 = choose|k2: int|
                    0 <= k2 < s1.dataviews@.len() && s1.dataviews@[k2] == s0.dataviews@[k];
                assert(s1.dataviews@[k2].uuid == row.dataview_uuid);
                let k3 = dv_idx(s1.dataviews@, row.dataview_uuid);
                assert(s1.dataviews@[k3].uuid == row.dataview_uuid);
                assert(k3 == k2);
            }
            assert forall|i: int| 0 <= i < s1.dataviews@.len() implies an_has(
                s1.analyses@,
                #[trigger] s1.dataviews@[i].analysis_uuid,
            ) && s1.dataviews@[i].uuid < s1.next_id by {
                let a = lemma_filter_member_src(s0.dataviews@, vpred, i);
                let row = s0.dataviews@[a];
                let k = an_idx(s0.analyses@, row.analysis_uuid);
                assert(s0.analyses@[k].uuid == row.analysis_uuid);
                assert(apred(s0.analyses@[k]));
                assert(s1.analyses@.contains(s0.analyses@[k]));
                let k2 = choose|k2: int|
                    0 <= k2 < s1.analyses@.len() && s1.analyses@[k2] == s0.analyses@[k];
                assert(s1.analyses@[k2].uuid == row.analysis_uuid);
            }
            assert(parent_earlier(s1.dataviews@)) by {
                assert forall|i: int, j: int|
                    #![trigger s0.dataviews@[i].parent_uuid, s0.dataviews@[j].uuid]
                    (0 <= i < s0.dataviews@.len() && 0 <= j < s0.dataviews@.len()
                        && !s0.dataviews@[i].is_root() && s0.dataviews@[j].uuid
                        == s0.dataviews@[i].parent_uuid && vpred(s0.dataviews@[i])) implies vpred(
                    s0.dataviews@[j],
                ) by {
                    if dead_an.contains(s0.dataviews@[j].analysis_uuid) {
                        let w = choose|w: int|
                            0 <= w < i && (#[trigger] s0.dataviews@[w].uuid)
                                == s0.dataviews@[i].parent_uuid && s0.dataviews@[w].analysis_uuid
                                == s0.dataviews@[i].analysis_uuid;
                        assert(s0.dataviews@[w] == s0.dataviews@[j]);
                    }
                }
                lemma_filter_parent_earlier(s0.dataviews@, vpred);
            }
            assert forall|i: int, j: int|
                0 <= i < s1.dataviews@.len() && 0 <= j < s1.dataviews@.len()
                    && s1.dataviews@[i].is_root() && s1.dataviews@[j].is_root()
                    && s1.dataviews@[i].analysis_uuid == s1.dataviews@[j].analysis_uuid implies i
                == j by {
                let a = lemma_filter_member_src(s0.dataviews@, vpred, i);
                let b = lemma_filter_member_src(s0.dataviews@, vpred, j);
                assert(s0.dataviews@[a] == s1.dataviews@[i]);
                assert(s0.dataviews@[b] == s1.dataviews@[j]);
                assert(a == b);
                assert(s1.dataviews@[i].uuid == s1.dataviews@[j].uuid);
            }
            assert forall|i: int|
                0 <= i < s1.analyses@.len() implies #[trigger] s1.analyses@[i].uuid
                < s1.next_id by {
                let a = lemma_filter_member_src(s0.analyses@, apred, i);
            }
            assert forall|i: int|
                0 <= i < s1.dataviews@.len() implies #[trigger] s1.dataviews@[i].uuid
                < s1.next_id by {
                let a = lemma_filter_member_src(s0.dataviews@, vpred, i);
            }
            assert forall|i: int|
                0 <= i < s1.plots@.len() implies #[trigger] s1.plots@[i].uuid < s1.next_id by {
                let a = lemma_filter_member_src(s0.plots@, plpred, i);
            }
            assert forall|i: int|
                0 <= i < s1.statistics@.len() implies #[trigger] s1.statistics@[i].uuid
                < s1.next_id by {
                let a = lemma_filter_member_src(s0.statistics@, stpred, i);
            }
            assert forall|i: int|
                0 <= i < s1.models@.len() implies #[trigger] s1.models@[i].uuid < s1.next_id by {
                let a = lemma_filter_member_src(s0.models@, mopred, i);
            }
            assert forall|i: int| 0 <= i < s1.analyses@.len() implies ds_has(
                s1.datasets@,
                #[trigger] s1.analyses@[i].dataset_uuid,
            ) by {
                let a = lemma_filter_member_src(s0.analyses@, apred, i);
            }
            assert forall|i: int| 0 <= i < s1.dataviews@.len() implies an_has(
                s1.analyses@,
                #[trigger] s1.dataviews@[i].analysis_uuid,
            ) by {
                let a = lemma_filter_member_src(s0.dataviews@, vpred, i);
                let row = s0.dataviews@[a];
                let k = an_idx(s0.analyses@, row.analysis_uuid);
                assert(s0.analyses@[k].uuid == row.analysis_uuid);
                assert(apred(s0.analyses@[k]));
                assert(s1.analyses@.contains(s0.analyses@[k]));
                let k2 = choose|k2: int|
                    0 <= k2 < s1.analyses@.len() && s1.analyses@[k2] == s0.analyses@[k];
                assert(s1.analyses@[k2].uuid == row.analysis_uuid);
            }
            assert forall|i: int| 0 <= i < s1.plots@.len() implies dv_has(
                s1.dataviews@,
                #[trigger] s1.plots@[i].dataview_uuid,
            ) by {
                let a = lemma_filter_member_src(s0.plots@, plpred, i);
                let row = s0.plots@[a];
                let k = dv_idx(s0.dataviews@, row.dataview_uuid);
                assert(s0.dataviews@[k].uuid == row.dataview_uuid);
                assert(vpred(s0.dataviews@[k])) by {
                    if dead_an.contains(s0.dataviews@[k].analysis_uuid) {
                        assert(dataview_of_analyses(s0, dead_an, row.dataview_uuid));
                    }
                }
                assert(s1.dataviews@.contains(s0.dataviews@[k]));
                let k2 = choose|k2: int|
                    0 <= k2 < s1.dataviews@.len() && s1.dataviews@[k2] == s0.dataviews@[k];
                assert(s1.dataviews@[k2].uuid == row.dataview_uuid);
            }
            assert forall|i: int| 0 <= i < s1.statistics@.len() implies dv_has(
                s1.dataviews@,
                #[trigger] s1.statistics@[i].dataview_uuid,
            ) by {
                let a = lemma_filter_member_src(s0.statistics@, stpred, i);
                let row = s0.statistics@[a];
                let k = dv_idx(s0.dataviews@, row.dataview_uuid);
                assert(s0.dataviews@[k].uuid == row.dataview_uuid);
                assert(vpred(s0.dataviews@[k])) by {
                    if dead_an.contains(s0.dataviews@[k].analysis_uuid) {
                        assert(dataview_of_analyses(s0, dead_an, row.dataview_uuid));
                    }
                }
                assert(s1.dataviews@.contains(s0.dataviews@[k]));
                let k2 = choose|k2: int|
                    0 <= k2 < s1.dataviews@.len() && s1.dataviews@[k2] == s0.dataviews@[k];
                assert(s1.dataviews@[k2].uuid == row.dataview_uuid);
            }
            assert forall|i: int| 0 <= i < s1.models@.len() implies dv_has(
                s1.dataviews@,
                #[trigger] s1.models@[i].dataview_uuid,
            ) by {
                let a = lemma_filter_member_src(s0.models@, mopred, i);
                let row = s0.models@[a];
                let k = dv_idx(s0.dataviews@, row.dataview_uuid);
                assert(s0.dataviews@[k].uuid == row.dataview_uuid);
                assert(vpred(s0.dataviews@[k])) by {
                    if dead_an.contains(s0.dataviews@[k].analysis_uuid) {
                        assert(dataview_of_analyses(s0, dead_an, row.dataview_uuid));
                    }
                }
                assert(s1.dataviews@.contains(s0.dataviews@[k]));
                let k2 = choose|k2: int|
                    0 <= k2 < s1.dataviews@.len() && s1.dataviews@[k2] == s0.dataviews@[k];
                assert(s1.dataviews@[k2].uuid == row.dataview_uuid);
            }
            assert(s1.wf());
    }
}

} // verus!
