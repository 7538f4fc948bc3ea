use vstd::prelude::*;
use crate::codec::EntityKind;
use crate::error::Error;
use crate::models::analysis::Analysis;
use crate::models::dataset::Dataset;
use crate::models::dataview::Dataview;
use crate::models::plot::Plot;
use crate::models::project::Project;
use crate::models::project_user_role::{ProjectUserRole, Role};
use crate::models::statistic::Statistic;
use crate::models::status::Status;
use crate::models::user::User;
use crate::codec::{spec_token_first_id, token_to_id};
use crate::mutation::{current_user, role_of_chain};
use crate::store::{
    an_has, an_idx, distinct_by, ds_has, ds_idx, dv_has, dv_idx, lemma_filter_push, parent_earlier,
    pl_has, pl_idx, pr_has, pr_idx, project_of_analysis, project_of_dataset, project_of_dataview,
    project_of_model, project_of_plot, project_of_project, project_of_statistic, role_has,
    st_has, st_idx, stored_role, Store,
};

verus! {

/// The project at the top of the ownership chain of an entity, for any
/// addressable kind. Users, role rows and refresh tokens do not hang under a
/// single project.
pub open spec fn project_of(s: Store, kind: EntityKind, id: u64) -> Option<u64> {
    match kind {
        EntityKind::Project => project_of_project(s, id),
        EntityKind::Dataset => project_of_dataset(s, id),
        EntityKind::Analysis => project_of_analysis(s, id),
        EntityKind::Dataview => project_of_dataview(s, id),
        EntityKind::Plot => project_of_plot(s, id),
        EntityKind::Statistic => project_of_statistic(s, id),
        EntityKind::Model => project_of_model(s, id),
        _ => None,
    }
}

/// Whether a principal may read under a project: public projects bypass role
/// checks entirely; otherwise any stored role suffices.
pub open spec fn can_read(s: Store, principal: Option<u64>, project: u64) -> bool {
    ||| (pr_has(s.projects@, project) && s.projects@[pr_idx(s.projects@, project)].is_public)
    ||| (principal matches Some(u) && stored_role(s, project, u) is Some)
}

/// The status that a poll of one entity reports.
pub struct StatusResponse {
    pub typename: String,
    pub id: String,
    pub status: Status,
}

/// The read surface of the core. Reads never mutate the store; the status
/// query is the whole of the job dispatcher's polling interface, since all
/// job state lives in the store.
pub struct Query;

impl Query {
    /// The authenticated caller's own user row.
    pub fn me(&self, store: &Store, principal: Option<u64>) -> (r: Result<User, Error>)
        requires
            store.wf(),
        ensures
            (match r {
                Ok(u) => principal == Some(u.uuid),
                Err(e) => (match e {
                    Error::NotAuthenticated => principal is None,
                    Error::NotFound => principal matches Some(p) && !crate::store::us_has(
                        store.users@,
                        p,
                    ),
                    _ => false,
                }),
            }),
    {
        let caller = match current_user(&principal) {
            Ok(u) => u,
            Err(e) => {
                return Err(Error::NotAuthenticated);
            },
        };
        User::get(store, caller)
    }

    /// The caller's effective role on any entity: one walk up the ownership
    /// chain to the project, then the single stored role row. The answer
    /// depends only on the owning project, never on which entity of the
    /// chain was asked about.
    pub fn role_of(&self, store: &Store, user_uuid: u64, kind: &EntityKind, uuid: u64) -> (r:
        Result<Role, Error>)
        requires
            store.wf(),
        ensures
            (match r {
                Ok(role) => role_of_chain(*store, project_of(*store, *kind, uuid), user_uuid)
                    == Some(role),
                Err(e) => e == Error::NotFound && role_of_chain(
                    *store,
                    project_of(*store, *kind, uuid),
                    user_uuid,
                ) is None,
            }),
    {
        match kind {
            EntityKind::Project => {
                if store.project_index(uuid).is_none() {
                    return Err(Error::NotFound);
                }
                proof {
                    assert(pr_has(store.projects@, uuid));
                }
                match store.role_lookup(uuid, user_uuid) {
                    Some(role) => Ok(role),
                    None => Err(Error::NotFound),
                }
            },
            EntityKind::Dataset => Dataset::role(store, uuid, user_uuid),
            EntityKind::Analysis => Analysis::role(store, uuid, user_uuid),
            EntityKind::Dataview => Dataview::role(store, uuid, user_uuid),
            EntityKind::Plot => Plot::role(store, uuid, user_uuid),
            EntityKind::Statistic => Statistic::role(store, uuid, user_uuid),
            EntityKind::Model => crate::models::model::Model::role(store, uuid, user_uuid),
            _ => Err(Error::NotFound),
        }
    }

    /// The projects on which the caller holds any role.
    pub fn projects(&self, store: &Store, principal: Option<u64>) -> (r: Result<
        Vec<Project>,
        Error,
    >)
        requires
            store.wf(),
        ensures
            (match r {
                Ok(v) => principal matches Some(caller) && v@ == store.projects@.filter(
                    (|p: Project| role_has(store.roles@, p.uuid, caller)),
                ),
                Err(e) => e == Error::NotAuthenticated && principal is None,
            }),
    {
        let caller = match current_user(&principal) {
            Ok(u) => u,
            Err(e) => {
                return Err(Error::NotAuthenticated);
            },
        };
        let ghost pred = (|p: Project| role_has(store.roles@, p.uuid, caller));
        let mut out: Vec<Project> = Vec::new();
        let mut i: usize = 0;
        proof {
            assert(store.projects@.subrange(0, 0) =~= Seq::<Project>::empty());
            assert(Seq::<Project>::empty().filter(pred) =~= Seq::<Project>::empty()) by {
                reveal(Seq::filter);
            }
        }
        while i < store.projects.len()
            invariant
                i <= store.projects@.len(),
                store.wf(),
                pred == (|p: Project| role_has(store.roles@, p.uuid, caller)),
                out@ == store.projects@.subrange(0, i as int).filter(pred),
            decreases store.projects@.len() - i,
        {
            let ghost pre = store.projects@.subrange(0, i as int);
            proof {
                assert(store.projects@.subrange(0, i as int + 1) =~= pre.push(
                    store.projects@[i as int],
                ));
                lemma_filter_push(pre, pred, store.projects@[i as int]);
            }
            if store.role_index(store.projects[i].uuid, caller).is_some() {
                proof {
                    assert(role_has(store.roles@, store.projects@[i as int].uuid, caller));
                }
                out.push(store.projects[i].duplicate());
            } else {
                proof {
                    assert(!role_has(store.roles@, store.projects@[i as int].uuid, caller));
                }
            }
            i = i + 1;
        }
        proof {
            assert(store.projects@.subrange(0, store.projects@.len() as int) =~= store.projects@);
        }
        Ok(out)
    }

    /// The datasets of a project, readable by any role holder or by anyone
    /// when the project is public.
    pub fn datasets(&self, store: &Store, principal: Option<u64>, token: &String) -> (r: Result<
        Vec<Dataset>,
        Error,
    >)
        requires
            store.wf(),
        ensures
            (match r {
                Ok(v) => {
                    &&& spec_token_first_id(token@) matches Some(id)
                    &&& can_read(*store, principal, id)
                    &&& v@ == store.datasets@.filter(
                        (|d: Dataset| d.project_uuid == spec_token_first_id(token@).unwrap()),
                    )
                },
                Err(e) => (match e {
                    Error::InvalidToken => spec_token_first_id(token@) is None,
                    Error::InvalidPermissions => spec_token_first_id(token@) matches Some(id)
                        && !can_read(*store, principal, id),
                    _ => false,
                }),
            }),
    {
        let id = match token_to_id(token) {
            Ok(id) => id,
            Err(e) => {
                return Err(Error::InvalidToken);
            },
        };
        let mut allowed = false;
        match store.project_index(id) {
            Some(i) => {
                if store.projects[i].is_public {
                    proof {
                        assert(pr_has(store.projects@, id));
                        let k = pr_idx(store.projects@, id);
                        assert(store.projects@[k].uuid == id);
                        assert(k == i as int);
                    }
                    allowed = true;
                }
            },
            None => {},
        }
        if !allowed {
            match &principal {
                Some(u) => {
                    if store.role_index(id, *u).is_some() {
                        proof {
                            assert(role_has(store.roles@, id, principal.unwrap()));
                        }
                        allowed = true;
                    }
                },
                None => {},
            }
        }
        if !allowed {
            proof {
                assert(!can_read(*store, principal, id));
            }
            return Err(Error::InvalidPermissions);
        }
        let ghost pred = (|d: Dataset| d.project_uuid == spec_token_first_id(token@).unwrap());
        let mut out: Vec<Dataset> = Vec::new();
        let mut i: usize = 0;
        proof {
            assert(store.datasets@.subrange(0, 0) =~= Seq::<Dataset>::empty());
            assert(Seq::<Dataset>::empty().filter(pred) =~= Seq::<Dataset>::empty()) by {
                reveal(Seq::filter);
            }
        }
        while i < store.datasets.len()
            invariant
                i <= store.datasets@.len(),
                store.wf(),
                spec_token_first_id(token@) == Some(id),
                pred == (|d: Dataset| d.project_uuid == spec_token_first_id(token@).unwrap()),
                out@ == store.datasets@.subrange(0, i as int).filter(pred),
            decreases store.datasets@.len() - i,
        {
            let ghost pre = store.datasets@.subrange(0, i as int);
            proof {
                assert(store.datasets@.subrange(0, i as int + 1) =~= pre.push(
                    store.datasets@[i as int],
                ));
                lemma_filter_push(pre, pred, store.datasets@[i as int]);
            }
            if store.datasets[i].project_uuid == id {
                out.push(store.datasets[i].duplicate());
            }
            i = i + 1;
        }
        proof {
            assert(store.datasets@.subrange(0, store.datasets@.len() as int) =~= store.datasets@);
        }
        Ok(out)
    }

    /// The lineage of an analysis: its single root dataview first, then every
    /// descendant in creation order. Readable by any role holder on the
    /// owning project, or by anyone when that project is public.
    pub fn dataviews(&self, store: &Store, principal: Option<u64>, token: &String) -> (r: Result<
        Vec<Dataview>,
        Error,
    >)
        requires
            store.wf(),
        ensures
            (match r {
                Ok(v) => {
                    &&& spec_token_first_id(token@) matches Some(id)
                    &&& an_has(store.analyses@, id)
                    &&& project_of_analysis(*store, id) matches Some(p) && can_read(
                        *store,
                        principal,
                        p,
                    )
                    &&& v@.len() >= 1
                    &&& v@[0].is_root()
                    &&& v@[0].analysis_uuid == spec_token_first_id(token@).unwrap()
                    &&& store.dataviews@.contains(v@[0])
                    &&& v@.subrange(1, v@.len() as int) == store.dataviews@.filter(
                        (|d: Dataview| d.analysis_uuid == spec_token_first_id(token@).unwrap()
                            && !d.is_root()),
                    )
                },
                Err(e) => (match e {
                    Error::InvalidToken => spec_token_first_id(token@) is None,
                    Error::NotFound => spec_token_first_id(token@) matches Some(id) && !an_has(
                        store.analyses@,
                        id,
                    ),
                    Error::InvalidPermissions => spec_token_first_id(token@) matches Some(id)
                        && project_of_analysis(*store, id) matches Some(p) && !can_read(
                        *store,
                        principal,
                        p,
                    ),
                    _ => false,
                }),
            }),
    {
        let id = match token_to_id(token) {
            Ok(id) => id,
            Err(e) => {
                return Err(Error::InvalidToken);
            },
        };
        let ai = match store.analysis_index(id) {
            Some(ai) => ai,
            None => {
                return Err(Error::NotFound);
            },
        };
        proof {
            assert(an_has(store.analyses@, id));
            let k = an_idx(store.analyses@, id);
            assert(store.analyses@[k].uuid == id);
            assert(k == ai as int);
        }
        let ds = store.analyses[ai].dataset_uuid;
        let di = match store.dataset_index(ds) {
            Some(di) => di,
            None => {
                proof {
                    assert(false);
                }
                return Err(Error::NotFound);
            },
        };
        proof {
            assert(ds_has(store.datasets@, ds));
            let k = ds_idx(store.datasets@, ds);
            assert(store.datasets@[k].uuid == ds);
            assert(k == di as int);
        }
        let project = store.datasets[di].project_uuid;
        if !read_allowed(store, &principal, project) {
            return Err(Error::InvalidPermissions);
        }
        // find the root: walk the chain up from the analysis's current
        // pointer; parents always stand earlier, so this terminates
        let mut root_at: usize = 0;
        let mut found = false;
        let mut i: usize = 0;
        while i < store.dataviews.len()
            invariant
                i <= store.dataviews@.len(),
                store.wf(),
                an_has(store.analyses@, id),
                found ==> (root_at < i && store.dataviews@[root_at as int].is_root()
                    && store.dataviews@[root_at as int].analysis_uuid == id),
                !found ==> (forall|j: int|
                    0 <= j < i ==> !((#[trigger] store.dataviews@[j].is_root())
                        && store.dataviews@[j].analysis_uuid == id)),
            decreases store.dataviews@.len() - i,
    {
            if !found && store.dataviews[i].root() && store.dataviews[i].analysis_uuid == id {
                root_at = i;
                found = true;
            }
            i = i + 1;
        }
        if !found {
            // the analysis's current dataview exists and its parent chain ends
            // in a root of the same analysis, so this branch cannot be taken
            proof {
                let k = an_idx(store.analyses@, id);
                assert(store.analyses@[k].uuid == id);
                let p = dv_idx(store.dataviews@, store.analyses@[k].dataview_uuid);
                assert(store.dataviews@[p].analysis_uuid == id);
                lemma_chain_reaches_root(store.dataviews@, p);
                let w = choose|w: int|
                    0 <= w < store.dataviews@.len() && (#[trigger] store.dataviews@[w].is_root())
                        && store.dataviews@[w].analysis_uuid == store.dataviews@[p].analysis_uuid;
                assert(false);
            }
            return Err(Error::NotFound);
        }
        let mut out: Vec<Dataview> = Vec::new();
        out.push(store.dataviews[root_at].duplicate());
        let ghost pred = (|d: Dataview| d.analysis_uuid == spec_token_first_id(token@).unwrap()
            && !d.is_root());
        let mut i: usize = 0;
        proof {
            assert(store.dataviews@.subrange(0, 0) =~= Seq::<Dataview>::empty());
            assert(Seq::<Dataview>::empty().filter(pred) =~= Seq::<Dataview>::empty()) by {
                reveal(Seq::filter);
            }
            assert(out@.subrange(1, out@.len() as int) =~= Seq::<Dataview>::empty());
        }
        while i < store.dataviews.len()
            invariant
                i <= store.dataviews@.len(),
                store.wf(),
                spec_token_first_id(token@) == Some(id),
                pred == (|d: Dataview| d.analysis_uuid == spec_token_first_id(token@).unwrap()
                    && !d.is_root()),
                out@.len() >= 1,
                out@[0].is_root() && out@[0].analysis_uuid == id,
                store.dataviews@.contains(out@[0]),
                out@.subrange(1, out@.len() as int) == store.dataviews@.subrange(
                    0,
                    i as int,
                ).filter(pred),
            decreases store.dataviews@.len() - i,
        {
            let ghost pre = store.dataviews@.subrange(0, i as int);
            let ghost out0 = out@;
            proof {
                assert(store.dataviews@.subrange(0, i as int + 1) =~= pre.push(
                    store.dataviews@[i as int],
                ));
                lemma_filter_push(pre, pred, store.dataviews@[i as int]);
            }
            if store.dataviews[i].analysis_uuid == id && !store.dataviews[i].root() {
                out.push(store.dataviews[i].duplicate());
                proof {
                    assert(out@.subrange(1, out@.len() as int) =~= out0.subrange(
                        1,
                        out0.len() as int,
                    ).push(store.dataviews@[i as int]));
                }
            }
            i = i + 1;
        }
        proof {
            assert(store.dataviews@.subrange(0, store.dataviews@.len() as int)
                =~= store.dataviews@);
        }
        Ok(out)
    }

    /// The stored status of any asynchronously computed entity: a pure read,
    /// since all job state is durable in the store.
    pub fn status(&self, store: &Store, kind: &EntityKind, uuid: u64) -> (r: Result<Status, Error>)
        requires
            store.wf(),
        ensures
            (match r {
                Ok(s) => (match *kind {
                    EntityKind::Dataset => ds_has(store.datasets@, uuid) && s
                        == store.datasets@[ds_idx(store.datasets@, uuid)].status,
                    EntityKind::Dataview => dv_has(store.dataviews@, uuid) && s
                        == store.dataviews@[dv_idx(store.dataviews@, uuid)].status,
                    EntityKind::Plot => pl_has(store.plots@, uuid) && s == store.plots@[pl_idx(
                        store.plots@,
                        uuid,
                    )].status,
                    EntityKind::Statistic => st_has(store.statistics@, uuid) && s
                        == store.statistics@[st_idx(store.statistics@, uuid)].status,
                    EntityKind::Model => crate::store::mo_has(store.models@, uuid) && s
                        == store.models@[crate::store::mo_idx(store.models@, uuid)].status,
                    _ => false,
                }),
                Err(e) => e == Error::NotFound,
            }),
    {
        match kind {
            EntityKind::Dataset => {
                match Dataset::get(store, uuid) {
                    Ok(d) => Ok(d.status),
                    Err(e) => Err(Error::NotFound),
                }
            },
            EntityKind::Dataview => {
                match Dataview::get(store, uuid) {
                    Ok(d) => Ok(d.status),
                    Err(e) => Err(Error::NotFound),
                }
            },
            EntityKind::Plot => {
                match Plot::get(store, uuid) {
                    Ok(d) => Ok(d.status),
                    Err(e) => Err(Error::NotFound),
                }
            },
            EntityKind::Statistic => {
                match Statistic::get(store, uuid) {
                    Ok(d) => Ok(d.status),
                    Err(e) => Err(Error::NotFound),
                }
            },
            EntityKind::Model => {
                match crate::models::model::Model::get(store, uuid) {
                    Ok(d) => Ok(d.status),
                    Err(e) => Err(Error::NotFound),
                }
            },
            _ => Err(Error::NotFound),
        }
    }
}

/// Following parents from any dataview reaches a root of the same analysis.
proof fn lemma_chain_reaches_root(s: Seq<Dataview>, i: int)
    requires
        parent_earlier(s),
        0 <= i < s.len(),
    ensures
        exists|w: int|
            0 <= w < s.len() && (#[trigger] s[w].is_root()) && s[w].analysis_uuid
                == s[i].analysis_uuid,
    decreases i,
{
    if s[i].is_root() {
        assert(0 <= i < s.len() && s[i].is_root() && s[i].analysis_uuid == s[i].analysis_uuid);
    } else {
        let j = choose|j: int|
            0 <= j < i && (#[trigger] s[j].uuid) == s[i].parent_uuid && s[j].analysis_uuid
                == s[i].analysis_uuid;
        lemma_chain_reaches_root(s, j);
    }
}

/// Role uniformity: for any two entities owned by the same project, the
/// effective role of a user is the same, whatever their kinds.
pub proof fn lemma_role_uniform(
    s: Store,
    user: u64,
    kind1: EntityKind,
    id1: u64,
    kind2: EntityKind,
    id2: u64,
)
    requires
        project_of(s, kind1, id1) == project_of(s, kind2, id2),
    ensures
        role_of_chain(s, project_of(s, kind1, id1), user) == role_of_chain(
            s,
            project_of(s, kind2, id2),
            user,
        ),
{
}


impl Query {
    /// The analyses under a project, readable by any role holder or by
    /// anyone when the project is public.
    pub fn analyses(&self, store: &Store, principal: Option<u64>, token: &String) -> (r: Result<
        Vec<Analysis>,
        Error,
    >)
        requires
            store.wf(),
        ensures
            (match r {
                Ok(v) => {
                    &&& spec_token_first_id(token@) matches Some(id)
                    &&& can_read(*store, principal, id)
                    &&& v@ == store.analyses@.filter(
                        (|a: Analysis| project_of_analysis(*store, a.uuid) == Some(
                            spec_token_first_id(token@).unwrap(),
                        )),
                    )
                },
                Err(e) => (match e {
                    Error::InvalidToken => spec_token_first_id(token@) is None,
                    Error::InvalidPermissions => spec_token_first_id(token@) matches Some(id)
                        && !can_read(*store, principal, id),
                    _ => false,
                }),
            }),
    {
        let id = match token_to_id(token) {
            Ok(id) => id,
            Err(e) => {
                return Err(Error::InvalidToken);
            },
        };
        if !read_allowed(store, &principal, id) {
            return Err(Error::InvalidPermissions);
        }
        let ghost pred = (|a: Analysis| project_of_analysis(*store, a.uuid) == Some(
            spec_token_first_id(token@).unwrap(),
        ));
        let mut out: Vec<Analysis> = Vec::new();
        let mut i: usize = 0;
        proof {
            assert(store.analyses@.subrange(0, 0) =~= Seq::<Analysis>::empty());
            assert(Seq::<Analysis>::empty().filter(pred) =~= Seq::<Analysis>::empty()) by {
                reveal(Seq::filter);
            }
        }
        while i < store.analyses.len()
            invariant
                i <= store.analyses@.len(),
                store.wf(),
                spec_token_first_id(token@) == Some(id),
                pred == (|a: Analysis| project_of_analysis(*store, a.uuid) == Some(
                    spec_token_first_id(token@).unwrap(),
                )),
                out@ == store.analyses@.subrange(0, i as int).filter(pred),
            decreases store.analyses@.len() - i,
        {
            let ghost pre = store.analyses@.subrange(0, i as int);
            proof {
                assert(store.analyses@.subrange(0, i as int + 1) =~= pre.push(
                    store.analyses@[i as int],
                ));
                lemma_filter_push(pre, pred, store.analyses@[i as int]);
            }
            let row = &store.analyses[i];
            proof {
                assert(an_has(store.analyses@, row.uuid));
                let k = an_idx(store.analyses@, row.uuid);
                assert(store.analyses@[k].uuid == row.uuid);
                assert(k == i as int);
            }
            let j = match store.dataset_index(row.dataset_uuid) {
                Some(j) => j,
                None => {
                    proof {
                        assert(false);
                    }
                    return Err(Error::InvalidPermissions);
                },
            };
            proof {
                assert(ds_has(store.datasets@, row.dataset_uuid));
                let k = ds_idx(store.datasets@, row.dataset_uuid);
                assert(store.datasets@[k].uuid == row.dataset_uuid);
                assert(k == j as int);
            }
            if store.datasets[j].project_uuid == id {
                out.push(store.analyses[i].duplicate());
            }
            i = i + 1;
        }
        proof {
            assert(store.analyses@.subrange(0, store.analyses@.len() as int) =~= store.analyses@);
        }
        Ok(out)
    }

    /// The role rows of a project, readable by any role holder or by anyone
    /// when the project is public.
    pub fn roles(&self, store: &Store, principal: Option<u64>, token: &String) -> (r: Result<
        Vec<ProjectUserRole>,
        Error,
    >)
        requires
            store.wf(),
        ensures
            (match r {
                Ok(v) => {
                    &&& spec_token_first_id(token@) matches Some(id)
                    &&& can_read(*store, principal, id)
                    &&& v@ == store.roles@.filter(
                        (|x: ProjectUserRole| x.project_uuid == spec_token_first_id(
                            token@,
                        ).unwrap()),
                    )
                },
                Err(e) => (match e {
                    Error::InvalidToken => spec_token_first_id(token@) is None,
                    Error::InvalidPermissions => spec_token_first_id(token@) matches Some(id)
                        && !can_read(*store, principal, id),
                    _ => false,
                }),
            }),
    {
        let id = match token_to_id(token) {
            Ok(id) => id,
            Err(e) => {
                return Err(Error::InvalidToken);
            },
        };
        if !read_allowed(store, &principal, id) {
            return Err(Error::InvalidPermissions);
        }
        Ok(ProjectUserRole::by_project(store, id))
    }

    /// The plots attached to a dataview, readable under the owning project's
    /// read rule.
    pub fn plots(&self, store: &Store, principal: Option<u64>, token: &String) -> (r: Result<
        Vec<Plot>,
        Error,
    >)
        requires
            store.wf(),
        ensures
            (match r {
                Ok(v) => {
                    &&& spec_token_first_id(token@) matches Some(id)
                    &&& project_of_dataview(*store, id) matches Some(p2) && can_read(
                        *store,
                        principal,
                        p2,
                    )
                    &&& v@ == store.plots@.filter(
                        (|p: Plot| p.dataview_uuid == spec_token_first_id(token@).unwrap()),
                    )
                },
                Err(e) => (match e {
                    Error::InvalidToken => spec_token_first_id(token@) is None,
                    Error::NotFound => spec_token_first_id(token@) matches Some(id)
                        && project_of_dataview(*store, id) is None,
                    Error::InvalidPermissions => spec_token_first_id(token@) matches Some(id)
                        && project_of_dataview(*store, id) matches Some(p) && !can_read(
                        *store,
                        principal,
                        p,
                    ),
                    _ => false,
                }),
            }),
    {
        let id = match token_to_id(token) {
            Ok(id) => id,
            Err(e) => {
                return Err(Error::InvalidToken);
            },
        };
        let project = match dataview_project(store, id) {
            Some(p) => p,
            None => {
                return Err(Error::NotFound);
            },
        };
        if !read_allowed(store, &principal, project) {
            return Err(Error::InvalidPermissions);
        }
        let ghost pred = (|p: Plot| p.dataview_uuid == spec_token_first_id(token@).unwrap());
        let mut out: Vec<Plot> = Vec::new();
        let mut i: usize = 0;
        proof {
            assert(store.plots@.subrange(0, 0) =~= Seq::<Plot>::empty());
            assert(Seq::<Plot>::empty().filter(pred) =~= Seq::<Plot>::empty()) by {
                reveal(Seq::filter);
            }
        }
        while i < store.plots.len()
            invariant
                i <= store.plots@.len(),
                store.wf(),
                spec_token_first_id(token@) == Some(id),
                pred == (|p: Plot| p.dataview_uuid == spec_token_first_id(token@).unwrap()),
                out@ == store.plots@.subrange(0, i as int).filter(pred),
            decreases store.plots@.len() - i,
        {
            let ghost pre = store.plots@.subrange(0, i as int);
            proof {
                assert(store.plots@.subrange(0, i as int + 1) =~= pre.push(
                    store.plots@[i as int],
                ));
                lemma_filter_push(pre, pred, store.plots@[i as int]);
            }
            if store.plots[i].dataview_uuid == id {
                out.push(store.plots[i].duplicate());
            }
            i = i + 1;
        }
        proof {
            assert(store.plots@.subrange(0, store.plots@.len() as int) =~= store.plots@);
        }
        Ok(out)
    }

    /// The statistics attached to a dataview, readable under the owning
    /// project's read rule.
    pub fn statistics(&self, store: &Store, principal: Option<u64>, token: &String) -> (r: Result<
        Vec<Statistic>,
        Error,
    >)
        requires
            store.wf(),
        ensures
            (match r {
                Ok(v) => {
                    &&& spec_token_first_id(token@) matches Some(id)
                    &&& project_of_dataview(*store, id) matches Some(p2) && can_read(
                        *store,
                        principal,
                        p2,
                    )
                    &&& v@ == store.statistics@.filter(
                        (|p: Statistic| p.dataview_uuid == spec_token_first_id(token@).unwrap()),
                    )
                },
                Err(e) => (match e {
                    Error::InvalidToken => spec_token_first_id(token@) is None,
                    Error::NotFound => spec_token_first_id(token@) matches Some(id)
                        && project_of_dataview(*store, id) is None,
                    Error::InvalidPermissions => spec_token_first_id(token@) matches Some(id)
                        && project_of_dataview(*store, id) matches Some(p) && !can_read(
                        *store,
                        principal,
                        p,
                    ),
                    _ => false,
                }),
            }),
    {
        let id = match token_to_id(token) {
            Ok(id) => id,
            Err(e) => {
                return Err(Error::InvalidToken);
            },
        };
        let project = match dataview_project(store, id) {
            Some(p) => p,
            None => {
                return Err(Error::NotFound);
            },
        };
        if !read_allowed(store, &principal, project) {
            return Err(Error::InvalidPermissions);
        }
        let ghost pred = (|p: Statistic| p.dataview_uuid == spec_token_first_id(token@).unwrap());
        let mut out: Vec<Statistic> = Vec::new();
        let mut i: usize = 0;
        proof {
            assert(store.statistics@.subrange(0, 0) =~= Seq::<Statistic>::empty());
            assert(Seq::<Statistic>::empty().filter(pred) =~= Seq::<Statistic>::empty()) by {
                reveal(Seq::filter);
            }
        }
        while i < store.statistics.len()
            invariant
                i <= store.statistics@.len(),
                store.wf(),
                spec_token_first_id(token@) == Some(id),
                pred == (|p: Statistic| p.dataview_uuid == spec_token_first_id(token@).unwrap()),
                out@ == store.statistics@.subrange(0, i as int).filter(pred),
            decreases store.statistics@.len() - i,
        {
            let ghost pre = store.statistics@.subrange(0, i as int);
            proof {
                assert(store.statistics@.subrange(0, i as int + 1) =~= pre.push(
                    store.statistics@[i as int],
                ));
                lemma_filter_push(pre, pred, store.statistics@[i as int]);
            }
            if store.statistics[i].dataview_uuid == id {
                out.push(store.statistics[i].duplicate());
            }
            i = i + 1;
        }
        proof {
            assert(store.statistics@.subrange(0, store.statistics@.len() as int)
                =~= store.statistics@);
        }
        Ok(out)
    }

    /// The models attached to a dataview, readable under the owning
    /// project's read rule. Feature lists live in their own allocations, so
    /// the copies agree with the stored rows field for field rather than by
    /// plain equality.
    pub fn models(&self, store: &Store, principal: Option<u64>, token: &String) -> (r: Result<
        Vec<crate::models::model::Model>,
        Error,
    >)
        requires
            store.wf(),
        ensures
            (match r {
                Ok(v) => {
                    &&& spec_token_first_id(token@) matches Some(id)
                    &&& project_of_dataview(*store, id) matches Some(p2) && can_read(
                        *store,
                        principal,
                        p2,
                    )
                    &&& ({
                        let rows = store.models@.filter(
                            (|p: crate::models::model::Model| p.dataview_uuid
                                == spec_token_first_id(token@).unwrap()),
                        );
                        &&& v@.len() == rows.len()
                        &&& (forall|i: int|
                            0 <= i < rows.len() ==> (#[trigger] v@[i]).matches_fields(rows[i]))
                    })
                },
                Err(e) => (match e {
                    Error::InvalidToken => spec_token_first_id(token@) is None,
                    Error::NotFound => spec_token_first_id(token@) matches Some(id)
                        && project_of_dataview(*store, id) is None,
                    Error::InvalidPermissions => spec_token_first_id(token@) matches Some(id)
                        && project_of_dataview(*store, id) matches Some(p) && !can_read(
                        *store,
                        principal,
                        p,
                    ),
                    _ => false,
                }),
            }),
    {
        let id = match token_to_id(token) {
            Ok(id) => id,
            Err(e) => {
                return Err(Error::InvalidToken);
            },
        };
        let project = match dataview_project(store, id) {
            Some(p) => p,
            None => {
                return Err(Error::NotFound);
            },
        };
        if !read_allowed(store, &principal, project) {
            return Err(Error::InvalidPermissions);
        }
        let ghost pred = (|p: crate::models::model::Model| p.dataview_uuid == spec_token_first_id(
            token@,
        ).unwrap());
        let mut out: Vec<crate::models::model::Model> = Vec::new();
        let mut i: usize = 0;
        proof {
            assert(store.models@.subrange(0, 0) =~= Seq::<crate::models::model::Model>::empty());
            assert(Seq::<crate::models::model::Model>::empty().filter(pred) =~= Seq::<
                crate::models::model::Model,
            >::empty()) by {
                reveal(Seq::filter);
            }
        }
        while i < store.models.len()
            invariant
                i <= store.models@.len(),
                store.wf(),
                spec_token_first_id(token@) == Some(id),
                pred == (|p: crate::models::model::Model| p.dataview_uuid == spec_token_first_id(
                    token@,
                ).unwrap()),
                out@.len() == store.models@.subrange(0, i as int).filter(pred).len(),
                forall|j: int|
                    0 <= j < out@.len() ==> (#[trigger] out@[j]).matches_fields(
                        store.models@.subrange(0, i as int).filter(pred)[j],
                    ),
            decreases store.models@.len() - i,
        {
            let ghost pre = store.models@.subrange(0, i as int);
            proof {
                assert(store.models@.subrange(0, i as int + 1) =~= pre.push(
                    store.models@[i as int],
                ));
                lemma_filter_push(pre, pred, store.models@[i as int]);
            }
            if store.models[i].dataview_uuid == id {
                out.push(store.models[i].duplicate());
            }
            i = i + 1;
        }
        proof {
            assert(store.models@.subrange(0, store.models@.len() as int) =~= store.models@);
        }
        Ok(out)
    }
}

/// Whether the principal may read under `project`, as one executable check.
fn read_allowed(store: &Store, principal: &Option<u64>, project: u64) -> (r: bool)
    requires
        store.wf(),
    ensures
        r == can_read(*store, *principal, project),
{
    match store.project_index(project) {
        Some(i) => {
            if store.projects[i].is_public {
                proof {
                    assert(pr_has(store.projects@, project));
                    let k = pr_idx(store.projects@, project);
                    assert(store.projects@[k].uuid == project);
                    assert(k == i as int);
                }
                return true;
            }
        },
        None => {},
    }
    match principal {
        Some(u) => {
            if store.role_index(project, *u).is_some() {
                proof {
                    assert(role_has(store.roles@, project, principal.unwrap()));
                }
                true
            } else {
                proof {
                    assert(stored_role(*store, project, principal.unwrap()) is None);
                    if pr_has(store.projects@, project) {
                        let k = pr_idx(store.projects@, project);
                    }
                }
                false
            }
        },
        None => {
            proof {
                if pr_has(store.projects@, project) {
                    let k = pr_idx(store.projects@, project);
                }
            }
            false
        },
    }
}

/// The project owning a dataview, found by walking the chain in one pass.
fn dataview_project(store: &Store, id: u64) -> (r: Option<u64>)
    requires
        store.wf(),
    ensures
        r == project_of_dataview(*store, id),
{
    let i = match store.dataview_index(id) {
        Some(i) => i,
        None => {
            return None;
        },
    };
    proof {
        assert(dv_has(store.dataviews@, id));
        let k = dv_idx(store.dataviews@, id);
        assert(store.dataviews@[k].uuid == id);
        assert(k == i as int);
    }
    let an = store.dataviews[i].analysis_uuid;
    let j = match store.analysis_index(an) {
        Some(j) => j,
        None => {
            proof {
                assert(false);
            }
            return None;
        },
    };
    proof {
        assert(an_has(store.analyses@, an));
        let k = an_idx(store.analyses@, an);
        assert(store.analyses@[k].uuid == an);
        assert(k == j as int);
    }
    let ds = store.analyses[j].dataset_uuid;
    let w = match store.dataset_index(ds) {
        Some(w) => w,
        None => {
            proof {
                assert(false);
            }
            return None;
        },
    };
    proof {
        assert(ds_has(store.datasets@, ds));
        let k = ds_idx(store.datasets@, ds);
        assert(store.datasets@[k].uuid == ds);
        assert(k == w as int);
    }
    Some(store.datasets[w].project_uuid)
}

} // verus!
