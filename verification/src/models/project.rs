use vstd::prelude::*;
use vstd::string::StringExecFns;
use crate::codec::{encode, token_of, EntityKind};
use crate::error::Error;
use crate::models::project_user_role::{ProjectUserRole, Role};
use crate::num::dec_digits;
use crate::retain::{
    analysis_outside, collect_analyses_of_datasets, collect_datasets_of_projects,
    collect_dataviews_of_analyses, dataset_outside, dataview_outside, model_outside, plot_outside,
    retain_analyses_outside, retain_datasets_outside, retain_dataviews_outside,
    retain_models_outside, retain_plots_outside, retain_projects_not_among, retain_roles_outside,
    retain_statistics_outside, project_not_among, role_outside, statistic_outside,
};
use crate::store::{
    analysis_under_project, dataset_under_project, dataview_under_project, ds_has, ds_idx,
    lemma_filter_distinct_by, lemma_filter_elements, lemma_filter_ext, lemma_filter_member_src,
    pr_has, pr_idx, take_vec, us_has, Store,
};
use crate::models::dataset::Dataset;
use crate::text::dec_string;

verus! {

/// A project: the root of the ownership chain, and the unit at which roles
/// are granted.
#[derive(Debug, Clone, PartialEq, Eq)]
pub struct Project {
    pub created_at: u64,
    pub updated_at: u64,
    pub uuid: u64,
    pub name: String,
    pub is_public: bool,
}

impl Project {
    /// An exact copy, field for field.
    pub fn duplicate(&self) -> (r: Self)
        ensures
            r == *self,
    {
        Project {
            created_at: self.created_at,
            updated_at: self.updated_at,
            uuid: self.uuid,
            name: self.name.clone(),
            is_public: self.is_public,
        }
    }

    /// The identity token addressing this project.
    pub fn id(&self) -> (r: String)
        ensures
            r@ == token_of(EntityKind::Project, seq![dec_digits(self.uuid as nat)]),
            crate::codec::spec_token_first_id(r@) == Some(self.uuid),
    {
        let mut keys: Vec<String> = Vec::new();
        keys.push(dec_string(self.uuid));
        let t = encode(EntityKind::Project, &keys);
        proof {
            assert(keys@.map_values(|k: String| k@) =~= seq![dec_digits(self.uuid as nat)]);
            crate::codec::lemma_decimal_key_well_typed(EntityKind::Project, self.uuid);
            let kseq = seq![dec_digits(self.uuid as nat)];
            assert forall|i: int| 0 <= i < kseq.len() implies crate::codec::valid_key(
                #[trigger] kseq[i],
            ) by {
                assert(kseq[i] == dec_digits(self.uuid as nat));
            }
            crate::codec::lemma_token_first_id(EntityKind::Project, kseq, self.uuid, t@);
        }
        t
    }
}

impl Project {
    /// Creates a project and, in the same step, its creator's Admin role:
    /// the two rows appear together or not at all.
    #[verifier::rlimit(100)]
    pub fn create(store: &mut Store, name: &str, user_uuid: u64) -> (r: Result<Project, Error>)
        requires
            old(store).wf(),
            old(store).next_id < u64::MAX,
        ensures
            final(store).wf(),
            (match r {
                Ok(p) => {
                    &&& us_has(old(store).users@, user_uuid)
                    &&& p.uuid == old(store).next_id
                    &&& p.name@ == name@
                    &&& !p.is_public
                    &&& p.created_at == old(store).clock
                    &&& p.updated_at == old(store).clock
                    &&& final(store).projects@ == old(store).projects@.push(p)
                    &&& final(store).roles@ == old(store).roles@.push(
                        (ProjectUserRole {
                            created_at: old(store).clock,
                            updated_at: old(store).clock,
                            project_uuid: p.uuid,
                            user_uuid: user_uuid,
                            role: Role::Admin,
                        }),
                    )
                    &&& final(store).next_id == old(store).next_id + 1
                    &&& final(store).users@ == old(store).users@
                    &&& final(store).datasets@ == old(store).datasets@
                    &&& final(store).analyses@ == old(store).analyses@
                    &&& final(store).dataviews@ == old(store).dataviews@
                    &&& final(store).plots@ == old(store).plots@
                    &&& final(store).statistics@ == old(store).statistics@
                    &&& final(store).models@ == old(store).models@
                    &&& final(store).refresh_tokens@ == old(store).refresh_tokens@
                    &&& final(store).clock == old(store).clock
                },
                Err(e) => {
                    &&& e == Error::NotFound
                    &&& !us_has(old(store).users@, user_uuid)
                    &&& *final(store) == *old(store)
                },
            }),
    {
        if store.user_index(user_uuid).is_none() {
            return Err(Error::NotFound);
        }
        let uuid = store.next_id;
        store.next_id = store.next_id + 1;
        let project = Project {
            created_at: store.clock,
            updated_at: store.clock,
            uuid,
            name: name.to_owned(),
            is_public: false,
        };
        let row = ProjectUserRole {
            created_at: store.clock,
            updated_at: store.clock,
            project_uuid: uuid,
            user_uuid,
            role: Role::Admin,
        };
        let result = project.duplicate();
        store.projects.push(project);
        store.roles.push(row);
        proof {
            let s0 = *old(store);
            let s1 = *store;
            assert(s1.projects@ == s0.projects@.push(result));
            assert forall|i: int, j: int|
                0 <= i < j < s1.projects@.len() implies s1.projects@[i].uuid
                != s1.projects@[j].uuid by {
                if j == s1.projects@.len() - 1 {
                    assert(s1.projects@[i] == s0.projects@[i]);
                }
            }
            assert forall|i: int, j: int|
                0 <= i < j < s1.roles@.len() implies !(s1.roles@[i].project_uuid
                == s1.roles@[j].project_uuid && s1.roles@[i].user_uuid
                == s1.roles@[j].user_uuid) by {
                if j == s1.roles@.len() - 1 {
                    assert(s1.roles@[i] == s0.roles@[i]);
                    let k = pr_idx(s0.projects@, s0.roles@[i].project_uuid);
                    assert(s0.projects@[k].uuid < s0.next_id);
                }
            }
            assert forall|i: int| 0 <= i < s1.roles@.len() implies pr_has(
                s1.projects@,
                #[trigger] s1.roles@[i].project_uuid,
            ) && us_has(s1.users@, s1.roles@[i].user_uuid) by {
                if i < s1.roles@.len() - 1 {
                    assert(s1.roles@[i] == s0.roles@[i]);
                    let k = pr_idx(s0.projects@, s0.roles@[i].project_uuid);
                    assert(s1.projects@[k].uuid == s0.roles@[i].project_uuid);
                } else {
                    assert(s1.projects@.last().uuid == s1.roles@[i].project_uuid);
                }
            }
            assert forall|i: int| 0 <= i < s1.datasets@.len() implies pr_has(
                s1.projects@,
                #[trigger] s1.datasets@[i].project_uuid,
            ) by {
                let k = pr_idx(s0.projects@, s0.datasets@[i].project_uuid);
                assert(s1.projects@[k].uuid == s0.datasets@[i].project_uuid);
            }
            assert(s1.wf());
        }
        Ok(result)
    }

    /// Reads a project by identifier.
    #[verifier::rlimit(100)]
    pub fn get(store: &Store, uuid: u64) -> (r: Result<Project, Error>)
        requires
            store.wf(),
        ensures
            (match r {
                Ok(p) => pr_has(store.projects@, uuid) && p == store.projects@[pr_idx(
                    store.projects@,
                    uuid,
                )],
                Err(e) => e == Error::NotFound && !pr_has(store.projects@, uuid),
            }),
    {
        match store.project_index(uuid) {
            Some(i) => {
                let p = store.projects[i].duplicate();
                proof {
                    assert(pr_has(store.projects@, uuid));
                    let k = pr_idx(store.projects@, uuid);
                    assert(store.projects@[k].uuid == uuid);
                    assert(k == i as int);
                }
                Ok(p)
            },
            None => Err(Error::NotFound),
        }
    }

    /// Renames a project, stamping the update time.
    #[verifier::rlimit(100)]
    pub fn rename(store: &mut Store, uuid: u64, name: &str) -> (r: Result<Project, Error>)
        requires
            old(store).wf(),
        ensures
            final(store).wf(),
            (match r {
                Ok(p) => {
                    &&& pr_has(old(store).projects@, uuid)
                    &&& p.uuid == uuid
                    &&& p.name@ == name@
                    &&& ({
                        let i = pr_idx(old(store).projects@, uuid);
                        &&& p.created_at == old(store).projects@[i].created_at
                        &&& p.is_public == old(store).projects@[i].is_public
                        &&& p.updated_at == old(store).clock
                        &&& final(store).projects@ == old(store).projects@.update(i, p)
                    })
                    &&& *final(store) == (Store {
                        projects: final(store).projects,
                        ..*old(store)
                    })
                },
                Err(e) => {
                    &&& e == Error::NotFound
                    &&& !pr_has(old(store).projects@, uuid)
                    &&& *final(store) == *old(store)
                },
            }),
    {
        let i = match store.project_index(uuid) {
            Some(i) => i,
            None => {
                return Err(Error::NotFound);
            },
        };
        proof {
            let k = pr_idx(store.projects@, uuid);
            assert(store.projects@[i as int].uuid == uuid);
            assert(store.projects@[k].uuid == uuid);
            assert(k == i as int);
        }
        let clock = store.clock;
        store.projects[i].name = name.to_owned();
        store.projects[i].updated_at = clock;
        let p = store.projects[i].duplicate();
        proof {
            let s0 = *old(store);
            let s1 = *store;
            assert(s1.projects@ =~= s0.projects@.update(i as int, p));
            assert forall|j: int| 0 <= j < s1.datasets@.len() implies pr_has(
                s1.projects@,
                #[trigger] s1.datasets@[j].project_uuid,
            ) by {
                let k = pr_idx(s0.projects@, s0.datasets@[j].project_uuid);
                assert(s1.projects@[k].uuid == s0.datasets@[j].project_uuid);
            }
            assert forall|j: int| 0 <= j < s1.roles@.len() implies pr_has(
                s1.projects@,
                #[trigger] s1.roles@[j].project_uuid,
            ) by {
                let k = pr_idx(s0.projects@, s0.roles@[j].project_uuid);
                assert(s1.projects@[k].uuid == s0.roles@[j].project_uuid);
            }
            assert(s1.wf());
        }
        Ok(p)
    }

    /// Marks a project publicly visible, stamping the update time.
    #[verifier::rlimit(100)]
    pub fn make_public(store: &mut Store, uuid: u64) -> (r: Result<Project, Error>)
        requires
            old(store).wf(),
        ensures
            final(store).wf(),
            (match r {
                Ok(p) => {
                    &&& pr_has(old(store).projects@, uuid)
                    &&& p.uuid == uuid
                    &&& p.is_public
                    &&& ({
                        let i = pr_idx(old(store).projects@, uuid);
                        &&& p.name@ == old(store).projects@[i].name@
                        &&& p.created_at == old(store).projects@[i].created_at
                        &&& p.updated_at == old(store).clock
                        &&& final(store).projects@ == old(store).projects@.update(i, p)
                    })
                    &&& *final(store) == (Store {
                        projects: final(store).projects,
                        ..*old(store)
                    })
                },
                Err(e) => {
                    &&& e == Error::NotFound
                    &&& !pr_has(old(store).projects@, uuid)
                    &&& *final(store) == *old(store)
                },
            }),
    {
        let i = match store.project_index(uuid) {
            Some(i) => i,
            None => {
                return Err(Error::NotFound);
            },
        };
        proof {
            let k = pr_idx(store.projects@, uuid);
            assert(store.projects@[i as int].uuid == uuid);
            assert(store.projects@[k].uuid == uuid);
            assert(k == i as int);
        }
        let clock = store.clock;
        store.projects[i].is_public = true;
        store.projects[i].updated_at = clock;
        let p = store.projects[i].duplicate();
        proof {
            let s0 = *old(store);
            let s1 = *store;
            assert(s1.projects@ =~= s0.projects@.update(i as int, p));
            assert forall|j: int| 0 <= j < s1.datasets@.len() implies pr_has(
                s1.projects@,
                #[trigger] s1.datasets@[j].project_uuid,
            ) by {
                let k = pr_idx(s0.projects@, s0.datasets@[j].project_uuid);
                assert(s1.projects@[k].uuid == s0.datasets@[j].project_uuid);
            }
            assert forall|j: int| 0 <= j < s1.roles@.len() implies pr_has(
                s1.projects@,
                #[trigger] s1.roles@[j].project_uuid,
            ) by {
                let k = pr_idx(s0.projects@, s0.roles@[j].project_uuid);
                assert(s1.projects@[k].uuid == s0.roles@[j].project_uuid);
            }
            assert(s1.wf());
        }
        Ok(p)
    }
}

impl Project {
    /// Deletes a project and everything it owns: its role rows, datasets,
    /// analyses, dataviews and artifacts, transitively. Physical backing is
    /// reclaimed later by the garbage collector.
    #[verifier::rlimit(100)]
    #[verifier::spinoff_prover]
    pub fn delete(store: &mut Store, uuid: u64) -> (r: Result<(), Error>)
        requires
            old(store).wf(),
        ensures
            final(store).wf(),
            (match r {
                Ok(u) => {
                    &&& pr_has(old(store).projects@, uuid)
                    &&& final(store).projects@ == old(store).projects@.filter(
                        |p: Project| p.uuid != uuid,
                    )
                    &&& final(store).roles@ == old(store).roles@.filter(
                        |rr: ProjectUserRole| rr.project_uuid != uuid,
                    )
                    &&& final(store).datasets@ == old(store).datasets@.filter(
                        |d: Dataset| d.project_uuid != uuid,
                    )
                    &&& final(store).analyses@ == old(store).analyses@.filter(
                        |a: crate::models::analysis::Analysis| !dataset_under_project(
                            *old(store),
                            uuid,
                            a.dataset_uuid,
                        ),
                    )
                    &&& final(store).dataviews@ == old(store).dataviews@.filter(
                        |d: crate::models::dataview::Dataview| !analysis_under_project(
                            *old(store),
                            uuid,
                            d.analysis_uuid,
                        ),
                    )
                    &&& final(store).plots@ == old(store).plots@.filter(
                        |p: crate::models::plot::Plot| !dataview_under_project(
                            *old(store),
                            uuid,
                            p.dataview_uuid,
                        ),
                    )
                    &&& final(store).statistics@ == old(store).statistics@.filter(
                        |p: crate::models::statistic::Statistic| !dataview_under_project(
                            *old(store),
                            uuid,
                            p.dataview_uuid,
                        ),
                    )
                    &&& final(store).models@ == old(store).models@.filter(
                        |p: crate::models::model::Model| !dataview_under_project(
                            *old(store),
                            uuid,
                            p.dataview_uuid,
                        ),
                    )
                    &&& final(store).users@ == old(store).users@
                    &&& final(store).refresh_tokens@ == old(store).refresh_tokens@
                    &&& final(store).next_id == old(store).next_id
                    &&& final(store).clock == old(store).clock
                },
                Err(e) => {
                    &&& e == Error::NotFound
                    &&& !pr_has(old(store).projects@, uuid)
                    &&& *final(store) == *old(store)
                },
            }),
    {
        if store.project_index(uuid).is_none() {
            return Err(Error::NotFound);
        }
        let ghost s0 = *old(store);
        let mut dead_pr: Vec<u64> = Vec::new();
        dead_pr.push(uuid);
        proof {
            assert forall|x: u64| #[trigger] dead_pr@.contains(x) <==> x == uuid by {
                if x == uuid {
                    assert(dead_pr@[0] == x);
                }
            }
        }
        let dead_ds = collect_datasets_of_projects(&store.datasets, &dead_pr);
        let dead_an = collect_analyses_of_datasets(&store.analyses, &dead_ds);
        let dead_dv = collect_dataviews_of_analyses(&store.dataviews, &dead_an);
        proof {
            assert forall|x: u64| #[trigger] dead_ds@.contains(x) <==> dataset_under_project(
                s0,
                uuid,
                x,
            ) by {}
            assert forall|x: u64| #[trigger] dead_an@.contains(x) <==> analysis_under_project(
                s0,
                uuid,
                x,
            ) by {}
            assert forall|x: u64| #[trigger] dead_dv@.contains(x) <==> dataview_under_project(
                s0,
                uuid,
                x,
            ) by {}
        }
        let projects = take_vec(&mut store.projects);
        store.projects = retain_projects_not_among(projects, &dead_pr);
        let roles = take_vec(&mut store.roles);
        store.roles = retain_roles_outside(roles, &dead_pr);
        let datasets = take_vec(&mut store.datasets);
        store.datasets = retain_datasets_outside(datasets, &dead_pr);
        let analyses = take_vec(&mut store.analyses);
        store.analyses = retain_analyses_outside(analyses, &dead_ds);
        let dataviews = take_vec(&mut store.dataviews);
        store.dataviews = retain_dataviews_outside(dataviews, &dead_an);
        let plots = take_vec(&mut store.plots);
        store.plots = retain_plots_outside(plots, &dead_dv);
        let statistics = take_vec(&mut store.statistics);
        store.statistics = retain_statistics_outside(statistics, &dead_dv);
        let models = take_vec(&mut store.models);
        store.models = retain_models_outside(models, &dead_dv);
        proof {
            broadcast use vstd::seq_lib::group_filter_ensures;

            let s1 = *store;
            let ppred = |p: Project| p.uuid != uuid;
            let rpred = |rr: ProjectUserRole| rr.project_uuid != uuid;
            let dpred = |d: Dataset| d.project_uuid != uuid;
            let apred = |a: crate::models::analysis::Analysis| !dataset_under_project(
                s0,
                uuid,
                a.dataset_uuid,
            );
            let vpred = |d: crate::models::dataview::Dataview| !analysis_under_project(
                s0,
                uuid,
                d.analysis_uuid,
            );
            let plpred = |p: crate::models::plot::Plot| !dataview_under_project(
                s0,
                uuid,
                p.dataview_uuid,
            );
            let stpred = |p: crate::models::statistic::Statistic| !dataview_under_project(
                s0,
                uuid,
                p.dataview_uuid,
            );
            let mopred = |p: crate::models::model::Model| !dataview_under_project(
                s0,
                uuid,
                p.dataview_uuid,
            );
            lemma_filter_ext(s0.projects@, project_not_among(dead_pr@), ppred);
            lemma_filter_ext(s0.roles@, role_outside(dead_pr@), rpred);
            lemma_filter_ext(s0.datasets@, dataset_outside(dead_pr@), dpred);
            lemma_filter_ext(s0.analyses@, analysis_outside(dead_ds@), apred);
            lemma_filter_ext(s0.dataviews@, dataview_outside(dead_an@), vpred);
            lemma_filter_ext(s0.plots@, plot_outside(dead_dv@), plpred);
            lemma_filter_ext(s0.statistics@, statistic_outside(dead_dv@), stpred);
            lemma_filter_ext(s0.models@, model_outside(dead_dv@), mopred);
            assert(s1.projects@ == s0.projects@.filter(ppred));
            assert(s1.roles@ == s0.roles@.filter(rpred));
            assert(s1.datasets@ == s0.datasets@.filter(dpred));
            assert(s1.analyses@ == s0.analyses@.filter(apred));
            assert(s1.dataviews@ == s0.dataviews@.filter(vpred));
            assert(s1.plots@ == s0.plots@.filter(plpred));
            assert(s1.statistics@ == s0.statistics@.filter(stpred));
            assert(s1.models@ == s0.models@.filter(mopred));
            // distinctness survives filtering
            lemma_filter_distinct_by(s0.projects@, ppred, |p: Project| p.uuid);
            lemma_filter_distinct_by(s0.datasets@, dpred, |d: Dataset| d.uuid);
            lemma_filter_distinct_by(
                s0.analyses@,
                apred,
                |a: crate::models::analysis::Analysis| a.uuid,
            );
            lemma_filter_distinct_by(
                s0.dataviews@,
                vpred,
                |d: crate::models::dataview::Dataview| d.uuid,
            );
            lemma_filter_distinct_by(s0.plots@, plpred, |p: crate::models::plot::Plot| p.uuid);
            lemma_filter_distinct_by(
                s0.statistics@,
                stpred,
                |p: crate::models::statistic::Statistic| p.uuid,
            );
            lemma_filter_distinct_by(s0.models@, mopred, |p: crate::models::model::Model| p.uuid);
            // role rows: pairwise distinct and referencing surviving projects
            assert forall|i: int, j: int|
                0 <= i < j < s1.roles@.len() implies !(s1.roles@[i].project_uuid
                == s1.roles@[j].project_uuid && s1.roles@[i].user_uuid
                == s1.roles@[j].user_uuid) by {
                let a = lemma_filter_member_src(s0.roles@, rpred, i);
                let b = lemma_filter_member_src(s0.roles@, rpred, j);
                assert(s1.roles@[i] == s0.roles@[a] && s1.roles@[j] == s0.roles@[b]);
                if a == b {
                    assert(s1.roles@.len() <= s0.roles@.len());
                    lemma_filter_distinct_roles(s0.roles@, rpred, i, j);
                } else {
                }
            }
            assert forall|i: int| 0 <= i < s1.roles@.len() implies pr_has(
                s1.projects@,
                #[trigger] s1.roles@[i].project_uuid,
            ) && us_has(s1.users@, s1.roles@[i].user_uuid) by {
                let a = lemma_filter_member_src(s0.roles@, rpred, i);
                let row = s0.roles@[a];
                let k = pr_idx(s0.projects@, row.project_uuid);
                assert(s0.projects@[k].uuid == row.project_uuid);
                assert(ppred(s0.projects@[k]));
                assert(s1.projects@.contains(s0.projects@[k]));
                let k2 = choose|k2: int|
                    0 <= k2 < s1.projects@.len() && s1.projects@[k2] == s0.projects@[k];
                assert(s1.projects@[k2].uuid == row.project_uuid);
            }
            // datasets reference surviving projects
            assert forall|i: int| 0 <= i < s1.datasets@.len() implies pr_has(
                s1.projects@,
                #[trigger] s1.datasets@[i].project_uuid,
            ) by {
                let a = lemma_filter_member_src(s0.datasets@, dpred, i);
                let row = s0.datasets@[a];
                let k = pr_idx(s0.projects@, row.project_uuid);
                assert(s0.projects@[k].uuid == row.project_uuid);
                assert(ppred(s0.projects@[k]));
                assert(s1.projects@.contains(s0.projects@[k]));
                let k2 = choose|k2: int|
                    0 <= k2 < s1.projects@.len() && s1.projects@[k2] == s0.projects@[k];
                assert(s1.projects@[k2].uuid == row.project_uuid);
            }
            // analyses reference surviving datasets and keep a valid pointer
            assert forall|i: int| 0 <= i < s1.analyses@.len() implies ds_has(
                s1.datasets@,
                #[trigger] s1.analyses@[i].dataset_uuid,
            ) by {
                let a = lemma_filter_member_src(s0.analyses@, apred, i);
                let row = s0.analyses@[a];
                let k = ds_idx(s0.datasets@, row.dataset_uuid);
                assert(s0.datasets@[k].uuid == row.dataset_uuid);
                assert(!dataset_under_project(s0, uuid, row.dataset_uuid));
                assert(dpred(s0.datasets@[k])) by {
                    if s0.datasets@[k].project_uuid == uuid {
                        assert(dataset_under_project(s0, uuid, row.dataset_uuid));
                    }
                }
                assert(s1.datasets@.contains(s0.datasets@[k]));
                let k2 = choose|k2: int|
                    0 <= k2 < s1.datasets@.len() && s1.datasets@[k2] == s0.datasets@[k];
                assert(s1.datasets@[k2].uuid == row.dataset_uuid);
            }
            assert forall|i: int|
                0 <= i < s1.analyses@.len() implies crate::store::dv_has(
                s1.dataviews@,
                #[trigger] s1.analyses@[i].dataview_uuid,
            ) && s1.dataviews@[crate::store::dv_idx(
                s1.dataviews@,
                s1.analyses@[i].dataview_uuid,
            )].analysis_uuid == s1.analyses@[i].uuid by {
                let a = lemma_filter_member_src(s0.analyses@, apred, i);
                let row = s0.analyses@[a];
                let k = crate::store::dv_idx(s0.dataviews@, row.dataview_uuid);
                assert(s0.dataviews@[k].uuid == row.dataview_uuid);
                assert(s0.dataviews@[k].analysis_uuid == row.uuid);
                assert(vpred(s0.dataviews@[k])) by {
                    if analysis_under_project(s0, uuid, row.uuid) {
                        let b = choose|b: int|
                            0 <= b < s0.analyses@.len() && (#[trigger] s0.analyses@[b].uuid)
                                == row.uuid && dataset_under_project(
                                s0,
                                uuid,
                                s0.analyses@[b].dataset_uuid,
                            );
                        assert(s0.analyses@[b] == row);
                    }
                }
                assert(s1.dataviews@.contains(s0.dataviews@[k]));
                let k2 = choose|k2: int|
                    0 <= k2 < s1.dataviews@.len() && s1.dataviews@[k2] == s0.dataviews@[k];
                assert(s1.dataviews@[k2].uuid == row.dataview_uuid);
                let k3 = crate::store::dv_idx(s1.dataviews@, row.dataview_uuid);
                assert(s1.dataviews@[k3].uuid == row.dataview_uuid);
                assert(k3 == k2);
                assert(s1.dataviews@[k3].analysis_uuid == row.uuid);
            }
            // dataviews reference surviving analyses, keep tree shape
            assert forall|i: int| 0 <= i < s1.dataviews@.len() implies crate::store::an_has(
                s1.analyses@,
                #[trigger] s1.dataviews@[i].analysis_uuid,
            ) by {
                let a = lemma_filter_member_src(s0.dataviews@, vpred, i);
                let row = s0.dataviews@[a];
                let k = crate::store::an_idx(s0.analyses@, row.analysis_uuid);
                assert(s0.analyses@[k].uuid == row.analysis_uuid);
                assert(apred(s0.analyses@[k])) by {
                    if dataset_under_project(s0, uuid, s0.analyses@[k].dataset_uuid) {
                        assert(analysis_under_project(s0, uuid, row.analysis_uuid));
                    }
                }
                assert(s1.analyses@.contains(s0.analyses@[k]));
                let k2 = choose|k2: int|
                    0 <= k2 < s1.analyses@.len() && s1.analyses@[k2] == s0.analyses@[k];
                assert(s1.analyses@[k2].uuid == row.analysis_uuid);
            }
            assert(crate::store::parent_earlier(s1.dataviews@)) by {
                assert forall|i: int, j: int|
                    #![trigger s0.dataviews@[i].parent_uuid, s0.dataviews@[j].uuid]
                    (0 <= i < s0.dataviews@.len() && 0 <= j < s0.dataviews@.len()
                        && !s0.dataviews@[i].is_root() && s0.dataviews@[j].uuid
                        == s0.dataviews@[i].parent_uuid && vpred(s0.dataviews@[i])) implies vpred(
                    s0.dataviews@[j],
                ) by {
                    if analysis_under_project(s0, uuid, s0.dataviews@[j].analysis_uuid) {
                        let w = choose|w: int|
                            0 <= w < i && (#[trigger] s0.dataviews@[w].uuid)
                                == s0.dataviews@[i].parent_uuid && s0.dataviews@[w].analysis_uuid
                                == s0.dataviews@[i].analysis_uuid;
                        assert(s0.dataviews@[w].uuid == s0.dataviews@[j].uuid);
                        assert(s0.dataviews@[w] == s0.dataviews@[j]);
                        assert(s0.dataviews@[i].analysis_uuid == s0.dataviews@[j].analysis_uuid);
                    }
                }
                crate::store::lemma_filter_parent_earlier(s0.dataviews@, vpred);
            }
            assert forall|i: int, j: int|
                0 <= i < s1.dataviews@.len() && 0 <= j < s1.dataviews@.len()
                    && s1.dataviews@[i].is_root() && s1.dataviews@[j].is_root()
                    && s1.dataviews@[i].analysis_uuid == s1.dataviews@[j].analysis_uuid implies i
                == j by {
                let a = lemma_filter_member_src(s0.dataviews@, vpred, i);
                let b = lemma_filter_member_src(s0.dataviews@, vpred, j);
                assert(s0.dataviews@[a] == s1.dataviews@[i]);
                assert(s0.dataviews@[b] == s1.dataviews@[j]);
                assert(a == b);
                assert(s1.dataviews@[i].uuid == s1.dataviews@[j].uuid);
            }
            // artifacts reference surviving dataviews
            assert forall|i: int| 0 <= i < s1.plots@.len() implies crate::store::dv_has(
                s1.dataviews@,
                #[trigger] s1.plots@[i].dataview_uuid,
            ) by {
                let a = lemma_filter_member_src(s0.plots@, plpred, i);
                let row = s0.plots@[a];
                let k = crate::store::dv_idx(s0.dataviews@, row.dataview_uuid);
                assert(s0.dataviews@[k].uuid == row.dataview_uuid);
                assert(vpred(s0.dataviews@[k])) by {
                    if analysis_under_project(s0, uuid, s0.dataviews@[k].analysis_uuid) {
                        assert(dataview_under_project(s0, uuid, row.dataview_uuid));
                    }
                }
                assert(s1.dataviews@.contains(s0.dataviews@[k]));
                let k2 = choose|k2: int|
                    0 <= k2 < s1.dataviews@.len() && s1.dataviews@[k2] == s0.dataviews@[k];
                assert(s1.dataviews@[k2].uuid == row.dataview_uuid);
            }
            assert forall|i: int| 0 <= i < s1.statistics@.len() implies crate::store::dv_has(
                s1.dataviews@,
                #[trigger] s1.statistics@[i].dataview_uuid,
            ) by {
                let a = lemma_filter_member_src(s0.statistics@, stpred, i);
                let row = s0.statistics@[a];
                let k = crate::store::dv_idx(s0.dataviews@, row.dataview_uuid);
                assert(s0.dataviews@[k].uuid == row.dataview_uuid);
                assert(vpred(s0.dataviews@[k])) by {
                    if analysis_under_project(s0, uuid, s0.dataviews@[k].analysis_uuid) {
                        assert(dataview_under_project(s0, uuid, row.dataview_uuid));
                    }
                }
                assert(s1.dataviews@.contains(s0.dataviews@[k]));
                let k2 = choose|k2: int|
                    0 <= k2 < s1.dataviews@.len() && s1.dataviews@[k2] == s0.dataviews@[k];
                assert(s1.dataviews@[k2].uuid == row.dataview_uuid);
            }
            assert forall|i: int| 0 <= i < s1.models@.len() implies crate::store::dv_has(
                s1.dataviews@,
                #[trigger] s1.models@[i].dataview_uuid,
            ) by {
                let a = lemma_filter_member_src(s0.models@, mopred, i);
                let row = s0.models@[a];
                let k = crate::store::dv_idx(s0.dataviews@, row.dataview_uuid);
                assert(s0.dataviews@[k].uuid == row.dataview_uuid);
                assert(vpred(s0.dataviews@[k])) by {
                    if analysis_under_project(s0, uuid, s0.dataviews@[k].analysis_uuid) {
                        assert(dataview_under_project(s0, uuid, row.dataview_uuid));
                    }
                }
                assert(s1.dataviews@.contains(s0.dataviews@[k]));
                let k2 = choose|k2: int|
                    0 <= k2 < s1.dataviews@.len() && s1.dataviews@[k2] == s0.dataviews@[k];
                assert(s1.dataviews@[k2].uuid == row.dataview_uuid);
            }
            // identifiers stay below the counter
            assert forall|i: int|
                0 <= i < s1.projects@.len() implies #[trigger] s1.projects@[i].uuid
                < s1.next_id by {
                let a = lemma_filter_member_src(s0.projects@, ppred, i);
            }
            assert forall|i: int|
                0 <= i < s1.datasets@.len() implies #[trigger] s1.datasets@[i].uuid
                < s1.next_id by {
                let a = lemma_filter_member_src(s0.datasets@, dpred, i);
            }
            assert forall|i: int|
                0 <= i < s1.analyses@.len() implies #[trigger] s1.analyses@[i].uuid
                < s1.next_id by {
                let a = lemma_filter_member_src(s0.analyses@, apred, i);
            }
            assert forall|i: int|
                0 <= i < s1.dataviews@.len() implies #[trigger] s1.dataviews@[i].uuid
                < s1.next_id by {
                let a = lemma_filter_member_src(s0.dataviews@, vpred, i);
            }
            assert forall|i: int|
                0 <= i < s1.plots@.len() implies #[trigger] s1.plots@[i].uuid < s1.next_id by {
                let a = lemma_filter_member_src(s0.plots@, plpred, i);
            }
            assert forall|i: int|
                0 <= i < s1.statistics@.len() implies #[trigger] s1.statistics@[i].uuid
                < s1.next_id by {
                let a = lemma_filter_member_src(s0.statistics@, stpred, i);
            }
            assert forall|i: int|
                0 <= i < s1.models@.len() implies #[trigger] s1.models@[i].uuid < s1.next_id by {
                let a = lemma_filter_member_src(s0.models@, mopred, i);
            }
            assert(s1.wf());
        }
        Ok(())
    }
}

/// Pair-distinctness carried through a filter, spelled out for role rows.
proof fn lemma_filter_distinct_roles(
    s: Seq<ProjectUserRole>,
    p: spec_fn(ProjectUserRole) -> bool,
    i: int,
    j: int,
)
    requires
        forall|a: int, b: int|
            0 <= a < b < s.len() ==> !(s[a].project_uuid == s[b].project_uuid && s[a].user_uuid
                == s[b].user_uuid),
        0 <= i < j < s.filter(p).len(),
    ensures
        !(s.filter(p)[i].project_uuid == s.filter(p)[j].project_uuid && s.filter(p)[i].user_uuid
            == s.filter(p)[j].user_uuid),
    decreases s.len(),
{
    reveal(Seq::filter);
    if s.len() > 0 {
        let t = s.drop_last();
        assert(forall|a: int, b: int|
            0 <= a < b < t.len() ==> !(t[a].project_uuid == t[b].project_uuid && t[a].user_uuid
                == t[b].user_uuid));
        if p(s.last()) {
            if j == s.filter(p).len() - 1 {
                crate::store::lemma_filter_elements(t, p);
                assert(s.filter(p)[i] == t.filter(p)[i]);
                assert(t.contains(t.filter(p)[i]));
                let k = choose|k: int| 0 <= k < t.len() && t[k] == t.filter(p)[i];
                assert(!(s[k].project_uuid == s[s.len() - 1].project_uuid && s[k].user_uuid
                    == s[s.len() - 1].user_uuid));
            } else {
                lemma_filter_distinct_roles(t, p, i, j);
            }
        } else {
            lemma_filter_distinct_roles(t, p, i, j);
        }
    }
}


/// Cascade completeness: after a project is deleted, nothing it owned
/// remains in the metadata store. Every surviving dataset belongs to another
/// project, every surviving analysis and dataview hangs under another
/// project's dataset, every surviving artifact sits on a surviving dataview,
/// and no role row of the deleted project is left. The physical half of the
/// claim is the garbage collector's completeness law.
pub proof fn lemma_project_cascade_complete(pre: Store, post: Store, uuid: u64)
    requires
        post.datasets@ == pre.datasets@.filter((|d: Dataset| d.project_uuid != uuid)),
        post.analyses@ == pre.analyses@.filter(
            (|a: crate::models::analysis::Analysis| !dataset_under_project(
                pre,
                uuid,
                a.dataset_uuid,
            )),
        ),
        post.dataviews@ == pre.dataviews@.filter(
            (|d: crate::models::dataview::Dataview| !analysis_under_project(
                pre,
                uuid,
                d.analysis_uuid,
            )),
        ),
        post.plots@ == pre.plots@.filter(
            (|p: crate::models::plot::Plot| !dataview_under_project(pre, uuid, p.dataview_uuid)),
        ),
        post.roles@ == pre.roles@.filter((|rr: ProjectUserRole| rr.project_uuid != uuid)),
    ensures
        forall|i: int|
            0 <= i < post.datasets@.len() ==> (#[trigger] post.datasets@[i].project_uuid) != uuid,
        forall|i: int|
            0 <= i < post.analyses@.len() ==> !dataset_under_project(
                pre,
                uuid,
                (#[trigger] post.analyses@[i].dataset_uuid),
            ),
        forall|i: int|
            0 <= i < post.dataviews@.len() ==> !analysis_under_project(
                pre,
                uuid,
                (#[trigger] post.dataviews@[i].analysis_uuid),
            ),
        forall|i: int|
            0 <= i < post.plots@.len() ==> !dataview_under_project(
                pre,
                uuid,
                (#[trigger] post.plots@[i].dataview_uuid),
            ),
        forall|i: int|
            0 <= i < post.roles@.len() ==> (#[trigger] post.roles@[i].project_uuid) != uuid,
{
    broadcast use vstd::seq_lib::group_filter_ensures;

    assert forall|i: int|
        0 <= i < post.datasets@.len() implies (#[trigger] post.datasets@[i].project_uuid)
        != uuid by {
        assert((|d: Dataset| d.project_uuid != uuid)(post.datasets@[i]));
    }
    assert forall|i: int| 0 <= i < post.analyses@.len() implies !dataset_under_project(
        pre,
        uuid,
        (#[trigger] post.analyses@[i].dataset_uuid),
    ) by {
        assert((|a: crate::models::analysis::Analysis| !dataset_under_project(
            pre,
            uuid,
            a.dataset_uuid,
        ))(post.analyses@[i]));
    }
    assert forall|i: int| 0 <= i < post.dataviews@.len() implies !analysis_under_project(
        pre,
        uuid,
        (#[trigger] post.dataviews@[i].analysis_uuid),
    ) by {
        assert((|d: crate::models::dataview::Dataview| !analysis_under_project(
            pre,
            uuid,
            d.analysis_uuid,
        ))(post.dataviews@[i]));
    }
    assert forall|i: int| 0 <= i < post.plots@.len() implies !dataview_under_project(
        pre,
        uuid,
        (#[trigger] post.plots@[i].dataview_uuid),
    ) by {
        assert((|p: crate::models::plot::Plot| !dataview_under_project(
            pre,
            uuid,
            p.dataview_uuid,
        ))(post.plots@[i]));
    }
    assert forall|i: int|
        0 <= i < post.roles@.len() implies (#[trigger] post.roles@[i].project_uuid) != uuid by {
        assert((|rr: ProjectUserRole| rr.project_uuid != uuid)(post.roles@[i]));
    }
}

} // verus!
