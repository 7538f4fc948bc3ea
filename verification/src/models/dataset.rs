use vstd::prelude::*;
use vstd::string::StringExecFns;
use crate::codec::{encode, token_of, EntityKind};
use crate::error::Error;
use crate::models::analysis::Analysis;
use crate::models::project_user_role::Role;
use crate::models::status::Status;
use crate::num::dec_digits;
use crate::retain::{
    analysis_not_among, collect_analyses_of_datasets, dataset_not_among, retain_datasets_not_among,
};
use crate::store::{
    analysis_under_dataset, dataview_of_analyses, dataview_under_dataset, ds_has, ds_idx,
    lemma_filter_distinct_by, lemma_filter_ext, lemma_filter_member_src, pr_has, pr_idx,
    project_of_dataset, stored_role, take_vec, Store,
};
use crate::text::dec_string;

verus! {

/// A dataset: belongs to exactly one project and is backed by a physical
/// table named after its identifier.
#[derive(Debug, Clone, PartialEq, Eq)]
pub struct Dataset {
    pub created_at: u64,
    pub updated_at: u64,
    pub project_uuid: u64,
    pub uuid: u64,
    pub name: String,
    pub uri: String,
    pub status: Status,
}

impl Dataset {
    /// An exact copy, field for field.
    pub fn duplicate(&self) -> (r: Self)
        ensures
            r == *self,
    {
        Dataset {
            created_at: self.created_at,
            updated_at: self.updated_at,
            project_uuid: self.project_uuid,
            uuid: self.uuid,
            name: self.name.clone(),
            uri: self.uri.clone(),
            status: self.status,
        }
    }

    /// The identity token addressing this dataset.
    pub fn id(&self) -> (r: String)
        ensures
            r@ == token_of(EntityKind::Dataset, seq![dec_digits(self.uuid as nat)]),
            crate::codec::spec_token_first_id(r@) == Some(self.uuid),
    {
        let mut keys: Vec<String> = Vec::new();
        keys.push(dec_string(self.uuid));
        let t = encode(EntityKind::Dataset, &keys);
        proof {
            assert(keys@.map_values(|k: String| k@) =~= seq![dec_digits(self.uuid as nat)]);
            crate::codec::lemma_decimal_key_well_typed(EntityKind::Dataset, self.uuid);
            let kseq = seq![dec_digits(self.uuid as nat)];
            assert forall|i: int| 0 <= i < kseq.len() implies crate::codec::valid_key(
                #[trigger] kseq[i],
            ) by {
                assert(kseq[i] == dec_digits(self.uuid as nat));
            }
            crate::codec::lemma_token_first_id(EntityKind::Dataset, kseq, self.uuid, t@);
        }
        t
    }
}

impl Dataset {
    /// Creates a dataset under a project, initially `Queued`: its physical
    /// table is provisioned and populated by an external import worker.
    pub fn create(store: &mut Store, project_uuid: u64, name: &str, uri: &str) -> (r: Result<
        Dataset,
        Error,
    >)
        requires
            old(store).wf(),
            old(store).next_id < u64::MAX,
        ensures
            final(store).wf(),
            (match r {
                Ok(d) => {
                    &&& pr_has(old(store).projects@, project_uuid)
                    &&& d.uuid == old(store).next_id
                    &&& d.project_uuid == project_uuid
                    &&& d.name@ == name@
                    &&& d.uri@ == uri@
                    &&& d.status == Status::Queued
                    &&& d.created_at == old(store).clock
                    &&& d.updated_at == old(store).clock
                    &&& final(store).datasets@ == old(store).datasets@.push(d)
                    &&& final(store).next_id == old(store).next_id + 1
                    &&& *final(store) == (Store {
                        datasets: final(store).datasets,
                        next_id: final(store).next_id,
                        ..*old(store)
                    })
                },
                Err(e) => {
                    &&& e == Error::NotFound
                    &&& !pr_has(old(store).projects@, project_uuid)
                    &&& *final(store) == *old(store)
                },
            }),
    {
        if store.project_index(project_uuid).is_none() {
            return Err(Error::NotFound);
        }
        let uuid = store.next_id;
        store.next_id = store.next_id + 1;
        let row = Dataset {
            created_at: store.clock,
            updated_at: store.clock,
            project_uuid,
            uuid,
            name: name.to_owned(),
            uri: uri.to_owned(),
            status: Status::Queued,
        };
        let result = row.duplicate();
        store.datasets.push(row);
        proof {
            let s0 = *old(store);
            let s1 = *store;
            assert(s1.datasets@ == s0.datasets@.push(result));
            assert forall|i: int, j: int|
                0 <= i < j < s1.datasets@.len() implies s1.datasets@[i].uuid
                != s1.datasets@[j].uuid by {
                if j == s1.datasets@.len() - 1 {
                    assert(s1.datasets@[i] == s0.datasets@[i]);
                }
            }
            assert forall|i: int| 0 <= i < s1.datasets@.len() implies pr_has(
                s1.projects@,
                #[trigger] s1.datasets@[i].project_uuid,
            ) by {
                if i < s1.datasets@.len() - 1 {
                    assert(s1.datasets@[i] == s0.datasets@[i]);
                }
            }
            assert forall|i: int| 0 <= i < s1.analyses@.len() implies ds_has(
                s1.datasets@,
                #[trigger] s1.analyses@[i].dataset_uuid,
            ) by {
                let k = ds_idx(s0.datasets@, s0.analyses@[i].dataset_uuid);
                assert(s1.datasets@[k].uuid == s0.analyses@[i].dataset_uuid);
            }
            assert(s1.wf());
        }
        Ok(result)
    }

    /// Reads a dataset by identifier.
    pub fn get(store: &Store, uuid: u64) -> (r: Result<Dataset, Error>)
        requires
            store.wf(),
        ensures
            (match r {
                Ok(d) => ds_has(store.datasets@, uuid) && d == store.datasets@[ds_idx(
                    store.datasets@,
                    uuid,
                )],
                Err(e) => e == Error::NotFound && !ds_has(store.datasets@, uuid),
            }),
    {
        match store.dataset_index(uuid) {
            Some(i) => {
                proof {
                    assert(ds_has(store.datasets@, uuid));
                    let k = ds_idx(store.datasets@, uuid);
                    assert(store.datasets@[k].uuid == uuid);
                    assert(k == i as int);
                }
                Ok(store.datasets[i].duplicate())
            },
            None => Err(Error::NotFound),
        }
    }

    /// Renames a dataset, stamping the update time.
    pub fn rename(store: &mut Store, uuid: u64, name: &str) -> (r: Result<Dataset, Error>)
        requires
            old(store).wf(),
        ensures
            final(store).wf(),
            (match r {
                Ok(d) => {
                    &&& ds_has(old(store).datasets@, uuid)
                    &&& d.uuid == uuid
                    &&& d.name@ == name@
                    &&& ({
                        let i = ds_idx(old(store).datasets@, uuid);
                        &&& d.project_uuid == old(store).datasets@[i].project_uuid
                        &&& d.uri@ == old(store).datasets@[i].uri@
                        &&& d.status == old(store).datasets@[i].status
                        &&& d.created_at == old(store).datasets@[i].created_at
                        &&& d.updated_at == old(store).clock
                        &&& final(store).datasets@ == old(store).datasets@.update(i, d)
                    })
                    &&& *final(store) == (Store {
                        datasets: final(store).datasets,
                        ..*old(store)
                    })
                },
                Err(e) => {
                    &&& e == Error::NotFound
                    &&& !ds_has(old(store).datasets@, uuid)
                    &&& *final(store) == *old(store)
                },
            }),
    {
        let i = match store.dataset_index(uuid) {
            Some(i) => i,
            None => {
                return Err(Error::NotFound);
            },
        };
        proof {
            assert(ds_has(store.datasets@, uuid));
            let k = ds_idx(store.datasets@, uuid);
            assert(store.datasets@[k].uuid == uuid);
            assert(k == i as int);
        }
        let clock = store.clock;
        store.datasets[i].name = name.to_owned();
        store.datasets[i].updated_at = clock;
        let d = store.datasets[i].duplicate();
        proof {
            let s0 = *old(store);
            let s1 = *store;
            assert(s1.datasets@ =~= s0.datasets@.update(i as int, d));
            assert forall|j: int| 0 <= j < s1.analyses@.len() implies ds_has(
                s1.datasets@,
                #[trigger] s1.analyses@[j].dataset_uuid,
            ) by {
                let k = ds_idx(s0.datasets@, s0.analyses@[j].dataset_uuid);
                assert(s1.datasets@[k].uuid == s0.analyses@[j].dataset_uuid);
            }
            assert(s1.wf());
        }
        Ok(d)
    }

    /// The requesting user's role on the project that owns this dataset,
    /// found by ascending the ownership chain.
    pub fn role(store: &Store, uuid: u64, user_uuid: u64) -> (r: Result<Role, Error>)
        requires
            store.wf(),
        ensures
            (match r {
                Ok(role) => project_of_dataset(*store, uuid) matches Some(p) && stored_role(
                    *store,
                    p,
                    user_uuid,
                ) == Some(role),
                Err(e) => e == Error::NotFound && (project_of_dataset(*store, uuid) is None
                    || stored_role(*store, project_of_dataset(*store, uuid).unwrap(), user_uuid)
                    is None),
            }),
    {
        let i = match store.dataset_index(uuid) {
            Some(i) => i,
            None => {
                return Err(Error::NotFound);
            },
        };
        proof {
            assert(ds_has(store.datasets@, uuid));
            let k = ds_idx(store.datasets@, uuid);
            assert(store.datasets@[k].uuid == uuid);
            assert(k == i as int);
        }
        let project = store.datasets[i].project_uuid;
        match store.role_lookup(project, user_uuid) {
            Some(role) => Ok(role),
            None => Err(Error::NotFound),
        }
    }

    /// Deletes a dataset and everything under it: its analyses, their
    /// dataviews, and the artifacts attached to those dataviews.
    #[verifier::rlimit(100)]
    #[verifier::spinoff_prover]
    pub fn delete(store: &mut Store, uuid: u64) -> (r: Result<(), Error>)
        requires
            old(store).wf(),
        ensures
            final(store).wf(),
            (match r {
                Ok(u) => {
                    &&& ds_has(old(store).datasets@, uuid)
                    &&& final(store).datasets@ == old(store).datasets@.filter(
                        (|d: Dataset| d.uuid != uuid),
                    )
                    &&& final(store).analyses@ == old(store).analyses@.filter(
                        (|a: Analysis| a.dataset_uuid != uuid),
                    )
                    &&& final(store).dataviews@ == old(store).dataviews@.filter(
                        (|d: crate::models::dataview::Dataview| !analysis_under_dataset(
                            *old(store),
                            uuid,
                            d.analysis_uuid,
                        )),
                    )
                    &&& final(store).plots@ == old(store).plots@.filter(
                        (|p: crate::models::plot::Plot| !dataview_under_dataset(
                            *old(store),
                            uuid,
                            p.dataview_uuid,
                        )),
                    )
                    &&& final(store).statistics@ == old(store).statistics@.filter(
                        (|p: crate::models::statistic::Statistic| !dataview_under_dataset(
                            *old(store),
                            uuid,
                            p.dataview_uuid,
                        )),
                    )
                    &&& final(store).models@ == old(store).models@.filter(
                        (|p: crate::models::model::Model| !dataview_under_dataset(
                            *old(store),
                            uuid,
                            p.dataview_uuid,
                        )),
                    )
                    &&& final(store).users@ == old(store).users@
                    &&& final(store).projects@ == old(store).projects@
                    &&& final(store).roles@ == old(store).roles@
                    &&& final(store).refresh_tokens@ == old(store).refresh_tokens@
                    &&& final(store).next_id == old(store).next_id
                    &&& final(store).clock == old(store).clock
                },
                Err(e) => {
                    &&& e == Error::NotFound
                    &&& !ds_has(old(store).datasets@, uuid)
                    &&& *final(store) == *old(store)
                },
            }),
    {
        if store.dataset_index(uuid).is_none() {
            return Err(Error::NotFound);
        }
        let ghost s0 = *old(store);
        let mut dead_ds: Vec<u64> = Vec::new();
        dead_ds.push(uuid);
        proof {
            assert forall|x: u64| #[trigger] dead_ds@.contains(x) <==> x == uuid by {
                if x == uuid {
                    assert(dead_ds@[0] == x);
                }
            }
        }
        let dead_an = collect_analyses_of_datasets(&store.analyses, &dead_ds);
        proof {
            assert forall|x: u64| #[trigger] dead_an@.contains(x) <==> analysis_under_dataset(
                s0,
                uuid,
                x,
            ) by {}
        }
        store.purge_analyses(&dead_an);
        let datasets = take_vec(&mut store.datasets);
        store.datasets = retain_datasets_not_among(datasets, &dead_ds);
        proof {
            broadcast use vstd::seq_lib::group_filter_ensures;

            let s1 = *store;
            let dpred = (|d: Dataset| d.uuid != uuid);
            let apred = (|a: Analysis| a.dataset_uuid != uuid);
            let vpred = (|d: crate::models::dataview::Dataview| !analysis_under_dataset(
                s0,
                uuid,
                d.analysis_uuid,
            ));
            let plpred = (|p: crate::models::plot::Plot| !dataview_under_dataset(
                s0,
                uuid,
                p.dataview_uuid,
            ));
            let stpred = (|p: crate::models::statistic::Statistic| !dataview_under_dataset(
                s0,
                uuid,
                p.dataview_uuid,
            ));
            let mopred = (|p: crate::models::model::Model| !dataview_under_dataset(
                s0,
                uuid,
                p.dataview_uuid,
            ));
            lemma_filter_ext(s0.datasets@, dataset_not_among(dead_ds@), dpred);
            assert forall|i: int|
                0 <= i < s0.analyses@.len() implies analysis_not_among(dead_an@)(
                #[trigger] s0.analyses@[i],
            ) == apred(s0.analyses@[i]) by {
                let a = s0.analyses@[i];
                if dead_an@.contains(a.uuid) {
                    let j = choose|j: int|
                        0 <= j < s0.analyses@.len() && (#[trigger] s0.analyses@[j].uuid) == a.uuid
                            && s0.analyses@[j].dataset_uuid == uuid;
                    assert(s0.analyses@[j] == a);
                }
                if a.dataset_uuid == uuid {
                    assert(analysis_under_dataset(s0, uuid, a.uuid));
                }
            }
            lemma_filter_ext(s0.analyses@, analysis_not_among(dead_an@), apred);
            assert forall|i: int|
                0 <= i < s0.dataviews@.len() implies crate::retain::dataview_outside(dead_an@)(
                #[trigger] s0.dataviews@[i],
            ) == vpred(s0.dataviews@[i]) by {}
            lemma_filter_ext(s0.dataviews@, crate::retain::dataview_outside(dead_an@), vpred);
            assert forall|i: int|
                0 <= i < s0.plots@.len() implies dataview_of_analyses(
                s0,
                dead_an@,
                (#[trigger] s0.plots@[i]).dataview_uuid,
            ) == dataview_under_dataset(s0, uuid, s0.plots@[i].dataview_uuid) by {}
            lemma_filter_ext(
                s0.plots@,
                (|p: crate::models::plot::Plot| !dataview_of_analyses(
                    s0,
                    dead_an@,
                    p.dataview_uuid,
                )),
                plpred,
            );
            assert forall|i: int|
                0 <= i < s0.statistics@.len() implies dataview_of_analyses(
                s0,
                dead_an@,
                (#[trigger] s0.statistics@[i]).dataview_uuid,
            ) == dataview_under_dataset(s0, uuid, s0.statistics@[i].dataview_uuid) by {}
            lemma_filter_ext(
                s0.statistics@,
                (|p: crate::models::statistic::Statistic| !dataview_of_analyses(
                    s0,
                    dead_an@,
                    p.dataview_uuid,
                )),
                stpred,
            );
            assert forall|i: int|
                0 <= i < s0.models@.len() implies dataview_of_analyses(
                s0,
                dead_an@,
                (#[trigger] s0.models@[i]).dataview_uuid,
            ) == dataview_under_dataset(s0, uuid, s0.models@[i].dataview_uuid) by {}
            lemma_filter_ext(
                s0.models@,
                (|p: crate::models::model::Model| !dataview_of_analyses(
                    s0,
                    dead_an@,
                    p.dataview_uuid,
                )),
                mopred,
            );
            assert(s1.datasets@ == s0.datasets@.filter(dpred));
            assert(s1.analyses@ == s0.analyses@.filter(apred));
            assert(s1.dataviews@ == s0.dataviews@.filter(vpred));
            assert(s1.plots@ == s0.plots@.filter(plpred));
            assert(s1.statistics@ == s0.statistics@.filter(stpred));
            assert(s1.models@ == s0.models@.filter(mopred));
            // datasets table is well-formed after its own filter
            lemma_filter_distinct_by(s0.datasets@, dpred, |d: Dataset| d.uuid);
            assert forall|i: int| 0 <= i < s1.datasets@.len() implies pr_has(
                s1.projects@,
                #[trigger] s1.datasets@[i].project_uuid,
            ) by {
                let a = lemma_filter_member_src(s0.datasets@, dpred, i);
            }
            assert forall|i: int|
                0 <= i < s1.datasets@.len() implies #[trigger] s1.datasets@[i].uuid
                < s1.next_id by {
                let a = lemma_filter_member_src(s0.datasets@, dpred, i);
            }
            // surviving analyses still find their dataset
            assert forall|i: int| 0 <= i < s1.analyses@.len() implies ds_has(
                s1.datasets@,
                #[trigger] s1.analyses@[i].dataset_uuid,
            ) by {
                let a = lemma_filter_member_src(s0.analyses@, apred, i);
                let row = s0.analyses@[a];
                let k = ds_idx(s0.datasets@, row.dataset_uuid);
                assert(s0.datasets@[k].uuid == row.dataset_uuid);
                assert(dpred(s0.datasets@[k]));
                assert(s1.datasets@.contains(s0.datasets@[k]));
                let k2 = choose|k2: int|
                    0 <= k2 < s1.datasets@.len() && s1.datasets@[k2] == s0.datasets@[k];
                assert(s1.datasets@[k2].uuid == row.dataset_uuid);
            }
            assert(s1.wf());
        }
        Ok(())
    }
}

impl Dataset {
    /// Applies a worker-reported status transition: forward steps only, and a
    /// repeated terminal report is accepted as a no-op rather than an error.
    pub fn set_status(store: &mut Store, uuid: u64, status: &Status) -> (r: Result<
        Status,
        Error,
    >)
        requires
            old(store).wf(),
        ensures
            final(store).wf(),
            (match r {
                Ok(s) => {
                    &&& ds_has(old(store).datasets@, uuid)
                    &&& s == *status
                    &&& ({
                        let i = ds_idx(old(store).datasets@, uuid);
                        let was = old(store).datasets@[i].status;
                        &&& was.can_step(*status)
                        &&& (was.is_terminal() ==> *final(store) == *old(store))
                        &&& (!was.is_terminal() ==> {
                            &&& final(store).datasets@.len() == old(store).datasets@.len()
                            &&& final(store).datasets@[i].status == *status
                            &&& final(store).datasets@[i].uuid == uuid
                            &&& (forall|j: int|
                                0 <= j < old(store).datasets@.len() && j != i
                                    ==> #[trigger] final(store).datasets@[j] == old(store).datasets@[j])
                            &&& *final(store) == (Store {
                                datasets: final(store).datasets,
                                ..*old(store)
                            })
                        })
                    })
                },
                Err(e) => {
                    &&& *final(store) == *old(store)
                    &&& (if e == Error::NotFound {
                        !ds_has(old(store).datasets@, uuid)
                    } else {
                        e == Error::InvariantViolation && ds_has(old(store).datasets@, uuid)
                            && !old(store).datasets@[ds_idx(
                            old(store).datasets@,
                            uuid,
                        )].status.can_step(*status)
                    })
                },
            }),
    {
        let i = match store.dataset_index(uuid) {
            Some(i) => i,
            None => {
                return Err(Error::NotFound);
            },
        };
        proof {
            assert(ds_has(store.datasets@, uuid));
            let k = ds_idx(store.datasets@, uuid);
            assert(store.datasets@[k].uuid == uuid);
            assert(k == i as int);
        }
        let was = store.datasets[i].status;
        if !was.step_allowed(status) {
            return Err(Error::InvariantViolation);
        }
        if was.terminal() {
            return Ok(was);
        }
        let clock = store.clock;
        store.datasets[i].status = *status;
        store.datasets[i].updated_at = clock;
        proof {
            let s0 = *old(store);
            let s1 = *store;
            assert forall|a: int, b: int|
                0 <= a < b < s1.datasets@.len() implies s1.datasets@[a].uuid != s1.datasets@[b].uuid by {
                assert(s1.datasets@[a].uuid == s0.datasets@[a].uuid);
                assert(s1.datasets@[b].uuid == s0.datasets@[b].uuid);
            }
            assert forall|a: int| 0 <= a < s1.datasets@.len() implies pr_has(
                s1.projects@,
                #[trigger] s1.datasets@[a].project_uuid,
            ) by {
                assert(s1.datasets@[a].project_uuid == s0.datasets@[a].project_uuid);
            }
            assert forall|a: int|
                0 <= a < s1.datasets@.len() implies #[trigger] s1.datasets@[a].uuid < s1.next_id by {
                assert(s1.datasets@[a].uuid == s0.datasets@[a].uuid);
            }
            assert forall|a: int| 0 <= a < s1.analyses@.len() implies crate::store::ds_has(
                s1.datasets@,
                #[trigger] s1.analyses@[a].dataset_uuid,
            ) by {
                let k = crate::store::ds_idx(s0.datasets@, s0.analyses@[a].dataset_uuid);
                assert(s1.datasets@[k].uuid == s0.analyses@[a].dataset_uuid);
            }

            assert(s1.wf());
        }
        Ok(*status)
    }
}

} // verus!
