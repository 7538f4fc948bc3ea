use vstd::prelude::*;
use vstd::string::StringExecFns;
use crate::codec::{encode, token_of, EntityKind};
use crate::error::Error;
use crate::models::dataview::{Dataview, Operation};
use crate::models::project_user_role::Role;
use crate::models::status::Status;
use crate::num::dec_digits;
use crate::retain::{analysis_not_among, dataview_outside};
use crate::store::{
    an_has, an_idx, dataview_of_analyses, dataview_under_analysis, ds_has, ds_idx, dv_has, dv_idx,
    lemma_filter_ext, pr_has, project_of_analysis, stored_role, Store,
};
use crate::text::dec_string;

verus! {

/// An analysis: a named, mutable pointer into a tree of dataviews derived
/// from one dataset.
#[derive(Debug, Clone, PartialEq, Eq)]
pub struct Analysis {
    pub created_at: u64,
    pub updated_at: u64,
    pub dataset_uuid: u64,
    pub dataview_uuid: u64,
    pub uuid: u64,
    pub name: String,
}

impl Analysis {
    /// An exact copy, field for field.
    pub fn duplicate(&self) -> (r: Self)
        ensures
            r == *self,
    {
        Analysis {
            created_at: self.created_at,
            updated_at: self.updated_at,
            dataset_uuid: self.dataset_uuid,
            dataview_uuid: self.dataview_uuid,
            uuid: self.uuid,
            name: self.name.clone(),
        }
    }

    /// The identity token addressing this analysis.
    pub fn id(&self) -> (r: String)
        ensures
            r@ == token_of(EntityKind::Analysis, seq![dec_digits(self.uuid as nat)]),
            crate::codec::spec_token_first_id(r@) == Some(self.uuid),
    {
        let mut keys: Vec<String> = Vec::new();
        keys.push(dec_string(self.uuid));
        let t = encode(EntityKind::Analysis, &keys);
        proof {
            assert(keys@.map_values(|k: String| k@) =~= seq![dec_digits(self.uuid as nat)]);
            crate::codec::lemma_decimal_key_well_typed(EntityKind::Analysis, self.uuid);
            let kseq = seq![dec_digits(self.uuid as nat)];
            assert forall|i: int| 0 <= i < kseq.len() implies crate::codec::valid_key(
                #[trigger] kseq[i],
            ) by {
                assert(kseq[i] == dec_digits(self.uuid as nat));
            }
            crate::codec::lemma_token_first_id(EntityKind::Analysis, kseq, self.uuid, t@);
        }
        t
    }
}

impl Analysis {
    /// Creates an analysis and, in the same step, its root dataview: the root
    /// points at itself, is already `Completed`, and is backed by a physical
    /// view selecting the whole of the owning dataset's table.
    #[verifier::rlimit(100)]
    #[verifier::spinoff_prover]
    pub fn create(store: &mut Store, dataset_uuid: u64, name: &str) -> (r: Result<Analysis, Error>)
        requires
            old(store).wf(),
            old(store).next_id + 1 < u64::MAX,
        ensures
            final(store).wf(),
            (match r {
                Ok(a) => {
                    &&& ds_has(old(store).datasets@, dataset_uuid)
                    &&& a.uuid == old(store).next_id
                    &&& a.dataset_uuid == dataset_uuid
                    &&& a.dataview_uuid == old(store).next_id + 1
                    &&& a.name@ == name@
                    &&& a.created_at == old(store).clock
                    &&& a.updated_at == old(store).clock
                    &&& final(store).analyses@ == old(store).analyses@.push(a)
                    &&& final(store).dataviews@ == old(store).dataviews@.push(
                        (Dataview {
                            created_at: old(store).clock,
                            updated_at: old(store).clock,
                            analysis_uuid: a.uuid,
                            uuid: a.dataview_uuid,
                            parent_uuid: a.dataview_uuid,
                            operation: Operation::Create,
                            args: None,
                            status: Status::Completed,
                        }),
                    )
                    &&& final(store).next_id == old(store).next_id + 2
                    &&& final(store).users@ == old(store).users@
                    &&& final(store).projects@ == old(store).projects@
                    &&& final(store).roles@ == old(store).roles@
                    &&& final(store).datasets@ == old(store).datasets@
                    &&& final(store).plots@ == old(store).plots@
                    &&& final(store).statistics@ == old(store).statistics@
                    &&& final(store).models@ == old(store).models@
                    &&& final(store).refresh_tokens@ == old(store).refresh_tokens@
                    &&& final(store).clock == old(store).clock
                },
                Err(e) => {
                    &&& e == Error::NotFound
                    &&& !ds_has(old(store).datasets@, dataset_uuid)
                    &&& *final(store) == *old(store)
                },
            }),
    {
        if store.dataset_index(dataset_uuid).is_none() {
            return Err(Error::NotFound);
        }
        let a_id = store.next_id;
        let dv_id = store.next_id + 1;
        store.next_id = store.next_id + 2;
        let dv_row = Dataview {
            created_at: store.clock,
            updated_at: store.clock,
            analysis_uuid: a_id,
            uuid: dv_id,
            parent_uuid: dv_id,
            operation: Operation::Create,
            args: None,
            status: Status::Completed,
        };
        let a_row = Analysis {
            created_at: store.clock,
            updated_at: store.clock,
            dataset_uuid,
            dataview_uuid: dv_id,
            uuid: a_id,
            name: name.to_owned(),
        };
        let result = a_row.duplicate();
        store.dataviews.push(dv_row);
        store.analyses.push(a_row);
        proof {
            let s0 = *old(store);
            let s1 = *store;
            assert(s1.analyses@ == s0.analyses@.push(result));
            assert forall|i: int, j: int|
                0 <= i < j < s1.analyses@.len() implies s1.analyses@[i].uuid
                != s1.analyses@[j].uuid by {
                if j == s1.analyses@.len() - 1 {
                    assert(s1.analyses@[i] == s0.analyses@[i]);
                }
            }
            assert forall|i: int, j: int|
                0 <= i < j < s1.dataviews@.len() implies s1.dataviews@[i].uuid
                != s1.dataviews@[j].uuid by {
                if j == s1.dataviews@.len() - 1 {
                    assert(s1.dataviews@[i] == s0.dataviews@[i]);
                }
            }
            assert forall|i: int| 0 <= i < s1.analyses@.len() implies ds_has(
                s1.datasets@,
                #[trigger] s1.analyses@[i].dataset_uuid,
            ) by {
                if i < s1.analyses@.len() - 1 {
                    assert(s1.analyses@[i] == s0.analyses@[i]);
                }
            }
            assert forall|i: int| 0 <= i < s1.analyses@.len() implies dv_has(
                s1.dataviews@,
                #[trigger] s1.analyses@[i].dataview_uuid,
            ) && s1.dataviews@[dv_idx(s1.dataviews@, s1.analyses@[i].dataview_uuid)].analysis_uuid
                == s1.analyses@[i].uuid by {
                if i < s1.analyses@.len() - 1 {
                    assert(s1.analyses@[i] == s0.analyses@[i]);
                    let row = s0.analyses@[i];
                    let k = dv_idx(s0.dataviews@, row.dataview_uuid);
                    assert(s0.dataviews@[k].uuid == row.dataview_uuid);
                    assert(s1.dataviews@[k] == s0.dataviews@[k]);
                    assert(dv_has(s1.dataviews@, row.dataview_uuid));
                    let k2 = dv_idx(s1.dataviews@, row.dataview_uuid);
                    assert(s1.dataviews@[k2].uuid == row.dataview_uuid);
                    assert(k2 == k);
                } else {
                    let last = s1.dataviews@.len() - 1;
                    assert(s1.dataviews@[last].uuid == dv_id);
                    assert(dv_has(s1.dataviews@, dv_id));
                    let k2 = dv_idx(s1.dataviews@, dv_id);
                    assert(s1.dataviews@[k2].uuid == dv_id);
                    assert(k2 == last);
                }
            }
            assert forall|i: int| 0 <= i < s1.dataviews@.len() implies an_has(
                s1.analyses@,
                #[trigger] s1.dataviews@[i].analysis_uuid,
            ) by {
                if i < s1.dataviews@.len() - 1 {
                    assert(s1.dataviews@[i] == s0.dataviews@[i]);
                    let k = an_idx(s0.analyses@, s0.dataviews@[i].analysis_uuid);
                    assert(s0.analyses@[k].uuid == s0.dataviews@[i].analysis_uuid);
                    assert(s1.analyses@[k] == s0.analyses@[k]);
                } else {
                    assert(s1.analyses@.last().uuid == a_id);
                }
            }
            assert(crate::store::parent_earlier(s1.dataviews@)) by {
                assert forall|i: int|
                    0 <= i < s1.dataviews@.len() implies (#[trigger] s1.dataviews@[i].is_root()
                    || (exists|j: int|
                    0 <= j < i && (#[trigger] s1.dataviews@[j].uuid)
                        == s1.dataviews@[i].parent_uuid && s1.dataviews@[j].analysis_uuid
                        == s1.dataviews@[i].analysis_uuid)) by {
                    if i < s1.dataviews@.len() - 1 {
                        assert(s1.dataviews@[i] == s0.dataviews@[i]);
                        if !s0.dataviews@[i].is_root() {
                            let j = choose|j: int|
                                0 <= j < i && (#[trigger] s0.dataviews@[j].uuid)
                                    == s0.dataviews@[i].parent_uuid && s0.dataviews@[j].analysis_uuid
                                    == s0.dataviews@[i].analysis_uuid;
                            assert(s1.dataviews@[j] == s0.dataviews@[j]);
                        }
                    }
                }
            }
            assert forall|i: int, j: int|
                0 <= i < s1.dataviews@.len() && 0 <= j < s1.dataviews@.len()
                    && s1.dataviews@[i].is_root() && s1.dataviews@[j].is_root()
                    && s1.dataviews@[i].analysis_uuid == s1.dataviews@[j].analysis_uuid implies i
                == j by {
                let last = s1.dataviews@.len() - 1;
                if i < last && j < last {
                    assert(s1.dataviews@[i] == s0.dataviews@[i]);
                    assert(s1.dataviews@[j] == s0.dataviews@[j]);
                } else if i == last && j < last {
                    assert(s1.dataviews@[j] == s0.dataviews@[j]);
                    assert(an_has(s0.analyses@, s0.dataviews@[j].analysis_uuid));
                    let k = an_idx(s0.analyses@, s0.dataviews@[j].analysis_uuid);
                    assert(s0.analyses@[k].uuid < s0.next_id);
                } else if j == last && i < last {
                    assert(s1.dataviews@[i] == s0.dataviews@[i]);
                    assert(an_has(s0.analyses@, s0.dataviews@[i].analysis_uuid));
                    let k = an_idx(s0.analyses@, s0.dataviews@[i].analysis_uuid);
                    assert(s0.analyses@[k].uuid < s0.next_id);
                }
            }
            assert forall|i: int| 0 <= i < s1.plots@.len() implies dv_has(
                s1.dataviews@,
                #[trigger] s1.plots@[i].dataview_uuid,
            ) by {
                let k = dv_idx(s0.dataviews@, s0.plots@[i].dataview_uuid);
                assert(s1.dataviews@[k].uuid == s0.plots@[i].dataview_uuid);
            }
            assert forall|i: int| 0 <= i < s1.statistics@.len() implies dv_has(
                s1.dataviews@,
                #[trigger] s1.statistics@[i].dataview_uuid,
            ) by {
                let k = dv_idx(s0.dataviews@, s0.statistics@[i].dataview_uuid);
                assert(s1.dataviews@[k].uuid == s0.statistics@[i].dataview_uuid);
            }
            assert forall|i: int| 0 <= i < s1.models@.len() implies dv_has(
                s1.dataviews@,
                #[trigger] s1.models@[i].dataview_uuid,
            ) by {
                let k = dv_idx(s0.dataviews@, s0.models@[i].dataview_uuid);
                assert(s1.dataviews@[k].uuid == s0.models@[i].dataview_uuid);
            }
            assert(s1.wf());
        }
        Ok(result)
    }

    /// Reads an analysis by identifier.
    pub fn get(store: &Store, uuid: u64) -> (r: Result<Analysis, Error>)
        requires
            store.wf(),
        ensures
            (match r {
                Ok(a) => an_has(store.analyses@, uuid) && a == store.analyses@[an_idx(
                    store.analyses@,
                    uuid,
                )],
                Err(e) => e == Error::NotFound && !an_has(store.analyses@, uuid),
            }),
    {
        match store.analysis_index(uuid) {
            Some(i) => {
                proof {
                    assert(an_has(store.analyses@, uuid));
                    let k = an_idx(store.analyses@, uuid);
                    assert(store.analyses@[k].uuid == uuid);
                    assert(k == i as int);
                }
                Ok(store.analyses[i].duplicate())
            },
            None => Err(Error::NotFound),
        }
    }

    /// Renames an analysis, stamping the update time.
    pub fn rename(store: &mut Store, uuid: u64, name: &str) -> (r: Result<Analysis, Error>)
        requires
            old(store).wf(),
        ensures
            final(store).wf(),
            (match r {
                Ok(a) => {
                    &&& an_has(old(store).analyses@, uuid)
                    &&& a.uuid == uuid
                    &&& a.name@ == name@
                    &&& ({
                        let i = an_idx(old(store).analyses@, uuid);
                        &&& a.dataset_uuid == old(store).analyses@[i].dataset_uuid
                        &&& a.dataview_uuid == old(store).analyses@[i].dataview_uuid
                        &&& a.created_at == old(store).analyses@[i].created_at
                        &&& a.updated_at == old(store).clock
                        &&& final(store).analyses@ == old(store).analyses@.update(i, a)
                    })
                    &&& *final(store) == (Store {
                        analyses: final(store).analyses,
                        ..*old(store)
                    })
                },
                Err(e) => {
                    &&& e == Error::NotFound
                    &&& !an_has(old(store).analyses@, uuid)
                    &&& *final(store) == *old(store)
                },
            }),
    {
        let i = match store.analysis_index(uuid) {
            Some(i) => i,
            None => {
                return Err(Error::NotFound);
            },
        };
        proof {
            assert(an_has(store.analyses@, uuid));
            let k = an_idx(store.analyses@, uuid);
            assert(store.analyses@[k].uuid == uuid);
            assert(k == i as int);
        }
        let clock = store.clock;
        store.analyses[i].name = name.to_owned();
        store.analyses[i].updated_at = clock;
        let a = store.analyses[i].duplicate();
        proof {
            let s0 = *old(store);
            let s1 = *store;
            assert(s1.analyses@ =~= s0.analyses@.update(i as int, a));
            assert forall|j: int| 0 <= j < s1.analyses@.len() implies ds_has(
                s1.datasets@,
                #[trigger] s1.analyses@[j].dataset_uuid,
            ) by {
                if j != i as int {
                    assert(s1.analyses@[j] == s0.analyses@[j]);
                }
            }
            assert forall|j: int| 0 <= j < s1.analyses@.len() implies dv_has(
                s1.dataviews@,
                #[trigger] s1.analyses@[j].dataview_uuid,
            ) && s1.dataviews@[dv_idx(s1.dataviews@, s1.analyses@[j].dataview_uuid)].analysis_uuid
                == s1.analyses@[j].uuid by {
                if j != i as int {
                    assert(s1.analyses@[j] == s0.analyses@[j]);
                } else {
                    assert(s1.analyses@[j].dataview_uuid == s0.analyses@[j].dataview_uuid);
                    assert(s1.analyses@[j].uuid == s0.analyses@[j].uuid);
                }
            }
            assert forall|j: int| 0 <= j < s1.dataviews@.len() implies an_has(
                s1.analyses@,
                #[trigger] s1.dataviews@[j].analysis_uuid,
            ) by {
                let k = an_idx(s0.analyses@, s0.dataviews@[j].analysis_uuid);
                assert(s1.analyses@[k].uuid == s0.dataviews@[j].analysis_uuid);
            }
            assert(s1.wf());
        }
        Ok(a)
    }

    /// The requesting user's role on the project that owns this analysis.
    pub fn role(store: &Store, uuid: u64, user_uuid: u64) -> (r: Result<Role, Error>)
        requires
            store.wf(),
        ensures
            (match r {
                Ok(role) => project_of_analysis(*store, uuid) matches Some(p) && stored_role(
                    *store,
                    p,
                    user_uuid,
                ) == Some(role),
                Err(e) => e == Error::NotFound && (project_of_analysis(*store, uuid) is None
                    || stored_role(*store, project_of_analysis(*store, uuid).unwrap(), user_uuid)
                    is None),
            }),
    {
        let i = match store.analysis_index(uuid) {
            Some(i) => i,
            None => {
                return Err(Error::NotFound);
            },
        };
        proof {
            assert(an_has(store.analyses@, uuid));
            let k = an_idx(store.analyses@, uuid);
            assert(store.analyses@[k].uuid == uuid);
            assert(k == i as int);
        }
        let ds = store.analyses[i].dataset_uuid;
        let j = match store.dataset_index(ds) {
            Some(j) => j,
            None => {
                proof {
                    assert(false);
                }
                return Err(Error::NotFound);
            },
        };
        proof {
            assert(ds_has(store.datasets@, ds));
            let k = ds_idx(store.datasets@, ds);
            assert(store.datasets@[k].uuid == ds);
            assert(k == j as int);
        }
        let project = store.datasets[j].project_uuid;
        match store.role_lookup(project, user_uuid) {
            Some(role) => Ok(role),
            None => Err(Error::NotFound),
        }
    }

    /// Points an analysis at a dataview of its own tree as the current one.
    pub fn point_to(store: &mut Store, uuid: u64, dataview_uuid: u64) -> (r: Result<
        Analysis,
        Error,
    >)
        requires
            old(store).wf(),
        ensures
            final(store).wf(),
            (match r {
                Ok(a) => {
                    &&& an_has(old(store).analyses@, uuid)
                    &&& dv_has(old(store).dataviews@, dataview_uuid)
                    &&& old(store).dataviews@[dv_idx(
                        old(store).dataviews@,
                        dataview_uuid,
                    )].analysis_uuid == uuid
                    &&& a.uuid == uuid
                    &&& a.dataview_uuid == dataview_uuid
                    &&& ({
                        let i = an_idx(old(store).analyses@, uuid);
                        &&& a.dataset_uuid == old(store).analyses@[i].dataset_uuid
                        &&& a.name@ == old(store).analyses@[i].name@
                        &&& a.updated_at == old(store).clock
                        &&& final(store).analyses@ == old(store).analyses@.update(i, a)
                    })
                    &&& *final(store) == (Store {
                        analyses: final(store).analyses,
                        ..*old(store)
                    })
                },
                Err(e) => {
                    &&& e == Error::NotFound
                    &&& (!an_has(old(store).analyses@, uuid) || !dv_has(
                        old(store).dataviews@,
                        dataview_uuid,
                    ) || old(store).dataviews@[dv_idx(
                        old(store).dataviews@,
                        dataview_uuid,
                    )].analysis_uuid != uuid)
                    &&& *final(store) == *old(store)
                },
            }),
    {
        let i = match store.analysis_index(uuid) {
            Some(i) => i,
            None => {
                return Err(Error::NotFound);
            },
        };
        proof {
            assert(an_has(store.analyses@, uuid));
            let k = an_idx(store.analyses@, uuid);
            assert(store.analyses@[k].uuid == uuid);
            assert(k == i as int);
        }
        let j = match store.dataview_index(dataview_uuid) {
            Some(j) => j,
            None => {
                return Err(Error::NotFound);
            },
        };
        proof {
            assert(dv_has(store.dataviews@, dataview_uuid));
            let k = dv_idx(store.dataviews@, dataview_uuid);
            assert(store.dataviews@[k].uuid == dataview_uuid);
            assert(k == j as int);
        }
        if store.dataviews[j].analysis_uuid != uuid {
            return Err(Error::NotFound);
        }
        let clock = store.clock;
        store.analyses[i].dataview_uuid = dataview_uuid;
        store.analyses[i].updated_at = clock;
        let a = store.analyses[i].duplicate();
        proof {
            let s0 = *old(store);
            let s1 = *store;
            assert(s1.analyses@ =~= s0.analyses@.update(i as int, a));
            assert forall|k: int| 0 <= k < s1.analyses@.len() implies ds_has(
                s1.datasets@,
                #[trigger] s1.analyses@[k].dataset_uuid,
            ) by {
                if k != i as int {
                    assert(s1.analyses@[k] == s0.analyses@[k]);
                }
            }
            assert forall|k: int| 0 <= k < s1.analyses@.len() implies dv_has(
                s1.dataviews@,
                #[trigger] s1.analyses@[k].dataview_uuid,
            ) && s1.dataviews@[dv_idx(s1.dataviews@, s1.analyses@[k].dataview_uuid)].analysis_uuid
                == s1.analyses@[k].uuid by {
                if k != i as int {
                    assert(s1.analyses@[k] == s0.analyses@[k]);
                } else {
                    assert(s1.analyses@[k].dataview_uuid == dataview_uuid);
                    let w = dv_idx(s1.dataviews@, dataview_uuid);
                    assert(s1.dataviews@[w].uuid == dataview_uuid);
                    assert(w == j as int);
                }
            }
            assert forall|k: int| 0 <= k < s1.dataviews@.len() implies an_has(
                s1.analyses@,
                #[trigger] s1.dataviews@[k].analysis_uuid,
            ) by {
                let w = an_idx(s0.analyses@, s0.dataviews@[k].analysis_uuid);
                assert(s1.analyses@[w].uuid == s0.dataviews@[k].analysis_uuid);
            }
            assert(s1.wf());
        }
        Ok(a)
    }

    /// Deletes an analysis together with all its dataviews and their attached
    /// artifacts.
    pub fn delete(store: &mut Store, uuid: u64) -> (r: Result<(), Error>)
        requires
            old(store).wf(),
        ensures
            final(store).wf(),
            (match r {
                Ok(u) => {
                    &&& an_has(old(store).analyses@, uuid)
                    &&& final(store).analyses@ == old(store).analyses@.filter(
                        (|a: Analysis| a.uuid != uuid),
                    )
                    &&& final(store).dataviews@ == old(store).dataviews@.filter(
                        (|d: Dataview| d.analysis_uuid != uuid),
                    )
                    &&& final(store).plots@ == old(store).plots@.filter(
                        (|p: crate::models::plot::Plot| !dataview_under_analysis(
                            *old(store),
                            uuid,
                            p.dataview_uuid,
                        )),
                    )
                    &&& final(store).statistics@ == old(store).statistics@.filter(
                        (|p: crate::models::statistic::Statistic| !dataview_under_analysis(
                            *old(store),
                            uuid,
                            p.dataview_uuid,
                        )),
                    )
                    &&& final(store).models@ == old(store).models@.filter(
                        (|p: crate::models::model::Model| !dataview_under_analysis(
                            *old(store),
                            uuid,
                            p.dataview_uuid,
                        )),
                    )
                    &&& final(store).users@ == old(store).users@
                    &&& final(store).projects@ == old(store).projects@
                    &&& final(store).roles@ == old(store).roles@
                    &&& final(store).datasets@ == old(store).datasets@
                    &&& final(store).refresh_tokens@ == old(store).refresh_tokens@
                    &&& final(store).next_id == old(store).next_id
                    &&& final(store).clock == old(store).clock
                },
                Err(e) => {
                    &&& e == Error::NotFound
                    &&& !an_has(old(store).analyses@, uuid)
                    &&& *final(store) == *old(store)
                },
            }),
    {
        if store.analysis_index(uuid).is_none() {
            return Err(Error::NotFound);
        }
        let ghost s0 = *old(store);
        let mut dead_an: Vec<u64> = Vec::new();
        dead_an.push(uuid);
        proof {
            assert forall|x: u64| #[trigger] dead_an@.contains(x) <==> x == uuid by {
                if x == uuid {
                    assert(dead_an@[0] == x);
                }
            }
        }
        store.purge_analyses(&dead_an);
        proof {
            let s1 = *store;
            lemma_filter_ext(s0.analyses@, analysis_not_among(dead_an@), (|a: Analysis| a.uuid != uuid));
            lemma_filter_ext(
                s0.dataviews@,
                dataview_outside(dead_an@),
                (|d: Dataview| d.analysis_uuid != uuid),
            );
            assert forall|i: int|
                0 <= i < s0.plots@.len() implies dataview_of_analyses(
                s0,
                dead_an@,
                (#[trigger] s0.plots@[i]).dataview_uuid,
            ) == dataview_under_analysis(s0, uuid, s0.plots@[i].dataview_uuid) by {}
            lemma_filter_ext(
                s0.plots@,
                (|p: crate::models::plot::Plot| !dataview_of_analyses(
                    s0,
                    dead_an@,
                    p.dataview_uuid,
                )),
                (|p: crate::models::plot::Plot| !dataview_under_analysis(
                    s0,
                    uuid,
                    p.dataview_uuid,
                )),
            );
            assert forall|i: int|
                0 <= i < s0.statistics@.len() implies dataview_of_analyses(
                s0,
                dead_an@,
                (#[trigger] s0.statistics@[i]).dataview_uuid,
            ) == dataview_under_analysis(s0, uuid, s0.statistics@[i].dataview_uuid) by {}
            lemma_filter_ext(
                s0.statistics@,
                (|p: crate::models::statistic::Statistic| !dataview_of_analyses(
                    s0,
                    dead_an@,
                    p.dataview_uuid,
                )),
                (|p: crate::models::statistic::Statistic| !dataview_under_analysis(
                    s0,
                    uuid,
                    p.dataview_uuid,
                )),
            );
            assert forall|i: int|
                0 <= i < s0.models@.len() implies dataview_of_analyses(
                s0,
                dead_an@,
                (#[trigger] s0.models@[i]).dataview_uuid,
            ) == dataview_under_analysis(s0, uuid, s0.models@[i].dataview_uuid) by {}
            lemma_filter_ext(
                s0.models@,
                (|p: crate::models::model::Model| !dataview_of_analyses(
                    s0,
                    dead_an@,
                    p.dataview_uuid,
                )),
                (|p: crate::models::model::Model| !dataview_under_analysis(
                    s0,
                    uuid,
                    p.dataview_uuid,
                )),
            );
        }
        Ok(())
    }
}

} // verus!
