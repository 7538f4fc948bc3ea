use vstd::prelude::*;
use vstd::string::StringExecFns;
use crate::codec::{encode, token_of, EntityKind};
use crate::error::Error;
use crate::models::dataview::Dataview;
use crate::models::project_user_role::Role;
use crate::models::status::Status;
use crate::num::dec_digits;
use crate::retain::retain_models_not_among;
use crate::store::{
    dv_has, lemma_filter_distinct_by, lemma_filter_ext, lemma_filter_member_src, mo_has, mo_idx,
    project_of_model, stored_role, take_vec, Store,
};
use crate::text::dec_string;

verus! {

/// A fitted model attached to one dataview; trained asynchronously by an
/// external worker. A model with no target clusters; one with a target
/// classifies or regresses.
#[derive(Debug, Clone, PartialEq, Eq)]
pub struct Model {
    pub created_at: u64,
    pub updated_at: u64,
    pub dataview_uuid: u64,
    pub uuid: u64,
    pub name: String,
    pub target: Option<String>,
    pub features: Vec<String>,
    pub args: String,
    pub status: Status,
    pub transformer_uri: Option<String>,
    pub estimator_uri: Option<String>,
    pub evaluation: Option<String>,
    pub decisions: Option<String>,
}

fn clone_opt(v: &Option<String>) -> (r: Option<String>)
    ensures
        r == *v,
{
    match v {
        Some(s) => Some(s.clone()),
        None => None,
    }
}

fn clone_strings(v: &Vec<String>) -> (r: Vec<String>)
    ensures
        r@ == v@,
{
    let mut out: Vec<String> = Vec::new();
    let mut i: usize = 0;
    while i < v.len()
        invariant
            i <= v@.len(),
            out@ =~= v@.subrange(0, i as int),
        decreases v@.len() - i,
    {
        out.push(v[i].clone());
        proof {
            assert(v@.subrange(0, i as int + 1) =~= v@.subrange(0, i as int).push(v@[i as int]));
        }
        i = i + 1;
    }
    proof {
        assert(v@.subrange(0, v@.len() as int) =~= v@);
    }
    out
}

impl Model {
    /// Field-for-field agreement, comparing the feature list by its contents.
    pub open spec fn matches_fields(self, other: Model) -> bool {
        &&& self.created_at == other.created_at
        &&& self.updated_at == other.updated_at
        &&& self.dataview_uuid == other.dataview_uuid
        &&& self.uuid == other.uuid
        &&& self.name == other.name
        &&& self.target == other.target
        &&& self.features@ == other.features@
        &&& self.args == other.args
        &&& self.status == other.status
        &&& self.transformer_uri == other.transformer_uri
        &&& self.estimator_uri == other.estimator_uri
        &&& self.evaluation == other.evaluation
        &&& self.decisions == other.decisions
    }

    /// An exact copy, field for field. Two `Vec`s are distinct values to the
    /// verifier even when they hold the same strings, so the copy is related
    /// to the original through `matches_fields` rather than plain equality.
    pub fn duplicate(&self) -> (r: Self)
        ensures
            r.matches_fields(*self),
    {
        Model {
            created_at: self.created_at,
            updated_at: self.updated_at,
            dataview_uuid: self.dataview_uuid,
            uuid: self.uuid,
            name: self.name.clone(),
            target: clone_opt(&self.target),
            features: clone_strings(&self.features),
            args: self.args.clone(),
            status: self.status,
            transformer_uri: clone_opt(&self.transformer_uri),
            estimator_uri: clone_opt(&self.estimator_uri),
            evaluation: clone_opt(&self.evaluation),
            decisions: clone_opt(&self.decisions),
        }
    }

    /// The identity token addressing this model.
    pub fn id(&self) -> (r: String)
        ensures
            r@ == token_of(EntityKind::Model, seq![dec_digits(self.uuid as nat)]),
            crate::codec::spec_token_first_id(r@) == Some(self.uuid),
    {
        let mut keys: Vec<String> = Vec::new();
        keys.push(dec_string(self.uuid));
        let t = encode(EntityKind::Model, &keys);
        proof {
            assert(keys@.map_values(|k: String| k@) =~= seq![dec_digits(self.uuid as nat)]);
            crate::codec::lemma_decimal_key_well_typed(EntityKind::Model, self.uuid);
            let kseq = seq![dec_digits(self.uuid as nat)];
            assert forall|i: int| 0 <= i < kseq.len() implies crate::codec::valid_key(
                #[trigger] kseq[i],
            ) by {
                assert(kseq[i] == dec_digits(self.uuid as nat));
            }
            crate::codec::lemma_token_first_id(EntityKind::Model, kseq, self.uuid, t@);
        }
        t
    }
}

impl Model {
    /// Creates a model attached to a dataview, initially `Queued`; an external
    /// worker trains it and reports completion later. A model with no target
    /// clusters; one with a target classifies or regresses.
    pub fn create(
        store: &mut Store,
        dataview_uuid: u64,
        name: &str,
        target: &Option<String>,
        features: &Vec<String>,
        args: &str,
    ) -> (r: Result<Model, Error>)
        requires
            old(store).wf(),
            old(store).next_id < u64::MAX,
        ensures
            final(store).wf(),
            (match r {
                Ok(p) => {
                    &&& dv_has(old(store).dataviews@, dataview_uuid)
                    &&& p.uuid == old(store).next_id
                    &&& p.dataview_uuid == dataview_uuid
                    &&& p.name@ == name@
                    &&& p.target == *target
                    &&& p.features@ == features@
                    &&& p.args@ == args@
                    &&& p.status == Status::Queued
                    &&& p.transformer_uri is None
                    &&& p.estimator_uri is None
                    &&& p.evaluation is None
                    &&& p.decisions is None
                    &&& p.created_at == old(store).clock
                    &&& p.updated_at == old(store).clock
                    &&& final(store).models@.len() == old(store).models@.len() + 1
                    &&& final(store).models@.drop_last() == old(store).models@
                    &&& final(store).models@.last().matches_fields(p)
                    &&& final(store).next_id == old(store).next_id + 1
                    &&& *final(store) == (Store {
                        models: final(store).models,
                        next_id: final(store).next_id,
                        ..*old(store)
                    })
                },
                Err(e) => {
                    &&& e == Error::NotFound
                    &&& !dv_has(old(store).dataviews@, dataview_uuid)
                    &&& *final(store) == *old(store)
                },
            }),
    {
        if store.dataview_index(dataview_uuid).is_none() {
            return Err(Error::NotFound);
        }
        let uuid = store.next_id;
        store.next_id = store.next_id + 1;
        let row = Model {
            created_at: store.clock,
            updated_at: store.clock,
            dataview_uuid,
            uuid,
            name: name.to_owned(),
            target: clone_opt(target),
            features: clone_strings(features),
            args: args.to_owned(),
            status: Status::Queued,
            transformer_uri: None,
            estimator_uri: None,
            evaluation: None,
            decisions: None,
        };
        let result = row.duplicate();
        store.models.push(row);
        proof {
            let s0 = *old(store);
            let s1 = *store;
            assert(s1.models@.drop_last() =~= s0.models@);
            assert(s1.models@.last().matches_fields(result));
            assert forall|i: int, j: int|
                0 <= i < j < s1.models@.len() implies s1.models@[i].uuid != s1.models@[j].uuid by {
                if j == s1.models@.len() - 1 {
                    assert(s1.models@[i] == s0.models@[i]);
                }
            }
            assert forall|i: int| 0 <= i < s1.models@.len() implies dv_has(
                s1.dataviews@,
                #[trigger] s1.models@[i].dataview_uuid,
            ) by {
                if i < s1.models@.len() - 1 {
                    assert(s1.models@[i] == s0.models@[i]);
                }
            }
            assert(s1.wf());
        }
        Ok(result)
    }

    /// Reads a model by identifier.
    pub fn get(store: &Store, uuid: u64) -> (r: Result<Model, Error>)
        requires
            store.wf(),
        ensures
            (match r {
                Ok(p) => mo_has(store.models@, uuid) && p.matches_fields(
                    store.models@[mo_idx(store.models@, uuid)],
                ),
                Err(e) => e == Error::NotFound && !mo_has(store.models@, uuid),
            }),
    {
        match store.model_index(uuid) {
            Some(i) => {
                proof {
                    assert(mo_has(store.models@, uuid));
                    let k = mo_idx(store.models@, uuid);
                    assert(store.models@[k].uuid == uuid);
                    assert(k == i as int);
                }
                Ok(store.models[i].duplicate())
            },
            None => Err(Error::NotFound),
        }
    }

    /// Renames a model, stamping the update time.
    pub fn rename(store: &mut Store, uuid: u64, name: &str) -> (r: Result<Model, Error>)
        requires
            old(store).wf(),
        ensures
            final(store).wf(),
            (match r {
                Ok(p) => {
                    &&& mo_has(old(store).models@, uuid)
                    &&& p.uuid == uuid
                    &&& p.name@ == name@
                    &&& ({
                        let i = mo_idx(old(store).models@, uuid);
                        &&& p.dataview_uuid == old(store).models@[i].dataview_uuid
                        &&& p.status == old(store).models@[i].status
                        &&& p.updated_at == old(store).clock
                        &&& final(store).models@.len() == old(store).models@.len()
                        &&& final(store).models@[i].matches_fields(p)
                        &&& (forall|j: int|
                            0 <= j < old(store).models@.len() && j != i
                                ==> #[trigger] final(store).models@[j] == old(store).models@[j])
                    })
                    &&& *final(store) == (Store {
                        models: final(store).models,
                        ..*old(store)
                    })
                },
                Err(e) => {
                    &&& e == Error::NotFound
                    &&& !mo_has(old(store).models@, uuid)
                    &&& *final(store) == *old(store)
                },
            }),
    {
        let i = match store.model_index(uuid) {
            Some(i) => i,
            None => {
                return Err(Error::NotFound);
            },
        };
        proof {
            assert(mo_has(store.models@, uuid));
            let k = mo_idx(store.models@, uuid);
            assert(store.models@[k].uuid == uuid);
            assert(k == i as int);
        }
        let clock = store.clock;
        store.models[i].name = name.to_owned();
        store.models[i].updated_at = clock;
        let p = store.models[i].duplicate();
        proof {
            let s0 = *old(store);
            let s1 = *store;
            assert forall|j: int| 0 <= j < s1.models@.len() implies dv_has(
                s1.dataviews@,
                #[trigger] s1.models@[j].dataview_uuid,
            ) by {
                if j != i as int {
                    assert(s1.models@[j] == s0.models@[j]);
                }
            }
            assert(s1.wf());
        }
        Ok(p)
    }

    /// The requesting user's role on the project owning this model.
    pub fn role(store: &Store, uuid: u64, user_uuid: u64) -> (r: Result<Role, Error>)
        requires
            store.wf(),
        ensures
            (match r {
                Ok(role) => project_of_model(*store, uuid) matches Some(p) && stored_role(
                    *store,
                    p,
                    user_uuid,
                ) == Some(role),
                Err(e) => e == Error::NotFound && (project_of_model(*store, uuid) is None
                    || stored_role(*store, project_of_model(*store, uuid).unwrap(), user_uuid)
                    is None),
            }),
    {
        let i = match store.model_index(uuid) {
            Some(i) => i,
            None => {
                return Err(Error::NotFound);
            },
        };
        proof {
            assert(mo_has(store.models@, uuid));
            let k = mo_idx(store.models@, uuid);
            assert(store.models@[k].uuid == uuid);
            assert(k == i as int);
        }
        match Dataview::role(store, store.models[i].dataview_uuid, user_uuid) {
            Ok(role) => Ok(role),
            Err(e) => Err(Error::NotFound),
        }
    }

    /// Deletes a model; artifacts are leaves, so nothing cascades.
    pub fn delete(store: &mut Store, uuid: u64) -> (r: Result<(), Error>)
        requires
            old(store).wf(),
        ensures
            final(store).wf(),
            (match r {
                Ok(u) => {
                    &&& mo_has(old(store).models@, uuid)
                    &&& final(store).models@ == old(store).models@.filter(
                        (|p: Model| p.uuid != uuid),
                    )
                    &&& *final(store) == (Store {
                        models: final(store).models,
                        ..*old(store)
                    })
                },
                Err(e) => {
                    &&& e == Error::NotFound
                    &&& !mo_has(old(store).models@, uuid)
                    &&& *final(store) == *old(store)
                },
            }),
    {
        if store.model_index(uuid).is_none() {
            return Err(Error::NotFound);
        }
        let ghost s0 = *old(store);
        let mut dead: Vec<u64> = Vec::new();
        dead.push(uuid);
        proof {
            assert forall|x: u64| #[trigger] dead@.contains(x) <==> x == uuid by {
                if x == uuid {
                    assert(dead@[0] == x);
                }
            }
        }
        let plots = take_vec(&mut store.models);
        store.models = retain_models_not_among(plots, &dead);
        proof {
            broadcast use vstd::seq_lib::group_filter_ensures;

            let s1 = *store;
            let pred = (|p: Model| p.uuid != uuid);
            lemma_filter_ext(s0.models@, crate::retain::model_not_among(dead@), pred);
            assert(s1.models@ == s0.models@.filter(pred));
            lemma_filter_distinct_by(s0.models@, pred, |p: Model| p.uuid);
            assert forall|j: int| 0 <= j < s1.models@.len() implies dv_has(
                s1.dataviews@,
                #[trigger] s1.models@[j].dataview_uuid,
            ) by {
                let a = lemma_filter_member_src(s0.models@, pred, j);
            }
            assert forall|j: int|
                0 <= j < s1.models@.len() implies #[trigger] s1.models@[j].uuid < s1.next_id by {
                let a = lemma_filter_member_src(s0.models@, pred, j);
            }
            assert(s1.wf());
        }
        Ok(())
    }
}



impl Model {
    /// Applies a worker-reported status transition: forward steps only, and a
    /// repeated terminal report is accepted as a no-op rather than an error. On completion the
    /// worker's result payload is recorded.
    pub fn set_status(store: &mut Store, uuid: u64, status: &Status, evaluation: &Option<String>) -> (r: Result<
        Status,
        Error,
    >)
        requires
            old(store).wf(),
        ensures
            final(store).wf(),
            (match r {
                Ok(s) => {
                    &&& mo_has(old(store).models@, uuid)
                    &&& s == *status
                    &&& ({
                        let i = mo_idx(old(store).models@, uuid);
                        let was = old(store).models@[i].status;
                        &&& was.can_step(*status)
                        &&& (was.is_terminal() ==> *final(store) == *old(store))
                        &&& (!was.is_terminal() ==> {
                            &&& final(store).models@.len() == old(store).models@.len()
                            &&& final(store).models@[i].status == *status
                            &&& final(store).models@[i].uuid == uuid
                            &&& (forall|j: int|
                                0 <= j < old(store).models@.len() && j != i
                                    ==> #[trigger] final(store).models@[j] == old(store).models@[j])
                            &&& *final(store) == (Store {
                                models: final(store).models,
                                ..*old(store)
                            })
                        })
                    })
                },
                Err(e) => {
                    &&& *final(store) == *old(store)
                    &&& (if e == Error::NotFound {
                        !mo_has(old(store).models@, uuid)
                    } else {
                        e == Error::InvariantViolation && mo_has(old(store).models@, uuid)
                            && !old(store).models@[mo_idx(
                            old(store).models@,
                            uuid,
                        )].status.can_step(*status)
                    })
                },
            }),
    {
        let i = match store.model_index(uuid) {
            Some(i) => i,
            None => {
                return Err(Error::NotFound);
            },
        };
        proof {
            assert(mo_has(store.models@, uuid));
            let k = mo_idx(store.models@, uuid);
            assert(store.models@[k].uuid == uuid);
            assert(k == i as int);
        }
        let was = store.models[i].status;
        if !was.step_allowed(status) {
            return Err(Error::InvariantViolation);
        }
        if was.terminal() {
            return Ok(was);
        }
        let clock = store.clock;
        store.models[i].status = *status;
        store.models[i].updated_at = clock;
        if matches!(status, Status::Completed) {
            store.models[i].evaluation = match evaluation {
                Some(s) => Some(s.clone()),
                None => None,
            };
        }
        proof {
            let s0 = *old(store);
            let s1 = *store;
            assert forall|a: int, b: int|
                0 <= a < b < s1.models@.len() implies s1.models@[a].uuid != s1.models@[b].uuid by {
                assert(s1.models@[a].uuid == s0.models@[a].uuid);
                assert(s1.models@[b].uuid == s0.models@[b].uuid);
            }
            assert forall|a: int| 0 <= a < s1.models@.len() implies dv_has(
                s1.dataviews@,
                #[trigger] s1.models@[a].dataview_uuid,
            ) by {
                assert(s1.models@[a].dataview_uuid == s0.models@[a].dataview_uuid);
            }
            assert forall|a: int|
                0 <= a < s1.models@.len() implies #[trigger] s1.models@[a].uuid < s1.next_id by {
                assert(s1.models@[a].uuid == s0.models@[a].uuid);
            }

            assert(s1.wf());
        }
        Ok(*status)
    }
}

} // verus!
