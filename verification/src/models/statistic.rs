use vstd::prelude::*;
use vstd::string::StringExecFns;
use crate::codec::{encode, token_of, EntityKind};
use crate::error::Error;
use crate::models::dataview::Dataview;
use crate::models::project_user_role::Role;
use crate::models::status::Status;
use crate::num::dec_digits;
use crate::retain::retain_statistics_not_among;
use crate::store::{
    dv_has, lemma_filter_distinct_by, lemma_filter_ext, lemma_filter_member_src,
    project_of_statistic, st_has, st_idx, stored_role, take_vec, Store,
};
use crate::text::dec_string;

verus! {

/// The kinds of statistic that the external statistics worker can compute.
#[derive(Debug, Copy, Clone, PartialEq, Eq, Structural)]
pub enum Type {
    Correlation,
    Summary,
}

/// A statistic artifact attached to one dataview; computed asynchronously by
/// an external worker.
#[derive(Debug, Clone, PartialEq, Eq)]
pub struct Statistic {
    pub created_at: u64,
    pub updated_at: u64,
    pub dataview_uuid: u64,
    pub uuid: u64,
    pub type_: Type,
    pub args: String,
    pub status: Status,
    pub value: Option<String>,
}

impl Statistic {
    /// An exact copy, field for field.
    pub fn duplicate(&self) -> (r: Self)
        ensures
            r == *self,
    {
        Statistic {
            created_at: self.created_at,
            updated_at: self.updated_at,
            dataview_uuid: self.dataview_uuid,
            uuid: self.uuid,
            type_: self.type_,
            args: self.args.clone(),
            status: self.status,
            value: match &self.value {
                Some(v) => Some(v.clone()),
                None => None,
            },
        }
    }

    /// The identity token addressing this statistic.
    pub fn id(&self) -> (r: String)
        ensures
            r@ == token_of(EntityKind::Statistic, seq![dec_digits(self.uuid as nat)]),
            crate::codec::spec_token_first_id(r@) == Some(self.uuid),
    {
        let mut keys: Vec<String> = Vec::new();
        keys.push(dec_string(self.uuid));
        let t = encode(EntityKind::Statistic, &keys);
        proof {
            assert(keys@.map_values(|k: String| k@) =~= seq![dec_digits(self.uuid as nat)]);
            crate::codec::lemma_decimal_key_well_typed(EntityKind::Statistic, self.uuid);
            let kseq = seq![dec_digits(self.uuid as nat)];
            assert forall|i: int| 0 <= i < kseq.len() implies crate::codec::valid_key(
                #[trigger] kseq[i],
            ) by {
                assert(kseq[i] == dec_digits(self.uuid as nat));
            }
            crate::codec::lemma_token_first_id(EntityKind::Statistic, kseq, self.uuid, t@);
        }
        t
    }
}

impl Statistic {
    /// Creates a statistic attached to a dataview, initially `Queued`; an
    /// external worker computes it and reports completion later.
    pub fn create(store: &mut Store, dataview_uuid: u64, type_: &Type, args: &str) -> (r: Result<
        Statistic,
        Error,
    >)
        requires
            old(store).wf(),
            old(store).next_id < u64::MAX,
        ensures
            final(store).wf(),
            (match r {
                Ok(p) => {
                    &&& dv_has(old(store).dataviews@, dataview_uuid)
                    &&& p.uuid == old(store).next_id
                    &&& p.dataview_uuid == dataview_uuid
                    &&& p.type_ == *type_
                    &&& p.args@ == args@
                    &&& p.status == Status::Queued
                    &&& p.value is None
                    &&& p.created_at == old(store).clock
                    &&& p.updated_at == old(store).clock
                    &&& final(store).statistics@ == old(store).statistics@.push(p)
                    &&& final(store).next_id == old(store).next_id + 1
                    &&& *final(store) == (Store {
                        statistics: final(store).statistics,
                        next_id: final(store).next_id,
                        ..*old(store)
                    })
                },
                Err(e) => {
                    &&& e == Error::NotFound
                    &&& !dv_has(old(store).dataviews@, dataview_uuid)
                    &&& *final(store) == *old(store)
                },
            }),
    {
        if store.dataview_index(dataview_uuid).is_none() {
            return Err(Error::NotFound);
        }
        let uuid = store.next_id;
        store.next_id = store.next_id + 1;
        let row = Statistic {
            created_at: store.clock,
            updated_at: store.clock,
            dataview_uuid,
            uuid,
            type_: *type_,
            args: args.to_owned(),
            status: Status::Queued,
            value: None,
        };
        let result = row.duplicate();
        store.statistics.push(row);
        proof {
            let s0 = *old(store);
            let s1 = *store;
            assert(s1.statistics@ == s0.statistics@.push(result));
            assert forall|i: int, j: int|
                0 <= i < j < s1.statistics@.len() implies s1.statistics@[i].uuid != s1.statistics@[j].uuid by {
                if j == s1.statistics@.len() - 1 {
                    assert(s1.statistics@[i] == s0.statistics@[i]);
                }
            }
            assert forall|i: int| 0 <= i < s1.statistics@.len() implies dv_has(
                s1.dataviews@,
                #[trigger] s1.statistics@[i].dataview_uuid,
            ) by {
                if i < s1.statistics@.len() - 1 {
                    assert(s1.statistics@[i] == s0.statistics@[i]);
                }
            }
            assert(s1.wf());
        }
        Ok(result)
    }

    /// Reads a statistic by identifier.
    pub fn get(store: &Store, uuid: u64) -> (r: Result<Statistic, Error>)
        requires
            store.wf(),
        ensures
            (match r {
                Ok(p) => st_has(store.statistics@, uuid) && p == store.statistics@[st_idx(
                    store.statistics@,
                    uuid,
                )],
                Err(e) => e == Error::NotFound && !st_has(store.statistics@, uuid),
            }),
    {
        match store.statistic_index(uuid) {
            Some(i) => {
                proof {
                    assert(st_has(store.statistics@, uuid));
                    let k = st_idx(store.statistics@, uuid);
                    assert(store.statistics@[k].uuid == uuid);
                    assert(k == i as int);
                }
                Ok(store.statistics[i].duplicate())
            },
            None => Err(Error::NotFound),
        }
    }

    /// The requesting user's role on the project owning this statistic.
    pub fn role(store: &Store, uuid: u64, user_uuid: u64) -> (r: Result<Role, Error>)
        requires
            store.wf(),
        ensures
            (match r {
                Ok(role) => project_of_statistic(*store, uuid) matches Some(p) && stored_role(
                    *store,
                    p,
                    user_uuid,
                ) == Some(role),
                Err(e) => e == Error::NotFound && (project_of_statistic(*store, uuid) is None
                    || stored_role(*store, project_of_statistic(*store, uuid).unwrap(), user_uuid)
                    is None),
            }),
    {
        let i = match store.statistic_index(uuid) {
            Some(i) => i,
            None => {
                return Err(Error::NotFound);
            },
        };
        proof {
            assert(st_has(store.statistics@, uuid));
            let k = st_idx(store.statistics@, uuid);
            assert(store.statistics@[k].uuid == uuid);
            assert(k == i as int);
        }
        match Dataview::role(store, store.statistics[i].dataview_uuid, user_uuid) {
            Ok(role) => Ok(role),
            Err(e) => Err(Error::NotFound),
        }
    }

    /// Deletes a statistic; artifacts are leaves, so nothing cascades.
    pub fn delete(store: &mut Store, uuid: u64) -> (r: Result<(), Error>)
        requires
            old(store).wf(),
        ensures
            final(store).wf(),
            (match r {
                Ok(u) => {
                    &&& st_has(old(store).statistics@, uuid)
                    &&& final(store).statistics@ == old(store).statistics@.filter(
                        (|p: Statistic| p.uuid != uuid),
                    )
                    &&& *final(store) == (Store {
                        statistics: final(store).statistics,
                        ..*old(store)
                    })
                },
                Err(e) => {
                    &&& e == Error::NotFound
                    &&& !st_has(old(store).statistics@, uuid)
                    &&& *final(store) == *old(store)
                },
            }),
    {
        if store.statistic_index(uuid).is_none() {
            return Err(Error::NotFound);
        }
        let ghost s0 = *old(store);
        let mut dead: Vec<u64> = Vec::new();
        dead.push(uuid);
        proof {
            assert forall|x: u64| #[trigger] dead@.contains(x) <==> x == uuid by {
                if x == uuid {
                    assert(dead@[0] == x);
                }
            }
        }
        let plots = take_vec(&mut store.statistics);
        store.statistics = retain_statistics_not_among(plots, &dead);
        proof {
            broadcast use vstd::seq_lib::group_filter_ensures;

            let s1 = *store;
            let pred = (|p: Statistic| p.uuid != uuid);
            lemma_filter_ext(s0.statistics@, crate::retain::statistic_not_among(dead@), pred);
            assert(s1.statistics@ == s0.statistics@.filter(pred));
            lemma_filter_distinct_by(s0.statistics@, pred, |p: Statistic| p.uuid);
            assert forall|j: int| 0 <= j < s1.statistics@.len() implies dv_has(
                s1.dataviews@,
                #[trigger] s1.statistics@[j].dataview_uuid,
            ) by {
                let a = lemma_filter_member_src(s0.statistics@, pred, j);
            }
            assert forall|j: int|
                0 <= j < s1.statistics@.len() implies #[trigger] s1.statistics@[j].uuid < s1.next_id by {
                let a = lemma_filter_member_src(s0.statistics@, pred, j);
            }
            assert(s1.wf());
        }
        Ok(())
    }
}



impl Statistic {
    /// Applies a worker-reported status transition: forward steps only, and a
    /// repeated terminal report is accepted as a no-op rather than an error. On completion the
    /// worker's result payload is recorded.
    pub fn set_status(store: &mut Store, uuid: u64, status: &Status, value: &Option<String>) -> (r: Result<
        Status,
        Error,
    >)
        requires
            old(store).wf(),
        ensures
            final(store).wf(),
            (match r {
                Ok(s) => {
                    &&& st_has(old(store).statistics@, uuid)
                    &&& s == *status
                    &&& ({
                        let i = st_idx(old(store).statistics@, uuid);
                        let was = old(store).statistics@[i].status;
                        &&& was.can_step(*status)
                        &&& (was.is_terminal() ==> *final(store) == *old(store))
                        &&& (!was.is_terminal() ==> {
                            &&& final(store).statistics@.len() == old(store).statistics@.len()
                            &&& final(store).statistics@[i].status == *status
                            &&& final(store).statistics@[i].uuid == uuid
                            &&& (forall|j: int|
                                0 <= j < old(store).statistics@.len() && j != i
                                    ==> #[trigger] final(store).statistics@[j] == old(store).statistics@[j])
                            &&& *final(store) == (Store {
                                statistics: final(store).statistics,
                                ..*old(store)
                            })
                        })
                    })
                },
                Err(e) => {
                    &&& *final(store) == *old(store)
                    &&& (if e == Error::NotFound {
                        !st_has(old(store).statistics@, uuid)
                    } else {
                        e == Error::InvariantViolation && st_has(old(store).statistics@, uuid)
                            && !old(store).statistics@[st_idx(
                            old(store).statistics@,
                            uuid,
                        )].status.can_step(*status)
                    })
                },
            }),
    {
        let i = match store.statistic_index(uuid) {
            Some(i) => i,
            None => {
                return Err(Error::NotFound);
            },
        };
        proof {
            assert(st_has(store.statistics@, uuid));
            let k = st_idx(store.statistics@, uuid);
            assert(store.statistics@[k].uuid == uuid);
            assert(k == i as int);
        }
        let was = store.statistics[i].status;
        if !was.step_allowed(status) {
            return Err(Error::InvariantViolation);
        }
        if was.terminal() {
            return Ok(was);
        }
        let clock = store.clock;
        store.statistics[i].status = *status;
        store.statistics[i].updated_at = clock;
        if matches!(status, Status::Completed) {
            store.statistics[i].value = match value {
                Some(s) => Some(s.clone()),
                None => None,
            };
        }
        proof {
            let s0 = *old(store);
            let s1 = *store;
            assert forall|a: int, b: int|
                0 <= a < b < s1.statistics@.len() implies s1.statistics@[a].uuid != s1.statistics@[b].uuid by {
                assert(s1.statistics@[a].uuid == s0.statistics@[a].uuid);
                assert(s1.statistics@[b].uuid == s0.statistics@[b].uuid);
            }
            assert forall|a: int| 0 <= a < s1.statistics@.len() implies dv_has(
                s1.dataviews@,
                #[trigger] s1.statistics@[a].dataview_uuid,
            ) by {
                assert(s1.statistics@[a].dataview_uuid == s0.statistics@[a].dataview_uuid);
            }
            assert forall|a: int|
                0 <= a < s1.statistics@.len() implies #[trigger] s1.statistics@[a].uuid < s1.next_id by {
                assert(s1.statistics@[a].uuid == s0.statistics@[a].uuid);
            }

            assert(s1.wf());
        }
        Ok(*status)
    }
}

} // verus!
