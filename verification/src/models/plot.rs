use vstd::prelude::*;
use vstd::string::StringExecFns;
use crate::codec::{encode, token_of, EntityKind};
use crate::error::Error;
use crate::models::dataview::Dataview;
use crate::models::project_user_role::Role;
use crate::models::status::Status;
use crate::num::dec_digits;
use crate::retain::retain_plots_not_among;
use crate::store::{
    dv_has, lemma_filter_distinct_by, lemma_filter_ext, lemma_filter_member_src, pl_has, pl_idx,
    project_of_plot, stored_role, take_vec, Store,
};
use crate::text::dec_string;

verus! {

/// The kinds of plot that the external plotting worker can render.
#[derive(Debug, Copy, Clone, PartialEq, Eq, Structural)]
pub enum Type {
    Bar,
    Histogram,
    Line,
    Scatter,
    Smooth,
}

/// A plot artifact attached to one dataview; rendered asynchronously by an
/// external worker.
#[derive(Debug, Clone, PartialEq, Eq)]
pub struct Plot {
    pub created_at: u64,
    pub updated_at: u64,
    pub dataview_uuid: u64,
    pub uuid: u64,
    pub name: String,
    pub type_: Type,
    pub args: String,
    pub status: Status,
    pub error: Option<String>,
}

impl Plot {
    /// An exact copy, field for field.
    pub fn duplicate(&self) -> (r: Self)
        ensures
            r == *self,
    {
        Plot {
            created_at: self.created_at,
            updated_at: self.updated_at,
            dataview_uuid: self.dataview_uuid,
            uuid: self.uuid,
            name: self.name.clone(),
            type_: self.type_,
            args: self.args.clone(),
            status: self.status,
            error: match &self.error {
                Some(e) => Some(e.clone()),
                None => None,
            },
        }
    }

    /// The identity token addressing this plot.
    pub fn id(&self) -> (r: String)
        ensures
            r@ == token_of(EntityKind::Plot, seq![dec_digits(self.uuid as nat)]),
            crate::codec::spec_token_first_id(r@) == Some(self.uuid),
    {
        let mut keys: Vec<String> = Vec::new();
        keys.push(dec_string(self.uuid));
        let t = encode(EntityKind::Plot, &keys);
        proof {
            assert(keys@.map_values(|k: String| k@) =~= seq![dec_digits(self.uuid as nat)]);
            crate::codec::lemma_decimal_key_well_typed(EntityKind::Plot, self.uuid);
            let kseq = seq![dec_digits(self.uuid as nat)];
            assert forall|i: int| 0 <= i < kseq.len() implies crate::codec::valid_key(
                #[trigger] kseq[i],
            ) by {
                assert(kseq[i] == dec_digits(self.uuid as nat));
            }
            crate::codec::lemma_token_first_id(EntityKind::Plot, kseq, self.uuid, t@);
        }
        t
    }
}

impl Plot {
    /// Creates a plot attached to a dataview, initially `Queued`; an external
    /// worker renders it and reports completion later.
    pub fn create(
        store: &mut Store,
        dataview_uuid: u64,
        name: &str,
        type_: &Type,
        args: &str,
    ) -> (r: Result<Plot, Error>)
        requires
            old(store).wf(),
            old(store).next_id < u64::MAX,
        ensures
            final(store).wf(),
            (match r {
                Ok(p) => {
                    &&& dv_has(old(store).dataviews@, dataview_uuid)
                    &&& p.uuid == old(store).next_id
                    &&& p.dataview_uuid == dataview_uuid
                    &&& p.name@ == name@
                    &&& p.type_ == *type_
                    &&& p.args@ == args@
                    &&& p.status == Status::Queued
                    &&& p.error is None
                    &&& p.created_at == old(store).clock
                    &&& p.updated_at == old(store).clock
                    &&& final(store).plots@ == old(store).plots@.push(p)
                    &&& final(store).next_id == old(store).next_id + 1
                    &&& *final(store) == (Store {
                        plots: final(store).plots,
                        next_id: final(store).next_id,
                        ..*old(store)
                    })
                },
                Err(e) => {
                    &&& e == Error::NotFound
                    &&& !dv_has(old(store).dataviews@, dataview_uuid)
                    &&& *final(store) == *old(store)
                },
            }),
    {
        if store.dataview_index(dataview_uuid).is_none() {
            return Err(Error::NotFound);
        }
        let uuid = store.next_id;
        store.next_id = store.next_id + 1;
        let row = Plot {
            created_at: store.clock,
            updated_at: store.clock,
            dataview_uuid,
            uuid,
            name: name.to_owned(),
            type_: *type_,
            args: args.to_owned(),
            status: Status::Queued,
            error: None,
        };
        let result = row.duplicate();
        store.plots.push(row);
        proof {
            let s0 = *old(store);
            let s1 = *store;
            assert(s1.plots@ == s0.plots@.push(result));
            assert forall|i: int, j: int|
                0 <= i < j < s1.plots@.len() implies s1.plots@[i].uuid != s1.plots@[j].uuid by {
                if j == s1.plots@.len() - 1 {
                    assert(s1.plots@[i] == s0.plots@[i]);
                }
            }
            assert forall|i: int| 0 <= i < s1.plots@.len() implies dv_has(
                s1.dataviews@,
                #[trigger] s1.plots@[i].dataview_uuid,
            ) by {
                if i < s1.plots@.len() - 1 {
                    assert(s1.plots@[i] == s0.plots@[i]);
                }
            }
            assert(s1.wf());
        }
        Ok(result)
    }

    /// Reads a plot by identifier.
    pub fn get(store: &Store, uuid: u64) -> (r: Result<Plot, Error>)
        requires
            store.wf(),
        ensures
            (match r {
                Ok(p) => pl_has(store.plots@, uuid) && p == store.plots@[pl_idx(
                    store.plots@,
                    uuid,
                )],
                Err(e) => e == Error::NotFound && !pl_has(store.plots@, uuid),
            }),
    {
        match store.plot_index(uuid) {
            Some(i) => {
                proof {
                    assert(pl_has(store.plots@, uuid));
                    let k = pl_idx(store.plots@, uuid);
                    assert(store.plots@[k].uuid == uuid);
                    assert(k == i as int);
                }
                Ok(store.plots[i].duplicate())
            },
            None => Err(Error::NotFound),
        }
    }

    /// Renames a plot, stamping the update time.
    pub fn rename(store: &mut Store, uuid: u64, name: &str) -> (r: Result<Plot, Error>)
        requires
            old(store).wf(),
        ensures
            final(store).wf(),
            (match r {
                Ok(p) => {
                    &&& pl_has(old(store).plots@, uuid)
                    &&& p.uuid == uuid
                    &&& p.name@ == name@
                    &&& ({
                        let i = pl_idx(old(store).plots@, uuid);
                        &&& p.dataview_uuid == old(store).plots@[i].dataview_uuid
                        &&& p.status == old(store).plots@[i].status
                        &&& p.updated_at == old(store).clock
                        &&& final(store).plots@ == old(store).plots@.update(i, p)
                    })
                    &&& *final(store) == (Store {
                        plots: final(store).plots,
                        ..*old(store)
                    })
                },
                Err(e) => {
                    &&& e == Error::NotFound
                    &&& !pl_has(old(store).plots@, uuid)
                    &&& *final(store) == *old(store)
                },
            }),
    {
        let i = match store.plot_index(uuid) {
            Some(i) => i,
            None => {
                return Err(Error::NotFound);
            },
        };
        proof {
            assert(pl_has(store.plots@, uuid));
            let k = pl_idx(store.plots@, uuid);
            assert(store.plots@[k].uuid == uuid);
            assert(k == i as int);
        }
        let clock = store.clock;
        store.plots[i].name = name.to_owned();
        store.plots[i].updated_at = clock;
        let p = store.plots[i].duplicate();
        proof {
            let s0 = *old(store);
            let s1 = *store;
            assert(s1.plots@ =~= s0.plots@.update(i as int, p));
            assert forall|j: int| 0 <= j < s1.plots@.len() implies dv_has(
                s1.dataviews@,
                #[trigger] s1.plots@[j].dataview_uuid,
            ) by {
                if j != i as int {
                    assert(s1.plots@[j] == s0.plots@[j]);
                }
            }
            assert(s1.wf());
        }
        Ok(p)
    }

    /// The blob-store key under which this plot's rendered artifact lives,
    /// exposed only once the plot has completed: an incomplete or failed
    /// plot has nothing to retrieve, so no key (and no retrieval link) is
    /// handed out for it.
    pub fn artifact_key(&self) -> (r: Option<String>)
        ensures
            self.status == Status::Completed ==> (r matches Some(k) && k@ == "plots/"@
                + dec_digits(self.uuid as nat) + ".svg"@),
            self.status != Status::Completed ==> r is None,
    {
        if !(self.status == Status::Completed) {
            return None;
        }
        let mut out = "plots/".to_owned();
        let digits = dec_string(self.uuid);
        out.append(digits.as_str());
        out.append(".svg");
        Some(out)
    }

    /// The requesting user's role on the project owning this plot.
    pub fn role(store: &Store, uuid: u64, user_uuid: u64) -> (r: Result<Role, Error>)
        requires
            store.wf(),
        ensures
            (match r {
                Ok(role) => project_of_plot(*store, uuid) matches Some(p) && stored_role(
                    *store,
                    p,
                    user_uuid,
                ) == Some(role),
                Err(e) => e == Error::NotFound && (project_of_plot(*store, uuid) is None
                    || stored_role(*store, project_of_plot(*store, uuid).unwrap(), user_uuid)
                    is None),
            }),
    {
        let i = match store.plot_index(uuid) {
            Some(i) => i,
            None => {
                return Err(Error::NotFound);
            },
        };
        proof {
            assert(pl_has(store.plots@, uuid));
            let k = pl_idx(store.plots@, uuid);
            assert(store.plots@[k].uuid == uuid);
            assert(k == i as int);
        }
        match Dataview::role(store, store.plots[i].dataview_uuid, user_uuid) {
            Ok(role) => Ok(role),
            Err(e) => Err(Error::NotFound),
        }
    }

    /// Deletes a plot; artifacts are leaves, so nothing cascades.
    pub fn delete(store: &mut Store, uuid: u64) -> (r: Result<(), Error>)
        requires
            old(store).wf(),
        ensures
            final(store).wf(),
            (match r {
                Ok(u) => {
                    &&& pl_has(old(store).plots@, uuid)
                    &&& final(store).plots@ == old(store).plots@.filter(
                        (|p: Plot| p.uuid != uuid),
                    )
                    &&& *final(store) == (Store {
                        plots: final(store).plots,
                        ..*old(store)
                    })
                },
                Err(e) => {
                    &&& e == Error::NotFound
                    &&& !pl_has(old(store).plots@, uuid)
                    &&& *final(store) == *old(store)
                },
            }),
    {
        if store.plot_index(uuid).is_none() {
            return Err(Error::NotFound);
        }
        let ghost s0 = *old(store);
        let mut dead: Vec<u64> = Vec::new();
        dead.push(uuid);
        proof {
            assert forall|x: u64| #[trigger] dead@.contains(x) <==> x == uuid by {
                if x == uuid {
                    assert(dead@[0] == x);
                }
            }
        }
        let plots = take_vec(&mut store.plots);
        store.plots = retain_plots_not_among(plots, &dead);
        proof {
            broadcast use vstd::seq_lib::group_filter_ensures;

            let s1 = *store;
            let pred = (|p: Plot| p.uuid != uuid);
            lemma_filter_ext(s0.plots@, crate::retain::plot_not_among(dead@), pred);
            assert(s1.plots@ == s0.plots@.filter(pred));
            lemma_filter_distinct_by(s0.plots@, pred, |p: Plot| p.uuid);
            assert forall|j: int| 0 <= j < s1.plots@.len() implies dv_has(
                s1.dataviews@,
                #[trigger] s1.plots@[j].dataview_uuid,
            ) by {
                let a = lemma_filter_member_src(s0.plots@, pred, j);
            }
            assert forall|j: int|
                0 <= j < s1.plots@.len() implies #[trigger] s1.plots@[j].uuid < s1.next_id by {
                let a = lemma_filter_member_src(s0.plots@, pred, j);
            }
            assert(s1.wf());
        }
        Ok(())
    }
}

impl Plot {
    /// Applies a worker-reported status transition: forward steps only, and a
    /// repeated terminal report is accepted as a no-op rather than an error. On failure the
    /// captured payload is recorded.
    pub fn set_status(store: &mut Store, uuid: u64, status: &Status, error: &Option<String>) -> (r: Result<
        Status,
        Error,
    >)
        requires
            old(store).wf(),
        ensures
            final(store).wf(),
            (match r {
                Ok(s) => {
                    &&& pl_has(old(store).plots@, uuid)
                    &&& s == *status
                    &&& ({
                        let i = pl_idx(old(store).plots@, uuid);
                        let was = old(store).plots@[i].status;
                        &&& was.can_step(*status)
                        &&& (was.is_terminal() ==> *final(store) == *old(store))
                        &&& (!was.is_terminal() ==> {
                            &&& final(store).plots@.len() == old(store).plots@.len()
                            &&& final(store).plots@[i].status == *status
                            &&& final(store).plots@[i].uuid == uuid
                            &&& (forall|j: int|
                                0 <= j < old(store).plots@.len() && j != i
                                    ==> #[trigger] final(store).plots@[j] == old(store).plots@[j])
                            &&& *final(store) == (Store {
                                plots: final(store).plots,
                                ..*old(store)
                            })
                        })
                    })
                },
                Err(e) => {
                    &&& *final(store) == *old(store)
                    &&& (if e == Error::NotFound {
                        !pl_has(old(store).plots@, uuid)
                    } else {
                        e == Error::InvariantViolation && pl_has(old(store).plots@, uuid)
                            && !old(store).plots@[pl_idx(
                            old(store).plots@,
                            uuid,
                        )].status.can_step(*status)
                    })
                },
            }),
    {
        let i = match store.plot_index(uuid) {
            Some(i) => i,
            None => {
                return Err(Error::NotFound);
            },
        };
        proof {
            assert(pl_has(store.plots@, uuid));
            let k = pl_idx(store.plots@, uuid);
            assert(store.plots@[k].uuid == uuid);
            assert(k == i as int);
        }
        let was = store.plots[i].status;
        if !was.step_allowed(status) {
            return Err(Error::InvariantViolation);
        }
        if was.terminal() {
            return Ok(was);
        }
        let clock = store.clock;
        store.plots[i].status = *status;
        store.plots[i].updated_at = clock;
        if matches!(status, Status::Failed) {
            store.plots[i].error = match error {
                Some(s) => Some(s.clone()),
                None => None,
            };
        }
        proof {
            let s0 = *old(store);
            let s1 = *store;
            assert forall|a: int, b: int|
                0 <= a < b < s1.plots@.len() implies s1.plots@[a].uuid != s1.plots@[b].uuid by {
                assert(s1.plots@[a].uuid == s0.plots@[a].uuid);
                assert(s1.plots@[b].uuid == s0.plots@[b].uuid);
            }
            assert forall|a: int| 0 <= a < s1.plots@.len() implies dv_has(
                s1.dataviews@,
                #[trigger] s1.plots@[a].dataview_uuid,
            ) by {
                assert(s1.plots@[a].dataview_uuid == s0.plots@[a].dataview_uuid);
            }
            assert forall|a: int|
                0 <= a < s1.plots@.len() implies #[trigger] s1.plots@[a].uuid < s1.next_id by {
                assert(s1.plots@[a].uuid == s0.plots@[a].uuid);
            }

            assert(s1.wf());
        }
        Ok(*status)
    }
}

} // verus!
