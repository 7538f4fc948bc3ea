use vstd::prelude::*;
use vstd::string::StringExecFns;
use crate::codec::{encode, token_of, EntityKind};
use crate::error::Error;
use crate::models::analysis::Analysis;
use crate::models::project_user_role::Role;
use crate::models::status::Status;
use crate::num::dec_digits;
use crate::store::{
    an_has, an_idx, contains_u64, distinct_by, ds_has, ds_idx, dv_has, dv_idx, parent_earlier,
    pr_has, project_of_dataview, stored_role, Store,
};
use crate::text::dec_string;

verus! {

/// The transformation that one dataview layers over its parent's physical
/// view.
#[derive(Debug, Copy, Clone, PartialEq, Eq, Structural)]
pub enum Operation {
    Create,
    Filter,
    Mutate,
    Select,
    Sort,
    Summarize,
}

/// One node in the transformation tree of an analysis. A root dataview points
/// at itself through `parent_uuid`.
#[derive(Debug, Clone, PartialEq, Eq)]
pub struct Dataview {
    pub created_at: u64,
    pub updated_at: u64,
    pub analysis_uuid: u64,
    pub uuid: u64,
    pub parent_uuid: u64,
    pub operation: Operation,
    pub args: Option<String>,
    pub status: Status,
}

impl Dataview {
    pub open spec fn is_root(self) -> bool {
        self.parent_uuid == self.uuid
    }

    pub fn root(&self) -> (r: bool)
        ensures
            r == self.is_root(),
    {
        self.parent_uuid == self.uuid
    }

    /// An exact copy, field for field.
    pub fn duplicate(&self) -> (r: Self)
        ensures
            r == *self,
    {
        Dataview {
            created_at: self.created_at,
            updated_at: self.updated_at,
            analysis_uuid: self.analysis_uuid,
            uuid: self.uuid,
            parent_uuid: self.parent_uuid,
            operation: self.operation,
            args: match &self.args {
                Some(a) => Some(a.clone()),
                None => None,
            },
            status: self.status,
        }
    }

    /// The identity token addressing this dataview.
    pub fn id(&self) -> (r: String)
        ensures
            r@ == token_of(EntityKind::Dataview, seq![dec_digits(self.uuid as nat)]),
            crate::codec::spec_token_first_id(r@) == Some(self.uuid),
    {
        let mut keys: Vec<String> = Vec::new();
        keys.push(dec_string(self.uuid));
        let t = encode(EntityKind::Dataview, &keys);
        proof {
            assert(keys@.map_values(|k: String| k@) =~= seq![dec_digits(self.uuid as nat)]);
            crate::codec::lemma_decimal_key_well_typed(EntityKind::Dataview, self.uuid);
            let kseq = seq![dec_digits(self.uuid as nat)];
            assert forall|i: int| 0 <= i < kseq.len() implies crate::codec::valid_key(
                #[trigger] kseq[i],
            ) by {
                assert(kseq[i] == dec_digits(self.uuid as nat));
            }
            crate::codec::lemma_token_first_id(EntityKind::Dataview, kseq, self.uuid, t@);
        }
        t
    }
}


/// The index, before `i`, of the parent of the dataview at `i` within the
/// same analysis.
pub open spec fn parent_index(s: Seq<Dataview>, i: int) -> int {
    choose|j: int|
        0 <= j < i && (#[trigger] s[j].uuid) == s[i].parent_uuid && s[j].analysis_uuid
            == s[i].analysis_uuid
}

/// Whether the dataview at index `i` lies in the subtree rooted at the
/// dataview with identifier `target`: it is that dataview itself, or its
/// chain of parents passes through it.
pub open spec fn in_subtree(s: Seq<Dataview>, i: int, target: u64) -> bool
    decreases i,
{
    if 0 <= i < s.len() {
        if s[i].uuid == target {
            true
        } else if s[i].is_root() {
            false
        } else {
            let j = parent_index(s, i);
            if 0 <= j < i {
                in_subtree(s, j, target)
            } else {
                false
            }
        }
    } else {
        false
    }
}

/// A dataview in the subtree of `target` stands at or after some dataview
/// carrying the `target` identifier.
proof fn lemma_in_subtree_finds_target(s: Seq<Dataview>, i: int, target: u64)
    requires
        in_subtree(s, i, target),
    ensures
        exists|k: int| 0 <= k <= i && (#[trigger] s[k].uuid) == target,
    decreases i,
{
    if s[i].uuid == target {
    } else {
        let j = parent_index(s, i);
        lemma_in_subtree_finds_target(s, j, target);
    }
}

/// Every dataview in the subtree of `target` belongs to the same analysis as
/// the dataview carrying the `target` identifier.
proof fn lemma_in_subtree_same_analysis(s: Seq<Dataview>, i: int, target: u64)
    requires
        distinct_by(s, |d: Dataview| d.uuid),
        parent_earlier(s),
        dv_has(s, target),
        in_subtree(s, i, target),
    ensures
        s[i].analysis_uuid == s[dv_idx(s, target)].analysis_uuid,
    decreases i,
{
    let t = dv_idx(s, target);
    assert(s[t].uuid == target);
    if s[i].uuid == target {
        assert(i == t);
    } else {
        assert(!s[i].is_root());
        assert(exists|j: int|
            0 <= j < i && (#[trigger] s[j].uuid) == s[i].parent_uuid && s[j].analysis_uuid
                == s[i].analysis_uuid);
        let j = parent_index(s, i);
        assert(s[j].analysis_uuid == s[i].analysis_uuid);
        lemma_in_subtree_same_analysis(s, j, target);
    }
}

/// The identifiers of every dataview in the subtree rooted at `target`.
pub fn collect_subtree(dataviews: &Vec<Dataview>, target: u64) -> (r: Vec<u64>)
    requires
        distinct_by(dataviews@, |d: Dataview| d.uuid),
        parent_earlier(dataviews@),
    ensures
        forall|id: u64| #[trigger] r@.contains(id) <==> (exists|i: int|
            0 <= i < dataviews@.len() && (#[trigger] dataviews@[i].uuid) == id && in_subtree(
                dataviews@,
                i,
                target,
            )),
{
    broadcast use vstd::seq_lib::group_seq_properties;

    let ghost s = dataviews@;
    let mut doomed: Vec<u64> = Vec::new();
    let mut k: usize = 0;
    while k < dataviews.len()
        invariant
            k <= s.len(),
            s == dataviews@,
            distinct_by(s, |d: Dataview| d.uuid),
            parent_earlier(s),
            forall|id: u64| #[trigger] doomed@.contains(id) <==> (exists|i: int|
                0 <= i < k && (#[trigger] s[i].uuid) == id && in_subtree(s, i, target)),
        decreases s.len() - k,
    {
        let dv = &dataviews[k];
        let hit = if dv.uuid == target {
            true
        } else if dv.root() {
            false
        } else {
            contains_u64(&doomed, dv.parent_uuid)
        };
        proof {
            assert(hit == in_subtree(s, k as int, target)) by {
                if s[k as int].uuid == target {
                } else if s[k as int].is_root() {
                } else {
                    let j0 = parent_index(s, k as int);
                    assert(exists|j: int|
                        0 <= j < k && (#[trigger] s[j].uuid) == s[k as int].parent_uuid
                            && s[j].analysis_uuid == s[k as int].analysis_uuid);
                    assert(0 <= j0 < k && s[j0].uuid == s[k as int].parent_uuid);
                    if doomed@.contains(s[k as int].parent_uuid) {
                        let w = choose|i: int|
                            0 <= i < k && (#[trigger] s[i].uuid) == s[k as int].parent_uuid
                                && in_subtree(s, i, target);
                        assert(w == j0);
                        assert(in_subtree(s, k as int, target));
                    } else {
                        if in_subtree(s, k as int, target) {
                            assert(in_subtree(s, j0, target));
                            assert(doomed@.contains(s[j0].uuid));
                        }
                    }
                }
            }
        }
        let ghost old_doomed = doomed@;
        if hit {
            doomed.push(dv.uuid);
        }
        proof {
            if hit {
                assert(doomed@ == old_doomed.push(s[k as int].uuid));
                assert(doomed@[old_doomed.len() as int] == s[k as int].uuid);
            } else {
                assert(doomed@ == old_doomed);
            }
            assert forall|id: u64| #[trigger] doomed@.contains(id) implies (exists|i: int|
                0 <= i < k + 1 && (#[trigger] s[i].uuid) == id && in_subtree(s, i, target)) by {
                if old_doomed.contains(id) {
                    let i = choose|i: int|
                        0 <= i < k && (#[trigger] s[i].uuid) == id && in_subtree(s, i, target);
                    assert(0 <= i < k + 1 && s[i].uuid == id && in_subtree(s, i, target));
                } else {
                    let w = choose|w: int| 0 <= w < doomed@.len() && doomed@[w] == id;
                    assert(w == old_doomed.len());
                    assert(id == s[k as int].uuid);
                    assert(in_subtree(s, k as int, target));
                }
            }
            assert forall|id: u64|
                (exists|i: int|
                    0 <= i < k + 1 && (#[trigger] s[i].uuid) == id && in_subtree(
                        s,
                        i,
                        target,
                    )) implies #[trigger] doomed@.contains(id) by {
                let i = choose|i: int|
                    0 <= i < k + 1 && (#[trigger] s[i].uuid) == id && in_subtree(s, i, target);
                if i < k {
                    assert(old_doomed.contains(id));
                    let w = choose|w: int| 0 <= w < old_doomed.len() && old_doomed[w] == id;
                    assert(doomed@[w] == id);
                } else {
                    assert(id == s[k as int].uuid);
                    assert(in_subtree(s, k as int, target) == hit);
                    assert(doomed@[old_doomed.len() as int] == id);
                }
            }
        }
        k = k + 1;
    }
    doomed
}

impl Dataview {
    /// Creates a dataview as the child of an existing one, inheriting the
    /// parent's analysis (never supplied by the caller, so a token cannot
    /// graft a node across analyses). It starts `Queued`; its physical view
    /// layers the operation over the parent's view and is confirmed or
    /// failed asynchronously.
    #[verifier::rlimit(100)]
    #[verifier::spinoff_prover]
    pub fn create(store: &mut Store, dataview_uuid: u64, operation: &Operation, args: &str) -> (r:
        Result<Dataview, Error>)
        requires
            old(store).wf(),
            old(store).next_id < u64::MAX,
        ensures
            final(store).wf(),
            (match r {
                Ok(d) => {
                    &&& dv_has(old(store).dataviews@, dataview_uuid)
                    &&& d.uuid == old(store).next_id
                    &&& d.parent_uuid == dataview_uuid
                    &&& d.analysis_uuid == old(store).dataviews@[dv_idx(
                        old(store).dataviews@,
                        dataview_uuid,
                    )].analysis_uuid
                    &&& d.operation == *operation
                    &&& d.args matches Some(a) && a@ == args@
                    &&& d.status == Status::Queued
                    &&& d.created_at == old(store).clock
                    &&& d.updated_at == old(store).clock
                    &&& final(store).dataviews@ == old(store).dataviews@.push(d)
                    &&& final(store).next_id == old(store).next_id + 1
                    &&& *final(store) == (Store {
                        dataviews: final(store).dataviews,
                        next_id: final(store).next_id,
                        ..*old(store)
                    })
                },
                Err(e) => {
                    &&& e == Error::NotFound
                    &&& !dv_has(old(store).dataviews@, dataview_uuid)
                    &&& *final(store) == *old(store)
                },
            }),
    {
        let i = match store.dataview_index(dataview_uuid) {
            Some(i) => i,
            None => {
                return Err(Error::NotFound);
            },
        };
        proof {
            assert(dv_has(store.dataviews@, dataview_uuid));
            let k = dv_idx(store.dataviews@, dataview_uuid);
            assert(store.dataviews@[k].uuid == dataview_uuid);
            assert(k == i as int);
        }
        let uuid = store.next_id;
        store.next_id = store.next_id + 1;
        let row = Dataview {
            created_at: store.clock,
            updated_at: store.clock,
            analysis_uuid: store.dataviews[i].analysis_uuid,
            uuid,
            parent_uuid: dataview_uuid,
            operation: *operation,
            args: Some(args.to_owned()),
            status: Status::Queued,
        };
        let result = row.duplicate();
        store.dataviews.push(row);
        proof {
            let s0 = *old(store);
            let s1 = *store;
            let last = s1.dataviews@.len() - 1;
            assert(s1.dataviews@ == s0.dataviews@.push(result));
            assert forall|a: int, b: int|
                0 <= a < b < s1.dataviews@.len() implies s1.dataviews@[a].uuid
                != s1.dataviews@[b].uuid by {
                if b == last {
                    assert(s1.dataviews@[a] == s0.dataviews@[a]);
                }
            }
            assert forall|a: int| 0 <= a < s1.dataviews@.len() implies an_has(
                s1.analyses@,
                #[trigger] s1.dataviews@[a].analysis_uuid,
            ) by {
                if a < last {
                    assert(s1.dataviews@[a] == s0.dataviews@[a]);
                } else {
                    assert(s1.dataviews@[a].analysis_uuid == s0.dataviews@[i as int].analysis_uuid);
                }
            }
            assert(parent_earlier(s1.dataviews@)) by {
                assert forall|a: int|
                    0 <= a < s1.dataviews@.len() implies (#[trigger] s1.dataviews@[a].is_root()
                    || (exists|j: int|
                    0 <= j < a && (#[trigger] s1.dataviews@[j].uuid)
                        == s1.dataviews@[a].parent_uuid && s1.dataviews@[j].analysis_uuid
                        == s1.dataviews@[a].analysis_uuid)) by {
                    if a < last {
                        assert(s1.dataviews@[a] == s0.dataviews@[a]);
                        if !s0.dataviews@[a].is_root() {
                            let j = choose|j: int|
                                0 <= j < a && (#[trigger] s0.dataviews@[j].uuid)
                                    == s0.dataviews@[a].parent_uuid && s0.dataviews@[j].analysis_uuid
                                    == s0.dataviews@[a].analysis_uuid;
                            assert(s1.dataviews@[j] == s0.dataviews@[j]);
                        }
                    } else {
                        assert(s1.dataviews@[i as int] == s0.dataviews@[i as int]);
                        assert(s1.dataviews@[i as int].uuid == s1.dataviews@[a].parent_uuid);
                        assert(s1.dataviews@[i as int].analysis_uuid
                            == s1.dataviews@[a].analysis_uuid);
                    }
                }
            }
            assert forall|a: int, b: int|
                0 <= a < s1.dataviews@.len() && 0 <= b < s1.dataviews@.len()
                    && s1.dataviews@[a].is_root() && s1.dataviews@[b].is_root()
                    && s1.dataviews@[a].analysis_uuid == s1.dataviews@[b].analysis_uuid implies a
                == b by {
                if a == last {
                    assert(s1.dataviews@[i as int].uuid == s1.dataviews@[a].parent_uuid);
                    assert(s0.dataviews@[i as int].uuid < s0.next_id);
                } else if b == last {
                    assert(s1.dataviews@[i as int].uuid == s1.dataviews@[b].parent_uuid);
                    assert(s0.dataviews@[i as int].uuid < s0.next_id);
                } else {
                    assert(s1.dataviews@[a] == s0.dataviews@[a]);
                    assert(s1.dataviews@[b] == s0.dataviews@[b]);
                }
            }
            assert forall|a: int| 0 <= a < s1.analyses@.len() implies dv_has(
                s1.dataviews@,
                #[trigger] s1.analyses@[a].dataview_uuid,
            ) && s1.dataviews@[dv_idx(s1.dataviews@, s1.analyses@[a].dataview_uuid)].analysis_uuid
                == s1.analyses@[a].uuid by {
                let row2 = s0.analyses@[a];
                let k = dv_idx(s0.dataviews@, row2.dataview_uuid);
                assert(s0.dataviews@[k].uuid == row2.dataview_uuid);
                assert(s1.dataviews@[k] == s0.dataviews@[k]);
                assert(dv_has(s1.dataviews@, row2.dataview_uuid));
                let k2 = dv_idx(s1.dataviews@, row2.dataview_uuid);
                assert(s1.dataviews@[k2].uuid == row2.dataview_uuid);
                assert(k2 == k);
            }
            assert forall|a: int| 0 <= a < s1.plots@.len() implies dv_has(
                s1.dataviews@,
                #[trigger] s1.plots@[a].dataview_uuid,
            ) by {
                let k = dv_idx(s0.dataviews@, s0.plots@[a].dataview_uuid);
                assert(s1.dataviews@[k].uuid == s0.plots@[a].dataview_uuid);
            }
            assert forall|a: int| 0 <= a < s1.statistics@.len() implies dv_has(
                s1.dataviews@,
                #[trigger] s1.statistics@[a].dataview_uuid,
            ) by {
                let k = dv_idx(s0.dataviews@, s0.statistics@[a].dataview_uuid);
                assert(s1.dataviews@[k].uuid == s0.statistics@[a].dataview_uuid);
            }
            assert forall|a: int| 0 <= a < s1.models@.len() implies dv_has(
                s1.dataviews@,
                #[trigger] s1.models@[a].dataview_uuid,
            ) by {
                let k = dv_idx(s0.dataviews@, s0.models@[a].dataview_uuid);
                assert(s1.dataviews@[k].uuid == s0.models@[a].dataview_uuid);
            }
            assert(s1.wf());
        }
        Ok(result)
    }

    /// Reads a dataview by identifier.
    pub fn get(store: &Store, uuid: u64) -> (r: Result<Dataview, Error>)
        requires
            store.wf(),
        ensures
            (match r {
                Ok(d) => dv_has(store.dataviews@, uuid) && d == store.dataviews@[dv_idx(
                    store.dataviews@,
                    uuid,
                )],
                Err(e) => e == Error::NotFound && !dv_has(store.dataviews@, uuid),
            }),
    {
        match store.dataview_index(uuid) {
            Some(i) => {
                proof {
                    assert(dv_has(store.dataviews@, uuid));
                    let k = dv_idx(store.dataviews@, uuid);
                    assert(store.dataviews@[k].uuid == uuid);
                    assert(k == i as int);
                }
                Ok(store.dataviews[i].duplicate())
            },
            None => Err(Error::NotFound),
        }
    }

    /// The requesting user's role on the project that owns this dataview.
    pub fn role(store: &Store, uuid: u64, user_uuid: u64) -> (r: Result<Role, Error>)
        requires
            store.wf(),
        ensures
            (match r {
                Ok(role) => project_of_dataview(*store, uuid) matches Some(p) && stored_role(
                    *store,
                    p,
                    user_uuid,
                ) == Some(role),
                Err(e) => e == Error::NotFound && (project_of_dataview(*store, uuid) is None
                    || stored_role(*store, project_of_dataview(*store, uuid).unwrap(), user_uuid)
                    is None),
            }),
    {
        let i = match store.dataview_index(uuid) {
            Some(i) => i,
            None => {
                return Err(Error::NotFound);
            },
        };
        proof {
            assert(dv_has(store.dataviews@, uuid));
            let k = dv_idx(store.dataviews@, uuid);
            assert(store.dataviews@[k].uuid == uuid);
            assert(k == i as int);
        }
        let an = store.dataviews[i].analysis_uuid;
        let j = match store.analysis_index(an) {
            Some(j) => j,
            None => {
                proof {
                    assert(false);
                }
                return Err(Error::NotFound);
            },
        };
        proof {
            assert(an_has(store.analyses@, an));
            let k = an_idx(store.analyses@, an);
            assert(store.analyses@[k].uuid == an);
            assert(k == j as int);
        }
        let ds = store.analyses[j].dataset_uuid;
        let w = match store.dataset_index(ds) {
            Some(w) => w,
            None => {
                proof {
                    assert(false);
                }
                return Err(Error::NotFound);
            },
        };
        proof {
            assert(ds_has(store.datasets@, ds));
            let k = ds_idx(store.datasets@, ds);
            assert(store.datasets@[k].uuid == ds);
            assert(k == w as int);
        }
        let project = store.datasets[w].project_uuid;
        match store.role_lookup(project, user_uuid) {
            Some(role) => Ok(role),
            None => Err(Error::NotFound),
        }
    }
}


/// Whether `id` names a dataview in the subtree rooted at the dataview with
/// identifier `target`.
pub open spec fn dv_doomed(s: Store, target: u64, id: u64) -> bool {
    exists|i: int|
        0 <= i < s.dataviews@.len() && (#[trigger] s.dataviews@[i].uuid) == id && in_subtree(
            s.dataviews@,
            i,
            target,
        )
}

impl Dataview {
    /// Deletes a non-root dataview together with all its descendants and
    /// their artifacts. Deleting the root of an analysis is rejected: an
    /// analysis must always retain its root. An analysis whose current
    /// pointer falls inside the deleted subtree is re-pointed at the deleted
    /// dataview's parent, which always survives.
    #[verifier::rlimit(100)]
    #[verifier::spinoff_prover]
    pub fn delete(store: &mut Store, uuid: u64) -> (r: Result<(), Error>)
        requires
            old(store).wf(),
        ensures
            final(store).wf(),
            (match r {
                Ok(u) => {
                    &&& dv_has(old(store).dataviews@, uuid)
                    &&& !old(store).dataviews@[dv_idx(old(store).dataviews@, uuid)].is_root()
                    &&& !dv_has(final(store).dataviews@, uuid)
                    &&& final(store).dataviews@ == old(store).dataviews@.filter(
                        (|d: Dataview| !dv_doomed(*old(store), uuid, d.uuid)),
                    )
                    &&& final(store).plots@ == old(store).plots@.filter(
                        (|p: crate::models::plot::Plot| !dv_doomed(
                            *old(store),
                            uuid,
                            p.dataview_uuid,
                        )),
                    )
                    &&& final(store).statistics@ == old(store).statistics@.filter(
                        (|p: crate::models::statistic::Statistic| !dv_doomed(
                            *old(store),
                            uuid,
                            p.dataview_uuid,
                        )),
                    )
                    &&& final(store).models@ == old(store).models@.filter(
                        (|p: crate::models::model::Model| !dv_doomed(
                            *old(store),
                            uuid,
                            p.dataview_uuid,
                        )),
                    )
                    &&& final(store).analyses@.len() == old(store).analyses@.len()
                    &&& (forall|i: int|
                        0 <= i < old(store).analyses@.len() ==> #[trigger] final(store).analyses@[i]
                            == (if dv_doomed(
                            *old(store),
                            uuid,
                            old(store).analyses@[i].dataview_uuid,
                        ) {
                            Analysis {
                                dataview_uuid: old(store).dataviews@[dv_idx(
                                    old(store).dataviews@,
                                    uuid,
                                )].parent_uuid,
                                updated_at: old(store).clock,
                                ..old(store).analyses@[i]
                            }
                        } else {
                            old(store).analyses@[i]
                        }))
                    &&& final(store).users@ == old(store).users@
                    &&& final(store).projects@ == old(store).projects@
                    &&& final(store).roles@ == old(store).roles@
                    &&& final(store).datasets@ == old(store).datasets@
                    &&& final(store).refresh_tokens@ == old(store).refresh_tokens@
                    &&& final(store).next_id == old(store).next_id
                    &&& final(store).clock == old(store).clock
                },
                Err(e) => {
                    &&& *final(store) == *old(store)
                    &&& (if e == Error::NotFound {
                        !dv_has(old(store).dataviews@, uuid)
                    } else {
                        e == Error::InvariantViolation && dv_has(old(store).dataviews@, uuid)
                            && old(store).dataviews@[dv_idx(
                            old(store).dataviews@,
                            uuid,
                        )].is_root()
                    })
                },
            }),
    {
        let ghost s0 = *old(store);
        let i = match store.dataview_index(uuid) {
            Some(i) => i,
            None => {
                return Err(Error::NotFound);
            },
        };
        proof {
            assert(dv_has(store.dataviews@, uuid));
            let k = dv_idx(store.dataviews@, uuid);
            assert(store.dataviews@[k].uuid == uuid);
            assert(k == i as int);
        }
        if store.dataviews[i].root() {
            return Err(Error::InvariantViolation);
        }
        let parent = store.dataviews[i].parent_uuid;
        let clock = store.clock;
        let doomed = collect_subtree(&store.dataviews, uuid);
        proof {
            assert forall|x: u64| #[trigger] doomed@.contains(x) <==> dv_doomed(s0, uuid, x) by {}
            // the parent of the deleted dataview is never in its own subtree
            assert(!dv_doomed(s0, uuid, parent)) by {
                if dv_doomed(s0, uuid, parent) {
                    let jp = choose|w: int|
                        0 <= w < s0.dataviews@.len() && (#[trigger] s0.dataviews@[w].uuid)
                            == parent && in_subtree(s0.dataviews@, w, uuid);
                    assert(exists|j: int|
                        0 <= j < i as int && (#[trigger] s0.dataviews@[j].uuid)
                            == s0.dataviews@[i as int].parent_uuid && s0.dataviews@[j].analysis_uuid
                            == s0.dataviews@[i as int].analysis_uuid);
                    let je = choose|j: int|
                        0 <= j < i as int && (#[trigger] s0.dataviews@[j].uuid)
                            == s0.dataviews@[i as int].parent_uuid && s0.dataviews@[j].analysis_uuid
                            == s0.dataviews@[i as int].analysis_uuid;
                    assert(jp == je);
                    lemma_in_subtree_finds_target(s0.dataviews@, jp, uuid);
                    let kt = choose|k: int|
                        0 <= k <= jp && (#[trigger] s0.dataviews@[k].uuid) == uuid;
                    assert(kt == i as int);
                }
            }
        }
        let mut j: usize = 0;
        while j < store.analyses.len()
            invariant
                j <= store.analyses@.len(),
                store.analyses@.len() == s0.analyses@.len(),
                s0.wf(),
                dv_has(s0.dataviews@, uuid),
                dv_idx(s0.dataviews@, uuid) == i as int,
                0 <= (i as int) && (i as int) < s0.dataviews@.len(),
                s0.dataviews@[i as int].uuid == uuid,
                parent == s0.dataviews@[i as int].parent_uuid,
                clock == s0.clock,
                forall|x: u64| #[trigger] doomed@.contains(x) <==> dv_doomed(s0, uuid, x),
                forall|w: int|
                    0 <= w < j ==> #[trigger] store.analyses@[w] == (if dv_doomed(
                        s0,
                        uuid,
                        s0.analyses@[w].dataview_uuid,
                    ) {
                        Analysis {
                            dataview_uuid: parent,
                            updated_at: clock,
                            ..s0.analyses@[w]
                        }
                    } else {
                        s0.analyses@[w]
                    }),
                forall|w: int| j <= w < s0.analyses@.len() ==> #[trigger] store.analyses@[w]
                    == s0.analyses@[w],
                *store == (Store { analyses: store.analyses, ..s0 }),
            decreases store.analyses@.len() - j,
        {
            if contains_u64(&doomed, store.analyses[j].dataview_uuid) {
                store.analyses[j].dataview_uuid = parent;
                store.analyses[j].updated_at = clock;
            }
            j = j + 1;
        }
        let dataviews = crate::store::take_vec(&mut store.dataviews);
        store.dataviews = crate::retain::retain_dataviews_not_among(dataviews, &doomed);
        let plots = crate::store::take_vec(&mut store.plots);
        store.plots = crate::retain::retain_plots_outside(plots, &doomed);
        let statistics = crate::store::take_vec(&mut store.statistics);
        store.statistics = crate::retain::retain_statistics_outside(statistics, &doomed);
        let models = crate::store::take_vec(&mut store.models);
        store.models = crate::retain::retain_models_outside(models, &doomed);
        proof {
            broadcast use vstd::seq_lib::group_filter_ensures;

            let s1 = *store;
            let vpred = (|d: Dataview| !dv_doomed(s0, uuid, d.uuid));
            let plpred = (|p: crate::models::plot::Plot| !dv_doomed(s0, uuid, p.dataview_uuid));
            let stpred = (|p: crate::models::statistic::Statistic| !dv_doomed(
                s0,
                uuid,
                p.dataview_uuid,
            ));
            let mopred = (|p: crate::models::model::Model| !dv_doomed(s0, uuid, p.dataview_uuid));
            crate::store::lemma_filter_ext(
                s0.dataviews@,
                crate::retain::dataview_not_among(doomed@),
                vpred,
            );
            crate::store::lemma_filter_ext(
                s0.plots@,
                crate::retain::plot_outside(doomed@),
                plpred,
            );
            crate::store::lemma_filter_ext(
                s0.statistics@,
                crate::retain::statistic_outside(doomed@),
                stpred,
            );
            crate::store::lemma_filter_ext(
                s0.models@,
                crate::retain::model_outside(doomed@),
                mopred,
            );
            assert(s1.dataviews@ == s0.dataviews@.filter(vpred));
            assert(s1.plots@ == s0.plots@.filter(plpred));
            assert(s1.statistics@ == s0.statistics@.filter(stpred));
            assert(s1.models@ == s0.models@.filter(mopred));
            crate::store::lemma_filter_distinct_by(s0.dataviews@, vpred, |d: Dataview| d.uuid);
            crate::store::lemma_filter_distinct_by(
                s0.plots@,
                plpred,
                |p: crate::models::plot::Plot| p.uuid,
            );
            crate::store::lemma_filter_distinct_by(
                s0.statistics@,
                stpred,
                |p: crate::models::statistic::Statistic| p.uuid,
            );
            crate::store::lemma_filter_distinct_by(
                s0.models@,
                mopred,
                |p: crate::models::model::Model| p.uuid,
            );
            // the deleted dataview's parent survives
            assert(vpred(s0.dataviews@[parent_index(s0.dataviews@, i as int)])) by {
                let je = parent_index(s0.dataviews@, i as int);
                assert(s0.dataviews@[je].uuid == parent);
                if dv_doomed(s0, uuid, s0.dataviews@[je].uuid) {
                }
            }
            // analyses: identifiers and dataset links unchanged
            assert forall|a: int, b: int|
                0 <= a < b < s1.analyses@.len() implies s1.analyses@[a].uuid
                != s1.analyses@[b].uuid by {
                assert(s1.analyses@[a].uuid == s0.analyses@[a].uuid);
                assert(s1.analyses@[b].uuid == s0.analyses@[b].uuid);
            }
            assert forall|a: int| 0 <= a < s1.analyses@.len() implies ds_has(
                s1.datasets@,
                #[trigger] s1.analyses@[a].dataset_uuid,
            ) by {
                assert(s1.analyses@[a].dataset_uuid == s0.analyses@[a].dataset_uuid);
            }
            assert forall|a: int|
                0 <= a < s1.analyses@.len() implies #[trigger] s1.analyses@[a].uuid
                < s1.next_id by {
                assert(s1.analyses@[a].uuid == s0.analyses@[a].uuid);
            }
            // survivors' parents survive, so the tree shape is kept
            assert(parent_earlier(s1.dataviews@)) by {
                assert forall|a: int, b: int|
                    #![trigger s0.dataviews@[a].parent_uuid, s0.dataviews@[b].uuid]
                    (0 <= a < s0.dataviews@.len() && 0 <= b < s0.dataviews@.len()
                        && !s0.dataviews@[a].is_root() && s0.dataviews@[b].uuid
                        == s0.dataviews@[a].parent_uuid && vpred(s0.dataviews@[a])) implies vpred(
                    s0.dataviews@[b],
                ) by {
                    if dv_doomed(s0, uuid, s0.dataviews@[b].uuid) {
                        let w = choose|w: int|
                            0 <= w < s0.dataviews@.len() && (#[trigger] s0.dataviews@[w].uuid)
                                == s0.dataviews@[b].uuid && in_subtree(s0.dataviews@, w, uuid);
                        assert(w == b);
                        // the child's own chain passes through its parent
                        if s0.dataviews@[a].uuid == uuid {
                            assert(in_subtree(s0.dataviews@, a, uuid));
                            assert(dv_doomed(s0, uuid, s0.dataviews@[a].uuid));
                        } else {
                            assert(exists|j2: int|
                                0 <= j2 < a && (#[trigger] s0.dataviews@[j2].uuid)
                                    == s0.dataviews@[a].parent_uuid
                                    && s0.dataviews@[j2].analysis_uuid
                                    == s0.dataviews@[a].analysis_uuid);
                            let je = parent_index(s0.dataviews@, a);
                            assert(0 <= je < a && s0.dataviews@[je].uuid
                                == s0.dataviews@[a].parent_uuid);
                            assert(je == b);
                            assert(in_subtree(s0.dataviews@, a, uuid));
                            assert(dv_doomed(s0, uuid, s0.dataviews@[a].uuid));
                        }
                    }
                }
                crate::store::lemma_filter_parent_earlier(s0.dataviews@, vpred);
            }
            assert forall|a: int, b: int|
                0 <= a < s1.dataviews@.len() && 0 <= b < s1.dataviews@.len()
                    && s1.dataviews@[a].is_root() && s1.dataviews@[b].is_root()
                    && s1.dataviews@[a].analysis_uuid == s1.dataviews@[b].analysis_uuid implies a
                == b by {
                let wa = crate::store::lemma_filter_member_src(s0.dataviews@, vpred, a);
                let wb = crate::store::lemma_filter_member_src(s0.dataviews@, vpred, b);
                assert(s0.dataviews@[wa] == s1.dataviews@[a]);
                assert(s0.dataviews@[wb] == s1.dataviews@[b]);
                assert(wa == wb);
                assert(s1.dataviews@[a].uuid == s1.dataviews@[b].uuid);
            }
            assert forall|a: int| 0 <= a < s1.dataviews@.len() implies an_has(
                s1.analyses@,
                #[trigger] s1.dataviews@[a].analysis_uuid,
            ) by {
                let w = crate::store::lemma_filter_member_src(s0.dataviews@, vpred, a);
                let row = s0.dataviews@[w];
                let k = an_idx(s0.analyses@, row.analysis_uuid);
                assert(s0.analyses@[k].uuid == row.analysis_uuid);
                assert(s1.analyses@[k].uuid == row.analysis_uuid);
            }
            assert forall|a: int|
                0 <= a < s1.dataviews@.len() implies #[trigger] s1.dataviews@[a].uuid
                < s1.next_id by {
                let w = crate::store::lemma_filter_member_src(s0.dataviews@, vpred, a);
            }
            // every analysis points at a surviving dataview of its own tree
            assert forall|a: int| 0 <= a < s1.analyses@.len() implies dv_has(
                s1.dataviews@,
                #[trigger] s1.analyses@[a].dataview_uuid,
            ) && s1.dataviews@[dv_idx(s1.dataviews@, s1.analyses@[a].dataview_uuid)].analysis_uuid
                == s1.analyses@[a].uuid by {
                let je = parent_index(s0.dataviews@, i as int);
                if dv_doomed(s0, uuid, s0.analyses@[a].dataview_uuid) {
                    // re-pointed at the deleted dataview's parent
                    assert(s1.analyses@[a].dataview_uuid == parent);
                    assert(s0.dataviews@[je].uuid == parent);
                    assert(vpred(s0.dataviews@[je]));
                    assert(s1.dataviews@.contains(s0.dataviews@[je]));
                    let k2 = choose|k2: int|
                        0 <= k2 < s1.dataviews@.len() && s1.dataviews@[k2] == s0.dataviews@[je];
                    assert(s1.dataviews@[k2].uuid == parent);
                    let k3 = dv_idx(s1.dataviews@, parent);
                    assert(s1.dataviews@[k3].uuid == parent);
                    assert(k3 == k2);
                    // the old pointer lay in the subtree, so it shared the
                    // target's analysis, as the parent does
                    let wp = choose|w: int|
                        0 <= w < s0.dataviews@.len() && (#[trigger] s0.dataviews@[w].uuid)
                            == s0.analyses@[a].dataview_uuid && in_subtree(
                            s0.dataviews@,
                            w,
                            uuid,
                        );
                    lemma_in_subtree_same_analysis(s0.dataviews@, wp, uuid);
                    assert(s0.dataviews@[wp].analysis_uuid
                        == s0.dataviews@[i as int].analysis_uuid);
                    let kp = dv_idx(s0.dataviews@, s0.analyses@[a].dataview_uuid);
                    assert(kp == wp);
                    assert(s0.dataviews@[wp].analysis_uuid == s0.analyses@[a].uuid);
                    assert(s0.dataviews@[je].analysis_uuid
                        == s0.dataviews@[i as int].analysis_uuid);
                    assert(s1.dataviews@[k3].analysis_uuid == s1.analyses@[a].uuid);
                } else {
                    assert(s1.analyses@[a].dataview_uuid == s0.analyses@[a].dataview_uuid);
                    let k = dv_idx(s0.dataviews@, s0.analyses@[a].dataview_uuid);
                    assert(s0.dataviews@[k].uuid == s0.analyses@[a].dataview_uuid);
                    assert(vpred(s0.dataviews@[k])) by {
                        if dv_doomed(s0, uuid, s0.dataviews@[k].uuid) {
                        }
                    }
                    assert(s1.dataviews@.contains(s0.dataviews@[k]));
                    let k2 = choose|k2: int|
                        0 <= k2 < s1.dataviews@.len() && s1.dataviews@[k2] == s0.dataviews@[k];
                    assert(s1.dataviews@[k2].uuid == s0.analyses@[a].dataview_uuid);
                    let k3 = dv_idx(s1.dataviews@, s1.analyses@[a].dataview_uuid);
                    assert(s1.dataviews@[k3].uuid == s1.analyses@[a].dataview_uuid);
                    assert(k3 == k2);
                    assert(s1.dataviews@[k3].analysis_uuid == s1.analyses@[a].uuid);
                }
            }
            // surviving artifacts still find their dataview
            assert forall|a: int| 0 <= a < s1.plots@.len() implies dv_has(
                s1.dataviews@,
                #[trigger] s1.plots@[a].dataview_uuid,
            ) by {
                let w = crate::store::lemma_filter_member_src(s0.plots@, plpred, a);
                let row = s0.plots@[w];
                let k = dv_idx(s0.dataviews@, row.dataview_uuid);
                assert(s0.dataviews@[k].uuid == row.dataview_uuid);
                assert(vpred(s0.dataviews@[k])) by {
                    if dv_doomed(s0, uuid, s0.dataviews@[k].uuid) {
                    }
                }
                assert(s1.dataviews@.contains(s0.dataviews@[k]));
                let k2 = choose|k2: int|
                    0 <= k2 < s1.dataviews@.len() && s1.dataviews@[k2] == s0.dataviews@[k];
                assert(s1.dataviews@[k2].uuid == row.dataview_uuid);
            }
            assert forall|a: int| 0 <= a < s1.statistics@.len() implies dv_has(
                s1.dataviews@,
                #[trigger] s1.statistics@[a].dataview_uuid,
            ) by {
                let w = crate::store::lemma_filter_member_src(s0.statistics@, stpred, a);
                let row = s0.statistics@[w];
                let k = dv_idx(s0.dataviews@, row.dataview_uuid);
                assert(s0.dataviews@[k].uuid == row.dataview_uuid);
                assert(vpred(s0.dataviews@[k])) by {
                    if dv_doomed(s0, uuid, s0.dataviews@[k].uuid) {
                    }
                }
                assert(s1.dataviews@.contains(s0.dataviews@[k]));
                let k2 = choose|k2: int|
                    0 <= k2 < s1.dataviews@.len() && s1.dataviews@[k2] == s0.dataviews@[k];
                assert(s1.dataviews@[k2].uuid == row.dataview_uuid);
            }
            assert forall|a: int| 0 <= a < s1.models@.len() implies dv_has(
                s1.dataviews@,
                #[trigger] s1.models@[a].dataview_uuid,
            ) by {
                let w = crate::store::lemma_filter_member_src(s0.models@, mopred, a);
                let row = s0.models@[w];
                let k = dv_idx(s0.dataviews@, row.dataview_uuid);
                assert(s0.dataviews@[k].uuid == row.dataview_uuid);
                assert(vpred(s0.dataviews@[k])) by {
                    if dv_doomed(s0, uuid, s0.dataviews@[k].uuid) {
                    }
                }
                assert(s1.dataviews@.contains(s0.dataviews@[k]));
                let k2 = choose|k2: int|
                    0 <= k2 < s1.dataviews@.len() && s1.dataviews@[k2] == s0.dataviews@[k];
                assert(s1.dataviews@[k2].uuid == row.dataview_uuid);
            }
            assert forall|a: int|
                0 <= a < s1.plots@.len() implies #[trigger] s1.plots@[a].uuid < s1.next_id by {
                let w = crate::store::lemma_filter_member_src(s0.plots@, plpred, a);
            }
            assert forall|a: int|
                0 <= a < s1.statistics@.len() implies #[trigger] s1.statistics@[a].uuid
                < s1.next_id by {
                let w = crate::store::lemma_filter_member_src(s0.statistics@, stpred, a);
            }
            assert forall|a: int|
                0 <= a < s1.models@.len() implies #[trigger] s1.models@[a].uuid < s1.next_id by {
                let w = crate::store::lemma_filter_member_src(s0.models@, mopred, a);
            }
            // the deleted dataview itself is gone: any survivor carrying its
            // identifier would be the target row, which lies in its own subtree
            assert forall|a: int|
                0 <= a < s1.dataviews@.len() implies (#[trigger] s1.dataviews@[a].uuid)
                != uuid by {
                let w = crate::store::lemma_filter_member_src(s0.dataviews@, vpred, a);
                if s0.dataviews@[w].uuid == uuid {
                    assert(in_subtree(s0.dataviews@, w, uuid));
                    assert(dv_doomed(s0, uuid, uuid));
                }
            }
            assert(s1.wf());
        }
        Ok(())
    }
}

impl Dataview {
    /// Applies a worker-reported status transition: forward steps only, and a
    /// repeated terminal report is accepted as a no-op rather than an error.
    pub fn set_status(store: &mut Store, uuid: u64, status: &Status) -> (r: Result<
        Status,
        Error,
    >)
        requires
            old(store).wf(),
        ensures
            final(store).wf(),
            (match r {
                Ok(s) => {
                    &&& dv_has(old(store).dataviews@, uuid)
                    &&& s == *status
                    &&& ({
                        let i = dv_idx(old(store).dataviews@, uuid);
                        let was = old(store).dataviews@[i].status;
                        &&& was.can_step(*status)
                        &&& (was.is_terminal() ==> *final(store) == *old(store))
                        &&& (!was.is_terminal() ==> {
                            &&& final(store).dataviews@.len() == old(store).dataviews@.len()
                            &&& final(store).dataviews@[i].status == *status
                            &&& final(store).dataviews@[i].uuid == uuid
                            &&& (forall|j: int|
                                0 <= j < old(store).dataviews@.len() && j != i
                                    ==> #[trigger] final(store).dataviews@[j] == old(store).dataviews@[j])
                            &&& *final(store) == (Store {
                                dataviews: final(store).dataviews,
                                ..*old(store)
                            })
                        })
                    })
                },
                Err(e) => {
                    &&& *final(store) == *old(store)
                    &&& (if e == Error::NotFound {
                        !dv_has(old(store).dataviews@, uuid)
                    } else {
                        e == Error::InvariantViolation && dv_has(old(store).dataviews@, uuid)
                            && !old(store).dataviews@[dv_idx(
                            old(store).dataviews@,
                            uuid,
                        )].status.can_step(*status)
                    })
                },
            }),
    {
        let i = match store.dataview_index(uuid) {
            Some(i) => i,
            None => {
                return Err(Error::NotFound);
            },
        };
        proof {
            assert(dv_has(store.dataviews@, uuid));
            let k = dv_idx(store.dataviews@, uuid);
            assert(store.dataviews@[k].uuid == uuid);
            assert(k == i as int);
        }
        let was = store.dataviews[i].status;
        if !was.step_allowed(status) {
            return Err(Error::InvariantViolation);
        }
        if was.terminal() {
            return Ok(was);
        }
        let clock = store.clock;
        store.dataviews[i].status = *status;
        store.dataviews[i].updated_at = clock;
        proof {
            let s0 = *old(store);
            let s1 = *store;
            assert forall|a: int, b: int|
                0 <= a < b < s1.dataviews@.len() implies s1.dataviews@[a].uuid != s1.dataviews@[b].uuid by {
                assert(s1.dataviews@[a].uuid == s0.dataviews@[a].uuid);
                assert(s1.dataviews@[b].uuid == s0.dataviews@[b].uuid);
            }
            assert forall|a: int| 0 <= a < s1.dataviews@.len() implies an_has(
                s1.analyses@,
                #[trigger] s1.dataviews@[a].analysis_uuid,
            ) by {
                assert(s1.dataviews@[a].analysis_uuid == s0.dataviews@[a].analysis_uuid);
            }
            assert forall|a: int|
                0 <= a < s1.dataviews@.len() implies #[trigger] s1.dataviews@[a].uuid < s1.next_id by {
                assert(s1.dataviews@[a].uuid == s0.dataviews@[a].uuid);
            }
            assert(crate::store::parent_earlier(s1.dataviews@)) by {
                assert forall|a: int|
                    0 <= a < s1.dataviews@.len() implies (#[trigger] s1.dataviews@[a].is_root()
                    || (exists|j: int|
                    0 <= j < a && (#[trigger] s1.dataviews@[j].uuid)
                        == s1.dataviews@[a].parent_uuid && s1.dataviews@[j].analysis_uuid
                        == s1.dataviews@[a].analysis_uuid)) by {
                    assert(s1.dataviews@[a].is_root() == s0.dataviews@[a].is_root());
                    if !s0.dataviews@[a].is_root() {
                        let j = choose|j: int|
                            0 <= j < a && (#[trigger] s0.dataviews@[j].uuid)
                                == s0.dataviews@[a].parent_uuid && s0.dataviews@[j].analysis_uuid
                                == s0.dataviews@[a].analysis_uuid;
                        assert(s1.dataviews@[j].uuid == s0.dataviews@[j].uuid);
                        assert(s1.dataviews@[j].analysis_uuid == s0.dataviews@[j].analysis_uuid);
                        assert(s1.dataviews@[a].parent_uuid == s0.dataviews@[a].parent_uuid);
                        assert(s1.dataviews@[a].analysis_uuid == s0.dataviews@[a].analysis_uuid);
                    }
                }
            }
            assert forall|a: int, b: int|
                0 <= a < s1.dataviews@.len() && 0 <= b < s1.dataviews@.len()
                    && s1.dataviews@[a].is_root() && s1.dataviews@[b].is_root()
                    && s1.dataviews@[a].analysis_uuid == s1.dataviews@[b].analysis_uuid implies a
                == b by {
                assert(s0.dataviews@[a].is_root() && s0.dataviews@[b].is_root());
                assert(s0.dataviews@[a].analysis_uuid == s0.dataviews@[b].analysis_uuid);
            }
            assert forall|a: int| 0 <= a < s1.analyses@.len() implies crate::store::dv_has(
                s1.dataviews@,
                #[trigger] s1.analyses@[a].dataview_uuid,
            ) && s1.dataviews@[crate::store::dv_idx(
                s1.dataviews@,
                s1.analyses@[a].dataview_uuid,
            )].analysis_uuid == s1.analyses@[a].uuid by {
                let k = crate::store::dv_idx(s0.dataviews@, s0.analyses@[a].dataview_uuid);
                assert(s0.dataviews@[k].uuid == s0.analyses@[a].dataview_uuid);
                assert(s1.dataviews@[k].uuid == s0.analyses@[a].dataview_uuid);
                assert(crate::store::dv_has(s1.dataviews@, s1.analyses@[a].dataview_uuid));
                let k2 = crate::store::dv_idx(s1.dataviews@, s1.analyses@[a].dataview_uuid);
                assert(s1.dataviews@[k2].uuid == s1.analyses@[a].dataview_uuid);
                assert(k2 == k);
                assert(s1.dataviews@[k2].analysis_uuid == s0.dataviews@[k].analysis_uuid);
            }
            assert forall|a: int| 0 <= a < s1.plots@.len() implies crate::store::dv_has(
                s1.dataviews@,
                #[trigger] s1.plots@[a].dataview_uuid,
            ) by {
                let k = crate::store::dv_idx(s0.dataviews@, s0.plots@[a].dataview_uuid);
                assert(s1.dataviews@[k].uuid == s0.plots@[a].dataview_uuid);
            }
            assert forall|a: int| 0 <= a < s1.statistics@.len() implies crate::store::dv_has(
                s1.dataviews@,
                #[trigger] s1.statistics@[a].dataview_uuid,
            ) by {
                let k = crate::store::dv_idx(s0.dataviews@, s0.statistics@[a].dataview_uuid);
                assert(s1.dataviews@[k].uuid == s0.statistics@[a].dataview_uuid);
            }
            assert forall|a: int| 0 <= a < s1.models@.len() implies crate::store::dv_has(
                s1.dataviews@,
                #[trigger] s1.models@[a].dataview_uuid,
            ) by {
                let k = crate::store::dv_idx(s0.dataviews@, s0.models@[a].dataview_uuid);
                assert(s1.dataviews@[k].uuid == s0.models@[a].dataview_uuid);
            }

            assert(s1.wf());
        }
        Ok(*status)
    }
}

} // verus!
