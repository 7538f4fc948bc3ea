use vstd::prelude::*;
use crate::codec::{encode, token_of, EntityKind};
use crate::error::Error;
use crate::num::dec_digits;
use crate::retain::{retain_roles_not_pair, role_not_pair};
use crate::store::{
    lemma_filter_member_src, pr_has, pr_idx, role_has, role_idx, stored_role, take_vec, us_has,
    us_idx, Store,
};
use crate::text::dec_string;

verus! {

/// A role granted per project and user, ordered Viewer < Editor < Admin and
/// inherited by every entity under the project.
#[derive(Debug, Copy, Clone, PartialEq, Eq, Structural)]
pub enum Role {
    Viewer,
    Editor,
    Admin,
}

pub open spec fn role_rank(r: Role) -> nat {
    match r {
        Role::Viewer => 0,
        Role::Editor => 1,
        Role::Admin => 2,
    }
}

impl Role {
    /// Whether this role grants at least the privileges of `other`.
    pub open spec fn at_least(self, other: Role) -> bool {
        role_rank(self) >= role_rank(other)
    }

    pub fn grants(&self, other: &Role) -> (r: bool)
        ensures
            r == self.at_least(*other),
    {
        let a: u8 = match self {
            Role::Viewer => 0,
            Role::Editor => 1,
            Role::Admin => 2,
        };
        let b: u8 = match other {
            Role::Viewer => 0,
            Role::Editor => 1,
            Role::Admin => 2,
        };
        a >= b
    }
}

/// A role row, keyed by project id and user id; the value orders the user's
/// rights on everything the project owns.
#[derive(Debug, Clone, PartialEq, Eq)]
pub struct ProjectUserRole {
    pub created_at: u64,
    pub updated_at: u64,
    pub project_uuid: u64,
    pub user_uuid: u64,
    pub role: Role,
}

impl ProjectUserRole {
    /// An exact copy, field for field.
    pub fn duplicate(&self) -> (r: Self)
        ensures
            r == *self,
    {
        ProjectUserRole {
            created_at: self.created_at,
            updated_at: self.updated_at,
            project_uuid: self.project_uuid,
            user_uuid: self.user_uuid,
            role: self.role,
        }
    }

    /// The identity token addressing this role row: project id, then user id.
    pub fn id(&self) -> (r: String)
        ensures
            r@ == token_of(
                EntityKind::ProjectUserRole,
                seq![dec_digits(self.project_uuid as nat), dec_digits(self.user_uuid as nat)],
            ),
            crate::codec::spec_token_first_id(r@) == Some(self.project_uuid),
    {
        let mut keys: Vec<String> = Vec::new();
        keys.push(dec_string(self.project_uuid));
        keys.push(dec_string(self.user_uuid));
        let t = encode(EntityKind::ProjectUserRole, &keys);
        proof {
            let kseq = seq![
                dec_digits(self.project_uuid as nat),
                dec_digits(self.user_uuid as nat),
            ];
            assert(keys@.map_values(|k: String| k@) =~= kseq);
            crate::num::lemma_dec_digits_are_digits(self.project_uuid as nat);
            crate::num::lemma_dec_digits_are_digits(self.user_uuid as nat);
            assert forall|i: int| 0 <= i < kseq.len() implies crate::codec::valid_key(
                #[trigger] kseq[i],
            ) by {
                if i == 0 {
                    crate::codec::lemma_digits_are_valid_key(dec_digits(self.project_uuid as nat));
                } else {
                    crate::codec::lemma_digits_are_valid_key(dec_digits(self.user_uuid as nat));
                }
            }
            crate::codec::lemma_token_first_id(
                EntityKind::ProjectUserRole,
                kseq,
                self.project_uuid,
                t@,
            );
        }
        t
    }
}

impl ProjectUserRole {
    /// Grants a role; the project and user must exist, and at most one row
    /// may exist per project and user.
    pub fn create(store: &mut Store, project_uuid: u64, user_uuid: u64, role: &Role) -> (r: Result<
        ProjectUserRole,
        Error,
    >)
        requires
            old(store).wf(),
        ensures
            final(store).wf(),
            (match r {
                Ok(row) => {
                    &&& pr_has(old(store).projects@, project_uuid)
                    &&& us_has(old(store).users@, user_uuid)
                    &&& !role_has(old(store).roles@, project_uuid, user_uuid)
                    &&& row == (ProjectUserRole {
                        created_at: old(store).clock,
                        updated_at: old(store).clock,
                        project_uuid,
                        user_uuid,
                        role: *role,
                    })
                    &&& final(store).roles@ == old(store).roles@.push(row)
                    &&& *final(store) == (Store { roles: final(store).roles, ..*old(store) })
                },
                Err(e) => {
                    &&& *final(store) == *old(store)
                    &&& (if e == Error::NotFound {
                        !pr_has(old(store).projects@, project_uuid) || !us_has(
                            old(store).users@,
                            user_uuid,
                        )
                    } else {
                        e == Error::InvariantViolation && role_has(
                            old(store).roles@,
                            project_uuid,
                            user_uuid,
                        )
                    })
                },
            }),
    {
        if store.project_index(project_uuid).is_none() {
            return Err(Error::NotFound);
        }
        if store.user_index(user_uuid).is_none() {
            return Err(Error::NotFound);
        }
        if store.role_index(project_uuid, user_uuid).is_some() {
            proof {
                assert(role_has(store.roles@, project_uuid, user_uuid));
            }
            return Err(Error::InvariantViolation);
        }
        let row = ProjectUserRole {
            created_at: store.clock,
            updated_at: store.clock,
            project_uuid,
            user_uuid,
            role: *role,
        };
        let result = row.duplicate();
        store.roles.push(row);
        proof {
            let s0 = *old(store);
            let s1 = *store;
            assert(s1.roles@ == s0.roles@.push(result));
            assert forall|i: int, j: int|
                0 <= i < j < s1.roles@.len() implies !(s1.roles@[i].project_uuid
                == s1.roles@[j].project_uuid && s1.roles@[i].user_uuid
                == s1.roles@[j].user_uuid) by {
                if j == s1.roles@.len() - 1 {
                    assert(s1.roles@[i] == s0.roles@[i]);
                    if s0.roles@[i].project_uuid == project_uuid && s0.roles@[i].user_uuid
                        == user_uuid {
                        assert(role_has(s0.roles@, project_uuid, user_uuid));
                    }
                }
            }
            assert forall|i: int| 0 <= i < s1.roles@.len() implies pr_has(
                s1.projects@,
                #[trigger] s1.roles@[i].project_uuid,
            ) by {
                if i < s1.roles@.len() - 1 {
                    assert(s1.roles@[i] == s0.roles@[i]);
                }
            }
            assert forall|i: int| 0 <= i < s1.roles@.len() implies us_has(
                s1.users@,
                #[trigger] s1.roles@[i].user_uuid,
            ) by {
                if i < s1.roles@.len() - 1 {
                    assert(s1.roles@[i] == s0.roles@[i]);
                }
            }
            assert(s1.wf());
        }
        Ok(result)
    }

    /// Reads the role row for a project and user.
    pub fn get(store: &Store, project_uuid: u64, user_uuid: u64) -> (r: Result<
        ProjectUserRole,
        Error,
    >)
        requires
            store.wf(),
        ensures
            (match r {
                Ok(row) => role_has(store.roles@, project_uuid, user_uuid) && row
                    == store.roles@[role_idx(store.roles@, project_uuid, user_uuid)],
                Err(e) => e == Error::NotFound && !role_has(store.roles@, project_uuid, user_uuid),
            }),
    {
        match store.role_index(project_uuid, user_uuid) {
            Some(i) => {
                proof {
                    assert(role_has(store.roles@, project_uuid, user_uuid));
                    let k = role_idx(store.roles@, project_uuid, user_uuid);
                    assert(store.roles@[k].project_uuid == project_uuid && store.roles@[k].user_uuid
                        == user_uuid);
                    assert(k == i as int);
                }
                Ok(store.roles[i].duplicate())
            },
            None => Err(Error::NotFound),
        }
    }

    /// Changes the value of an existing role row, stamping the update time.
    pub fn modify(store: &mut Store, project_uuid: u64, user_uuid: u64, role: &Role) -> (r: Result<
        ProjectUserRole,
        Error,
    >)
        requires
            old(store).wf(),
        ensures
            final(store).wf(),
            (match r {
                Ok(row) => {
                    &&& role_has(old(store).roles@, project_uuid, user_uuid)
                    &&& row.project_uuid == project_uuid
                    &&& row.user_uuid == user_uuid
                    &&& row.role == *role
                    &&& row.created_at == old(store).roles@[role_idx(
                        old(store).roles@,
                        project_uuid,
                        user_uuid,
                    )].created_at
                    &&& row.updated_at == old(store).clock
                    &&& final(store).roles@ == old(store).roles@.update(
                        role_idx(old(store).roles@, project_uuid, user_uuid),
                        row,
                    )
                    &&& *final(store) == (Store { roles: final(store).roles, ..*old(store) })
                },
                Err(e) => {
                    &&& e == Error::NotFound
                    &&& !role_has(old(store).roles@, project_uuid, user_uuid)
                    &&& *final(store) == *old(store)
                },
            }),
    {
        let i = match store.role_index(project_uuid, user_uuid) {
            Some(i) => i,
            None => {
                return Err(Error::NotFound);
            },
        };
        proof {
            assert(role_has(store.roles@, project_uuid, user_uuid));
            let k = role_idx(store.roles@, project_uuid, user_uuid);
            assert(store.roles@[k].project_uuid == project_uuid && store.roles@[k].user_uuid
                == user_uuid);
            assert(k == i as int);
        }
        let clock = store.clock;
        store.roles[i].role = *role;
        store.roles[i].updated_at = clock;
        let row = store.roles[i].duplicate();
        proof {
            let s0 = *old(store);
            let s1 = *store;
            assert(s1.roles@ =~= s0.roles@.update(i as int, row));
            assert forall|a: int, b: int|
                0 <= a < b < s1.roles@.len() implies !(s1.roles@[a].project_uuid
                == s1.roles@[b].project_uuid && s1.roles@[a].user_uuid
                == s1.roles@[b].user_uuid) by {
                assert(s1.roles@[a].project_uuid == s0.roles@[a].project_uuid
                    && s1.roles@[a].user_uuid == s0.roles@[a].user_uuid);
                assert(s1.roles@[b].project_uuid == s0.roles@[b].project_uuid
                    && s1.roles@[b].user_uuid == s0.roles@[b].user_uuid);
            }
            assert forall|a: int| 0 <= a < s1.roles@.len() implies pr_has(
                s1.projects@,
                #[trigger] s1.roles@[a].project_uuid,
            ) by {
                assert(s1.roles@[a].project_uuid == s0.roles@[a].project_uuid);
            }
            assert forall|a: int| 0 <= a < s1.roles@.len() implies us_has(
                s1.users@,
                #[trigger] s1.roles@[a].user_uuid,
            ) by {
                assert(s1.roles@[a].user_uuid == s0.roles@[a].user_uuid);
            }
            assert(s1.wf());
        }
        Ok(row)
    }

    /// All role rows of a project.
    pub fn by_project(store: &Store, project_uuid: u64) -> (r: Vec<ProjectUserRole>)
        requires
            store.wf(),
        ensures
            r@ == store.roles@.filter((|x: ProjectUserRole| x.project_uuid == project_uuid)),
    {
        let ghost pred = (|x: ProjectUserRole| x.project_uuid == project_uuid);
        let mut out: Vec<ProjectUserRole> = Vec::new();
        let mut i: usize = 0;
        proof {
            assert(store.roles@.subrange(0, 0) =~= Seq::<ProjectUserRole>::empty());
            assert(Seq::<ProjectUserRole>::empty().filter(pred)
                =~= Seq::<ProjectUserRole>::empty()) by {
                reveal(Seq::filter);
            }
        }
        while i < store.roles.len()
            invariant
                i <= store.roles@.len(),
                pred == (|x: ProjectUserRole| x.project_uuid == project_uuid),
                out@ == store.roles@.subrange(0, i as int).filter(pred),
            decreases store.roles@.len() - i,
        {
            let ghost pre = store.roles@.subrange(0, i as int);
            proof {
                assert(store.roles@.subrange(0, i as int + 1) =~= pre.push(
                    store.roles@[i as int],
                ));
                crate::store::lemma_filter_push(pre, pred, store.roles@[i as int]);
            }
            if store.roles[i].project_uuid == project_uuid {
                out.push(store.roles[i].duplicate());
            }
            i = i + 1;
        }
        proof {
            assert(store.roles@.subrange(0, store.roles@.len() as int) =~= store.roles@);
        }
        out
    }

    /// Removes the role row for a project and user.
    pub fn delete(store: &mut Store, project_uuid: u64, user_uuid: u64) -> (r: Result<(), Error>)
        requires
            old(store).wf(),
        ensures
            final(store).wf(),
            (match r {
                Ok(u) => {
                    &&& role_has(old(store).roles@, project_uuid, user_uuid)
                    &&& final(store).roles@ == old(store).roles@.filter(
                        role_not_pair(project_uuid, user_uuid),
                    )
                    &&& *final(store) == (Store { roles: final(store).roles, ..*old(store) })
                },
                Err(e) => {
                    &&& e == Error::NotFound
                    &&& !role_has(old(store).roles@, project_uuid, user_uuid)
                    &&& *final(store) == *old(store)
                },
            }),
    {
        if store.role_index(project_uuid, user_uuid).is_none() {
            return Err(Error::NotFound);
        }
        let ghost s0 = *old(store);
        let roles = take_vec(&mut store.roles);
        store.roles = retain_roles_not_pair(roles, project_uuid, user_uuid);
        proof {
            broadcast use vstd::seq_lib::group_filter_ensures;

            let s1 = *store;
            let pred = role_not_pair(project_uuid, user_uuid);
            assert(s1.roles@ == s0.roles@.filter(pred));
            assert forall|a: int, b: int|
                0 <= a < b < s1.roles@.len() implies !(s1.roles@[a].project_uuid
                == s1.roles@[b].project_uuid && s1.roles@[a].user_uuid
                == s1.roles@[b].user_uuid) by {
                let x = lemma_filter_member_src(s0.roles@, pred, a);
                let y = lemma_filter_member_src(s0.roles@, pred, b);
                assert(s1.roles@[a] == s0.roles@[x]);
                assert(s1.roles@[b] == s0.roles@[y]);
                if x == y {
                    lemma_role_filter_pairs(s0.roles@, pred, a, b);
                }
            }
            assert forall|a: int| 0 <= a < s1.roles@.len() implies pr_has(
                s1.projects@,
                #[trigger] s1.roles@[a].project_uuid,
            ) by {
                let x = lemma_filter_member_src(s0.roles@, pred, a);
            }
            assert forall|a: int| 0 <= a < s1.roles@.len() implies us_has(
                s1.users@,
                #[trigger] s1.roles@[a].user_uuid,
            ) by {
                let x = lemma_filter_member_src(s0.roles@, pred, a);
            }
            assert(s1.wf());
        }
        Ok(())
    }
}

/// Pair-distinctness carried through a filter of role rows.
proof fn lemma_role_filter_pairs(
    s: Seq<ProjectUserRole>,
    p: spec_fn(ProjectUserRole) -> bool,
    i: int,
    j: int,
)
    requires
        forall|a: int, b: int|
            0 <= a < b < s.len() ==> !(s[a].project_uuid == s[b].project_uuid && s[a].user_uuid
                == s[b].user_uuid),
        0 <= i < j < s.filter(p).len(),
    ensures
        !(s.filter(p)[i].project_uuid == s.filter(p)[j].project_uuid && s.filter(p)[i].user_uuid
            == s.filter(p)[j].user_uuid),
    decreases s.len(),
{
    reveal(Seq::filter);
    if s.len() > 0 {
        let t = s.drop_last();
        assert(forall|a: int, b: int|
            0 <= a < b < t.len() ==> !(t[a].project_uuid == t[b].project_uuid && t[a].user_uuid
                == t[b].user_uuid));
        if p(s.last()) {
            if j == s.filter(p).len() - 1 {
                crate::store::lemma_filter_elements(t, p);
                assert(s.filter(p)[i] == t.filter(p)[i]);
                assert(t.contains(t.filter(p)[i]));
                let k = choose|k: int| 0 <= k < t.len() && t[k] == t.filter(p)[i];
                assert(!(s[k].project_uuid == s[s.len() - 1].project_uuid && s[k].user_uuid
                    == s[s.len() - 1].user_uuid));
            } else {
                lemma_role_filter_pairs(t, p, i, j);
            }
        } else {
            lemma_role_filter_pairs(t, p, i, j);
        }
    }
}

} // verus!
