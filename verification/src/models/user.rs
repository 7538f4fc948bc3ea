use vstd::prelude::*;
use vstd::string::StringExecFns;
use crate::codec::{encode, token_of, EntityKind};
use crate::error::Error;
use crate::num::dec_digits;
use crate::store::{us_has, us_idx, Store};
use crate::text::dec_string;

verus! {

/// A registered user of the system.
#[derive(Debug, Clone, PartialEq, Eq)]
pub struct User {
    pub created_at: u64,
    pub updated_at: u64,
    pub uuid: u64,
    pub display_name: String,
    pub name: String,
    pub email: String,
}

impl User {
    /// An exact copy, field for field.
    pub fn duplicate(&self) -> (r: Self)
        ensures
            r == *self,
    {
        User {
            created_at: self.created_at,
            updated_at: self.updated_at,
            uuid: self.uuid,
            display_name: self.display_name.clone(),
            name: self.name.clone(),
            email: self.email.clone(),
        }
    }

    /// The identity token addressing this user.
    pub fn id(&self) -> (r: String)
        ensures
            r@ == token_of(EntityKind::User, seq![dec_digits(self.uuid as nat)]),
            crate::codec::spec_token_first_id(r@) == Some(self.uuid),
    {
        let mut keys: Vec<String> = Vec::new();
        keys.push(dec_string(self.uuid));
        let t = encode(EntityKind::User, &keys);
        proof {
            assert(keys@.map_values(|k: String| k@) =~= seq![dec_digits(self.uuid as nat)]);
            crate::codec::lemma_decimal_key_well_typed(EntityKind::User, self.uuid);
            let kseq = seq![dec_digits(self.uuid as nat)];
            assert forall|i: int| 0 <= i < kseq.len() implies crate::codec::valid_key(
                #[trigger] kseq[i],
            ) by {
                assert(kseq[i] == dec_digits(self.uuid as nat));
            }
            crate::codec::lemma_token_first_id(EntityKind::User, kseq, self.uuid, t@);
        }
        t
    }
}

impl User {
    /// Registers a user; electronic-mail addresses are unique, so an address
    /// already on file is rejected.
    pub fn create(store: &mut Store, display_name: &str, name: &str, email: &str) -> (r: Result<
        User,
        Error,
    >)
        requires
            old(store).wf(),
            old(store).next_id < u64::MAX,
        ensures
            final(store).wf(),
            (match r {
                Ok(u) => {
                    &&& (forall|j: int|
                        0 <= j < old(store).users@.len() ==> (#[trigger] old(
                            store,
                        ).users@[j].email@) != email@)
                    &&& u.uuid == old(store).next_id
                    &&& u.display_name@ == display_name@
                    &&& u.name@ == name@
                    &&& u.email@ == email@
                    &&& u.created_at == old(store).clock
                    &&& u.updated_at == old(store).clock
                    &&& final(store).users@ == old(store).users@.push(u)
                    &&& final(store).next_id == old(store).next_id + 1
                    &&& *final(store) == (Store {
                        users: final(store).users,
                        next_id: final(store).next_id,
                        ..*old(store)
                    })
                },
                Err(e) => {
                    &&& e == Error::InvariantViolation
                    &&& (exists|j: int|
                        0 <= j < old(store).users@.len() && (#[trigger] old(
                            store,
                        ).users@[j].email@) == email@)
                    &&& *final(store) == *old(store)
                },
            }),
    {
        let probe = email.to_owned();
        if store.user_index_by_email(&probe).is_some() {
            return Err(Error::InvariantViolation);
        }
        let uuid = store.next_id;
        store.next_id = store.next_id + 1;
        let row = User {
            created_at: store.clock,
            updated_at: store.clock,
            uuid,
            display_name: display_name.to_owned(),
            name: name.to_owned(),
            email: email.to_owned(),
        };
        let result = row.duplicate();
        store.users.push(row);
        proof {
            let s0 = *old(store);
            let s1 = *store;
            assert(s1.users@ == s0.users@.push(result));
            assert forall|i: int, j: int|
                0 <= i < j < s1.users@.len() implies s1.users@[i].uuid != s1.users@[j].uuid by {
                if j == s1.users@.len() - 1 {
                    assert(s1.users@[i] == s0.users@[i]);
                }
            }
            assert forall|i: int, j: int|
                0 <= i < j < s1.users@.len() implies s1.users@[i].email@
                != s1.users@[j].email@ by {
                if j == s1.users@.len() - 1 {
                    assert(s1.users@[i] == s0.users@[i]);
                }
            }
            assert forall|i: int| 0 <= i < s1.roles@.len() implies us_has(
                s1.users@,
                #[trigger] s1.roles@[i].user_uuid,
            ) by {
                let k = us_idx(s0.users@, s0.roles@[i].user_uuid);
                assert(s1.users@[k].uuid == s0.roles@[i].user_uuid);
            }
            assert forall|i: int| 0 <= i < s1.refresh_tokens@.len() implies us_has(
                s1.users@,
                #[trigger] s1.refresh_tokens@[i].user_uuid,
            ) by {
                let k = us_idx(s0.users@, s0.refresh_tokens@[i].user_uuid);
                assert(s1.users@[k].uuid == s0.refresh_tokens@[i].user_uuid);
            }
            assert(s1.wf());
        }
        Ok(result)
    }

    /// Reads a user by identifier.
    pub fn get(store: &Store, uuid: u64) -> (r: Result<User, Error>)
        requires
            store.wf(),
        ensures
            (match r {
                Ok(u) => us_has(store.users@, uuid) && u == store.users@[us_idx(
                    store.users@,
                    uuid,
                )],
                Err(e) => e == Error::NotFound && !us_has(store.users@, uuid),
            }),
    {
        match store.user_index(uuid) {
            Some(i) => {
                proof {
                    assert(us_has(store.users@, uuid));
                    let k = us_idx(store.users@, uuid);
                    assert(store.users@[k].uuid == uuid);
                    assert(k == i as int);
                }
                Ok(store.users[i].duplicate())
            },
            None => Err(Error::NotFound),
        }
    }

    /// Reads a user by electronic-mail address.
    pub fn get_by_email(store: &Store, email: &String) -> (r: Result<User, Error>)
        requires
            store.wf(),
        ensures
            (match r {
                Ok(u) => u.email@ == email@ && store.users@.contains(u),
                Err(e) => e == Error::NotFound && (forall|j: int|
                    0 <= j < store.users@.len() ==> (#[trigger] store.users@[j].email@) != email@),
            }),
    {
        match store.user_index_by_email(email) {
            Some(i) => {
                let u = store.users[i].duplicate();
                proof {
                    assert(store.users@[i as int] == u);
                }
                Ok(u)
            },
            None => Err(Error::NotFound),
        }
    }

    /// Renames a user, stamping the update time.
    pub fn rename(store: &mut Store, uuid: u64, name: &str) -> (r: Result<User, Error>)
        requires
            old(store).wf(),
        ensures
            final(store).wf(),
            (match r {
                Ok(u) => {
                    &&& us_has(old(store).users@, uuid)
                    &&& u.uuid == uuid
                    &&& u.name@ == name@
                    &&& ({
                        let i = us_idx(old(store).users@, uuid);
                        &&& u.email@ == old(store).users@[i].email@
                        &&& u.display_name@ == old(store).users@[i].display_name@
                        &&& u.updated_at == old(store).clock
                        &&& final(store).users@ == old(store).users@.update(i, u)
                    })
                    &&& *final(store) == (Store {
                        users: final(store).users,
                        ..*old(store)
                    })
                },
                Err(e) => {
                    &&& e == Error::NotFound
                    &&& !us_has(old(store).users@, uuid)
                    &&& *final(store) == *old(store)
                },
            }),
    {
        let i = match store.user_index(uuid) {
            Some(i) => i,
            None => {
                return Err(Error::NotFound);
            },
        };
        proof {
            assert(us_has(store.users@, uuid));
            let k = us_idx(store.users@, uuid);
            assert(store.users@[k].uuid == uuid);
            assert(k == i as int);
        }
        let clock = store.clock;
        store.users[i].name = name.to_owned();
        store.users[i].updated_at = clock;
        let u = store.users[i].duplicate();
        proof {
            let s0 = *old(store);
            let s1 = *store;
            assert(s1.users@ =~= s0.users@.update(i as int, u));
            assert forall|a: int, b: int|
                0 <= a < b < s1.users@.len() implies s1.users@[a].email@
                != s1.users@[b].email@ by {
                assert(s1.users@[a].email@ == s0.users@[a].email@);
                assert(s1.users@[b].email@ == s0.users@[b].email@);
            }
            assert forall|a: int| 0 <= a < s1.roles@.len() implies us_has(
                s1.users@,
                #[trigger] s1.roles@[a].user_uuid,
            ) by {
                let k = us_idx(s0.users@, s0.roles@[a].user_uuid);
                assert(s1.users@[k].uuid == s0.roles@[a].user_uuid);
            }
            assert forall|a: int| 0 <= a < s1.refresh_tokens@.len() implies us_has(
                s1.users@,
                #[trigger] s1.refresh_tokens@[a].user_uuid,
            ) by {
                let k = us_idx(s0.users@, s0.refresh_tokens@[a].user_uuid);
                assert(s1.users@[k].uuid == s0.refresh_tokens@[a].user_uuid);
            }
            assert(s1.wf());
        }
        Ok(u)
    }
}

} // verus!
