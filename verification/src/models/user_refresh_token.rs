use vstd::prelude::*;
use crate::codec::{encode, token_of, EntityKind};
use crate::error::Error;
use crate::store::{lemma_filter_push, take_vec, tok_has, tok_idx, us_has, us_idx, Store};

verus! {

/// A refresh token held by a user: an opaque value with an expiry, reclaimed
/// by the garbage collector once expired.
#[derive(Debug, Clone, PartialEq, Eq)]
pub struct UserRefreshToken {
    pub expires_at: u64,
    pub user_uuid: u64,
    pub value: String,
}

impl UserRefreshToken {
    /// An exact copy, field for field.
    pub fn duplicate(&self) -> (r: Self)
        ensures
            r == *self,
    {
        UserRefreshToken {
            expires_at: self.expires_at,
            user_uuid: self.user_uuid,
            value: self.value.clone(),
        }
    }

    /// The identity token addressing this refresh token: its opaque value is
    /// the sole key.
    pub fn id(&self) -> (r: String)
        ensures
            r@ == token_of(EntityKind::UserRefreshToken, seq![self.value@]),
            crate::codec::valid_key(self.value@) ==> crate::codec::spec_token_first_key(r@)
                == Some(self.value@),
    {
        let mut keys: Vec<String> = Vec::new();
        keys.push(self.value.clone());
        let t = encode(EntityKind::UserRefreshToken, &keys);
        proof {
            let kseq = seq![self.value@];
            assert(keys@.map_values(|k: String| k@) =~= kseq);
            if crate::codec::valid_key(self.value@) {
                assert forall|i: int| 0 <= i < kseq.len() implies crate::codec::valid_key(
                    #[trigger] kseq[i],
                ) by {
                    assert(kseq[i] == self.value@);
                }
                crate::codec::lemma_token_first_key(EntityKind::UserRefreshToken, kseq, t@);
            }
        }
        t
    }
}


/// The survivor predicate used by `UserRefreshToken::delete`.
pub open spec fn token_not_value(value: Seq<char>) -> spec_fn(UserRefreshToken) -> bool {
    |t: UserRefreshToken| t.value@ != value
}

impl UserRefreshToken {
    /// Stores a refresh token for a user; token values are unique.
    pub fn create(store: &mut Store, user_uuid: u64, value: &String, expires_at: u64) -> (r: Result<
        UserRefreshToken,
        Error,
    >)
        requires
            old(store).wf(),
        ensures
            final(store).wf(),
            (match r {
                Ok(t) => {
                    &&& us_has(old(store).users@, user_uuid)
                    &&& !tok_has(old(store).refresh_tokens@, value@)
                    &&& t.user_uuid == user_uuid
                    &&& t.value@ == value@
                    &&& t.expires_at == expires_at
                    &&& final(store).refresh_tokens@ == old(store).refresh_tokens@.push(t)
                    &&& *final(store) == (Store {
                        refresh_tokens: final(store).refresh_tokens,
                        ..*old(store)
                    })
                },
                Err(e) => {
                    &&& *final(store) == *old(store)
                    &&& (if e == Error::NotFound {
                        !us_has(old(store).users@, user_uuid)
                    } else {
                        e == Error::InvariantViolation && tok_has(
                            old(store).refresh_tokens@,
                            value@,
                        )
                    })
                },
            }),
    {
        if store.user_index(user_uuid).is_none() {
            return Err(Error::NotFound);
        }
        if store.token_index(value).is_some() {
            proof {
                assert(tok_has(store.refresh_tokens@, value@));
            }
            return Err(Error::InvariantViolation);
        }
        let row = UserRefreshToken { expires_at, user_uuid, value: value.clone() };
        let result = row.duplicate();
        store.refresh_tokens.push(row);
        proof {
            let s0 = *old(store);
            let s1 = *store;
            assert(s1.refresh_tokens@ == s0.refresh_tokens@.push(result));
            assert forall|i: int, j: int|
                0 <= i < j < s1.refresh_tokens@.len() implies s1.refresh_tokens@[i].value@
                != s1.refresh_tokens@[j].value@ by {
                if j == s1.refresh_tokens@.len() - 1 {
                    assert(s1.refresh_tokens@[i] == s0.refresh_tokens@[i]);
                }
            }
            assert forall|i: int| 0 <= i < s1.refresh_tokens@.len() implies us_has(
                s1.users@,
                #[trigger] s1.refresh_tokens@[i].user_uuid,
            ) by {
                if i < s1.refresh_tokens@.len() - 1 {
                    assert(s1.refresh_tokens@[i] == s0.refresh_tokens@[i]);
                }
            }
            assert(s1.wf());
        }
        Ok(result)
    }

    /// Reads a refresh token by its opaque value.
    pub fn get(store: &Store, value: &String) -> (r: Result<UserRefreshToken, Error>)
        requires
            store.wf(),
        ensures
            (match r {
                Ok(t) => tok_has(store.refresh_tokens@, value@) && t
                    == store.refresh_tokens@[tok_idx(store.refresh_tokens@, value@)],
                Err(e) => e == Error::NotFound && !tok_has(store.refresh_tokens@, value@),
            }),
    {
        match store.token_index(value) {
            Some(i) => {
                proof {
                    assert(tok_has(store.refresh_tokens@, value@));
                    let k = tok_idx(store.refresh_tokens@, value@);
                    assert(store.refresh_tokens@[k].value@ == value@);
                    assert(k == i as int);
                }
                Ok(store.refresh_tokens[i].duplicate())
            },
            None => Err(Error::NotFound),
        }
    }

    /// Deletes a refresh token by its opaque value.
    pub fn delete(store: &mut Store, value: &String) -> (r: Result<(), Error>)
        requires
            old(store).wf(),
        ensures
            final(store).wf(),
            (match r {
                Ok(u) => {
                    &&& tok_has(old(store).refresh_tokens@, value@)
                    &&& final(store).refresh_tokens@ == old(store).refresh_tokens@.filter(
                        token_not_value(value@),
                    )
                    &&& *final(store) == (Store {
                        refresh_tokens: final(store).refresh_tokens,
                        ..*old(store)
                    })
                },
                Err(e) => {
                    &&& e == Error::NotFound
                    &&& !tok_has(old(store).refresh_tokens@, value@)
                    &&& *final(store) == *old(store)
                },
            }),
    {
        if store.token_index(value).is_none() {
            return Err(Error::NotFound);
        }
        let ghost s0 = *old(store);
        let ghost pred = token_not_value(value@);
        let tokens = take_vec(&mut store.refresh_tokens);
        let ghost v0 = tokens@;
        let mut src = tokens;
        let mut out: Vec<UserRefreshToken> = Vec::new();
        proof {
            assert(v0.subrange(0, 0) =~= Seq::<UserRefreshToken>::empty());
            assert(Seq::<UserRefreshToken>::empty().filter(pred)
                =~= Seq::<UserRefreshToken>::empty()) by {
                reveal(Seq::filter);
            }
            assert(src@ =~= v0.subrange(v0.len() - src@.len(), v0.len() as int));
        }
        while src.len() > 0
            invariant
                src@.len() <= v0.len(),
                pred == token_not_value(value@),
                src@ =~= v0.subrange(v0.len() - src@.len(), v0.len() as int),
                out@ == v0.subrange(0, v0.len() - src@.len()).filter(pred),
            decreases src@.len(),
        {
            let ghost k = v0.len() - src@.len();
            let x = src.remove(0);
            proof {
                assert(x == v0[k]);
                assert(src@ =~= v0.subrange(k + 1, v0.len() as int));
            }
            let keep = !(x.value == *value);
            proof {
                assert(keep == pred(x));
                assert(v0.subrange(0, k + 1) =~= v0.subrange(0, k).push(v0[k]));
                lemma_filter_push(v0.subrange(0, k), pred, v0[k]);
            }
            if keep {
                out.push(x);
            }
        }
        proof {
            assert(v0.subrange(0, v0.len() as int) =~= v0);
        }
        store.refresh_tokens = out;
        proof {
            broadcast use vstd::seq_lib::group_filter_ensures;

            let s1 = *store;
            assert(s1.refresh_tokens@ == s0.refresh_tokens@.filter(pred));
            assert forall|i: int, j: int|
                0 <= i < j < s1.refresh_tokens@.len() implies s1.refresh_tokens@[i].value@
                != s1.refresh_tokens@[j].value@ by {
                let a = crate::store::lemma_filter_member_src(s0.refresh_tokens@, pred, i);
                let b = crate::store::lemma_filter_member_src(s0.refresh_tokens@, pred, j);
                assert(s1.refresh_tokens@[i] == s0.refresh_tokens@[a]);
                assert(s1.refresh_tokens@[j] == s0.refresh_tokens@[b]);
                if a == b {
                    lemma_filter_distinct_tokens(s0.refresh_tokens@, pred, i, j);
                }
            }
            assert forall|i: int| 0 <= i < s1.refresh_tokens@.len() implies us_has(
                s1.users@,
                #[trigger] s1.refresh_tokens@[i].user_uuid,
            ) by {
                let a = crate::store::lemma_filter_member_src(s0.refresh_tokens@, pred, i);
            }
            assert(s1.wf());
        }
        Ok(())
    }
}

/// Value-distinctness carried through a filter, spelled out for token rows.
proof fn lemma_filter_distinct_tokens(
    s: Seq<UserRefreshToken>,
    p: spec_fn(UserRefreshToken) -> bool,
    i: int,
    j: int,
)
    requires
        forall|a: int, b: int| 0 <= a < b < s.len() ==> s[a].value@ != s[b].value@,
        0 <= i < j < s.filter(p).len(),
    ensures
        s.filter(p)[i].value@ != s.filter(p)[j].value@,
    decreases s.len(),
{
    reveal(Seq::filter);
    if s.len() > 0 {
        let t = s.drop_last();
        assert(forall|a: int, b: int| 0 <= a < b < t.len() ==> t[a].value@ != t[b].value@);
        if p(s.last()) {
            if j == s.filter(p).len() - 1 {
                crate::store::lemma_filter_elements(t, p);
                assert(s.filter(p)[i] == t.filter(p)[i]);
                assert(t.contains(t.filter(p)[i]));
                let k = choose|k: int| 0 <= k < t.len() && t[k] == t.filter(p)[i];
                assert(s[k].value@ != s[s.len() - 1].value@);
            } else {
                lemma_filter_distinct_tokens(t, p, i, j);
            }
        } else {
            lemma_filter_distinct_tokens(t, p, i, j);
        }
    }
}

} // verus!
