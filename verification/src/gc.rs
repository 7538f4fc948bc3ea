use vstd::prelude::*;
use vstd::string::{StringExecFns, StrSliceExecFns};
use crate::models::user_refresh_token::UserRefreshToken;
use crate::num::{dec_val, is_digit, parse_dec, parse_u64};
use crate::retain::{retain_tokens_alive, token_alive};
use crate::store::{
    contains_u64, lemma_filter_elements, lemma_filter_member_src, lemma_filter_push, take_vec,
    us_has, Store,
};
use crate::text::{dataset_table_name, dataview_view_name, table_name_of, view_name_of};

verus! {

broadcast use vstd::seq_lib::group_filter_ensures;

/// The physical table names derived from a set of live dataset identifiers.
pub fn dataset_table_names(ids: &Vec<u64>) -> (r: Vec<String>)
    ensures
        r@.len() == ids@.len(),
        forall|i: int| 0 <= i < ids@.len() ==> (#[trigger] r@[i]@) == table_name_of(ids@[i] as nat),
{
    let mut out: Vec<String> = Vec::new();
    let mut i: usize = 0;
    while i < ids.len()
        invariant
            i <= ids@.len(),
            out@.len() == i,
            forall|j: int| 0 <= j < i ==> (#[trigger] out@[j]@) == table_name_of(ids@[j] as nat),
        decreases ids@.len() - i,
    {
        out.push(dataset_table_name(ids[i]));
        i = i + 1;
    }
    out
}

/// The physical view names derived from a set of live dataview identifiers.
pub fn dataview_view_names(ids: &Vec<u64>) -> (r: Vec<String>)
    ensures
        r@.len() == ids@.len(),
        forall|i: int| 0 <= i < ids@.len() ==> (#[trigger] r@[i]@) == view_name_of(ids@[i] as nat),
{
    let mut out: Vec<String> = Vec::new();
    let mut i: usize = 0;
    while i < ids.len()
        invariant
            i <= ids@.len(),
            out@.len() == i,
            forall|j: int| 0 <= j < i ==> (#[trigger] out@[j]@) == view_name_of(ids@[j] as nat),
        decreases ids@.len() - i,
    {
        out.push(dataview_view_name(ids[i]));
        i = i + 1;
    }
    out
}

/// Whether a physical name is derived from some live identifier.
pub open spec fn name_is_live(live: Seq<String>, name: Seq<char>) -> bool {
    exists|i: int| 0 <= i < live.len() && (#[trigger] live[i]@) == name
}

fn contains_name(live: &Vec<String>, name: &String) -> (r: bool)
    ensures
        r == name_is_live(live@, name@),
{
    let mut i: usize = 0;
    while i < live.len()
        invariant
            i <= live@.len(),
            forall|j: int| 0 <= j < i ==> (#[trigger] live@[j]@) != name@,
        decreases live@.len() - i,
    {
        if live[i] == *name {
            return true;
        }
        i = i + 1;
    }
    false
}

/// The first reconciliation decision of the collector: of the names actually
/// present in the physical store, exactly those not derived from any live
/// identifier are dropped; unmatched strays included.
pub fn names_to_drop(live: &Vec<String>, extant: Vec<String>) -> (r: Vec<String>)
    ensures
        r@.map_values(|s: String| s@) == extant@.map_values(|s: String| s@).filter(
            (|n: Seq<char>| !name_is_live(live@, n)),
        ),
{
    let ghost pred = (|n: Seq<char>| !name_is_live(live@, n));
    let ghost v0 = extant@.map_values(|s: String| s@);
    let mut src = extant;
    let mut out: Vec<String> = Vec::new();
    proof {
        assert(v0.subrange(0, 0) =~= Seq::<Seq<char>>::empty());
        assert(Seq::<Seq<char>>::empty().filter(pred) =~= Seq::<Seq<char>>::empty()) by {
            reveal(Seq::filter);
        }
        assert(src@.map_values(|s: String| s@) =~= v0.subrange(
            v0.len() - src@.len(),
            v0.len() as int,
        ));
    }
    while src.len() > 0
        invariant
            src@.len() <= v0.len(),
            pred == (|n: Seq<char>| !name_is_live(live@, n)),
            src@.map_values(|s: String| s@) =~= v0.subrange(v0.len() - src@.len(), v0.len() as int),
            out@.map_values(|s: String| s@) == v0.subrange(0, v0.len() - src@.len()).filter(pred),
        decreases src@.len(),
    {
        let ghost k = v0.len() - src@.len();
        let ghost src0 = src@;
        let x = src.remove(0);
        proof {
            assert(x == src0[0]);
            assert(src0.map_values(|s: String| s@)[0] == v0[k]);
            assert(x@ == v0[k]);
            assert(src@ =~= src0.subrange(1, src0.len() as int));
            assert forall|j: int|
                0 <= j < src@.len() implies src@.map_values(|s: String| s@)[j] == (#[trigger] v0.subrange(
                k + 1,
                v0.len() as int,
            )[j]) by {
                assert(src@[j] == src0[j + 1]);
                assert(src0.map_values(|s: String| s@)[j + 1] == v0[k + 1 + j]);
                assert(v0.subrange(k + 1, v0.len() as int)[j] == v0[k + 1 + j]);
            }
            assert(src@.map_values(|s: String| s@) =~= v0.subrange(k + 1, v0.len() as int));
        }
        let ghost out0 = out@;
        let keep = !contains_name(live, &x);
        proof {
            assert(keep == pred(x@));
            assert(v0.subrange(0, k + 1) =~= v0.subrange(0, k).push(v0[k]));
            lemma_filter_push(v0.subrange(0, k), pred, v0[k]);
        }
        if keep {
            out.push(x);
            proof {
                assert(out@.map_values(|s: String| s@) =~= out0.map_values(|s: String| s@).push(
                    v0[k],
                ));
            }
        }
    }
    proof {
        assert(v0.subrange(0, v0.len() as int) =~= v0);
    }
    out
}

/// Deletes every refresh token whose expiry has passed.
pub fn delete_expired_refresh_tokens(store: &mut Store, now: u64)
    requires
        old(store).wf(),
    ensures
        final(store).wf(),
        final(store).refresh_tokens@ == old(store).refresh_tokens@.filter(token_alive(now)),
        *final(store) == (Store { refresh_tokens: final(store).refresh_tokens, ..*old(store) }),
{
    let ghost s0 = *old(store);
    let tokens = take_vec(&mut store.refresh_tokens);
    store.refresh_tokens = retain_tokens_alive(tokens, now);
    proof {
        let s1 = *store;
        let pred = token_alive(now);
        assert forall|i: int, j: int|
            0 <= i < j < s1.refresh_tokens@.len() implies s1.refresh_tokens@[i].value@
            != s1.refresh_tokens@[j].value@ by {
            let a = lemma_filter_member_src(s0.refresh_tokens@, pred, i);
            let b = lemma_filter_member_src(s0.refresh_tokens@, pred, j);
            if a == b {
                lemma_alive_filter_values(s0.refresh_tokens@, pred, i, j);
            }
        }
        assert forall|i: int| 0 <= i < s1.refresh_tokens@.len() implies us_has(
            s1.users@,
            #[trigger] s1.refresh_tokens@[i].user_uuid,
        ) by {
            let a = lemma_filter_member_src(s0.refresh_tokens@, pred, i);
        }
        assert(s1.wf());
    }
}

proof fn lemma_alive_filter_values(
    s: Seq<UserRefreshToken>,
    p: spec_fn(UserRefreshToken) -> bool,
    i: int,
    j: int,
)
    requires
        forall|a: int, b: int| 0 <= a < b < s.len() ==> s[a].value@ != s[b].value@,
        0 <= i < j < s.filter(p).len(),
    ensures
        s.filter(p)[i].value@ != s.filter(p)[j].value@,
    decreases s.len(),
{
    reveal(Seq::filter);
    if s.len() > 0 {
        let t = s.drop_last();
        assert(forall|a: int, b: int| 0 <= a < b < t.len() ==> t[a].value@ != t[b].value@);
        if p(s.last()) && j == s.filter(p).len() - 1 {
            lemma_filter_elements(t, p);
            assert(s.filter(p)[i] == t.filter(p)[i]);
            assert(t.contains(t.filter(p)[i]));
            let k = choose|k: int| 0 <= k < t.len() && t[k] == t.filter(p)[i];
            assert(s[k].value@ != s[s.len() - 1].value@);
        } else {
            lemma_alive_filter_values(t, p, i, j);
        }
    }
}

/// The count of leading digit characters.
pub open spec fn digit_run(s: Seq<char>) -> int
    decreases s.len(),
{
    if s.len() == 0 || !is_digit(s[0]) {
        0
    } else {
        1 + digit_run(s.subrange(1, s.len() as int))
    }
}

proof fn lemma_digit_run_exact(s: Seq<char>, i: int)
    requires
        0 <= i <= s.len(),
        forall|j: int| 0 <= j < i ==> is_digit(#[trigger] s[j]),
        i < s.len() ==> !is_digit(s[i]),
    ensures
        digit_run(s) == i,
    decreases i,
{
    if i == 0 {
    } else {
        let t = s.subrange(1, s.len() as int);
        assert(is_digit(s[0]));
        assert forall|j: int| 0 <= j < i - 1 implies is_digit(#[trigger] t[j]) by {
            assert(t[j] == s[j + 1]);
        }
        if i - 1 < t.len() {
            assert(t[i - 1] == s[i]);
        }
        lemma_digit_run_exact(t, i - 1);
    }
}

/// The entity identifier embedded in a blob key of the fixed pattern: the
/// prefix, a slash, then the identifier's digits, then anything.
pub open spec fn blob_key_id(key: Seq<char>, prefix: Seq<char>) -> Option<nat> {
    if key.len() > prefix.len() && key.subrange(0, prefix.len() as int) == prefix && key[prefix.len() as int]
        == '/' {
        let rest = key.subrange(prefix.len() as int + 1, key.len() as int);
        let k = digit_run(rest);
        if k > 0 {
            Some(dec_val(rest.subrange(0, k)))
        } else {
            None
        }
    } else {
        None
    }
}

/// Extracts the entity identifier embedded in a blob key, if the key matches
/// the pattern and the identifier fits.
pub fn blob_key_entity(key: &str, prefix: &str) -> (r: Option<u64>)
    ensures
        (match r {
            Some(v) => blob_key_id(key@, prefix@) == Some(v as nat),
            None => blob_key_id(key@, prefix@) is None || (blob_key_id(key@, prefix@) matches Some(
                n,
            ) && n > u64::MAX),
        }),
{
    let klen = key.unicode_len();
    let plen = prefix.unicode_len();
    if klen <= plen {
        return None;
    }
    let mut i: usize = 0;
    while i < plen
        invariant
            i <= plen,
            plen == prefix@.len(),
            klen == key@.len(),
            klen > plen,
            forall|j: int| 0 <= j < i ==> key@[j] == prefix@[j],
        decreases plen - i,
    {
        if !(key.get_char(i) == prefix.get_char(i)) {
            proof {
                assert(key@.subrange(0, plen as int) != prefix@) by {
                    assert(key@.subrange(0, plen as int)[i as int] == key@[i as int]);
                }
            }
            return None;
        }
        i = i + 1;
    }
    proof {
        assert(key@.subrange(0, plen as int) =~= prefix@);
    }
    if !(key.get_char(plen) == '/') {
        return None;
    }
    let ghost rest = key@.subrange(plen + 1, klen as int);
    let mut k: usize = 0;
    let mut hit_non_digit = false;
    while !hit_non_digit && plen + 1 + k < klen
        invariant
            plen + 1 + k <= klen,
            plen == prefix@.len(),
            klen == key@.len(),
            klen > plen,
            rest == key@.subrange(plen + 1, klen as int),
            forall|j: int| 0 <= j < k ==> is_digit(#[trigger] rest[j]),
            hit_non_digit ==> (k < rest.len() && !is_digit(rest[k as int])),
        decreases klen - (plen + 1 + k) + (if hit_non_digit {
            0int
        } else {
            1int
        }),
    {
        let c = key.get_char(plen + 1 + k);
        proof {
            assert(rest[k as int] == key@[plen + 1 + k]);
        }
        if '0' <= c && c <= '9' {
            proof {
                assert(is_digit(rest[k as int]));
            }
            k = k + 1;
        } else {
            proof {
                assert(!is_digit(rest[k as int]));
            }
            hit_non_digit = true;
        }
    }
    proof {
        lemma_digit_run_exact(rest, k as int);
    }
    if k == 0 {
        return None;
    }
    let digits = key.substring_char(plen + 1, plen + 1 + k);
    proof {
        assert(digits@ =~= rest.subrange(0, k as int));
    }
    parse_u64(digits)
}

/// Whether a blob key names a dead entity: it matches the pattern and its
/// embedded identifier is not among the live ones.
pub open spec fn blob_dead(live: Seq<u64>, prefix: Seq<char>, key: Seq<char>) -> bool {
    match blob_key_id(key, prefix) {
        Some(n) => n <= u64::MAX && !live.contains(n as u64),
        None => false,
    }
}

/// The blob-store reconciliation decision: of the listed object keys, delete
/// exactly those whose embedded identifier is dead; keys that do not match
/// the pattern are never touched.
pub fn objects_to_delete(live: &Vec<u64>, keys: Vec<String>, prefix: &str) -> (r: Vec<String>)
    ensures
        r@.map_values(|s: String| s@) == keys@.map_values(|s: String| s@).filter(
            (|n: Seq<char>| blob_dead(live@, prefix@, n)),
        ),
{
    let ghost pred = (|n: Seq<char>| blob_dead(live@, prefix@, n));
    let ghost v0 = keys@.map_values(|s: String| s@);
    let mut src = keys;
    let mut out: Vec<String> = Vec::new();
    proof {
        assert(v0.subrange(0, 0) =~= Seq::<Seq<char>>::empty());
        assert(Seq::<Seq<char>>::empty().filter(pred) =~= Seq::<Seq<char>>::empty()) by {
            reveal(Seq::filter);
        }
        assert(src@.map_values(|s: String| s@) =~= v0.subrange(
            v0.len() - src@.len(),
            v0.len() as int,
        ));
    }
    while src.len() > 0
        invariant
            src@.len() <= v0.len(),
            pred == (|n: Seq<char>| blob_dead(live@, prefix@, n)),
            src@.map_values(|s: String| s@) =~= v0.subrange(v0.len() - src@.len(), v0.len() as int),
            out@.map_values(|s: String| s@) == v0.subrange(0, v0.len() - src@.len()).filter(pred),
        decreases src@.len(),
    {
        let ghost k = v0.len() - src@.len();
        let ghost src0 = src@;
        let x = src.remove(0);
        proof {
            assert(x == src0[0]);
            assert(src0.map_values(|s: String| s@)[0] == v0[k]);
            assert(x@ == v0[k]);
            assert(src@ =~= src0.subrange(1, src0.len() as int));
            assert forall|j: int|
                0 <= j < src@.len() implies src@.map_values(|s: String| s@)[j] == (#[trigger] v0.subrange(
                k + 1,
                v0.len() as int,
            )[j]) by {
                assert(src@[j] == src0[j + 1]);
                assert(src0.map_values(|s: String| s@)[j + 1] == v0[k + 1 + j]);
                assert(v0.subrange(k + 1, v0.len() as int)[j] == v0[k + 1 + j]);
            }
            assert(src@.map_values(|s: String| s@) =~= v0.subrange(k + 1, v0.len() as int));
        }
        let ghost out0 = out@;
        let dead = match blob_key_entity(x.as_str(), prefix) {
            Some(id) => !contains_u64(live, id),
            None => false,
        };
        proof {
            assert(dead == pred(x@));
            assert(v0.subrange(0, k + 1) =~= v0.subrange(0, k).push(v0[k]));
            lemma_filter_push(v0.subrange(0, k), pred, v0[k]);
        }
        if dead {
            out.push(x);
            proof {
                assert(out@.map_values(|s: String| s@) =~= out0.map_values(|s: String| s@).push(
                    v0[k],
                ));
            }
        }
    }
    proof {
        assert(v0.subrange(0, v0.len() as int) =~= v0);
    }
    out
}

/// The survivors of one filter all satisfy its predicate, so filtering them
/// by the complement removes nothing more.
pub proof fn lemma_filter_complement_empty<T>(s: Seq<T>, p: spec_fn(T) -> bool)
    ensures
        s.filter(p).filter((|x: T| !p(x))).len() == 0,
{
    let f2 = s.filter(p).filter((|x: T| !p(x)));
    if f2.len() > 0 {
        assert((|x: T| !p(x))(f2[0]));
        lemma_filter_elements(s.filter(p), (|x: T| !p(x)));
        assert(s.filter(p).contains(f2[0]));
        let k = choose|k: int| 0 <= k < s.filter(p).len() && s.filter(p)[k] == f2[0];
        assert(p(s.filter(p)[k]));
    }
}

/// Garbage-collection idempotence, physical names: after one run has dropped
/// every orphaned name, a second run over the remaining names drops nothing.
pub proof fn lemma_gc_names_idempotent(live: Seq<String>, extant: Seq<Seq<char>>)
    ensures
        extant.filter((|n: Seq<char>| name_is_live(live, n))).filter(
            (|n: Seq<char>| !name_is_live(live, n)),
        ).len() == 0,
{
    lemma_filter_complement_empty(extant, (|n: Seq<char>| name_is_live(live, n)));
    assert(extant.filter((|n: Seq<char>| name_is_live(live, n))) == extant.filter(
        (|n: Seq<char>| !(|n2: Seq<char>| !name_is_live(live, n2))(n)),
    )) by {
        crate::store::lemma_filter_ext(
            extant,
            (|n: Seq<char>| name_is_live(live, n)),
            (|n: Seq<char>| !(|n2: Seq<char>| !name_is_live(live, n2))(n)),
        );
    }
    let keep = (|n: Seq<char>| name_is_live(live, n));
    let f2 = extant.filter(keep).filter((|n: Seq<char>| !name_is_live(live, n)));
    if f2.len() > 0 {
        assert(!name_is_live(live, f2[0]));
        lemma_filter_elements(extant.filter(keep), (|n: Seq<char>| !name_is_live(live, n)));
        assert(extant.filter(keep).contains(f2[0]));
        let k = choose|k: int|
            0 <= k < extant.filter(keep).len() && extant.filter(keep)[k] == f2[0];
        assert(keep(extant.filter(keep)[k]));
    }
}

/// The physical names that one collector run leaves standing.
pub open spec fn surviving_names(live: Seq<String>, extant: Seq<Seq<char>>) -> Seq<Seq<char>> {
    extant.filter((|n: Seq<char>| name_is_live(live, n)))
}

/// Garbage-collection completeness, physical names: after one run, every
/// remaining physical name is derived from a live identifier.
pub proof fn lemma_gc_names_complete(live: Seq<String>, extant: Seq<Seq<char>>)
    ensures
        forall|i: int|
            0 <= i < surviving_names(live, extant).len() ==> name_is_live(
                live,
                #[trigger] surviving_names(live, extant)[i],
            ),
{
    broadcast use vstd::seq_lib::group_filter_ensures;

    let keep = (|n: Seq<char>| name_is_live(live, n));
    assert forall|i: int| 0 <= i < surviving_names(live, extant).len() implies name_is_live(
        live,
        #[trigger] surviving_names(live, extant)[i],
    ) by {
        assert(keep(extant.filter(keep)[i]));
    }
}

/// Filtering is stable: a second pass with the same survivor predicate keeps
/// everything the first pass kept. With `token_alive`, this is the
/// idempotence of the expired-token sweep.
pub proof fn lemma_filter_stable<T>(s: Seq<T>, p: spec_fn(T) -> bool)
    ensures
        s.filter(p).filter(p) == s.filter(p),
    decreases s.len(),
{
    reveal(Seq::filter);
    if s.len() > 0 {
        lemma_filter_stable(s.drop_last(), p);
        if p(s.last()) {
            assert(s.filter(p).drop_last() =~= s.drop_last().filter(p));
            assert(s.filter(p).filter(p) =~= s.filter(p));
        }
    }
}

} // verus!
