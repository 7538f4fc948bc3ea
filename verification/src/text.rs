use vstd::prelude::*;
use vstd::string::StringExecFns;
use crate::num::{dec_digits, dec_string_bytes};

verus! {

/// The delimiter between the entity-kind name and the key components of an
/// identity token, before the base64 transformation.
pub const SEP: u8 = 58;

/// Bytes read as characters, one for one; meaningful for ASCII data.
pub open spec fn chars_of(bs: Seq<u8>) -> Seq<char> {
    bs.map_values(|b: u8| b as char)
}

pub open spec fn sep_free(bs: Seq<u8>) -> bool {
    forall|i: int| 0 <= i < bs.len() ==> #[trigger] bs[i] != SEP
}

/// The index of the first delimiter byte, or the length when there is none.
pub open spec fn first_sep(bs: Seq<u8>) -> int
    decreases bs.len(),
{
    if bs.len() == 0 {
        0
    } else if bs[0] == SEP {
        0
    } else {
        1 + first_sep(bs.subrange(1, bs.len() as int))
    }
}

pub proof fn lemma_first_sep(bs: Seq<u8>)
    ensures
        0 <= first_sep(bs) <= bs.len(),
        first_sep(bs) < bs.len() ==> bs[first_sep(bs)] == SEP,
        forall|j: int| 0 <= j < first_sep(bs) ==> #[trigger] bs[j] != SEP,
        (exists|i: int| 0 <= i < bs.len() && #[trigger] bs[i] == SEP) ==> first_sep(bs) < bs.len(),
    decreases bs.len(),
{
    if bs.len() == 0 {
    } else if bs[0] == SEP {
    } else {
        let t = bs.subrange(1, bs.len() as int);
        lemma_first_sep(t);
        assert forall|j: int| 0 <= j < first_sep(bs) implies #[trigger] bs[j] != SEP by {
            if j > 0 {
                assert(bs[j] == t[j - 1]);
            }
        }
        if exists|i: int| 0 <= i < bs.len() && #[trigger] bs[i] == SEP {
            let i = choose|i: int| 0 <= i < bs.len() && #[trigger] bs[i] == SEP;
            assert(t[i - 1] == SEP);
        }
    }
}

/// The fields of `bs`, split on the delimiter: always at least one field, and
/// one more field than there are delimiter bytes.
pub open spec fn split_fields(bs: Seq<u8>) -> Seq<Seq<u8>>
    decreases bs.len(),
    via split_fields_dec
{
    if exists|i: int| 0 <= i < bs.len() && #[trigger] bs[i] == SEP {
        let i = first_sep(bs);
        seq![bs.subrange(0, i)] + split_fields(bs.subrange(i + 1, bs.len() as int))
    } else {
        seq![bs]
    }
}

#[via_fn]
proof fn split_fields_dec(bs: Seq<u8>) {
    if exists|i: int| 0 <= i < bs.len() && #[trigger] bs[i] == SEP {
        lemma_first_sep(bs);
    }
}

/// Fields joined back together with the delimiter between them.
pub open spec fn join_fields(parts: Seq<Seq<u8>>) -> Seq<u8>
    decreases parts.len(),
{
    if parts.len() == 0 {
        Seq::<u8>::empty()
    } else if parts.len() == 1 {
        parts[0]
    } else {
        parts[0] + seq![SEP] + join_fields(parts.subrange(1, parts.len() as int))
    }
}

proof fn lemma_first_sep_concat(p: Seq<u8>, t: Seq<u8>)
    requires
        sep_free(p),
    ensures
        first_sep(p + seq![SEP] + t) == p.len(),
    decreases p.len(),
{
    let bs = p + seq![SEP] + t;
    if p.len() == 0 {
        assert(bs[0] == SEP);
    } else {
        assert(bs[0] == p[0]);
        assert(bs.subrange(1, bs.len() as int) =~= p.subrange(1, p.len() as int) + seq![SEP] + t);
        assert(sep_free(p.subrange(1, p.len() as int)));
        lemma_first_sep_concat(p.subrange(1, p.len() as int), t);
    }
}

pub proof fn lemma_split_sep_free(p: Seq<u8>)
    requires
        sep_free(p),
    ensures
        split_fields(p) == seq![p],
{
    assert(forall|i: int| 0 <= i < p.len() ==> #[trigger] p[i] != SEP);
}

/// Splitting a delimiter-free field followed by a delimiter peels off exactly
/// that field.
pub proof fn lemma_split_concat(p: Seq<u8>, t: Seq<u8>)
    requires
        sep_free(p),
    ensures
        split_fields(p + seq![SEP] + t) == seq![p] + split_fields(t),
{
    let bs = p + seq![SEP] + t;
    assert(bs[p.len() as int] == SEP);
    lemma_first_sep_concat(p, t);
    assert(bs.subrange(0, p.len() as int) =~= p);
    assert(bs.subrange(p.len() as int + 1, bs.len() as int) =~= t);
}

/// Splitting inverts joining, as long as every field is delimiter-free.
pub proof fn lemma_split_of_join(parts: Seq<Seq<u8>>)
    requires
        parts.len() >= 1,
        forall|i: int| 0 <= i < parts.len() ==> sep_free(#[trigger] parts[i]),
    ensures
        split_fields(join_fields(parts)) == parts,
    decreases parts.len(),
{
    if parts.len() == 1 {
        lemma_split_sep_free(parts[0]);
        assert(seq![parts[0]] =~= parts);
    } else {
        let rest = parts.subrange(1, parts.len() as int);
        lemma_split_concat(parts[0], join_fields(rest));
        lemma_split_of_join(rest);
        assert(seq![parts[0]] + rest =~= parts);
    }
}

/// Appending one more field on the right of a join.
pub proof fn lemma_join_push(parts: Seq<Seq<u8>>, p: Seq<u8>)
    requires
        parts.len() >= 1,
    ensures
        join_fields(parts.push(p)) == join_fields(parts) + seq![SEP] + p,
    decreases parts.len(),
{
    let w = parts.push(p);
    if parts.len() == 1 {
        assert(w.subrange(1, w.len() as int) =~= seq![p]);
        assert(w[0] == parts[0]);
        assert(join_fields(seq![p]) == p);
        assert(join_fields(w) == parts[0] + seq![SEP] + p);
    } else {
        let rest = parts.subrange(1, parts.len() as int);
        assert(w.subrange(1, w.len() as int) =~= rest.push(p));
        lemma_join_push(rest, p);
        assert(join_fields(w) == w[0] + seq![SEP] + (join_fields(rest) + seq![SEP] + p));
        assert(parts[0] + seq![SEP] + (join_fields(rest) + seq![SEP] + p) =~= (parts[0] + seq![SEP]
            + join_fields(rest)) + seq![SEP] + p);
    }
}

/// Relies on `String::from_utf8`: valid UTF-8 bytes decode to the string whose
/// encoding they are, and bytes under 0x80 decode one byte per character.
#[verifier::external_body]
pub fn utf8_to_string(v: Vec<u8>) -> (r: Option<String>)
    ensures
        r matches Some(s) ==> vstd::utf8::encode_utf8(s@) == v@,
        r is None ==> !vstd::utf8::valid_utf8(v@),
        r is Some || exists|i: int| 0 <= i < v@.len() && #[trigger] v@[i] >= 128,
        r matches Some(s) ==> ((forall|i: int| 0 <= i < v@.len() ==> #[trigger] v@[i] < 128)
            ==> s@ == chars_of(v@)),
{
    String::from_utf8(v).ok()
}

/// Formats `n` in decimal.
pub fn dec_string(n: u64) -> (r: String)
    ensures
        r@ == dec_digits(n as nat),
{
    let bytes = dec_string_bytes(n);
    match utf8_to_string(bytes) {
        Some(s) => s,
        None => {
            proof {
                assert(false);
            }
            String::new()
        },
    }
}

/// The bytes of `dst` with those of `src` appended.
pub fn append_bytes(dst: Vec<u8>, src: &Vec<u8>) -> (r: Vec<u8>)
    ensures
        r@ == dst@ + src@,
{
    let mut d = dst;
    let ghost d0 = d@;
    let mut i: usize = 0;
    while i < src.len()
        invariant
            i <= src@.len(),
            d@ == d0 + src@.subrange(0, i as int),
        decreases src@.len() - i,
    {
        d.push(src[i]);
        proof {
            assert(d0 + src@.subrange(0, i as int + 1) =~= (d0 + src@.subrange(
                0,
                i as int,
            )).push(src@[i as int]));
        }
        i = i + 1;
    }
    proof {
        assert(src@.subrange(0, src@.len() as int) =~= src@);
    }
    d
}

/// A fresh copy of the given bytes.
pub fn copy_bytes(src: &Vec<u8>) -> (r: Vec<u8>)
    ensures
        r@ == src@,
{
    let out = append_bytes(Vec::new(), src);
    proof {
        assert(Seq::<u8>::empty() + src@ =~= src@);
    }
    out
}

/// Joins the given fields with the delimiter: the first field, then each
/// further field preceded by one delimiter byte.
pub fn join_with_sep(first: &Vec<u8>, rest: &Vec<Vec<u8>>) -> (r: Vec<u8>)
    ensures
        r@ == join_fields(seq![first@] + rest@.map_values(|v: Vec<u8>| v@)),
{
    let mut out: Vec<u8> = Vec::new();
    out = append_bytes(out, first);
    proof {
        assert(out@ =~= first@);
        assert(join_fields(seq![first@]) == first@);
        assert((seq![first@] + rest@.map_values(|v: Vec<u8>| v@).subrange(0, 0)) =~= seq![first@]);
    }
    let mut k: usize = 0;
    while k < rest.len()
        invariant
            k <= rest@.len(),
            out@ == join_fields(seq![first@] + rest@.map_values(|v: Vec<u8>| v@).subrange(0, k as int)),
        decreases rest@.len() - k,
    {
        let ghost parts = seq![first@] + rest@.map_values(|v: Vec<u8>| v@).subrange(0, k as int);
        out.push(SEP);
        out = append_bytes(out, &rest[k]);
        proof {
            lemma_join_push(parts, rest@[k as int]@);
            assert(out@ =~= join_fields(parts) + seq![SEP] + rest@[k as int]@);
            assert(parts.push(rest@[k as int]@) =~= seq![first@] + rest@.map_values(
                |v: Vec<u8>| v@,
            ).subrange(0, k as int + 1));
        }
        k = k + 1;
    }
    proof {
        assert(rest@.map_values(|v: Vec<u8>| v@).subrange(0, rest@.len() as int) =~= rest@.map_values(
            |v: Vec<u8>| v@,
        ));
    }
    out
}

/// Splits `bs` on the delimiter byte.
pub fn split_on_sep(bs: &Vec<u8>) -> (r: Vec<Vec<u8>>)
    ensures
        r@.map_values(|v: Vec<u8>| v@) == split_fields(bs@),
        r@.len() >= 1,
{
    let mut out: Vec<Vec<u8>> = Vec::new();
    let mut cur: Vec<u8> = Vec::new();
    let mut i: usize = 0;
    proof {
        assert(cur@ + bs@.subrange(0, bs@.len() as int) =~= bs@);
        assert(out@.map_values(|v: Vec<u8>| v@) =~= Seq::<Seq<u8>>::empty());
        assert(Seq::<Seq<u8>>::empty() + split_fields(bs@) =~= split_fields(bs@));
    }
    while i < bs.len()
        invariant
            i <= bs@.len(),
            sep_free(cur@),
            split_fields(bs@) == out@.map_values(|v: Vec<u8>| v@) + split_fields(
                cur@ + bs@.subrange(i as int, bs@.len() as int),
            ),
        decreases bs@.len() - i,
    {
        let b = bs[i];
        let ghost tail = bs@.subrange(i as int + 1, bs@.len() as int);
        proof {
            assert(cur@ + bs@.subrange(i as int, bs@.len() as int) =~= (cur@ + seq![b]) + tail);
        }
        if b == SEP {
            proof {
                assert((cur@ + seq![b]) + tail =~= cur@ + seq![SEP] + tail);
                lemma_split_concat(cur@, tail);
            }
            let ghost old_out = out@;
            let done = cur;
            cur = Vec::new();
            out.push(done);
            proof {
                assert(out@.map_values(|v: Vec<u8>| v@) =~= old_out.map_values(|v: Vec<u8>| v@).push(
                    done@,
                ));
                assert(old_out.map_values(|v: Vec<u8>| v@) + (seq![done@] + split_fields(tail))
                    =~= out@.map_values(|v: Vec<u8>| v@) + split_fields(tail));
                assert(cur@ + tail =~= tail);
            }
        } else {
            let ghost old_cur = cur@;
            cur.push(b);
            proof {
                assert(cur@ =~= old_cur + seq![b]);
                assert(cur@ + tail =~= (old_cur + seq![b]) + tail);
            }
        }
        i = i + 1;
    }
    proof {
        assert(cur@ + bs@.subrange(bs@.len() as int, bs@.len() as int) =~= cur@);
        lemma_split_sep_free(cur@);
    }
    let ghost old_out = out@;
    let ghost last = cur@;
    out.push(cur);
    proof {
        assert(out@.map_values(|v: Vec<u8>| v@) =~= old_out.map_values(|v: Vec<u8>| v@).push(last));
        assert(old_out.map_values(|v: Vec<u8>| v@) + seq![last] =~= out@.map_values(
            |v: Vec<u8>| v@,
        ));
    }
    out
}

/// The physical table name backing a dataset: the entity-kind prefix, then the
/// identifier, separated by an underscore.
pub open spec fn table_name_of(id: nat) -> Seq<char> {
    "dataset_"@ + dec_digits(id)
}

/// The physical view name backing a dataview.
pub open spec fn view_name_of(id: nat) -> Seq<char> {
    "dataview_"@ + dec_digits(id)
}

/// The deterministically derived name of the physical table that backs a
/// dataset.
pub fn dataset_table_name(uuid: u64) -> (r: String)
    ensures
        r@ == table_name_of(uuid as nat),
{
    let mut out = "dataset_".to_owned();
    let digits = dec_string(uuid);
    out.append(digits.as_str());
    out
}

/// The deterministically derived name of the physical view that backs a
/// dataview.
pub fn dataview_view_name(uuid: u64) -> (r: String)
    ensures
        r@ == view_name_of(uuid as nat),
{
    let mut out = "dataview_".to_owned();
    let digits = dec_string(uuid);
    out.append(digits.as_str());
    out
}


/// The statement that creates the physical view backing a root dataview: it
/// selects the whole of the owning dataset's table, so the root's physical
/// shape always equals its source dataset's.
pub fn root_view_statement(dataview_uuid: u64, dataset_uuid: u64) -> (r: String)
    ensures
        r@ == "CREATE VIEW "@ + view_name_of(dataview_uuid as nat) + " AS SELECT * FROM "@
            + table_name_of(dataset_uuid as nat),
{
    let mut out = "CREATE VIEW ".to_owned();
    let view = dataview_view_name(dataview_uuid);
    out.append(view.as_str());
    out.append(" AS SELECT * FROM ");
    let table = dataset_table_name(dataset_uuid);
    out.append(table.as_str());
    out
}

} // verus!
