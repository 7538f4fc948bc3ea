use vstd::prelude::*;
use vstd::string::StrSliceExecFns;
use vstd::utf8::{decode_utf8, encode_utf8, valid_utf8};
use crate::error::Error;
use crate::num::parse_dec;
use crate::num::parse_u64;
use crate::text::{copy_bytes, join_fields, join_with_sep, split_fields, split_on_sep, utf8_to_string};

verus! {

broadcast use vstd::string::group_string_axioms;

/// The closed set of entity kinds that an identity token can address.
#[derive(Debug, Copy, Clone, PartialEq, Eq, Structural)]
pub enum EntityKind {
    Analysis,
    Dataset,
    Dataview,
    Model,
    Plot,
    Project,
    ProjectUserRole,
    Statistic,
    User,
    UserRefreshToken,
}

pub open spec fn kind_name(k: EntityKind) -> Seq<char> {
    match k {
        EntityKind::Analysis => "Analysis"@,
        EntityKind::Dataset => "Dataset"@,
        EntityKind::Dataview => "Dataview"@,
        EntityKind::Model => "Model"@,
        EntityKind::Plot => "Plot"@,
        EntityKind::Project => "Project"@,
        EntityKind::ProjectUserRole => "ProjectUserRole"@,
        EntityKind::Statistic => "Statistic"@,
        EntityKind::User => "User"@,
        EntityKind::UserRefreshToken => "UserRefreshToken"@,
    }
}

/// How many key components a token of this kind carries: one for most kinds,
/// two (project id, then user id) for a project-user role.
pub open spec fn kind_arity(k: EntityKind) -> nat {
    match k {
        EntityKind::ProjectUserRole => 2,
        _ => 1,
    }
}

/// Whether keys of this kind are entity identifiers (and must parse as such);
/// a refresh token is addressed by its opaque value instead.
pub open spec fn kind_key_is_id(k: EntityKind) -> bool {
    !(k is UserRefreshToken)
}

pub fn kind_name_str(k: EntityKind) -> (r: &'static str)
    ensures
        r@ == kind_name(k),
{
    match k {
        EntityKind::Analysis => "Analysis",
        EntityKind::Dataset => "Dataset",
        EntityKind::Dataview => "Dataview",
        EntityKind::Model => "Model",
        EntityKind::Plot => "Plot",
        EntityKind::Project => "Project",
        EntityKind::ProjectUserRole => "ProjectUserRole",
        EntityKind::Statistic => "Statistic",
        EntityKind::User => "User",
        EntityKind::UserRefreshToken => "UserRefreshToken",
    }
}

/// The kind whose name is `s`, if any.
pub open spec fn kind_of_name_spec(s: Seq<char>) -> Option<EntityKind> {
    if s == kind_name(EntityKind::Analysis) {
        Some(EntityKind::Analysis)
    } else if s == kind_name(EntityKind::Dataset) {
        Some(EntityKind::Dataset)
    } else if s == kind_name(EntityKind::Dataview) {
        Some(EntityKind::Dataview)
    } else if s == kind_name(EntityKind::Model) {
        Some(EntityKind::Model)
    } else if s == kind_name(EntityKind::Plot) {
        Some(EntityKind::Plot)
    } else if s == kind_name(EntityKind::Project) {
        Some(EntityKind::Project)
    } else if s == kind_name(EntityKind::ProjectUserRole) {
        Some(EntityKind::ProjectUserRole)
    } else if s == kind_name(EntityKind::Statistic) {
        Some(EntityKind::Statistic)
    } else if s == kind_name(EntityKind::User) {
        Some(EntityKind::User)
    } else if s == kind_name(EntityKind::UserRefreshToken) {
        Some(EntityKind::UserRefreshToken)
    } else {
        None
    }
}

pub fn kind_of_name(s: &String) -> (r: Option<EntityKind>)
    ensures
        r == kind_of_name_spec(s@),
{
    if *s == "Analysis".to_owned() {
        Some(EntityKind::Analysis)
    } else if *s == "Dataset".to_owned() {
        Some(EntityKind::Dataset)
    } else if *s == "Dataview".to_owned() {
        Some(EntityKind::Dataview)
    } else if *s == "Model".to_owned() {
        Some(EntityKind::Model)
    } else if *s == "Plot".to_owned() {
        Some(EntityKind::Plot)
    } else if *s == "Project".to_owned() {
        Some(EntityKind::Project)
    } else if *s == "ProjectUserRole".to_owned() {
        Some(EntityKind::ProjectUserRole)
    } else if *s == "Statistic".to_owned() {
        Some(EntityKind::Statistic)
    } else if *s == "User".to_owned() {
        Some(EntityKind::User)
    } else if *s == "UserRefreshToken".to_owned() {
        Some(EntityKind::UserRefreshToken)
    } else {
        None
    }
}

/// What `base64::encode` returns for a byte sequence: opaque, but a fixed
/// function of the bytes alone.
pub uninterp spec fn b64_of(bs: Seq<u8>) -> Seq<char>;

/// What `base64::decode` returns for a character sequence: opaque, but a fixed
/// function of the characters alone.
pub uninterp spec fn b64_parse_of(s: Seq<char>) -> Option<Seq<u8>>;

/// Relies on `base64::encode` (standard alphabet): its result is a function of
/// the bytes, and `base64::decode` inverts it.
#[verifier::external_body]
fn b64_encode(b: &Vec<u8>) -> (r: String)
    ensures
        r@ == b64_of(b@),
        b64_parse_of(r@) == Some(b@),
{
    base64::encode(b)
}

/// Relies on `base64::decode` (standard alphabet): its result is a function of
/// the input characters alone.
#[verifier::external_body]
fn b64_decode(s: &String) -> (r: Option<Vec<u8>>)
    ensures
        r matches Some(d) ==> b64_parse_of(s@) == Some(d@),
        r is None ==> b64_parse_of(s@) is None,
{
    base64::decode(s.as_str()).ok()
}

/// An entity-kind name with the ordered key components of one entity, as
/// decoded from an identity token.
pub struct ModelKeys {
    pub model: String,
    pub keys: Vec<String>,
}

/// The clear-text payload of a token: the kind name and the keys, joined with
/// the delimiter, in UTF-8.
pub open spec fn token_payload(kind: EntityKind, keys: Seq<Seq<char>>) -> Seq<u8> {
    join_fields(seq![encode_utf8(kind_name(kind))] + keys.map_values(|k: Seq<char>| encode_utf8(k)))
}

/// The token addressing the entity of `kind` with the given keys.
pub open spec fn token_of(kind: EntityKind, keys: Seq<Seq<char>>) -> Seq<char> {
    b64_of(token_payload(kind, keys))
}

/// Encodes an opaque identity token from an entity kind and its ordered key
/// components. Pure: no store is consulted.
pub fn encode(kind: EntityKind, keys: &Vec<String>) -> (r: String)
    ensures
        r@ == token_of(kind, keys@.map_values(|k: String| k@)),
        b64_parse_of(r@) == Some(token_payload(kind, keys@.map_values(|k: String| k@))),
{
    let name = kind_name_str(kind);
    let first = name.as_bytes_vec();
    let mut rest: Vec<Vec<u8>> = Vec::new();
    let mut i: usize = 0;
    while i < keys.len()
        invariant
            i <= keys@.len(),
            rest@.len() == i,
            forall|j: int| 0 <= j < i ==> #[trigger] rest@[j]@ == encode_utf8(keys@[j]@),
        decreases keys@.len() - i,
    {
        let kb = keys[i].as_str().as_bytes_vec();
        rest.push(kb);
        i = i + 1;
    }
    let payload = join_with_sep(&first, &rest);
    proof {
        assert(seq![first@] + rest@.map_values(|v: Vec<u8>| v@) =~= seq![encode_utf8(
            kind_name(kind),
        )] + keys@.map_values(|k: String| k@).map_values(|k: Seq<char>| encode_utf8(k)));
    }
    b64_encode(&payload)
}

/// Splits a token into the kind name and raw key strings, without interpreting
/// them further: fails with `InvalidToken` when the base64 layer or the UTF-8
/// layer rejects the input.
pub fn model_keys(id: &String) -> (r: Result<ModelKeys, Error>)
    ensures
        (match r {
            Ok(mk) => {
                &&& b64_parse_of(id@) matches Some(p)
                &&& {
                    let parts = split_fields(b64_parse_of(id@).unwrap());
                    &&& parts.len() == mk.keys@.len() + 1
                    &&& encode_utf8(mk.model@) == parts[0]
                    &&& forall|i: int|
                        0 <= i < mk.keys@.len() ==> encode_utf8(
                            #[trigger] mk.keys@[i]@,
                        ) == parts[i + 1]
                }
            },
            Err(e) => {
                &&& e == Error::InvalidToken
                &&& (b64_parse_of(id@) is None || {
                    let parts = split_fields(b64_parse_of(id@).unwrap());
                    exists|i: int| 0 <= i < parts.len() && !valid_utf8(#[trigger] parts[i])
                })
            },
        }),
{
    let bytes = match b64_decode(id) {
        Some(b) => b,
        None => {
            return Err(Error::InvalidToken);
        },
    };
    let parts = split_on_sep(&bytes);
    let ghost parts_view = split_fields(bytes@);
    let mut strings: Vec<String> = Vec::new();
    let mut i: usize = 0;
    while i < parts.len()
        invariant
            i <= parts@.len(),
            strings@.len() == i,
            b64_parse_of(id@) == Some(bytes@),
            parts_view == split_fields(bytes@),
            parts@.map_values(|v: Vec<u8>| v@) == parts_view,
            parts@.len() == parts_view.len(),
            forall|j: int| 0 <= j < i ==> encode_utf8(#[trigger] strings@[j]@) == parts_view[j],
        decreases parts@.len() - i,
    {
        // each field is checked and decoded on its own; the delimiter byte can
        // never fall inside a multi-byte character, so this agrees with
        // decoding the whole payload at once
        let part = copy_bytes(&parts[i]);
        proof {
            assert(part@ == parts@.map_values(|v: Vec<u8>| v@)[i as int]);
        }
        match utf8_to_string(part) {
            Some(s) => {
                strings.push(s);
            },
            None => {
                proof {
                    assert(b64_parse_of(id@) == Some(bytes@));
                    assert(parts_view == split_fields(b64_parse_of(id@).unwrap()));
                    assert(0 <= (i as int) && (i as int) < parts_view.len());
                    assert(!valid_utf8(parts_view[i as int]));
                }
                return Err(Error::InvalidToken);
            },
        }
        i = i + 1;
    }
    let mut rest = strings;
    let model = rest.remove(0);
    proof {
        assert(encode_utf8(model@) == parts_view[0]);
        assert(forall|j: int|
            0 <= j < rest@.len() ==> encode_utf8(#[trigger] rest@[j]@) == parts_view[j + 1]);
    }
    Ok(ModelKeys { model, keys: rest })
}

/// Whether a key tuple is well-typed for a kind: the arity matches, and for
/// identifier-keyed kinds every component parses as an identifier.
pub open spec fn keys_well_typed(kind: EntityKind, keys: Seq<Seq<char>>) -> bool {
    &&& keys.len() == kind_arity(kind)
    &&& (kind_key_is_id(kind) ==> forall|i: int|
        0 <= i < keys.len() ==> (parse_dec(#[trigger] keys[i]) matches Some(n) && n
            <= u64::MAX))
}

/// What decoding a token yields: the kind and its keys when the base64 layer,
/// the UTF-8 layer, the kind name, the delimiter count and the key syntax all
/// check out; nothing otherwise.
pub open spec fn spec_decode(t: Seq<char>) -> Option<(EntityKind, Seq<Seq<char>>)> {
    match b64_parse_of(t) {
        None => None,
        Some(p) => {
            let parts = split_fields(p);
            if !(forall|i: int| 0 <= i < parts.len() ==> valid_utf8(#[trigger] parts[i])) {
                None
            } else {
                let keys = parts.subrange(1, parts.len() as int).map_values(
                    |q: Seq<u8>| decode_utf8(q),
                );
                match kind_of_name_spec(decode_utf8(parts[0])) {
                    None => None,
                    Some(kind) => if keys_well_typed(kind, keys) {
                        Some((kind, keys))
                    } else {
                        None
                    },
                }
            }
        },
    }
}

/// Decodes an identity token into an entity kind and its ordered keys,
/// rejecting with `InvalidToken` anything that is not validly encoded, has the
/// wrong delimiter count for its declared kind, or carries a key that does not
/// parse as the expected key type. Pure: no store is consulted.
pub fn decode(token: &String) -> (r: Result<(EntityKind, Vec<String>), Error>)
    ensures
        (match r {
            Ok(kk) => spec_decode(token@) == Some((kk.0, kk.1@.map_values(|k: String| k@))),
            Err(e) => e == Error::InvalidToken && spec_decode(token@) is None,
        }),
{
    broadcast use vstd::utf8::encode_utf8_decode_utf8;
    broadcast use vstd::utf8::encode_utf8_valid_utf8;

    let mk = match model_keys(token) {
        Ok(mk) => mk,
        Err(e) => {
            proof {
                if b64_parse_of(token@) is Some {
                    let p = split_fields(b64_parse_of(token@).unwrap());
                    let i = choose|i: int| 0 <= i < p.len() && !valid_utf8(#[trigger] p[i]);
                    assert(!(forall|j: int| 0 <= j < p.len() ==> valid_utf8(#[trigger] p[j])));
                }
            }
            return Err(Error::InvalidToken);
        },
    };
    let ghost parts = split_fields(b64_parse_of(token@).unwrap());
    proof {
        assert forall|i: int| 0 <= i < parts.len() implies valid_utf8(#[trigger] parts[i]) by {
            if i == 0 {
                assert(encode_utf8(mk.model@) == parts[0]);
                assert(valid_utf8(encode_utf8(mk.model@)));
            } else {
                assert(encode_utf8(mk.keys@[i - 1]@) == parts[i]);
                assert(valid_utf8(encode_utf8(mk.keys@[i - 1]@)));
            }
        }
        assert(encode_utf8(mk.model@) == parts[0]);
        assert(decode_utf8(parts[0]) == mk.model@);
        assert forall|i: int| 0 <= i < mk.keys@.len() implies decode_utf8(
            #[trigger] parts[i + 1],
        ) == mk.keys@[i]@ by {
            assert(encode_utf8(mk.keys@[i]@) == parts[i + 1]);
            assert(decode_utf8(encode_utf8(mk.keys@[i]@)) == mk.keys@[i]@);
        }
        assert(parts.subrange(1, parts.len() as int).map_values(|q: Seq<u8>| decode_utf8(q))
            =~= mk.keys@.map_values(|k: String| k@));
    }
    let kind = match kind_of_name(&mk.model) {
        Some(k) => k,
        None => {
            return Err(Error::InvalidToken);
        },
    };
    let expected: usize = match kind {
        EntityKind::ProjectUserRole => 2,
        _ => 1,
    };
    if mk.keys.len() != expected {
        proof {
            assert(!keys_well_typed(kind, mk.keys@.map_values(|k: String| k@)));
        }
        return Err(Error::InvalidToken);
    }
    let ghost kseq = mk.keys@.map_values(|k: String| k@);
    proof {
        assert(kseq.len() == kind_arity(kind));
        assert(spec_decode(token@) == (if keys_well_typed(kind, kseq) {
            Some((kind, kseq))
        } else {
            Option::<(EntityKind, Seq<Seq<char>>)>::None
        }));
    }
    let is_id_kind = match kind {
        EntityKind::UserRefreshToken => false,
        _ => true,
    };
    if is_id_kind {
        let mut i: usize = 0;
        while i < mk.keys.len()
            invariant
                i <= mk.keys@.len(),
                kind_key_is_id(kind),
                kseq == mk.keys@.map_values(|k: String| k@),
                kseq.len() == kind_arity(kind),
                spec_decode(token@) == (if keys_well_typed(kind, kseq) {
                    Some((kind, kseq))
                } else {
                    Option::<(EntityKind, Seq<Seq<char>>)>::None
                }),
                forall|j: int|
                    0 <= j < i ==> (parse_dec(#[trigger] kseq[j]) matches Some(n) && n
                        <= u64::MAX),
            decreases mk.keys@.len() - i,
        {
            proof {
                assert(kseq[i as int] == mk.keys@[i as int]@);
            }
            match parse_u64(mk.keys[i].as_str()) {
                Some(_) => {},
                None => {
                    proof {
                        assert(!(parse_dec(kseq[i as int]) matches Some(n) && n <= u64::MAX));
                        assert(!keys_well_typed(kind, kseq));
                    }
                    return Err(Error::InvalidToken);
                },
            }
            i = i + 1;
        }
        proof {
            assert(keys_well_typed(kind, kseq));
        }
    } else {
        proof {
            assert(keys_well_typed(kind, kseq));
        }
    }
    Ok((kind, mk.keys))
}


/// A key that can ride in a token and come back unchanged: any characters,
/// as long as none is the delimiter. Entity identifiers and refresh-token
/// values are both of this shape.
pub open spec fn valid_key(k: Seq<char>) -> bool {
    forall|i: int| 0 <= i < k.len() ==> #[trigger] k[i] != ':'
}

/// The delimiter byte in the encoding of one character can only come from
/// the delimiter character itself: the bytes of every multi-byte encoding
/// have their high bit set.
proof fn lemma_scalar_encoding_sep(c: char)
    ensures
        forall|i: int|
            0 <= i < vstd::utf8::encode_scalar(c as u32).len() && (#[trigger] vstd::utf8::encode_scalar(
                c as u32,
            )[i]) == crate::text::SEP ==> c == ':',
{
    broadcast use vstd::utf8::char_is_scalar;
    broadcast use vstd::utf8::char_u32_cast;

    let s = c as u32;
    let e = vstd::utf8::encode_scalar(s);
    assert forall|i: int|
        0 <= i < e.len() && (#[trigger] e[i]) == crate::text::SEP implies c == ':' by {
        if vstd::utf8::has_width_1_encoding(s) {
            assert(e[i] == (s & 0x7F) as u8);
            assert(s <= 0x7F && ((s & 0x7F) as u8) == 58 ==> s == 58) by (bit_vector);
            assert(s == 58);
            assert((58 as u32) as char == c);
            assert(':' as u32 == 58);
            assert((58 as u32) as char == ':');
        } else {
            assert((0xC0 | ((s >> 6) & 0x1F) as u8) != 58) by (bit_vector);
            assert((0xE0 | ((s >> 12) & 0x0F) as u8) != 58) by (bit_vector);
            assert((0xF0 | ((s >> 18) & 0x7) as u8) != 58) by (bit_vector);
            assert((0x80 | (s & 0x3F) as u8) != 58) by (bit_vector);
            assert((0x80 | ((s >> 6) & 0x3F) as u8) != 58) by (bit_vector);
            assert((0x80 | ((s >> 12) & 0x3F) as u8) != 58) by (bit_vector);
            assert(false);
        }
    }
}

proof fn lemma_valid_key_sep_free(k: Seq<char>)
    requires
        valid_key(k),
    ensures
        crate::text::sep_free(encode_utf8(k)),
    decreases k.len(),
{
    if k.len() == 0 {
    } else {
        let e0 = vstd::utf8::encode_scalar(k[0] as u32);
        let rest = k.drop_first();
        assert(valid_key(rest)) by {
            assert forall|i: int| 0 <= i < rest.len() implies #[trigger] rest[i] != ':' by {
                assert(rest[i] == k[i + 1]);
            }
        }
        lemma_valid_key_sep_free(rest);
        lemma_scalar_encoding_sep(k[0]);
        assert(encode_utf8(k) == e0 + encode_utf8(rest));
        assert forall|i: int|
            0 <= i < encode_utf8(k).len() implies #[trigger] encode_utf8(k)[i]
            != crate::text::SEP by {
            if i < e0.len() {
                assert(encode_utf8(k)[i] == e0[i]);
                if e0[i] == crate::text::SEP {
                    assert(k[0] == ':');
                }
            } else {
                assert(encode_utf8(k)[i] == encode_utf8(rest)[i - e0.len()]);
            }
        }
    }
}

/// Every kind name is a valid key in its own right, and reading it back
/// through the name table gives the kind again.
proof fn lemma_kind_name_facts(kind: EntityKind)
    ensures
        valid_key(kind_name(kind)),
        kind_of_name_spec(kind_name(kind)) == Some(kind),
{
    reveal_strlit("Analysis");
    reveal_strlit("Dataset");
    reveal_strlit("Dataview");
    reveal_strlit("Model");
    reveal_strlit("Plot");
    reveal_strlit("Project");
    reveal_strlit("ProjectUserRole");
    reveal_strlit("Statistic");
    reveal_strlit("User");
    reveal_strlit("UserRefreshToken");
    assert("Analysis"@.len() == 8);
    assert("Dataset"@.len() == 7);
    assert("Dataview"@.len() == 8);
    assert("Model"@.len() == 5);
    assert("Plot"@.len() == 4);
    assert("Project"@.len() == 7);
    assert("ProjectUserRole"@.len() == 15);
    assert("Statistic"@.len() == 9);
    assert("User"@.len() == 4);
    assert("UserRefreshToken"@.len() == 16);
    assert("Analysis"@[0] == 'A');
    assert("Dataview"@[0] == 'D');
    assert("Dataset"@[0] == 'D');
    assert("Project"@[0] == 'P');
    assert("Plot"@[0] == 'P');
    assert("User"@[0] == 'U');
    match kind {
        EntityKind::Analysis => {
            assert(valid_key("Analysis"@));
        },
        EntityKind::Dataset => {
            assert(valid_key("Dataset"@));
        },
        EntityKind::Dataview => {
            assert(valid_key("Dataview"@));
        },
        EntityKind::Model => {
            assert(valid_key("Model"@));
        },
        EntityKind::Plot => {
            assert(valid_key("Plot"@));
        },
        EntityKind::Project => {
            assert(valid_key("Project"@));
        },
        EntityKind::ProjectUserRole => {
            assert(valid_key("ProjectUserRole"@));
        },
        EntityKind::Statistic => {
            assert(valid_key("Statistic"@));
        },
        EntityKind::User => {
            assert(valid_key("User"@));
        },
        EntityKind::UserRefreshToken => {
            assert(valid_key("UserRefreshToken"@));
        },
    }
}

/// The clear-text layer of the token round trip: splitting the payload of a
/// token and reading the fields back yields exactly the kind name and the
/// keys that were joined, whenever every key is a valid key: the delimiter
/// byte never occurs inside the encoding of any other character.
pub proof fn lemma_payload_round_trip(kind: EntityKind, keys: Seq<Seq<char>>)
    requires
        forall|i: int| 0 <= i < keys.len() ==> valid_key(#[trigger] keys[i]),
    ensures
        ({
            let parts = split_fields(token_payload(kind, keys));
            &&& parts.len() == keys.len() + 1
            &&& forall|i: int| 0 <= i < parts.len() ==> valid_utf8(#[trigger] parts[i])
            &&& decode_utf8(parts[0]) == kind_name(kind)
            &&& kind_of_name_spec(decode_utf8(parts[0])) == Some(kind)
            &&& parts.subrange(1, parts.len() as int).map_values(|q: Seq<u8>| decode_utf8(q))
                =~= keys
        }),
{
    broadcast use vstd::utf8::encode_utf8_decode_utf8;
    broadcast use vstd::utf8::encode_utf8_valid_utf8;

    lemma_kind_name_facts(kind);
    let fields = seq![encode_utf8(kind_name(kind))] + keys.map_values(
        |k: Seq<char>| encode_utf8(k),
    );
    assert forall|i: int| 0 <= i < fields.len() implies crate::text::sep_free(
        #[trigger] fields[i],
    ) by {
        if i == 0 {
            lemma_valid_key_sep_free(kind_name(kind));
        } else {
            lemma_valid_key_sep_free(keys[i - 1]);
            assert(fields[i] == encode_utf8(keys[i - 1]));
        }
    }
    crate::text::lemma_split_of_join(fields);
    let parts = split_fields(token_payload(kind, keys));
    assert(parts == fields);
    assert forall|i: int| 0 <= i < parts.len() implies valid_utf8(#[trigger] parts[i]) by {
        if i == 0 {
            assert(parts[i] == encode_utf8(kind_name(kind)));
        } else {
            assert(parts[i] == encode_utf8(keys[i - 1]));
        }
    }
    assert(decode_utf8(parts[0]) == kind_name(kind));
    assert forall|i: int| 0 <= i < keys.len() implies decode_utf8(#[trigger] parts[i + 1])
        == keys[i] by {
        assert(parts[i + 1] == encode_utf8(keys[i]));
    }
}

/// The token round trip, end to end: encoding a kind with well-typed, valid
/// keys and then decoding the token yields the same kind and the same keys.
/// A valid key is any string free of the delimiter character.
pub fn encode_decode(kind: EntityKind, keys: &Vec<String>) -> (r: (EntityKind, Vec<String>))
    requires
        keys_well_typed(kind, keys@.map_values(|k: String| k@)),
        forall|i: int| 0 <= i < keys@.len() ==> valid_key(#[trigger] keys@[i]@),
    ensures
        r.0 == kind,
        r.1@.map_values(|k: String| k@) == keys@.map_values(|k: String| k@),
{
    let ghost kseq = keys@.map_values(|k: String| k@);
    let token = encode(kind, keys);
    proof {
        lemma_payload_round_trip(kind, kseq);
        let parts = split_fields(token_payload(kind, kseq));
        assert(parts.subrange(1, parts.len() as int).map_values(|q: Seq<u8>| decode_utf8(q))
            =~= kseq);
        assert(spec_decode(token@) == Some((kind, kseq)));
    }
    match decode(&token) {
        Ok(kk) => {
            proof {
                assert(Some((kk.0, kk.1@.map_values(|k: String| k@))) == Some((kind, kseq)));
            }
            kk
        },
        Err(_) => {
            proof {
                assert(false);
            }
            (kind, Vec::new())
        },
    }
}


/// What the first key of a token reads as, when the token is validly encoded
/// throughout: the character content of the field after the kind name.
pub open spec fn spec_token_first_key(t: Seq<char>) -> Option<Seq<char>> {
    match b64_parse_of(t) {
        None => None,
        Some(p) => {
            let parts = split_fields(p);
            if parts.len() >= 2 && (forall|i: int|
                0 <= i < parts.len() ==> valid_utf8(#[trigger] parts[i])) {
                Some(decode_utf8(parts[1]))
            } else {
                None
            }
        },
    }
}

/// What the first key of a token parses to as an entity identifier, when the
/// token is validly encoded throughout.
pub open spec fn spec_token_first_id(t: Seq<char>) -> Option<u64> {
    match spec_token_first_key(t) {
        None => None,
        Some(k) => match crate::num::parse_dec(k) {
            Some(n) => if n <= u64::MAX {
                Some(n as u64)
            } else {
                None
            },
            None => None,
        },
    }
}

/// The entity identifier carried as the first key of a token.
pub fn token_to_id(token: &String) -> (r: Result<u64, Error>)
    ensures
        (match r {
            Ok(id) => spec_token_first_id(token@) == Some(id),
            Err(e) => e == Error::InvalidToken && spec_token_first_id(token@) is None,
        }),
{
    broadcast use vstd::utf8::encode_utf8_decode_utf8;
    broadcast use vstd::utf8::encode_utf8_valid_utf8;

    let mk = match model_keys(token) {
        Ok(mk) => mk,
        Err(e) => {
            proof {
                if b64_parse_of(token@) is Some {
                    let parts = split_fields(b64_parse_of(token@).unwrap());
                    let i = choose|i: int|
                        0 <= i < parts.len() && !valid_utf8(#[trigger] parts[i]);
                    assert(!(forall|j: int|
                        0 <= j < parts.len() ==> valid_utf8(#[trigger] parts[j])));
                }
            }
            return Err(Error::InvalidToken);
        },
    };
    let ghost parts = split_fields(b64_parse_of(token@).unwrap());
    proof {
        assert forall|i: int| 0 <= i < parts.len() implies valid_utf8(#[trigger] parts[i]) by {
            if i == 0 {
                assert(encode_utf8(mk.model@) == parts[0]);
            } else {
                assert(encode_utf8(mk.keys@[i - 1]@) == parts[i]);
            }
        }
    }
    if mk.keys.len() == 0 {
        return Err(Error::InvalidToken);
    }
    proof {
        assert(encode_utf8(mk.keys@[0]@) == parts[1]);
        assert(decode_utf8(parts[1]) == mk.keys@[0]@);
    }
    match crate::num::parse_u64(mk.keys[0].as_str()) {
        Some(id) => Ok(id),
        None => Err(Error::InvalidToken),
    }
}

/// A run of decimal digits is a valid key: ASCII and free of the delimiter.
pub proof fn lemma_digits_are_valid_key(s: Seq<char>)
    requires
        crate::num::all_digits(s),
    ensures
        valid_key(s),
{
    assert forall|i: int| 0 <= i < s.len() implies #[trigger] s[i] != ':' by {
        assert(crate::num::is_digit(s[i]));
    }
}

/// The value of a sequence of digit characters fits whatever the number that
/// produced them fits; the well-typedness of a single decimal key follows.
pub proof fn lemma_decimal_key_well_typed(kind: EntityKind, uuid: u64)
    requires
        kind_arity(kind) == 1,
    ensures
        keys_well_typed(kind, seq![crate::num::dec_digits(uuid as nat)]),
        valid_key(crate::num::dec_digits(uuid as nat)),
{
    crate::num::lemma_parse_of_dec_digits(uuid as nat);
    crate::num::lemma_dec_digits_are_digits(uuid as nat);
    lemma_digits_are_valid_key(crate::num::dec_digits(uuid as nat));
    let keys = seq![crate::num::dec_digits(uuid as nat)];
    assert forall|i: int|
        0 <= i < keys.len() implies (crate::num::parse_dec(#[trigger] keys[i]) matches Some(n)
        && n <= u64::MAX) by {
        assert(keys[i] == crate::num::dec_digits(uuid as nat));
    }
}

/// The first key of a freshly encoded token reads back as the key that was
/// encoded, whenever every key is a valid key.
pub proof fn lemma_token_first_key(kind: EntityKind, keys: Seq<Seq<char>>, t: Seq<char>)
    requires
        keys.len() >= 1,
        forall|i: int| 0 <= i < keys.len() ==> valid_key(#[trigger] keys[i]),
        b64_parse_of(t) == Some(token_payload(kind, keys)),
    ensures
        spec_token_first_key(t) == Some(keys[0]),
{
    lemma_payload_round_trip(kind, keys);
    let parts = split_fields(token_payload(kind, keys));
    assert(parts.subrange(1, parts.len() as int).map_values(|q: Seq<u8>| decode_utf8(q))[0]
        == keys[0]);
    assert(decode_utf8(parts[1]) == keys[0]);
}

/// The first key of a freshly encoded token parses back to the identifier
/// whose digits were encoded.
pub proof fn lemma_token_first_id(kind: EntityKind, keys: Seq<Seq<char>>, uuid: u64, t: Seq<char>)
    requires
        keys.len() >= 1,
        keys[0] == crate::num::dec_digits(uuid as nat),
        forall|i: int| 0 <= i < keys.len() ==> valid_key(#[trigger] keys[i]),
        b64_parse_of(t) == Some(token_payload(kind, keys)),
    ensures
        spec_token_first_id(t) == Some(uuid),
{
    lemma_token_first_key(kind, keys, t);
    crate::num::lemma_parse_of_dec_digits(uuid as nat);
}

/// A token that decodes in full also yields its first key and, for
/// identifier-keyed kinds, the identifier it parses to.
pub proof fn lemma_decode_first_id(t: Seq<char>)
    requires
        spec_decode(t) is Some,
    ensures
        spec_token_first_key(t) == Some(spec_decode(t).unwrap().1[0]),
        spec_decode(t).unwrap().1.len() == kind_arity(spec_decode(t).unwrap().0),
        kind_key_is_id(spec_decode(t).unwrap().0) ==> (spec_token_first_id(t) matches Some(id)
            && crate::num::parse_dec(spec_decode(t).unwrap().1[0]) == Some(id as nat)),
{
    let p = b64_parse_of(t).unwrap();
    let parts = split_fields(p);
    let kk = spec_decode(t).unwrap();
    assert(keys_well_typed(kk.0, kk.1));
    assert(kk.1.len() == kind_arity(kk.0));
    assert(kk.1[0] == decode_utf8(parts[1]));
    if kind_key_is_id(kk.0) {
        assert(crate::num::parse_dec(kk.1[0]) matches Some(n) && n <= u64::MAX);
    }
}

} // verus!
