use vstd::prelude::*;
use crate::codec::{decode, spec_decode, EntityKind};
use crate::error::Error;
use crate::models::analysis::Analysis;
use crate::models::dataset::Dataset;
use crate::models::dataview::Dataview;
use crate::models::model::Model;
use crate::models::plot::Plot;
use crate::models::project::Project;
use crate::models::project_user_role::ProjectUserRole;
use crate::models::statistic::Statistic;
use crate::models::user::User;
use crate::models::user_refresh_token::UserRefreshToken;
use crate::num::{parse_dec, parse_u64};
use crate::store::{
    an_has, an_idx, ds_has, ds_idx, dv_has, dv_idx, mo_has, mo_idx, pl_has, pl_idx, pr_has,
    pr_idx, role_has, role_idx, st_has, st_idx, tok_has, tok_idx, us_has, us_idx, Store,
};

verus! {

/// One entity of any kind, as resolved from an identity token.
pub enum Node {
    Analysis(Analysis),
    Dataset(Dataset),
    Dataview(Dataview),
    Model(Model),
    Plot(Plot),
    Project(Project),
    ProjectUserRole(ProjectUserRole),
    Statistic(Statistic),
    User(User),
    UserRefreshToken(UserRefreshToken),
}

impl Node {
    /// The kind of entity this node holds.
    pub open spec fn kind(self) -> EntityKind {
        match self {
            Node::Analysis(_) => EntityKind::Analysis,
            Node::Dataset(_) => EntityKind::Dataset,
            Node::Dataview(_) => EntityKind::Dataview,
            Node::Model(_) => EntityKind::Model,
            Node::Plot(_) => EntityKind::Plot,
            Node::Project(_) => EntityKind::Project,
            Node::ProjectUserRole(_) => EntityKind::ProjectUserRole,
            Node::Statistic(_) => EntityKind::Statistic,
            Node::User(_) => EntityKind::User,
            Node::UserRefreshToken(_) => EntityKind::UserRefreshToken,
        }
    }
}

/// The identifier a well-typed key parses to.
pub open spec fn key_id(k: Seq<char>) -> u64
    recommends
        parse_dec(k) is Some,
{
    parse_dec(k).unwrap() as u64
}

/// Whether the store holds the row addressed by a decoded token: one
/// identifier for most kinds, the (project, user) pair for a role row, the
/// opaque value for a refresh token.
pub open spec fn node_present(s: Store, kind: EntityKind, keys: Seq<Seq<char>>) -> bool {
    match kind {
        EntityKind::Analysis => an_has(s.analyses@, key_id(keys[0])),
        EntityKind::Dataset => ds_has(s.datasets@, key_id(keys[0])),
        EntityKind::Dataview => dv_has(s.dataviews@, key_id(keys[0])),
        EntityKind::Model => mo_has(s.models@, key_id(keys[0])),
        EntityKind::Plot => pl_has(s.plots@, key_id(keys[0])),
        EntityKind::Project => pr_has(s.projects@, key_id(keys[0])),
        EntityKind::ProjectUserRole => role_has(s.roles@, key_id(keys[0]), key_id(keys[1])),
        EntityKind::Statistic => st_has(s.statistics@, key_id(keys[0])),
        EntityKind::User => us_has(s.users@, key_id(keys[0])),
        EntityKind::UserRefreshToken => tok_has(s.refresh_tokens@, keys[0]),
    }
}

/// Whether `node` is the stored row addressed by a decoded token, field for
/// field. A model's feature list lives in its own allocation, so a model
/// node agrees with its row through `matches_fields`.
pub open spec fn node_is_stored(s: Store, kind: EntityKind, keys: Seq<Seq<char>>, node: Node) -> bool {
    &&& node.kind() == kind
    &&& node_present(s, kind, keys)
    &&& (match node {
        Node::Analysis(a) => a == s.analyses@[an_idx(s.analyses@, key_id(keys[0]))],
        Node::Dataset(d) => d == s.datasets@[ds_idx(s.datasets@, key_id(keys[0]))],
        Node::Dataview(d) => d == s.dataviews@[dv_idx(s.dataviews@, key_id(keys[0]))],
        Node::Model(m) => m.matches_fields(s.models@[mo_idx(s.models@, key_id(keys[0]))]),
        Node::Plot(p) => p == s.plots@[pl_idx(s.plots@, key_id(keys[0]))],
        Node::Project(p) => p == s.projects@[pr_idx(s.projects@, key_id(keys[0]))],
        Node::ProjectUserRole(r) => r == s.roles@[role_idx(
            s.roles@,
            key_id(keys[0]),
            key_id(keys[1]),
        )],
        Node::Statistic(st) => st == s.statistics@[st_idx(s.statistics@, key_id(keys[0]))],
        Node::User(u) => u == s.users@[us_idx(s.users@, key_id(keys[0]))],
        Node::UserRefreshToken(t) => t == s.refresh_tokens@[tok_idx(s.refresh_tokens@, keys[0])],
    })
}

/// Resolves an identity token to the entity row it addresses: the dynamic
/// dispatch over the closed set of entity kinds. The result is the stored
/// row itself; `InvalidToken` when the token does not decode, `NotFound`
/// exactly when it decodes but addresses no row.
pub fn id_to_node(store: &Store, id: &String) -> (r: Result<Node, Error>)
    requires
        store.wf(),
    ensures
        (match r {
            Ok(node) => spec_decode(id@) matches Some(kk) && node_is_stored(
                *store,
                kk.0,
                kk.1,
                node,
            ),
            Err(e) => (if e == Error::InvalidToken {
                spec_decode(id@) is None
            } else {
                e == Error::NotFound && (spec_decode(id@) matches Some(kk) && !node_present(
                    *store,
                    kk.0,
                    kk.1,
                ))
            }),
        }),
{
    let (kind, keys) = match decode(id) {
        Ok(kk) => kk,
        Err(e) => {
            return Err(Error::InvalidToken);
        },
    };
    proof {
        let kmaps = keys@.map_values(|k: String| k@);
        assert(crate::codec::keys_well_typed(kind, kmaps));
        assert(keys@.len() == crate::codec::kind_arity(kind));
        if crate::codec::kind_key_is_id(kind) {
            assert forall|i: int|
                0 <= i < keys@.len() implies (crate::num::parse_dec(#[trigger] keys@[i]@)
                matches Some(n) && n <= u64::MAX) by {
                assert(kmaps[i] == keys@[i]@);
                assert(crate::num::parse_dec(kmaps[i]) matches Some(n) && n <= u64::MAX);
            }
        }
        assert forall|i: int|
            0 <= i < keys@.len() implies (#[trigger] kmaps[i]) == keys@[i]@ by {}
    }
    let ghost kmaps = keys@.map_values(|k: String| k@);
    match kind {
        EntityKind::UserRefreshToken => {
            match UserRefreshToken::get(store, &keys[0]) {
                Ok(t) => Ok(Node::UserRefreshToken(t)),
                Err(e) => Err(Error::NotFound),
            }
        },
        EntityKind::ProjectUserRole => {
            let project = match parse_u64(keys[0].as_str()) {
                Some(v) => v,
                None => {
                    proof {
                        assert(false);
                    }
                    return Err(Error::NotFound);
                },
            };
            let user = match parse_u64(keys[1].as_str()) {
                Some(v) => v,
                None => {
                    proof {
                        assert(false);
                    }
                    return Err(Error::NotFound);
                },
            };
            proof {
                assert(key_id(kmaps[0]) == project);
                assert(key_id(kmaps[1]) == user);
            }
            match ProjectUserRole::get(store, project, user) {
                Ok(row) => Ok(Node::ProjectUserRole(row)),
                Err(e) => Err(Error::NotFound),
            }
        },
        _ => {
            let uuid = match parse_u64(keys[0].as_str()) {
                Some(v) => v,
                None => {
                    proof {
                        assert(false);
                    }
                    return Err(Error::NotFound);
                },
            };
            proof {
                assert(key_id(kmaps[0]) == uuid);
            }
            match kind {
                EntityKind::Analysis => match Analysis::get(store, uuid) {
                    Ok(row) => Ok(Node::Analysis(row)),
                    Err(e) => Err(Error::NotFound),
                },
                EntityKind::Dataset => match Dataset::get(store, uuid) {
                    Ok(row) => Ok(Node::Dataset(row)),
                    Err(e) => Err(Error::NotFound),
                },
                EntityKind::Dataview => match Dataview::get(store, uuid) {
                    Ok(row) => Ok(Node::Dataview(row)),
                    Err(e) => Err(Error::NotFound),
                },
                EntityKind::Model => match Model::get(store, uuid) {
                    Ok(row) => Ok(Node::Model(row)),
                    Err(e) => Err(Error::NotFound),
                },
                EntityKind::Plot => match Plot::get(store, uuid) {
                    Ok(row) => Ok(Node::Plot(row)),
                    Err(e) => Err(Error::NotFound),
                },
                EntityKind::Project => match Project::get(store, uuid) {
                    Ok(row) => Ok(Node::Project(row)),
                    Err(e) => Err(Error::NotFound),
                },
                EntityKind::Statistic => match Statistic::get(store, uuid) {
                    Ok(row) => Ok(Node::Statistic(row)),
                    Err(e) => Err(Error::NotFound),
                },
                EntityKind::User => match User::get(store, uuid) {
                    Ok(row) => Ok(Node::User(row)),
                    Err(e) => Err(Error::NotFound),
                },
                _ => {
                    proof {
                        assert(false);
                    }
                    Err(Error::NotFound)
                },
            }
        },
    }
}

} // verus!
