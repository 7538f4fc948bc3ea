use vstd::prelude::*;
use vstd::utf8::{decode_utf8, encode_utf8, valid_utf8};
use crate::codec::{decode, model_keys, spec_decode, spec_token_first_id, spec_token_first_key, token_to_id, EntityKind};
use crate::error::Error;
use crate::models::analysis::Analysis;
use crate::models::dataset::Dataset;
use crate::models::dataview::{Dataview, Operation};
use crate::models::model::Model;
use crate::models::plot::{Plot, Type as PlotType};
use crate::models::project::Project;
use crate::models::project_user_role::{ProjectUserRole, Role};
use crate::models::statistic::{Statistic, Type as StatisticType};
use crate::models::user::User;
use crate::models::user_refresh_token::UserRefreshToken;
use crate::num::{parse_dec, parse_u64};
use crate::store::{
    an_has, an_idx, ds_has, ds_idx, dv_has, dv_idx, mo_idx, pl_has, pl_idx, pr_has, pr_idx,
    project_of_analysis, project_of_dataset, project_of_dataview, project_of_model,
    project_of_plot, project_of_project, project_of_statistic, role_has, role_idx, stored_role,
    Store,
};
use crate::models::status::Status;
use crate::text::split_fields;

verus! {

/// Resolves the caller from the request context: anonymous callers are
/// rejected before any role check.
pub fn current_user(principal: &Option<u64>) -> (r: Result<u64, Error>)
    ensures
        (match r {
            Ok(u) => *principal == Some(u),
            Err(e) => e == Error::NotAuthenticated && principal is None,
        }),
{
    match principal {
        Some(u) => Ok(*u),
        None => Err(Error::NotAuthenticated),
    }
}

/// Whether `user` holds the only Admin role of `project`.
pub open spec fn sole_admin(s: Store, project: u64, user: u64) -> bool {
    &&& stored_role(s, project, user) == Some(Role::Admin)
    &&& (forall|i: int|
        0 <= i < s.roles@.len() && (#[trigger] s.roles@[i].project_uuid) == project
            && s.roles@[i].role == Role::Admin ==> s.roles@[i].user_uuid == user)
}

/// Whether some user other than `user` holds an Admin role on `project`.
fn other_admin_exists(store: &Store, project: u64, user: u64) -> (r: bool)
    ensures
        r == exists|i: int|
            0 <= i < store.roles@.len() && (#[trigger] store.roles@[i].project_uuid) == project
                && store.roles@[i].role == Role::Admin && store.roles@[i].user_uuid != user,
{
    let mut i: usize = 0;
    while i < store.roles.len()
        invariant
            i <= store.roles@.len(),
            forall|j: int|
                0 <= j < i ==> !((#[trigger] store.roles@[j].project_uuid) == project
                    && store.roles@[j].role == Role::Admin && store.roles@[j].user_uuid != user),
        decreases store.roles@.len() - i,
    {
        if store.roles[i].project_uuid == project && store.roles[i].role == Role::Admin
            && store.roles[i].user_uuid != user {
            return true;
        }
        i = i + 1;
    }
    false
}


/// The effective role of `user` through an (optional) owning project.
pub open spec fn role_of_chain(s: Store, project: Option<u64>, user: u64) -> Option<Role> {
    match project {
        None => None,
        Some(p) => stored_role(s, p, user),
    }
}

/// The stored role of a user on a project, as an operation result.
fn pur_role(store: &Store, project: u64, user: u64) -> (r: Result<Role, Error>)
    requires
        store.wf(),
    ensures
        (match r {
            Ok(role) => stored_role(*store, project, user) == Some(role),
            Err(e) => e == Error::NotFound && stored_role(*store, project, user) is None,
        }),
{
    match store.role_lookup(project, user) {
        Some(role) => Ok(role),
        None => Err(Error::NotFound),
    }
}

/// The mutation surface of the core: every write is authorized here, before
/// any store change, and the structural guards (last Admin, root dataview)
/// are enforced on this path.
pub struct Mutation;

impl Mutation {
    /// Grants a role on a project; only an Admin of that project may do so.
    pub fn create_role(
        &self,
        store: &mut Store,
        principal: Option<u64>,
        project_uuid: u64,
        user_uuid: u64,
        role: &Role,
    ) -> (r: Result<ProjectUserRole, Error>)
        requires
            old(store).wf(),
        ensures
            final(store).wf(),
            (match r {
                Ok(row) => {
                    &&& principal matches Some(caller) && stored_role(
                        *old(store),
                        project_uuid,
                        caller,
                    ) == Some(Role::Admin)
                    &&& row.project_uuid == project_uuid
                    &&& row.user_uuid == user_uuid
                    &&& row.role == *role
                    &&& final(store).roles@ == old(store).roles@.push(row)
                    &&& *final(store) == (Store { roles: final(store).roles, ..*old(store) })
                },
                Err(e) => {
                    &&& *final(store) == *old(store)
                    &&& (match e {
                        Error::NotAuthenticated => principal is None,
                        Error::InvalidPermissions => principal matches Some(caller) && stored_role(
                            *old(store),
                            project_uuid,
                            caller,
                        ) is None,
                        Error::RequiresAdmin => principal matches Some(caller) && stored_role(
                            *old(store),
                            project_uuid,
                            caller,
                        ) matches Some(got) && got != Role::Admin,
                        Error::NotFound => !us_has_user(*old(store), user_uuid),
                        Error::InvariantViolation => role_has(
                            old(store).roles@,
                            project_uuid,
                            user_uuid,
                        ),
                        _ => false,
                    })
                },
            }),
    {
        let caller = match current_user(&principal) {
            Ok(u) => u,
            Err(e) => {
                return Err(Error::NotAuthenticated);
            },
        };
        match store.role_lookup(project_uuid, caller) {
            Some(got) => {
                if !(got == Role::Admin) {
                    return Err(Error::RequiresAdmin);
                }
            },
            None => {
                return Err(Error::InvalidPermissions);
            },
        }
        ProjectUserRole::create(store, project_uuid, user_uuid, role)
    }

    /// Changes a user's role on a project; only an Admin may do so, and the
    /// sole remaining Admin can never be demoted. Asking for the role the
    /// row already holds returns it untouched, with no update issued.
    pub fn modify_role(
        &self,
        store: &mut Store,
        principal: Option<u64>,
        project_uuid: u64,
        user_uuid: u64,
        role: &Role,
    ) -> (r: Result<ProjectUserRole, Error>)
        requires
            old(store).wf(),
        ensures
            final(store).wf(),
            sole_admin(*old(store), project_uuid, user_uuid) && *role != Role::Admin ==> !(
            r is Ok),
            (match r {
                Ok(row) => {
                    &&& principal matches Some(caller) && stored_role(
                        *old(store),
                        project_uuid,
                        caller,
                    ) == Some(Role::Admin)
                    &&& role_has(old(store).roles@, project_uuid, user_uuid)
                    &&& row.project_uuid == project_uuid
                    &&& row.user_uuid == user_uuid
                    &&& row.role == *role
                    &&& ({
                        let i = role_idx(old(store).roles@, project_uuid, user_uuid);
                        let prev = old(store).roles@[i];
                        &&& (prev.role == *role ==> row == prev && *final(store) == *old(store))
                        &&& (prev.role != *role ==> {
                            &&& row.created_at == prev.created_at
                            &&& row.updated_at == old(store).clock
                            &&& final(store).roles@ == old(store).roles@.update(i, row)
                            &&& *final(store) == (Store {
                                roles: final(store).roles,
                                ..*old(store)
                            })
                            &&& (prev.role == Role::Admin ==> !sole_admin(
                                *old(store),
                                project_uuid,
                                user_uuid,
                            ))
                        })
                    })
                },
                Err(e) => {
                    &&& *final(store) == *old(store)
                    &&& (match e {
                        Error::NotAuthenticated => principal is None,
                        Error::InvalidPermissions => principal matches Some(caller) && (stored_role(
                            *old(store),
                            project_uuid,
                            caller,
                        ) is None || stored_role(*old(store), project_uuid, user_uuid) is None),
                        Error::RequiresAdmin => principal matches Some(caller) && stored_role(
                            *old(store),
                            project_uuid,
                            caller,
                        ) matches Some(got) && got != Role::Admin,
                        Error::InvariantViolation => sole_admin(
                            *old(store),
                            project_uuid,
                            user_uuid,
                        ) && *role != Role::Admin,
                        _ => false,
                    })
                },
            }),
    {
        let caller = match current_user(&principal) {
            Ok(u) => u,
            Err(e) => {
                return Err(Error::NotAuthenticated);
            },
        };
        match store.role_lookup(project_uuid, caller) {
            Some(got) => {
                if !(got == Role::Admin) {
                    return Err(Error::RequiresAdmin);
                }
            },
            None => {
                return Err(Error::InvalidPermissions);
            },
        }
        let prev_row = match ProjectUserRole::get(store, project_uuid, user_uuid) {
            Ok(x) => x,
            Err(e) => {
                return Err(Error::InvalidPermissions);
            },
        };
        if prev_row.role == *role {
            proof {
                if sole_admin(*old(store), project_uuid, user_uuid) && *role != Role::Admin {
                    assert(prev_row.role == Role::Admin);
                }
            }
            return Ok(prev_row);
        }
        if prev_row.role == Role::Admin && !(*role == Role::Admin) {
            if !other_admin_exists(store, project_uuid, user_uuid) {
                proof {
                    assert(sole_admin(*old(store), project_uuid, user_uuid));
                }
                return Err(Error::InvariantViolation);
            }
            proof {
                let w = choose|i: int|
                    0 <= i < store.roles@.len() && (#[trigger] store.roles@[i].project_uuid)
                        == project_uuid && store.roles@[i].role == Role::Admin
                        && store.roles@[i].user_uuid != user_uuid;
                assert(!sole_admin(*old(store), project_uuid, user_uuid));
            }
        }
        proof {
            if sole_admin(*old(store), project_uuid, user_uuid) && *role != Role::Admin {
                assert(prev_row.role == Role::Admin);
            }
        }
        ProjectUserRole::modify(store, project_uuid, user_uuid, role)
    }

    /// Revokes a role row; only an Admin may do so, and the sole remaining
    /// Admin can never be removed.
    pub fn delete_project_user_role(
        &self,
        store: &mut Store,
        principal: Option<u64>,
        project_uuid: u64,
        user_uuid: u64,
    ) -> (r: Result<(), Error>)
        requires
            old(store).wf(),
        ensures
            final(store).wf(),
            sole_admin(*old(store), project_uuid, user_uuid) ==> !(r is Ok),
            (match r {
                Ok(u) => {
                    &&& principal matches Some(caller) && stored_role(
                        *old(store),
                        project_uuid,
                        caller,
                    ) == Some(Role::Admin)
                    &&& role_has(old(store).roles@, project_uuid, user_uuid)
                    &&& !sole_admin(*old(store), project_uuid, user_uuid)
                    &&& final(store).roles@ == old(store).roles@.filter(
                        crate::retain::role_not_pair(project_uuid, user_uuid),
                    )
                    &&& !role_has(final(store).roles@, project_uuid, user_uuid)
                    &&& *final(store) == (Store { roles: final(store).roles, ..*old(store) })
                },
                Err(e) => {
                    &&& *final(store) == *old(store)
                    &&& (match e {
                        Error::NotAuthenticated => principal is None,
                        Error::InvalidPermissions => principal matches Some(caller) && stored_role(
                            *old(store),
                            project_uuid,
                            caller,
                        ) is None,
                        Error::RequiresAdmin => principal matches Some(caller) && stored_role(
                            *old(store),
                            project_uuid,
                            caller,
                        ) matches Some(got) && got != Role::Admin,
                        Error::NotFound => !role_has(old(store).roles@, project_uuid, user_uuid),
                        Error::InvariantViolation => sole_admin(
                            *old(store),
                            project_uuid,
                            user_uuid,
                        ),
                        _ => false,
                    })
                },
            }),
    {
        let caller = match current_user(&principal) {
            Ok(u) => u,
            Err(e) => {
                return Err(Error::NotAuthenticated);
            },
        };
        match store.role_lookup(project_uuid, caller) {
            Some(got) => {
                if !(got == Role::Admin) {
                    return Err(Error::RequiresAdmin);
                }
            },
            None => {
                return Err(Error::InvalidPermissions);
            },
        }
        let prev = match store.role_lookup(project_uuid, user_uuid) {
            Some(prev) => prev,
            None => {
                return Err(Error::NotFound);
            },
        };
        if prev == Role::Admin {
            if !other_admin_exists(store, project_uuid, user_uuid) {
                proof {
                    assert(sole_admin(*old(store), project_uuid, user_uuid));
                }
                return Err(Error::InvariantViolation);
            }
            proof {
                let w = choose|i: int|
                    0 <= i < store.roles@.len() && (#[trigger] store.roles@[i].project_uuid)
                        == project_uuid && store.roles@[i].role == Role::Admin
                        && store.roles@[i].user_uuid != user_uuid;
                assert(!sole_admin(*old(store), project_uuid, user_uuid));
            }
        } else {
            proof {
                assert(!sole_admin(*old(store), project_uuid, user_uuid));
            }
        }
        match ProjectUserRole::delete(store, project_uuid, user_uuid) {
            Ok(u) => {
                proof {
                    broadcast use vstd::seq_lib::group_filter_ensures;

                    let pred = crate::retain::role_not_pair(project_uuid, user_uuid);
                    assert forall|i: int|
                        0 <= i < store.roles@.len() implies !((
                        #[trigger] store.roles@[i].project_uuid) == project_uuid
                        && store.roles@[i].user_uuid == user_uuid) by {
                        let a = crate::store::lemma_filter_member_src(
                            old(store).roles@,
                            pred,
                            i,
                        );
                        assert(pred(old(store).roles@[a]));
                    }
                }
                Ok(())
            },
            Err(e) => {
                proof {
                    assert(false);
                }
                Err(Error::NotFound)
            },
        }
    }

    /// Renames a project; needs at least the Editor role on it.
    pub fn rename_project(&self, store: &mut Store, principal: Option<u64>, token: &String, name: &str) -> (r: Result<Project, Error>)
        requires
            old(store).wf(),
        ensures
            final(store).wf(),
            (match r {
                Ok(out) => {
                    &&& spec_token_first_id(token@) is Some
                    &&& principal matches Some(caller)
                    &&& role_of_chain(
                        *old(store),
                        project_of_project(*old(store), spec_token_first_id(token@).unwrap()),
                        caller,
                    ) matches Some(got) && got != Role::Viewer
                    &&& out.uuid == spec_token_first_id(token@).unwrap()
                    &&& out.name@ == name@
                    &&& final(store).projects@ == old(store).projects@.update(
                        pr_idx(old(store).projects@, out.uuid),
                        out,
                    )
                    &&& *final(store) == (Store {
                        projects: final(store).projects,
                        ..*old(store)
                    })
                },
                Err(e) => {
                    &&& *final(store) == *old(store)
                    &&& (match e {
                        Error::InvalidToken => spec_token_first_id(token@) is None,
                        Error::NotAuthenticated => principal is None,
                        Error::InvalidPermissions => principal matches Some(caller)
                            && spec_token_first_id(token@) matches Some(id) && role_of_chain(
                            *old(store),
                            project_of_project(*old(store), id),
                            caller,
                        ) is None,
                        Error::RequiresEditor => principal matches Some(caller)
                            && spec_token_first_id(token@) matches Some(id) && role_of_chain(
                            *old(store),
                            project_of_project(*old(store), id),
                            caller,
                        ) == Some(Role::Viewer),
                        _ => false,
                    })
                },
            }),
    {
        let id = match token_to_id(token) {
            Ok(id) => id,
            Err(e) => {
                return Err(Error::InvalidToken);
            },
        };
        let caller = match current_user(&principal) {
            Ok(u) => u,
            Err(e) => {
                return Err(Error::NotAuthenticated);
            },
        };
        let got = match pur_role(store, id, caller) {
            Ok(got) => got,
            Err(e) => {
                return Err(Error::InvalidPermissions);
            },
        };
        if got == Role::Viewer {
            return Err(Error::RequiresEditor);
        }

        Project::rename(store, id, name)
    }

    /// Marks a project public; only an Admin of it may do so.
    pub fn make_project_public(&self, store: &mut Store, principal: Option<u64>, token: &String) -> (r: Result<Project, Error>)
        requires
            old(store).wf(),
        ensures
            final(store).wf(),
            (match r {
                Ok(out) => {
                    &&& spec_token_first_id(token@) is Some
                    &&& principal matches Some(caller)
                    &&& role_of_chain(
                        *old(store),
                        project_of_project(*old(store), spec_token_first_id(token@).unwrap()),
                        caller,
                    ) == Some(Role::Admin)
                    &&& out.uuid == spec_token_first_id(token@).unwrap()
                    &&& out.is_public
                    &&& final(store).projects@ == old(store).projects@.update(
                        pr_idx(old(store).projects@, out.uuid),
                        out,
                    )
                    &&& *final(store) == (Store {
                        projects: final(store).projects,
                        ..*old(store)
                    })
                },
                Err(e) => {
                    &&& *final(store) == *old(store)
                    &&& (match e {
                        Error::InvalidToken => spec_token_first_id(token@) is None,
                        Error::NotAuthenticated => principal is None,
                        Error::InvalidPermissions => principal matches Some(caller)
                            && spec_token_first_id(token@) matches Some(id) && role_of_chain(
                            *old(store),
                            project_of_project(*old(store), id),
                            caller,
                        ) is None,
                        Error::RequiresAdmin => principal matches Some(caller)
                            && spec_token_first_id(token@) matches Some(id) && role_of_chain(
                            *old(store),
                            project_of_project(*old(store), id),
                            caller,
                        ) matches Some(got) && got != Role::Admin,
                        _ => false,
                    })
                },
            }),
    {
        let id = match token_to_id(token) {
            Ok(id) => id,
            Err(e) => {
                return Err(Error::InvalidToken);
            },
        };
        let caller = match current_user(&principal) {
            Ok(u) => u,
            Err(e) => {
                return Err(Error::NotAuthenticated);
            },
        };
        let got = match pur_role(store, id, caller) {
            Ok(got) => got,
            Err(e) => {
                return Err(Error::InvalidPermissions);
            },
        };
        if !(got == Role::Admin) {
            return Err(Error::RequiresAdmin);
        }

        Project::make_public(store, id)
    }

    /// Deletes a project and everything it owns; only an Admin may do so.
    pub fn delete_project(&self, store: &mut Store, principal: Option<u64>, token: &String) -> (r: Result<(), Error>)
        requires
            old(store).wf(),
        ensures
            final(store).wf(),
            (match r {
                Ok(out) => {
                    &&& spec_token_first_id(token@) is Some
                    &&& principal matches Some(caller)
                    &&& role_of_chain(
                        *old(store),
                        project_of_project(*old(store), spec_token_first_id(token@).unwrap()),
                        caller,
                    ) == Some(Role::Admin)
                    &&& ({
                        let id = spec_token_first_id(token@).unwrap();
                        &&& !pr_has(final(store).projects@, id)
                        &&& final(store).projects@ == old(store).projects@.filter(
                            (|p: Project| p.uuid != id),
                        )
                        &&& final(store).roles@ == old(store).roles@.filter(
                            (|rr: ProjectUserRole| rr.project_uuid != id),
                        )
                        &&& final(store).datasets@ == old(store).datasets@.filter(
                            (|d: Dataset| d.project_uuid != id),
                        )
                        &&& final(store).analyses@ == old(store).analyses@.filter(
                            (|a: Analysis| !crate::store::dataset_under_project(
                                *old(store),
                                id,
                                a.dataset_uuid,
                            )),
                        )
                        &&& final(store).dataviews@ == old(store).dataviews@.filter(
                            (|d: Dataview| !crate::store::analysis_under_project(
                                *old(store),
                                id,
                                d.analysis_uuid,
                            )),
                        )
                        &&& final(store).plots@ == old(store).plots@.filter(
                            (|p: Plot| !crate::store::dataview_under_project(
                                *old(store),
                                id,
                                p.dataview_uuid,
                            )),
                        )
                        &&& final(store).statistics@ == old(store).statistics@.filter(
                            (|p: Statistic| !crate::store::dataview_under_project(
                                *old(store),
                                id,
                                p.dataview_uuid,
                            )),
                        )
                        &&& final(store).models@ == old(store).models@.filter(
                            (|p: Model| !crate::store::dataview_under_project(
                                *old(store),
                                id,
                                p.dataview_uuid,
                            )),
                        )
                        &&& final(store).users@ == old(store).users@
                        &&& final(store).refresh_tokens@ == old(store).refresh_tokens@
                        &&& final(store).next_id == old(store).next_id
                        &&& final(store).clock == old(store).clock
                    })
                },
                Err(e) => {
                    &&& *final(store) == *old(store)
                    &&& (match e {
                        Error::InvalidToken => spec_token_first_id(token@) is None,
                        Error::NotAuthenticated => principal is None,
                        Error::InvalidPermissions => principal matches Some(caller)
                            && spec_token_first_id(token@) matches Some(id) && role_of_chain(
                            *old(store),
                            project_of_project(*old(store), id),
                            caller,
                        ) is None,
                        Error::RequiresAdmin => principal matches Some(caller)
                            && spec_token_first_id(token@) matches Some(id) && role_of_chain(
                            *old(store),
                            project_of_project(*old(store), id),
                            caller,
                        ) matches Some(got) && got != Role::Admin,
                        _ => false,
                    })
                },
            }),
    {
        let id = match token_to_id(token) {
            Ok(id) => id,
            Err(e) => {
                return Err(Error::InvalidToken);
            },
        };
        let caller = match current_user(&principal) {
            Ok(u) => u,
            Err(e) => {
                return Err(Error::NotAuthenticated);
            },
        };
        let got = match pur_role(store, id, caller) {
            Ok(got) => got,
            Err(e) => {
                return Err(Error::InvalidPermissions);
            },
        };
        if !(got == Role::Admin) {
            return Err(Error::RequiresAdmin);
        }

        Project::delete(store, id)
    }

    /// Creates a dataset under a project; needs at least the Editor role.
    pub fn create_dataset(&self, store: &mut Store, principal: Option<u64>, token: &String, name: &str, uri: &str) -> (r: Result<Dataset, Error>)
        requires
            old(store).wf(),
            old(store).next_id < u64::MAX,
        ensures
            final(store).wf(),
            (match r {
                Ok(out) => {
                    &&& spec_token_first_id(token@) is Some
                    &&& principal matches Some(caller)
                    &&& role_of_chain(
                        *old(store),
                        project_of_project(*old(store), spec_token_first_id(token@).unwrap()),
                        caller,
                    ) matches Some(got) && got != Role::Viewer
                    &&& out.project_uuid == spec_token_first_id(token@).unwrap()
                    &&& out.name@ == name@
                    &&& out.uri@ == uri@
                    &&& out.status == Status::Queued
                    &&& out.uuid == old(store).next_id
                    &&& final(store).datasets@ == old(store).datasets@.push(out)
                    &&& final(store).next_id == old(store).next_id + 1
                    &&& *final(store) == (Store {
                        datasets: final(store).datasets,
                        next_id: final(store).next_id,
                        ..*old(store)
                    })
                },
                Err(e) => {
                    &&& *final(store) == *old(store)
                    &&& (match e {
                        Error::InvalidToken => spec_token_first_id(token@) is None,
                        Error::NotAuthenticated => principal is None,
                        Error::InvalidPermissions => principal matches Some(caller)
                            && spec_token_first_id(token@) matches Some(id) && role_of_chain(
                            *old(store),
                            project_of_project(*old(store), id),
                            caller,
                        ) is None,
                        Error::RequiresEditor => principal matches Some(caller)
                            && spec_token_first_id(token@) matches Some(id) && role_of_chain(
                            *old(store),
                            project_of_project(*old(store), id),
                            caller,
                        ) == Some(Role::Viewer),
                        _ => false,
                    })
                },
            }),
    {
        let id = match token_to_id(token) {
            Ok(id) => id,
            Err(e) => {
                return Err(Error::InvalidToken);
            },
        };
        let caller = match current_user(&principal) {
            Ok(u) => u,
            Err(e) => {
                return Err(Error::NotAuthenticated);
            },
        };
        let got = match pur_role(store, id, caller) {
            Ok(got) => got,
            Err(e) => {
                return Err(Error::InvalidPermissions);
            },
        };
        if got == Role::Viewer {
            return Err(Error::RequiresEditor);
        }

        Dataset::create(store, id, name, uri)
    }

    /// Renames a dataset; needs at least the Editor role on its project.
    pub fn rename_dataset(&self, store: &mut Store, principal: Option<u64>, token: &String, name: &str) -> (r: Result<Dataset, Error>)
        requires
            old(store).wf(),
        ensures
            final(store).wf(),
            (match r {
                Ok(out) => {
                    &&& spec_token_first_id(token@) is Some
                    &&& principal matches Some(caller)
                    &&& role_of_chain(
                        *old(store),
                        project_of_dataset(*old(store), spec_token_first_id(token@).unwrap()),
                        caller,
                    ) matches Some(got) && got != Role::Viewer
                    &&& out.uuid == spec_token_first_id(token@).unwrap()
                    &&& out.name@ == name@
                    &&& final(store).datasets@ == old(store).datasets@.update(
                        ds_idx(old(store).datasets@, out.uuid),
                        out,
                    )
                    &&& *final(store) == (Store {
                        datasets: final(store).datasets,
                        ..*old(store)
                    })
                },
                Err(e) => {
                    &&& *final(store) == *old(store)
                    &&& (match e {
                        Error::InvalidToken => spec_token_first_id(token@) is None,
                        Error::NotAuthenticated => principal is None,
                        Error::InvalidPermissions => principal matches Some(caller)
                            && spec_token_first_id(token@) matches Some(id) && role_of_chain(
                            *old(store),
                            project_of_dataset(*old(store), id),
                            caller,
                        ) is None,
                        Error::RequiresEditor => principal matches Some(caller)
                            && spec_token_first_id(token@) matches Some(id) && role_of_chain(
                            *old(store),
                            project_of_dataset(*old(store), id),
                            caller,
                        ) == Some(Role::Viewer),
                        _ => false,
                    })
                },
            }),
    {
        let id = match token_to_id(token) {
            Ok(id) => id,
            Err(e) => {
                return Err(Error::InvalidToken);
            },
        };
        let caller = match current_user(&principal) {
            Ok(u) => u,
            Err(e) => {
                return Err(Error::NotAuthenticated);
            },
        };
        let got = match Dataset::role(store, id, caller) {
            Ok(got) => got,
            Err(e) => {
                return Err(Error::InvalidPermissions);
            },
        };
        if got == Role::Viewer {
            return Err(Error::RequiresEditor);
        }

        Dataset::rename(store, id, name)
    }

    /// Deletes a dataset and everything under it; needs at least Editor.
    pub fn delete_dataset(&self, store: &mut Store, principal: Option<u64>, token: &String) -> (r: Result<(), Error>)
        requires
            old(store).wf(),
        ensures
            final(store).wf(),
            (match r {
                Ok(out) => {
                    &&& spec_token_first_id(token@) is Some
                    &&& principal matches Some(caller)
                    &&& role_of_chain(
                        *old(store),
                        project_of_dataset(*old(store), spec_token_first_id(token@).unwrap()),
                        caller,
                    ) matches Some(got) && got != Role::Viewer
                    &&& ({
                        let id = spec_token_first_id(token@).unwrap();
                        &&& !ds_has(final(store).datasets@, id)
                        &&& final(store).datasets@ == old(store).datasets@.filter(
                            (|d: Dataset| d.uuid != id),
                        )
                        &&& final(store).analyses@ == old(store).analyses@.filter(
                            (|a: Analysis| a.dataset_uuid != id),
                        )
                        &&& final(store).dataviews@ == old(store).dataviews@.filter(
                            (|d: Dataview| !crate::store::analysis_under_dataset(
                                *old(store),
                                id,
                                d.analysis_uuid,
                            )),
                        )
                        &&& final(store).plots@ == old(store).plots@.filter(
                            (|p: Plot| !crate::store::dataview_under_dataset(
                                *old(store),
                                id,
                                p.dataview_uuid,
                            )),
                        )
                        &&& final(store).statistics@ == old(store).statistics@.filter(
                            (|p: Statistic| !crate::store::dataview_under_dataset(
                                *old(store),
                                id,
                                p.dataview_uuid,
                            )),
                        )
                        &&& final(store).models@ == old(store).models@.filter(
                            (|p: Model| !crate::store::dataview_under_dataset(
                                *old(store),
                                id,
                                p.dataview_uuid,
                            )),
                        )
                        &&& final(store).users@ == old(store).users@
                        &&& final(store).projects@ == old(store).projects@
                        &&& final(store).roles@ == old(store).roles@
                        &&& final(store).refresh_tokens@ == old(store).refresh_tokens@
                        &&& final(store).next_id == old(store).next_id
                        &&& final(store).clock == old(store).clock
                    })
                },
                Err(e) => {
                    &&& *final(store) == *old(store)
                    &&& (match e {
                        Error::InvalidToken => spec_token_first_id(token@) is None,
                        Error::NotAuthenticated => principal is None,
                        Error::InvalidPermissions => principal matches Some(caller)
                            && spec_token_first_id(token@) matches Some(id) && role_of_chain(
                            *old(store),
                            project_of_dataset(*old(store), id),
                            caller,
                        ) is None,
                        Error::RequiresEditor => principal matches Some(caller)
                            && spec_token_first_id(token@) matches Some(id) && role_of_chain(
                            *old(store),
                            project_of_dataset(*old(store), id),
                            caller,
                        ) == Some(Role::Viewer),
                        _ => false,
                    })
                },
            }),
    {
        let id = match token_to_id(token) {
            Ok(id) => id,
            Err(e) => {
                return Err(Error::InvalidToken);
            },
        };
        let caller = match current_user(&principal) {
            Ok(u) => u,
            Err(e) => {
                return Err(Error::NotAuthenticated);
            },
        };
        let got = match Dataset::role(store, id, caller) {
            Ok(got) => got,
            Err(e) => {
                return Err(Error::InvalidPermissions);
            },
        };
        if got == Role::Viewer {
            return Err(Error::RequiresEditor);
        }

        Dataset::delete(store, id)
    }

    /// Creates an analysis (with its root dataview) under a dataset; needs at least Editor.
    pub fn create_analysis(&self, store: &mut Store, principal: Option<u64>, token: &String, name: &str) -> (r: Result<Analysis, Error>)
        requires
            old(store).wf(),
            old(store).next_id + 1 < u64::MAX,
        ensures
            final(store).wf(),
            (match r {
                Ok(out) => {
                    &&& spec_token_first_id(token@) is Some
                    &&& principal matches Some(caller)
                    &&& role_of_chain(
                        *old(store),
                        project_of_dataset(*old(store), spec_token_first_id(token@).unwrap()),
                        caller,
                    ) matches Some(got) && got != Role::Viewer
                    &&& out.dataset_uuid == spec_token_first_id(token@).unwrap()
                    &&& out.name@ == name@
                    &&& out.uuid == old(store).next_id
                    &&& out.dataview_uuid == old(store).next_id + 1
                    &&& final(store).analyses@ == old(store).analyses@.push(out)
                    &&& final(store).dataviews@ == old(store).dataviews@.push(
                        (Dataview {
                            created_at: old(store).clock,
                            updated_at: old(store).clock,
                            analysis_uuid: out.uuid,
                            uuid: out.dataview_uuid,
                            parent_uuid: out.dataview_uuid,
                            operation: Operation::Create,
                            args: None,
                            status: Status::Completed,
                        }),
                    )
                    &&& final(store).next_id == old(store).next_id + 2
                    &&& final(store).users@ == old(store).users@
                    &&& final(store).projects@ == old(store).projects@
                    &&& final(store).roles@ == old(store).roles@
                    &&& final(store).datasets@ == old(store).datasets@
                    &&& final(store).plots@ == old(store).plots@
                    &&& final(store).statistics@ == old(store).statistics@
                    &&& final(store).models@ == old(store).models@
                    &&& final(store).refresh_tokens@ == old(store).refresh_tokens@
                    &&& final(store).clock == old(store).clock
                },
                Err(e) => {
                    &&& *final(store) == *old(store)
                    &&& (match e {
                        Error::InvalidToken => spec_token_first_id(token@) is None,
                        Error::NotAuthenticated => principal is None,
                        Error::InvalidPermissions => principal matches Some(caller)
                            && spec_token_first_id(token@) matches Some(id) && role_of_chain(
                            *old(store),
                            project_of_dataset(*old(store), id),
                            caller,
                        ) is None,
                        Error::RequiresEditor => principal matches Some(caller)
                            && spec_token_first_id(token@) matches Some(id) && role_of_chain(
                            *old(store),
                            project_of_dataset(*old(store), id),
                            caller,
                        ) == Some(Role::Viewer),
                        _ => false,
                    })
                },
            }),
    {
        let id = match token_to_id(token) {
            Ok(id) => id,
            Err(e) => {
                return Err(Error::InvalidToken);
            },
        };
        let caller = match current_user(&principal) {
            Ok(u) => u,
            Err(e) => {
                return Err(Error::NotAuthenticated);
            },
        };
        let got = match Dataset::role(store, id, caller) {
            Ok(got) => got,
            Err(e) => {
                return Err(Error::InvalidPermissions);
            },
        };
        if got == Role::Viewer {
            return Err(Error::RequiresEditor);
        }

        Analysis::create(store, id, name)
    }

    /// Renames an analysis; needs at least Editor.
    pub fn rename_analysis(&self, store: &mut Store, principal: Option<u64>, token: &String, name: &str) -> (r: Result<Analysis, Error>)
        requires
            old(store).wf(),
        ensures
            final(store).wf(),
            (match r {
                Ok(out) => {
                    &&& spec_token_first_id(token@) is Some
                    &&& principal matches Some(caller)
                    &&& role_of_chain(
                        *old(store),
                        project_of_analysis(*old(store), spec_token_first_id(token@).unwrap()),
                        caller,
                    ) matches Some(got) && got != Role::Viewer
                    &&& out.uuid == spec_token_first_id(token@).unwrap()
                    &&& out.name@ == name@
                    &&& final(store).analyses@ == old(store).analyses@.update(
                        an_idx(old(store).analyses@, out.uuid),
                        out,
                    )
                    &&& *final(store) == (Store {
                        analyses: final(store).analyses,
                        ..*old(store)
                    })
                },
                Err(e) => {
                    &&& *final(store) == *old(store)
                    &&& (match e {
                        Error::InvalidToken => spec_token_first_id(token@) is None,
                        Error::NotAuthenticated => principal is None,
                        Error::InvalidPermissions => principal matches Some(caller)
                            && spec_token_first_id(token@) matches Some(id) && role_of_chain(
                            *old(store),
                            project_of_analysis(*old(store), id),
                            caller,
                        ) is None,
                        Error::RequiresEditor => principal matches Some(caller)
                            && spec_token_first_id(token@) matches Some(id) && role_of_chain(
                            *old(store),
                            project_of_analysis(*old(store), id),
                            caller,
                        ) == Some(Role::Viewer),
                        _ => false,
                    })
                },
            }),
    {
        let id = match token_to_id(token) {
            Ok(id) => id,
            Err(e) => {
                return Err(Error::InvalidToken);
            },
        };
        let caller = match current_user(&principal) {
            Ok(u) => u,
            Err(e) => {
                return Err(Error::NotAuthenticated);
            },
        };
        let got = match Analysis::role(store, id, caller) {
            Ok(got) => got,
            Err(e) => {
                return Err(Error::InvalidPermissions);
            },
        };
        if got == Role::Viewer {
            return Err(Error::RequiresEditor);
        }

        Analysis::rename(store, id, name)
    }

    /// Points an analysis at one of its own dataviews as the current one;
    /// needs at least Editor. Artifacts stay bound to the dataviews they
    /// were created on; nothing is re-linked.
    pub fn set_analysis_dataview(
        &self,
        store: &mut Store,
        principal: Option<u64>,
        analysis_token: &String,
        dataview_token: &String,
    ) -> (r: Result<Analysis, Error>)
        requires
            old(store).wf(),
        ensures
            final(store).wf(),
            (match r {
                Ok(out) => {
                    &&& spec_token_first_id(analysis_token@) matches Some(id)
                    &&& spec_token_first_id(dataview_token@) matches Some(dv)
                    &&& principal matches Some(caller)
                    &&& role_of_chain(
                        *old(store),
                        project_of_analysis(
                            *old(store),
                            spec_token_first_id(analysis_token@).unwrap(),
                        ),
                        caller,
                    ) matches Some(got) && got != Role::Viewer
                    &&& ({
                        let id = spec_token_first_id(analysis_token@).unwrap();
                        let dv = spec_token_first_id(dataview_token@).unwrap();
                        &&& dv_has(old(store).dataviews@, dv)
                        &&& old(store).dataviews@[dv_idx(old(store).dataviews@, dv)].analysis_uuid
                            == id
                        &&& out.uuid == id
                        &&& out.dataview_uuid == dv
                        &&& final(store).analyses@ == old(store).analyses@.update(
                            an_idx(old(store).analyses@, id),
                            out,
                        )
                        &&& *final(store) == (Store {
                            analyses: final(store).analyses,
                            ..*old(store)
                        })
                    })
                },
                Err(e) => {
                    &&& *final(store) == *old(store)
                    &&& (match e {
                        Error::InvalidToken => spec_token_first_id(analysis_token@) is None
                            || spec_token_first_id(dataview_token@) is None,
                        Error::NotAuthenticated => principal is None,
                        Error::InvalidPermissions => principal matches Some(caller) && (
                        spec_token_first_id(analysis_token@) matches Some(id) && role_of_chain(
                            *old(store),
                            project_of_analysis(*old(store), id),
                            caller,
                        ) is None),
                        Error::RequiresEditor => principal matches Some(caller) && (
                        spec_token_first_id(analysis_token@) matches Some(id) && role_of_chain(
                            *old(store),
                            project_of_analysis(*old(store), id),
                            caller,
                        ) == Some(Role::Viewer)),
                        Error::NotFound => spec_token_first_id(analysis_token@) matches Some(id)
                            && (spec_token_first_id(dataview_token@) matches Some(dv) && (!dv_has(
                            old(store).dataviews@,
                            dv,
                        ) || old(store).dataviews@[dv_idx(
                            old(store).dataviews@,
                            dv,
                        )].analysis_uuid != id)),
                        _ => false,
                    })
                },
            }),
    {
        let id = match token_to_id(analysis_token) {
            Ok(id) => id,
            Err(e) => {
                return Err(Error::InvalidToken);
            },
        };
        let dv = match token_to_id(dataview_token) {
            Ok(dv) => dv,
            Err(e) => {
                return Err(Error::InvalidToken);
            },
        };
        let caller = match current_user(&principal) {
            Ok(u) => u,
            Err(e) => {
                return Err(Error::NotAuthenticated);
            },
        };
        let got = match Analysis::role(store, id, caller) {
            Ok(got) => got,
            Err(e) => {
                return Err(Error::InvalidPermissions);
            },
        };
        if got == Role::Viewer {
            return Err(Error::RequiresEditor);
        }
        Analysis::point_to(store, id, dv)
    }

    /// Deletes an analysis with its dataviews and artifacts; needs at least Editor.
    pub fn delete_analysis(&self, store: &mut Store, principal: Option<u64>, token: &String) -> (r: Result<(), Error>)
        requires
            old(store).wf(),
        ensures
            final(store).wf(),
            (match r {
                Ok(out) => {
                    &&& spec_token_first_id(token@) is Some
                    &&& principal matches Some(caller)
                    &&& role_of_chain(
                        *old(store),
                        project_of_analysis(*old(store), spec_token_first_id(token@).unwrap()),
                        caller,
                    ) matches Some(got) && got != Role::Viewer
                    &&& ({
                        let id = spec_token_first_id(token@).unwrap();
                        &&& !an_has(final(store).analyses@, id)
                        &&& final(store).analyses@ == old(store).analyses@.filter(
                            (|a: Analysis| a.uuid != id),
                        )
                        &&& final(store).dataviews@ == old(store).dataviews@.filter(
                            (|d: Dataview| d.analysis_uuid != id),
                        )
                        &&& final(store).plots@ == old(store).plots@.filter(
                            (|p: Plot| !crate::store::dataview_under_analysis(
                                *old(store),
                                id,
                                p.dataview_uuid,
                            )),
                        )
                        &&& final(store).statistics@ == old(store).statistics@.filter(
                            (|p: Statistic| !crate::store::dataview_under_analysis(
                                *old(store),
                                id,
                                p.dataview_uuid,
                            )),
                        )
                        &&& final(store).models@ == old(store).models@.filter(
                            (|p: Model| !crate::store::dataview_under_analysis(
                                *old(store),
                                id,
                                p.dataview_uuid,
                            )),
                        )
                        &&& final(store).users@ == old(store).users@
                        &&& final(store).projects@ == old(store).projects@
                        &&& final(store).roles@ == old(store).roles@
                        &&& final(store).datasets@ == old(store).datasets@
                        &&& final(store).refresh_tokens@ == old(store).refresh_tokens@
                        &&& final(store).next_id == old(store).next_id
                        &&& final(store).clock == old(store).clock
                    })
                },
                Err(e) => {
                    &&& *final(store) == *old(store)
                    &&& (match e {
                        Error::InvalidToken => spec_token_first_id(token@) is None,
                        Error::NotAuthenticated => principal is None,
                        Error::InvalidPermissions => principal matches Some(caller)
                            && spec_token_first_id(token@) matches Some(id) && role_of_chain(
                            *old(store),
                            project_of_analysis(*old(store), id),
                            caller,
                        ) is None,
                        Error::RequiresEditor => principal matches Some(caller)
                            && spec_token_first_id(token@) matches Some(id) && role_of_chain(
                            *old(store),
                            project_of_analysis(*old(store), id),
                            caller,
                        ) == Some(Role::Viewer),
                        _ => false,
                    })
                },
            }),
    {
        let id = match token_to_id(token) {
            Ok(id) => id,
            Err(e) => {
                return Err(Error::InvalidToken);
            },
        };
        let caller = match current_user(&principal) {
            Ok(u) => u,
            Err(e) => {
                return Err(Error::NotAuthenticated);
            },
        };
        let got = match Analysis::role(store, id, caller) {
            Ok(got) => got,
            Err(e) => {
                return Err(Error::InvalidPermissions);
            },
        };
        if got == Role::Viewer {
            return Err(Error::RequiresEditor);
        }

        Analysis::delete(store, id)
    }

    /// Creates a dataview as a child of the given one; needs at least Editor.
    pub fn create_dataview(&self, store: &mut Store, principal: Option<u64>, token: &String, operation: &Operation, args: &str) -> (r: Result<Dataview, Error>)
        requires
            old(store).wf(),
            old(store).next_id < u64::MAX,
        ensures
            final(store).wf(),
            (match r {
                Ok(out) => {
                    &&& spec_token_first_id(token@) is Some
                    &&& principal matches Some(caller)
                    &&& role_of_chain(
                        *old(store),
                        project_of_dataview(*old(store), spec_token_first_id(token@).unwrap()),
                        caller,
                    ) matches Some(got) && got != Role::Viewer
                    &&& out.parent_uuid == spec_token_first_id(token@).unwrap()
                    &&& out.analysis_uuid == old(store).dataviews@[dv_idx(
                        old(store).dataviews@,
                        out.parent_uuid,
                    )].analysis_uuid
                    &&& out.operation == *operation
                    &&& out.args matches Some(a2) && a2@ == args@
                    &&& out.status == Status::Queued
                    &&& out.uuid == old(store).next_id
                    &&& final(store).dataviews@ == old(store).dataviews@.push(out)
                    &&& final(store).next_id == old(store).next_id + 1
                    &&& *final(store) == (Store {
                        dataviews: final(store).dataviews,
                        next_id: final(store).next_id,
                        ..*old(store)
                    })
                },
                Err(e) => {
                    &&& *final(store) == *old(store)
                    &&& (match e {
                        Error::InvalidToken => spec_token_first_id(token@) is None,
                        Error::NotAuthenticated => principal is None,
                        Error::InvalidPermissions => principal matches Some(caller)
                            && spec_token_first_id(token@) matches Some(id) && role_of_chain(
                            *old(store),
                            project_of_dataview(*old(store), id),
                            caller,
                        ) is None,
                        Error::RequiresEditor => principal matches Some(caller)
                            && spec_token_first_id(token@) matches Some(id) && role_of_chain(
                            *old(store),
                            project_of_dataview(*old(store), id),
                            caller,
                        ) == Some(Role::Viewer),
                        _ => false,
                    })
                },
            }),
    {
        let id = match token_to_id(token) {
            Ok(id) => id,
            Err(e) => {
                return Err(Error::InvalidToken);
            },
        };
        let caller = match current_user(&principal) {
            Ok(u) => u,
            Err(e) => {
                return Err(Error::NotAuthenticated);
            },
        };
        let got = match Dataview::role(store, id, caller) {
            Ok(got) => got,
            Err(e) => {
                return Err(Error::InvalidPermissions);
            },
        };
        if got == Role::Viewer {
            return Err(Error::RequiresEditor);
        }

        Dataview::create(store, id, operation, args)
    }

    /// Creates a statistic on a dataview; needs at least Editor.
    pub fn create_statistic(&self, store: &mut Store, principal: Option<u64>, token: &String, type_: &StatisticType, args: &str) -> (r: Result<Statistic, Error>)
        requires
            old(store).wf(),
            old(store).next_id < u64::MAX,
        ensures
            final(store).wf(),
            (match r {
                Ok(out) => {
                    &&& spec_token_first_id(token@) is Some
                    &&& principal matches Some(caller)
                    &&& role_of_chain(
                        *old(store),
                        project_of_dataview(*old(store), spec_token_first_id(token@).unwrap()),
                        caller,
                    ) matches Some(got) && got != Role::Viewer
                    &&& out.dataview_uuid == spec_token_first_id(token@).unwrap()
                    &&& out.type_ == *type_
                    &&& out.args@ == args@
                    &&& out.status == Status::Queued
                    &&& out.uuid == old(store).next_id
                    &&& final(store).statistics@ == old(store).statistics@.push(out)
                    &&& final(store).next_id == old(store).next_id + 1
                    &&& *final(store) == (Store {
                        statistics: final(store).statistics,
                        next_id: final(store).next_id,
                        ..*old(store)
                    })
                },
                Err(e) => {
                    &&& *final(store) == *old(store)
                    &&& (match e {
                        Error::InvalidToken => spec_token_first_id(token@) is None,
                        Error::NotAuthenticated => principal is None,
                        Error::InvalidPermissions => principal matches Some(caller)
                            && spec_token_first_id(token@) matches Some(id) && role_of_chain(
                            *old(store),
                            project_of_dataview(*old(store), id),
                            caller,
                        ) is None,
                        Error::RequiresEditor => principal matches Some(caller)
                            && spec_token_first_id(token@) matches Some(id) && role_of_chain(
                            *old(store),
                            project_of_dataview(*old(store), id),
                            caller,
                        ) == Some(Role::Viewer),
                        _ => false,
                    })
                },
            }),
    {
        let id = match token_to_id(token) {
            Ok(id) => id,
            Err(e) => {
                return Err(Error::InvalidToken);
            },
        };
        let caller = match current_user(&principal) {
            Ok(u) => u,
            Err(e) => {
                return Err(Error::NotAuthenticated);
            },
        };
        let got = match Dataview::role(store, id, caller) {
            Ok(got) => got,
            Err(e) => {
                return Err(Error::InvalidPermissions);
            },
        };
        if got == Role::Viewer {
            return Err(Error::RequiresEditor);
        }

        Statistic::create(store, id, type_, args)
    }

    /// Deletes a statistic; needs at least Editor.
    pub fn delete_statistic(&self, store: &mut Store, principal: Option<u64>, token: &String) -> (r: Result<(), Error>)
        requires
            old(store).wf(),
        ensures
            final(store).wf(),
            (match r {
                Ok(out) => {
                    &&& spec_token_first_id(token@) is Some
                    &&& principal matches Some(caller)
                    &&& role_of_chain(
                        *old(store),
                        project_of_statistic(*old(store), spec_token_first_id(token@).unwrap()),
                        caller,
                    ) matches Some(got) && got != Role::Viewer
                    &&& ({
                        let id = spec_token_first_id(token@).unwrap();
                        &&& !crate::store::st_has(final(store).statistics@, id)
                        &&& final(store).statistics@ == old(store).statistics@.filter(
                            (|p: Statistic| p.uuid != id),
                        )
                        &&& *final(store) == (Store {
                            statistics: final(store).statistics,
                            ..*old(store)
                        })
                    })
                },
                Err(e) => {
                    &&& *final(store) == *old(store)
                    &&& (match e {
                        Error::InvalidToken => spec_token_first_id(token@) is None,
                        Error::NotAuthenticated => principal is None,
                        Error::InvalidPermissions => principal matches Some(caller)
                            && spec_token_first_id(token@) matches Some(id) && role_of_chain(
                            *old(store),
                            project_of_statistic(*old(store), id),
                            caller,
                        ) is None,
                        Error::RequiresEditor => principal matches Some(caller)
                            && spec_token_first_id(token@) matches Some(id) && role_of_chain(
                            *old(store),
                            project_of_statistic(*old(store), id),
                            caller,
                        ) == Some(Role::Viewer),
                        _ => false,
                    })
                },
            }),
    {
        let id = match token_to_id(token) {
            Ok(id) => id,
            Err(e) => {
                return Err(Error::InvalidToken);
            },
        };
        let caller = match current_user(&principal) {
            Ok(u) => u,
            Err(e) => {
                return Err(Error::NotAuthenticated);
            },
        };
        let got = match Statistic::role(store, id, caller) {
            Ok(got) => got,
            Err(e) => {
                return Err(Error::InvalidPermissions);
            },
        };
        if got == Role::Viewer {
            return Err(Error::RequiresEditor);
        }

        Statistic::delete(store, id)
    }

    /// Creates a plot on a dataview; needs at least Editor. The caller then dispatches the render job.
    pub fn create_plot(&self, store: &mut Store, principal: Option<u64>, token: &String, name: &str, type_: &PlotType, args: &str) -> (r: Result<Plot, Error>)
        requires
            old(store).wf(),
            old(store).next_id < u64::MAX,
        ensures
            final(store).wf(),
            (match r {
                Ok(out) => {
                    &&& spec_token_first_id(token@) is Some
                    &&& principal matches Some(caller)
                    &&& role_of_chain(
                        *old(store),
                        project_of_dataview(*old(store), spec_token_first_id(token@).unwrap()),
                        caller,
                    ) matches Some(got) && got != Role::Viewer
                    &&& out.dataview_uuid == spec_token_first_id(token@).unwrap()
                    &&& out.name@ == name@
                    &&& out.type_ == *type_
                    &&& out.args@ == args@
                    &&& out.status == Status::Queued
                    &&& out.uuid == old(store).next_id
                    &&& final(store).plots@ == old(store).plots@.push(out)
                    &&& final(store).next_id == old(store).next_id + 1
                    &&& *final(store) == (Store {
                        plots: final(store).plots,
                        next_id: final(store).next_id,
                        ..*old(store)
                    })
                },
                Err(e) => {
                    &&& *final(store) == *old(store)
                    &&& (match e {
                        Error::InvalidToken => spec_token_first_id(token@) is None,
                        Error::NotAuthenticated => principal is None,
                        Error::InvalidPermissions => principal matches Some(caller)
                            && spec_token_first_id(token@) matches Some(id) && role_of_chain(
                            *old(store),
                            project_of_dataview(*old(store), id),
                            caller,
                        ) is None,
                        Error::RequiresEditor => principal matches Some(caller)
                            && spec_token_first_id(token@) matches Some(id) && role_of_chain(
                            *old(store),
                            project_of_dataview(*old(store), id),
                            caller,
                        ) == Some(Role::Viewer),
                        _ => false,
                    })
                },
            }),
    {
        let id = match token_to_id(token) {
            Ok(id) => id,
            Err(e) => {
                return Err(Error::InvalidToken);
            },
        };
        let caller = match current_user(&principal) {
            Ok(u) => u,
            Err(e) => {
                return Err(Error::NotAuthenticated);
            },
        };
        let got = match Dataview::role(store, id, caller) {
            Ok(got) => got,
            Err(e) => {
                return Err(Error::InvalidPermissions);
            },
        };
        if got == Role::Viewer {
            return Err(Error::RequiresEditor);
        }

        Plot::create(store, id, name, type_, args)
    }

    /// Renames a plot; needs at least Editor.
    pub fn rename_plot(&self, store: &mut Store, principal: Option<u64>, token: &String, name: &str) -> (r: Result<Plot, Error>)
        requires
            old(store).wf(),
        ensures
            final(store).wf(),
            (match r {
                Ok(out) => {
                    &&& spec_token_first_id(token@) is Some
                    &&& principal matches Some(caller)
                    &&& role_of_chain(
                        *old(store),
                        project_of_plot(*old(store), spec_token_first_id(token@).unwrap()),
                        caller,
                    ) matches Some(got) && got != Role::Viewer
                    &&& out.uuid == spec_token_first_id(token@).unwrap()
                    &&& out.name@ == name@
                    &&& final(store).plots@ == old(store).plots@.update(
                        pl_idx(old(store).plots@, out.uuid),
                        out,
                    )
                    &&& *final(store) == (Store { plots: final(store).plots, ..*old(store) })
                },
                Err(e) => {
                    &&& *final(store) == *old(store)
                    &&& (match e {
                        Error::InvalidToken => spec_token_first_id(token@) is None,
                        Error::NotAuthenticated => principal is None,
                        Error::InvalidPermissions => principal matches Some(caller)
                            && spec_token_first_id(token@) matches Some(id) && role_of_chain(
                            *old(store),
                            project_of_plot(*old(store), id),
                            caller,
                        ) is None,
                        Error::RequiresEditor => principal matches Some(caller)
                            && spec_token_first_id(token@) matches Some(id) && role_of_chain(
                            *old(store),
                            project_of_plot(*old(store), id),
                            caller,
                        ) == Some(Role::Viewer),
                        _ => false,
                    })
                },
            }),
    {
        let id = match token_to_id(token) {
            Ok(id) => id,
            Err(e) => {
                return Err(Error::InvalidToken);
            },
        };
        let caller = match current_user(&principal) {
            Ok(u) => u,
            Err(e) => {
                return Err(Error::NotAuthenticated);
            },
        };
        let got = match Plot::role(store, id, caller) {
            Ok(got) => got,
            Err(e) => {
                return Err(Error::InvalidPermissions);
            },
        };
        if got == Role::Viewer {
            return Err(Error::RequiresEditor);
        }

        Plot::rename(store, id, name)
    }

    /// Deletes a plot; needs at least Editor.
    pub fn delete_plot(&self, store: &mut Store, principal: Option<u64>, token: &String) -> (r: Result<(), Error>)
        requires
            old(store).wf(),
        ensures
            final(store).wf(),
            (match r {
                Ok(out) => {
                    &&& spec_token_first_id(token@) is Some
                    &&& principal matches Some(caller)
                    &&& role_of_chain(
                        *old(store),
                        project_of_plot(*old(store), spec_token_first_id(token@).unwrap()),
                        caller,
                    ) matches Some(got) && got != Role::Viewer
                    &&& ({
                        let id = spec_token_first_id(token@).unwrap();
                        &&& !pl_has(final(store).plots@, id)
                        &&& final(store).plots@ == old(store).plots@.filter(
                            (|p: Plot| p.uuid != id),
                        )
                        &&& *final(store) == (Store { plots: final(store).plots, ..*old(store) })
                    })
                },
                Err(e) => {
                    &&& *final(store) == *old(store)
                    &&& (match e {
                        Error::InvalidToken => spec_token_first_id(token@) is None,
                        Error::NotAuthenticated => principal is None,
                        Error::InvalidPermissions => principal matches Some(caller)
                            && spec_token_first_id(token@) matches Some(id) && role_of_chain(
                            *old(store),
                            project_of_plot(*old(store), id),
                            caller,
                        ) is None,
                        Error::RequiresEditor => principal matches Some(caller)
                            && spec_token_first_id(token@) matches Some(id) && role_of_chain(
                            *old(store),
                            project_of_plot(*old(store), id),
                            caller,
                        ) == Some(Role::Viewer),
                        _ => false,
                    })
                },
            }),
    {
        let id = match token_to_id(token) {
            Ok(id) => id,
            Err(e) => {
                return Err(Error::InvalidToken);
            },
        };
        let caller = match current_user(&principal) {
            Ok(u) => u,
            Err(e) => {
                return Err(Error::NotAuthenticated);
            },
        };
        let got = match Plot::role(store, id, caller) {
            Ok(got) => got,
            Err(e) => {
                return Err(Error::InvalidPermissions);
            },
        };
        if got == Role::Viewer {
            return Err(Error::RequiresEditor);
        }

        Plot::delete(store, id)
    }

    /// Creates a model on a dataview; needs at least Editor.
    pub fn create_model(&self, store: &mut Store, principal: Option<u64>, token: &String, name: &str, target: &Option<String>, features: &Vec<String>, args: &str) -> (r: Result<Model, Error>)
        requires
            old(store).wf(),
            old(store).next_id < u64::MAX,
        ensures
            final(store).wf(),
            (match r {
                Ok(out) => {
                    &&& spec_token_first_id(token@) is Some
                    &&& principal matches Some(caller)
                    &&& role_of_chain(
                        *old(store),
                        project_of_dataview(*old(store), spec_token_first_id(token@).unwrap()),
                        caller,
                    ) matches Some(got) && got != Role::Viewer
                    &&& out.dataview_uuid == spec_token_first_id(token@).unwrap()
                    &&& out.name@ == name@
                    &&& out.target == *target
                    &&& out.features@ == features@
                    &&& out.args@ == args@
                    &&& out.status == Status::Queued
                    &&& out.uuid == old(store).next_id
                    &&& final(store).models@.len() == old(store).models@.len() + 1
                    &&& final(store).models@.drop_last() == old(store).models@
                    &&& final(store).models@.last().matches_fields(out)
                    &&& final(store).next_id == old(store).next_id + 1
                    &&& *final(store) == (Store {
                        models: final(store).models,
                        next_id: final(store).next_id,
                        ..*old(store)
                    })
                },
                Err(e) => {
                    &&& *final(store) == *old(store)
                    &&& (match e {
                        Error::InvalidToken => spec_token_first_id(token@) is None,
                        Error::NotAuthenticated => principal is None,
                        Error::InvalidPermissions => principal matches Some(caller)
                            && spec_token_first_id(token@) matches Some(id) && role_of_chain(
                            *old(store),
                            project_of_dataview(*old(store), id),
                            caller,
                        ) is None,
                        Error::RequiresEditor => principal matches Some(caller)
                            && spec_token_first_id(token@) matches Some(id) && role_of_chain(
                            *old(store),
                            project_of_dataview(*old(store), id),
                            caller,
                        ) == Some(Role::Viewer),
                        _ => false,
                    })
                },
            }),
    {
        let id = match token_to_id(token) {
            Ok(id) => id,
            Err(e) => {
                return Err(Error::InvalidToken);
            },
        };
        let caller = match current_user(&principal) {
            Ok(u) => u,
            Err(e) => {
                return Err(Error::NotAuthenticated);
            },
        };
        let got = match Dataview::role(store, id, caller) {
            Ok(got) => got,
            Err(e) => {
                return Err(Error::InvalidPermissions);
            },
        };
        if got == Role::Viewer {
            return Err(Error::RequiresEditor);
        }

        Model::create(store, id, name, target, features, args)
    }

    /// Renames a model; needs at least Editor.
    pub fn rename_model(&self, store: &mut Store, principal: Option<u64>, token: &String, name: &str) -> (r: Result<Model, Error>)
        requires
            old(store).wf(),
        ensures
            final(store).wf(),
            (match r {
                Ok(out) => {
                    &&& spec_token_first_id(token@) is Some
                    &&& principal matches Some(caller)
                    &&& role_of_chain(
                        *old(store),
                        project_of_model(*old(store), spec_token_first_id(token@).unwrap()),
                        caller,
                    ) matches Some(got) && got != Role::Viewer
                    &&& out.uuid == spec_token_first_id(token@).unwrap()
                    &&& out.name@ == name@
                    &&& final(store).models@.len() == old(store).models@.len()
                    &&& final(store).models@[mo_idx(old(store).models@, out.uuid)].matches_fields(
                        out,
                    )
                    &&& (forall|j: int|
                        0 <= j < old(store).models@.len() && j != mo_idx(
                            old(store).models@,
                            out.uuid,
                        ) ==> #[trigger] final(store).models@[j] == old(store).models@[j])
                    &&& *final(store) == (Store { models: final(store).models, ..*old(store) })
                },
                Err(e) => {
                    &&& *final(store) == *old(store)
                    &&& (match e {
                        Error::InvalidToken => spec_token_first_id(token@) is None,
                        Error::NotAuthenticated => principal is None,
                        Error::InvalidPermissions => principal matches Some(caller)
                            && spec_token_first_id(token@) matches Some(id) && role_of_chain(
                            *old(store),
                            project_of_model(*old(store), id),
                            caller,
                        ) is None,
                        Error::RequiresEditor => principal matches Some(caller)
                            && spec_token_first_id(token@) matches Some(id) && role_of_chain(
                            *old(store),
                            project_of_model(*old(store), id),
                            caller,
                        ) == Some(Role::Viewer),
                        _ => false,
                    })
                },
            }),
    {
        let id = match token_to_id(token) {
            Ok(id) => id,
            Err(e) => {
                return Err(Error::InvalidToken);
            },
        };
        let caller = match current_user(&principal) {
            Ok(u) => u,
            Err(e) => {
                return Err(Error::NotAuthenticated);
            },
        };
        let got = match Model::role(store, id, caller) {
            Ok(got) => got,
            Err(e) => {
                return Err(Error::InvalidPermissions);
            },
        };
        if got == Role::Viewer {
            return Err(Error::RequiresEditor);
        }

        Model::rename(store, id, name)
    }

    /// Deletes a model; needs at least Editor.
    pub fn delete_model(&self, store: &mut Store, principal: Option<u64>, token: &String) -> (r: Result<(), Error>)
        requires
            old(store).wf(),
        ensures
            final(store).wf(),
            (match r {
                Ok(out) => {
                    &&& spec_token_first_id(token@) is Some
                    &&& principal matches Some(caller)
                    &&& role_of_chain(
                        *old(store),
                        project_of_model(*old(store), spec_token_first_id(token@).unwrap()),
                        caller,
                    ) matches Some(got) && got != Role::Viewer
                    &&& ({
                        let id = spec_token_first_id(token@).unwrap();
                        &&& !crate::store::mo_has(final(store).models@, id)
                        &&& final(store).models@ == old(store).models@.filter(
                            (|p: Model| p.uuid != id),
                        )
                        &&& *final(store) == (Store { models: final(store).models, ..*old(store) })
                    })
                },
                Err(e) => {
                    &&& *final(store) == *old(store)
                    &&& (match e {
                        Error::InvalidToken => spec_token_first_id(token@) is None,
                        Error::NotAuthenticated => principal is None,
                        Error::InvalidPermissions => principal matches Some(caller)
                            && spec_token_first_id(token@) matches Some(id) && role_of_chain(
                            *old(store),
                            project_of_model(*old(store), id),
                            caller,
                        ) is None,
                        Error::RequiresEditor => principal matches Some(caller)
                            && spec_token_first_id(token@) matches Some(id) && role_of_chain(
                            *old(store),
                            project_of_model(*old(store), id),
                            caller,
                        ) == Some(Role::Viewer),
                        _ => false,
                    })
                },
            }),
    {
        let id = match token_to_id(token) {
            Ok(id) => id,
            Err(e) => {
                return Err(Error::InvalidToken);
            },
        };
        let caller = match current_user(&principal) {
            Ok(u) => u,
            Err(e) => {
                return Err(Error::NotAuthenticated);
            },
        };
        let got = match Model::role(store, id, caller) {
            Ok(got) => got,
            Err(e) => {
                return Err(Error::InvalidPermissions);
            },
        };
        if got == Role::Viewer {
            return Err(Error::RequiresEditor);
        }

        Model::delete(store, id)
    }

    /// Deletes a non-root dataview and its whole subtree; needs at least
    /// Editor. Deleting a root dataview always fails: an analysis must always
    /// retain its root.
    pub fn delete_dataview(&self, store: &mut Store, principal: Option<u64>, token: &String) -> (r:
        Result<(), Error>)
        requires
            old(store).wf(),
        ensures
            final(store).wf(),
            (spec_token_first_id(token@) matches Some(id) && dv_has(old(store).dataviews@, id)
                && old(store).dataviews@[dv_idx(old(store).dataviews@, id)].is_root()) ==> !(
            r is Ok),
            (match r {
                Ok(out) => {
                    &&& spec_token_first_id(token@) is Some
                    &&& principal matches Some(caller)
                    &&& role_of_chain(
                        *old(store),
                        project_of_dataview(*old(store), spec_token_first_id(token@).unwrap()),
                        caller,
                    ) matches Some(got) && got != Role::Viewer
                    &&& ({
                        let id = spec_token_first_id(token@).unwrap();
                        &&& dv_has(old(store).dataviews@, id)
                        &&& !old(store).dataviews@[dv_idx(old(store).dataviews@, id)].is_root()
                        &&& !dv_has(final(store).dataviews@, id)
                        &&& final(store).dataviews@ == old(store).dataviews@.filter(
                            (|d: Dataview| !crate::models::dataview::dv_doomed(
                                *old(store),
                                id,
                                d.uuid,
                            )),
                        )
                        &&& final(store).plots@ == old(store).plots@.filter(
                            (|p: Plot| !crate::models::dataview::dv_doomed(
                                *old(store),
                                id,
                                p.dataview_uuid,
                            )),
                        )
                        &&& final(store).statistics@ == old(store).statistics@.filter(
                            (|p: Statistic| !crate::models::dataview::dv_doomed(
                                *old(store),
                                id,
                                p.dataview_uuid,
                            )),
                        )
                        &&& final(store).models@ == old(store).models@.filter(
                            (|p: Model| !crate::models::dataview::dv_doomed(
                                *old(store),
                                id,
                                p.dataview_uuid,
                            )),
                        )
                    })
                },
                Err(e) => {
                    &&& *final(store) == *old(store)
                    &&& (match e {
                        Error::InvalidToken => spec_token_first_id(token@) is None,
                        Error::NotAuthenticated => principal is None,
                        Error::InvalidPermissions => principal matches Some(caller)
                            && spec_token_first_id(token@) matches Some(id) && role_of_chain(
                            *old(store),
                            project_of_dataview(*old(store), id),
                            caller,
                        ) is None,
                        Error::RequiresEditor => principal matches Some(caller)
                            && spec_token_first_id(token@) matches Some(id) && role_of_chain(
                            *old(store),
                            project_of_dataview(*old(store), id),
                            caller,
                        ) == Some(Role::Viewer),
                        Error::InvariantViolation => spec_token_first_id(token@) matches Some(id)
                            && dv_has(old(store).dataviews@, id) && old(store).dataviews@[dv_idx(
                            old(store).dataviews@,
                            id,
                        )].is_root(),
                        _ => false,
                    })
                },
            }),
    {
        let id = match token_to_id(token) {
            Ok(id) => id,
            Err(e) => {
                return Err(Error::InvalidToken);
            },
        };
        let caller = match current_user(&principal) {
            Ok(u) => u,
            Err(e) => {
                return Err(Error::NotAuthenticated);
            },
        };
        let got = match Dataview::role(store, id, caller) {
            Ok(got) => got,
            Err(e) => {
                return Err(Error::InvalidPermissions);
            },
        };
        if got == Role::Viewer {
            return Err(Error::RequiresEditor);
        }
        Dataview::delete(store, id)
    }

    /// Creates a project; the authenticated creator becomes its Admin in the
    /// same step.
    pub fn create_project(&self, store: &mut Store, principal: Option<u64>, name: &str) -> (r:
        Result<Project, Error>)
        requires
            old(store).wf(),
            old(store).next_id < u64::MAX,
        ensures
            final(store).wf(),
            (match r {
                Ok(p) => {
                    &&& principal matches Some(caller)
                    &&& p.name@ == name@
                    &&& !p.is_public
                    &&& final(store).projects@ == old(store).projects@.push(p)
                    &&& final(store).roles@ == old(store).roles@.push(
                        (ProjectUserRole {
                            created_at: old(store).clock,
                            updated_at: old(store).clock,
                            project_uuid: p.uuid,
                            user_uuid: principal.unwrap(),
                            role: Role::Admin,
                        }),
                    )
                    &&& stored_role(*final(store), p.uuid, principal.unwrap()) == Some(Role::Admin)
                },
                Err(e) => {
                    &&& *final(store) == *old(store)
                    &&& (match e {
                        Error::NotAuthenticated => principal is None,
                        Error::NotFound => principal matches Some(caller) && !crate::store::us_has(
                            old(store).users@,
                            caller,
                        ),
                        _ => false,
                    })
                },
            }),
    {
        let caller = match current_user(&principal) {
            Ok(u) => u,
            Err(e) => {
                return Err(Error::NotAuthenticated);
            },
        };
        let p = match Project::create(store, name, caller) {
            Ok(p) => p,
            Err(e) => {
                return Err(Error::NotFound);
            },
        };
        proof {
            let s1 = *store;
            let last = s1.roles@.len() - 1;
            assert(s1.roles@[last].project_uuid == p.uuid && s1.roles@[last].user_uuid == caller
                && s1.roles@[last].role == Role::Admin);
            assert(crate::store::role_has(s1.roles@, p.uuid, caller));
            let k = role_idx(s1.roles@, p.uuid, caller);
            assert(s1.roles@[k].project_uuid == p.uuid && s1.roles@[k].user_uuid == caller);
            assert(k == last);
        }
        Ok(p)
    }

    /// Changes the authenticated user's own name.
    pub fn change_user_name(&self, store: &mut Store, principal: Option<u64>, name: &str) -> (r:
        Result<User, Error>)
        requires
            old(store).wf(),
        ensures
            final(store).wf(),
            (match r {
                Ok(u) => {
                    &&& principal matches Some(caller) && u.uuid == caller
                    &&& u.name@ == name@
                    &&& final(store).users@ == old(store).users@.update(
                        crate::store::us_idx(old(store).users@, u.uuid),
                        u,
                    )
                    &&& *final(store) == (Store { users: final(store).users, ..*old(store) })
                },
                Err(e) => {
                    &&& *final(store) == *old(store)
                    &&& (match e {
                        Error::NotAuthenticated => principal is None,
                        Error::NotFound => principal matches Some(caller) && !crate::store::us_has(
                            old(store).users@,
                            caller,
                        ),
                        _ => false,
                    })
                },
            }),
    {
        let caller = match current_user(&principal) {
            Ok(u) => u,
            Err(e) => {
                return Err(Error::NotAuthenticated);
            },
        };
        User::rename(store, caller, name)
    }

    /// Signs a user in from a validated provider identity: finds the user by
    /// address or registers one (the user name derived from the address),
    /// then stores the fresh refresh token. The signing of the credential
    /// strings themselves is outside the core.
    pub fn login(
        &self,
        store: &mut Store,
        oauth2_user: &crate::auth::OAuth2User,
        refresh_value: &String,
        refresh_expires_at: u64,
    ) -> (r: Result<(User, UserRefreshToken), Error>)
        requires
            old(store).wf(),
            old(store).next_id < u64::MAX,
        ensures
            final(store).wf(),
            (match r {
                Ok(out) => {
                    &&& out.0.email@ == oauth2_user.email@
                    &&& crate::store::us_has(final(store).users@, out.0.uuid)
                    &&& ((forall|j: int|
                        0 <= j < old(store).users@.len() ==> (#[trigger] old(
                            store,
                        ).users@[j].email@) != oauth2_user.email@) ==> {
                        &&& out.0.display_name@ == crate::utils::user_name_of(oauth2_user.email@)
                        &&& out.0.name@ == oauth2_user.display_name@
                        &&& out.0.uuid == old(store).next_id
                        &&& final(store).users@ == old(store).users@.push(out.0)
                    })
                    &&& ((exists|j: int|
                        0 <= j < old(store).users@.len() && (#[trigger] old(
                            store,
                        ).users@[j].email@) == oauth2_user.email@) ==> {
                        &&& old(store).users@.contains(out.0)
                        &&& final(store).users@ == old(store).users@
                    })
                    &&& out.1.user_uuid == out.0.uuid
                    &&& out.1.value@ == refresh_value@
                    &&& out.1.expires_at == refresh_expires_at
                    &&& final(store).refresh_tokens@ == old(store).refresh_tokens@.push(out.1)
                    &&& crate::store::tok_has(final(store).refresh_tokens@, refresh_value@)
                },
                Err(e) => {
                    &&& e == Error::InvariantViolation
                    &&& crate::store::tok_has(old(store).refresh_tokens@, refresh_value@)
                    &&& final(store).refresh_tokens@ == old(store).refresh_tokens@
                },
            }),
    {
        let user = match User::get_by_email(store, &oauth2_user.email) {
            Ok(u) => {
                proof {
                    assert(store.users@.contains(u));
                    let k = choose|k: int| 0 <= k < store.users@.len() && store.users@[k] == u;
                    assert(store.users@[k].uuid == u.uuid);
                    assert(crate::store::us_has(store.users@, u.uuid));
                }
                u
            },
            Err(e) => {
                let name = crate::utils::user_name_from_email(oauth2_user.email.as_str());
                match User::create(
                    store,
                    name.as_str(),
                    oauth2_user.display_name.as_str(),
                    oauth2_user.email.as_str(),
                ) {
                    Ok(u) => {
                        proof {
                            assert(store.users@.last() == u);
                            assert(crate::store::us_has(store.users@, u.uuid));
                        }
                        u
                    },
                    Err(e2) => {
                        proof {
                            assert(false);
                        }
                        return Err(Error::InvariantViolation);
                    },
                }
            },
        };
        proof {
            assert(crate::store::us_has(store.users@, user.uuid));
        }
        let token = match UserRefreshToken::create(
            store,
            user.uuid,
            refresh_value,
            refresh_expires_at,
        ) {
            Ok(t) => t,
            Err(e) => {
                return Err(Error::InvariantViolation);
            },
        };
        proof {
            let s1 = *store;
            assert(s1.refresh_tokens@.last().value@ == refresh_value@);
            assert(crate::store::tok_has(s1.refresh_tokens@, refresh_value@));
        }
        Ok((user, token))
    }

    /// Rotates a refresh token: the old value must exist, a row for the new
    /// value is stored, and the old row is deleted.
    pub fn refresh(
        &self,
        store: &mut Store,
        old_value: &String,
        new_value: &String,
        new_expires_at: u64,
    ) -> (r: Result<(User, UserRefreshToken), Error>)
        requires
            old(store).wf(),
        ensures
            final(store).wf(),
            (match r {
                Ok(out) => {
                    &&& crate::store::tok_has(old(store).refresh_tokens@, old_value@)
                    &&& out.0.uuid == old(store).refresh_tokens@[crate::store::tok_idx(
                        old(store).refresh_tokens@,
                        old_value@,
                    )].user_uuid
                    &&& out.1.user_uuid == out.0.uuid
                    &&& out.1.value@ == new_value@
                    &&& out.1.expires_at == new_expires_at
                    &&& crate::store::tok_has(final(store).refresh_tokens@, new_value@)
                    &&& (old_value@ != new_value@ ==> !crate::store::tok_has(
                        final(store).refresh_tokens@,
                        old_value@,
                    ))
                },
                Err(e) => (match e {
                    Error::NotFound => !crate::store::tok_has(
                        old(store).refresh_tokens@,
                        old_value@,
                    ),
                    Error::InvariantViolation => crate::store::tok_has(
                        old(store).refresh_tokens@,
                        new_value@,
                    ),
                    _ => false,
                }),
            }),
    {
        let token = match UserRefreshToken::get(store, old_value) {
            Ok(t) => t,
            Err(e) => {
                return Err(Error::NotFound);
            },
        };
        let user = match User::get(store, token.user_uuid) {
            Ok(u) => u,
            Err(e) => {
                proof {
                    assert(false);
                }
                return Err(Error::NotFound);
            },
        };
        let fresh = match UserRefreshToken::create(store, user.uuid, new_value, new_expires_at) {
            Ok(t) => t,
            Err(e) => {
                return Err(Error::InvariantViolation);
            },
        };
        proof {
            let k = crate::store::tok_idx(old(store).refresh_tokens@, old_value@);
            assert(old(store).refresh_tokens@[k].value@ == old_value@);
            assert(store.refresh_tokens@[k] == old(store).refresh_tokens@[k]);
            assert(crate::store::tok_has(store.refresh_tokens@, old_value@));
        }
        match UserRefreshToken::delete(store, old_value) {
            Ok(u2) => {},
            Err(e) => {
                proof {
                    assert(false);
                }
                return Err(Error::NotFound);
            },
        }
        proof {
            broadcast use vstd::seq_lib::group_filter_ensures;

            let s1 = *store;
            if old_value@ != new_value@ {
                if crate::store::tok_has(s1.refresh_tokens@, old_value@) {
                    let k = crate::store::tok_idx(s1.refresh_tokens@, old_value@);
                    assert(crate::models::user_refresh_token::token_not_value(old_value@)(
                        s1.refresh_tokens@[k],
                    ));
                }
            }
            assert(crate::store::tok_has(s1.refresh_tokens@, new_value@)) by {
                let prev = old(store).refresh_tokens@.push(fresh);
                let k = prev.len() - 1;
                assert(prev[k].value@ == new_value@);
                assert(crate::models::user_refresh_token::token_not_value(old_value@)(prev[k]));
                assert(s1.refresh_tokens@ == prev.filter(
                    crate::models::user_refresh_token::token_not_value(old_value@),
                ));
                assert(s1.refresh_tokens@.contains(prev[k]));
                let w = choose|w: int|
                    0 <= w < s1.refresh_tokens@.len() && s1.refresh_tokens@[w] == prev[k];
                assert(s1.refresh_tokens@[w].value@ == new_value@);
            }
        }
        Ok((user, fresh))
    }

    /// Deletes one of the caller's own refresh tokens, addressed by its
    /// identity token; only its owner may do so.
    pub fn delete_user_refresh_token(
        &self,
        store: &mut Store,
        principal: Option<u64>,
        token: &String,
    ) -> (r: Result<(), Error>)
        requires
            old(store).wf(),
        ensures
            final(store).wf(),
            (match r {
                Ok(u) => {
                    &&& principal matches Some(caller)
                    &&& spec_token_first_key(token@) matches Some(v)
                    &&& ({
                        let v = spec_token_first_key(token@).unwrap();
                        &&& crate::store::tok_has(old(store).refresh_tokens@, v)
                        &&& old(store).refresh_tokens@[crate::store::tok_idx(
                            old(store).refresh_tokens@,
                            v,
                        )].user_uuid == principal.unwrap()
                        &&& final(store).refresh_tokens@ == old(store).refresh_tokens@.filter(
                            crate::models::user_refresh_token::token_not_value(v),
                        )
                        &&& !crate::store::tok_has(final(store).refresh_tokens@, v)
                        &&& *final(store) == (Store {
                            refresh_tokens: final(store).refresh_tokens,
                            ..*old(store)
                        })
                    })
                },
                Err(e) => {
                    &&& *final(store) == *old(store)
                    &&& (match e {
                        Error::InvalidToken => spec_token_first_key(token@) is None,
                        Error::NotAuthenticated => spec_token_first_key(token@) is Some
                            && principal is None,
                        Error::NotFound => principal is Some && (spec_token_first_key(token@)
                            matches Some(v) && !crate::store::tok_has(
                            old(store).refresh_tokens@,
                            v,
                        )),
                        Error::InvalidPermissions => principal matches Some(caller) && (
                        spec_token_first_key(token@) matches Some(v) && crate::store::tok_has(
                            old(store).refresh_tokens@,
                            v,
                        ) && old(store).refresh_tokens@[crate::store::tok_idx(
                            old(store).refresh_tokens@,
                            v,
                        )].user_uuid != caller),
                        _ => false,
                    })
                },
            }),
    {
        broadcast use vstd::utf8::encode_utf8_decode_utf8;
        broadcast use vstd::utf8::encode_utf8_valid_utf8;

        let mk = match crate::codec::model_keys(token) {
            Ok(mk) => mk,
            Err(e) => {
                proof {
                    if crate::codec::b64_parse_of(token@) is Some {
                        let parts = split_fields(
                            crate::codec::b64_parse_of(token@).unwrap(),
                        );
                        let i = choose|i: int|
                            0 <= i < parts.len() && !valid_utf8(#[trigger] parts[i]);
                        assert(!(forall|j: int|
                            0 <= j < parts.len() ==> valid_utf8(#[trigger] parts[j])));
                    }
                }
                return Err(Error::InvalidToken);
            },
        };
        let ghost parts = split_fields(crate::codec::b64_parse_of(token@).unwrap());
        proof {
            assert forall|i: int| 0 <= i < parts.len() implies valid_utf8(
                #[trigger] parts[i],
            ) by {
                if i == 0 {
                    assert(encode_utf8(mk.model@) == parts[0]);
                } else {
                    assert(encode_utf8(mk.keys@[i - 1]@) == parts[i]);
                }
            }
        }
        if mk.keys.len() == 0 {
            proof {
                assert(parts.len() == 1);
            }
            return Err(Error::InvalidToken);
        }
        proof {
            assert(encode_utf8(mk.keys@[0]@) == parts[1]);
            assert(decode_utf8(parts[1]) == mk.keys@[0]@);
            assert(spec_token_first_key(token@) == Some(mk.keys@[0]@));
        }
        let caller = match current_user(&principal) {
            Ok(u) => u,
            Err(e) => {
                return Err(Error::NotAuthenticated);
            },
        };
        let row = match UserRefreshToken::get(store, &mk.keys[0]) {
            Ok(t) => t,
            Err(e) => {
                return Err(Error::NotFound);
            },
        };
        if row.user_uuid != caller {
            return Err(Error::InvalidPermissions);
        }
        match UserRefreshToken::delete(store, &mk.keys[0]) {
            Ok(u) => {
                proof {
                    broadcast use vstd::seq_lib::group_filter_ensures;

                    let v = mk.keys@[0]@;
                    let pred = crate::models::user_refresh_token::token_not_value(v);
                    assert forall|i: int|
                        0 <= i < store.refresh_tokens@.len() implies (
                        #[trigger] store.refresh_tokens@[i].value@) != v by {
                        let a = crate::store::lemma_filter_member_src(
                            old(store).refresh_tokens@,
                            pred,
                            i,
                        );
                        assert(pred(old(store).refresh_tokens@[a]));
                    }
                }
                Ok(())
            },
            Err(e) => {
                proof {
                    assert(false);
                }
                Err(Error::NotFound)
            },
        }
    }

    /// Deletes whatever entity an identity token addresses, dispatching over
    /// its declared kind; each arm applies that kind's own authorization and
    /// structural guards, and on success the addressed row is gone together
    /// with its kind's cascade. Users cannot be deleted through this path:
    /// they anchor roles and tokens, so a User token is rejected as an
    /// invariant violation.
    pub fn delete_node(&self, store: &mut Store, principal: Option<u64>, token: &String) -> (r:
        Result<(), Error>)
        requires
            old(store).wf(),
            old(store).next_id < u64::MAX,
        ensures
            final(store).wf(),
            r is Err ==> *final(store) == *old(store),
            (match r {
                Ok(u) => spec_decode(token@) matches Some(kk) && !crate::node::node_present(
                    *final(store),
                    kk.0,
                    kk.1,
                ),
                Err(e) => {
                    &&& (e == Error::InvalidToken <==> spec_decode(token@) is None)
                    &&& (e == Error::NotAuthenticated ==> principal is None)
                },
            }),
            (spec_decode(token@) matches Some(kk) && kk.0 == EntityKind::User) ==> (r matches Err(
                e,
            ) && e == Error::InvariantViolation),
    {
        let (kind, keys) = match decode(token) {
            Ok(kk) => kk,
            Err(e) => {
                return Err(Error::InvalidToken);
            },
        };
        proof {
            crate::codec::lemma_decode_first_id(token@);
            let kk = spec_decode(token@).unwrap();
            assert(kk.0 == kind);
            assert(kk.1 =~= keys@.map_values(|k: String| k@));
            if crate::codec::kind_key_is_id(kind) {
                assert(crate::node::key_id(kk.1[0]) == spec_token_first_id(token@).unwrap());
            }
            assert(spec_token_first_key(token@) == Some(kk.1[0]));
        }
        match kind {
            EntityKind::Analysis => self.delete_analysis(store, principal, token),
            EntityKind::Dataset => self.delete_dataset(store, principal, token),
            EntityKind::Dataview => self.delete_dataview(store, principal, token),
            EntityKind::Model => self.delete_model(store, principal, token),
            EntityKind::Plot => self.delete_plot(store, principal, token),
            EntityKind::Project => self.delete_project(store, principal, token),
            EntityKind::ProjectUserRole => {
                proof {
                    let kmaps = keys@.map_values(|k: String| k@);
                    assert(crate::codec::keys_well_typed(kind, kmaps));
                    assert(keys@.len() == crate::codec::kind_arity(kind));
                    assert(kmaps[0] == keys@[0]@);
                    assert(kmaps[1] == keys@[1]@);
                    assert(crate::num::parse_dec(kmaps[0]) matches Some(n) && n <= u64::MAX);
                    assert(crate::num::parse_dec(kmaps[1]) matches Some(n) && n <= u64::MAX);
                }
                let project = match parse_u64(keys[0].as_str()) {
                    Some(v) => v,
                    None => {
                        proof {
                            assert(false);
                        }
                        return Err(Error::NotFound);
                    },
                };
                let user = match parse_u64(keys[1].as_str()) {
                    Some(v) => v,
                    None => {
                        proof {
                            assert(false);
                        }
                        return Err(Error::NotFound);
                    },
                };
                proof {
                    let kk = spec_decode(token@).unwrap();
                    assert(crate::node::key_id(kk.1[0]) == project);
                    assert(crate::node::key_id(kk.1[1]) == user);
                }
                self.delete_project_user_role(store, principal, project, user)
            },
            EntityKind::Statistic => self.delete_statistic(store, principal, token),
            EntityKind::UserRefreshToken => self.delete_user_refresh_token(
                store,
                principal,
                token,
            ),
            EntityKind::User => Err(Error::InvariantViolation),
        }
    }
}

/// Whether a user row with this identifier exists.
pub open spec fn us_has_user(s: Store, id: u64) -> bool {
    crate::store::us_has(s.users@, id)
}

} // verus!
