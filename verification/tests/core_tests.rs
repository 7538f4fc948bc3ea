use motoko::codec::EntityKind;
use motoko::error::Error;
use motoko::gc::{
    dataset_table_names, delete_expired_refresh_tokens, names_to_drop, objects_to_delete,
};
use motoko::models::dataview::{Dataview, Operation};
use motoko::models::plot::Type as PlotType;
use motoko::models::project_user_role::Role;
use motoko::models::status::Status;
use motoko::models::user::User;
use motoko::models::user_refresh_token::UserRefreshToken;
use motoko::models::dataset::Dataset;
use motoko::mutation::Mutation;
use motoko::node::{id_to_node, Node};
use motoko::query::Query;
use motoko::store::Store;

fn store_with_user() -> (Store, u64) {
    let mut store = Store::new();
    store.set_clock(1_000);
    let user = User::create(&mut store, "motoko", "Motoko Kusanagi", "motoko@motoko.ai")
        .expect("user");
    (store, user.uuid)
}

#[test]
fn scenario_pipeline_lineage() {
    // create Project "P" (creator becomes Admin), Dataset "D", Analysis "A"
    // (root dataview auto-created, Completed), then a Filter child of the
    // root: the lineage of A is exactly [root, child]
    let (mut store, uid) = store_with_user();
    let m = Mutation;
    let q = Query;
    let p = m.create_project(&mut store, Some(uid), "P").expect("project");
    let d = m
        .create_dataset(&mut store, Some(uid), &p.id(), "D", "http://motoko.ai/test_dataset.csv")
        .expect("dataset");
    assert_eq!(d.status, Status::Queued);
    let a = m.create_analysis(&mut store, Some(uid), &d.id(), "A").expect("analysis");
    let r0 = motoko::models::dataview::Dataview::get(&store, a.dataview_uuid).expect("root");
    assert!(r0.parent_uuid == r0.uuid);
    assert_eq!(r0.status, Status::Completed);
    let r1 = m
        .create_dataview(
            &mut store,
            Some(uid),
            &r0.id(),
            &Operation::Filter,
            "{\"filters\":[{\"column\":\"c\",\"comparator\":\">\",\"value\":\"1\"}]}",
        )
        .expect("child dataview");
    // the child's physical view layers over the root's physical view
    assert_eq!(r1.parent_uuid, r0.uuid);
    assert_eq!(
        motoko::text::dataview_view_name(r1.parent_uuid),
        motoko::text::dataview_view_name(r0.uuid)
    );
    assert_eq!(r1.status, Status::Queued);
    let lineage = q.dataviews(&store, Some(uid), &a.id()).expect("lineage");
    assert_eq!(lineage.len(), 2);
    assert_eq!(lineage[0].uuid, r0.uuid);
    assert_eq!(lineage[1].uuid, r1.uuid);
}

#[test]
fn scenario_sole_admin_cannot_be_demoted() {
    // Project with a single Admin user U: modify_role(P, U, Viewer) fails
    let (mut store, uid) = store_with_user();
    let m = Mutation;
    let p = m.create_project(&mut store, Some(uid), "P").expect("project");
    let r = m.modify_role(&mut store, Some(uid), p.uuid, uid, &Role::Viewer);
    assert_eq!(r.err(), Some(Error::InvariantViolation));
    let r = m.delete_project_user_role(&mut store, Some(uid), p.uuid, uid);
    assert_eq!(r.err(), Some(Error::InvariantViolation));
    // with a second Admin present, the demotion goes through
    let u2 = User::create(&mut store, "batou", "Batou", "batou@motoko.ai").expect("user2");
    m.create_role(&mut store, Some(uid), p.uuid, u2.uuid, &Role::Admin).expect("grant");
    let row = m.modify_role(&mut store, Some(uid), p.uuid, uid, &Role::Viewer).expect("demote");
    assert_eq!(row.role, Role::Viewer);
}

#[test]
fn scenario_root_dataview_protected_and_cascade() {
    let (mut store, uid) = store_with_user();
    let m = Mutation;
    let p = m.create_project(&mut store, Some(uid), "P").expect("project");
    let d = m.create_dataset(&mut store, Some(uid), &p.id(), "D", "uri").expect("dataset");
    let a = m.create_analysis(&mut store, Some(uid), &d.id(), "A").expect("analysis");
    let r0 = Dataview::get(&store, a.dataview_uuid).expect("root");
    let r1 = m
        .create_dataview(&mut store, Some(uid), &r0.id(), &Operation::Select, "{}")
        .expect("child");
    let r2 = m
        .create_dataview(&mut store, Some(uid), &r1.id(), &Operation::Sort, "{}")
        .expect("grandchild");
    let plot = m
        .create_plot(&mut store, Some(uid), &r2.id(), "bar", &PlotType::Bar, "{}")
        .expect("plot");
    // deleting the root always fails
    let r = m.delete_dataview(&mut store, Some(uid), &r0.id());
    assert_eq!(r.err(), Some(Error::InvariantViolation));
    // deleting the child removes its whole subtree and the attached artifacts
    m.delete_dataview(&mut store, Some(uid), &r1.id()).expect("subtree delete");
    assert!(Dataview::get(&store, r1.uuid).is_err());
    assert!(Dataview::get(&store, r2.uuid).is_err());
    assert!(motoko::models::plot::Plot::get(&store, plot.uuid).is_err());
    assert!(Dataview::get(&store, r0.uuid).is_ok());
}

#[test]
fn scenario_project_cascade_and_gc() {
    // deleting a project removes everything it owns; a collector run then
    // drops the orphaned physical table, and a second run drops nothing
    let (mut store, uid) = store_with_user();
    let m = Mutation;
    let p = m.create_project(&mut store, Some(uid), "P").expect("project");
    let d = m.create_dataset(&mut store, Some(uid), &p.id(), "X", "uri").expect("dataset");
    let keep = m.create_project(&mut store, Some(uid), "Q").expect("project2");
    let keep_ds = m.create_dataset(&mut store, Some(uid), &keep.id(), "Y", "uri").expect("ds2");
    let a = m.create_analysis(&mut store, Some(uid), &d.id(), "A").expect("analysis");
    m.delete_project(&mut store, Some(uid), &p.id()).expect("delete project");
    assert!(Dataset::get(&store, d.uuid).is_err());
    assert!(motoko::models::analysis::Analysis::get(&store, a.uuid).is_err());
    assert!(Dataset::get(&store, keep_ds.uuid).is_ok());

    // physical store reconciliation (the table of X still exists)
    let live_ids: Vec<u64> = store.datasets.iter().map(|row| row.uuid).collect();
    let live = dataset_table_names(&live_ids);
    let extant = vec![
        motoko::text::dataset_table_name(d.uuid),
        motoko::text::dataset_table_name(keep_ds.uuid),
    ];
    let dropped = names_to_drop(&live, extant.clone());
    assert_eq!(dropped, vec![motoko::text::dataset_table_name(d.uuid)]);
    // second run over what remains drops nothing further
    let remaining: Vec<String> =
        extant.into_iter().filter(|n| !dropped.contains(n)).collect();
    let dropped_again = names_to_drop(&live, remaining);
    assert!(dropped_again.is_empty());
}

#[test]
fn gc_blob_step_matches_pattern_only() {
    let live: Vec<u64> = vec![5];
    let keys = vec![
        "plots/5.svg".to_owned(),
        "plots/9.svg".to_owned(),
        "other/3".to_owned(),
        "plots/x.svg".to_owned(),
    ];
    let doomed = objects_to_delete(&live, keys, "plots");
    assert_eq!(doomed, vec!["plots/9.svg".to_owned()]);
}

#[test]
fn gc_expired_tokens() {
    let (mut store, uid) = store_with_user();
    UserRefreshToken::create(&mut store, uid, &"t-old".to_owned(), 500).expect("old token");
    UserRefreshToken::create(&mut store, uid, &"t-new".to_owned(), 5_000).expect("new token");
    delete_expired_refresh_tokens(&mut store, 1_000);
    assert!(UserRefreshToken::get(&store, &"t-old".to_owned()).is_err());
    assert!(UserRefreshToken::get(&store, &"t-new".to_owned()).is_ok());
    // idempotent: running the sweep again changes nothing
    let before = store.refresh_tokens.len();
    delete_expired_refresh_tokens(&mut store, 1_000);
    assert_eq!(store.refresh_tokens.len(), before);
}

#[test]
fn role_is_uniform_across_the_chain() {
    let (mut store, uid) = store_with_user();
    let m = Mutation;
    let q = Query;
    let p = m.create_project(&mut store, Some(uid), "P").expect("project");
    let d = m.create_dataset(&mut store, Some(uid), &p.id(), "D", "uri").expect("dataset");
    let a = m.create_analysis(&mut store, Some(uid), &d.id(), "A").expect("analysis");
    let r0 = Dataview::get(&store, a.dataview_uuid).expect("root");
    let plot = m
        .create_plot(&mut store, Some(uid), &r0.id(), "bar", &PlotType::Bar, "{}")
        .expect("plot");
    let by_project = q.role_of(&store, uid, &EntityKind::Project, p.uuid).expect("role");
    let by_dataset = q.role_of(&store, uid, &EntityKind::Dataset, d.uuid).expect("role");
    let by_analysis = q.role_of(&store, uid, &EntityKind::Analysis, a.uuid).expect("role");
    let by_dataview = q.role_of(&store, uid, &EntityKind::Dataview, r0.uuid).expect("role");
    let by_plot = q.role_of(&store, uid, &EntityKind::Plot, plot.uuid).expect("role");
    assert_eq!(by_project, Role::Admin);
    assert_eq!(by_dataset, by_project);
    assert_eq!(by_analysis, by_project);
    assert_eq!(by_dataview, by_project);
    assert_eq!(by_plot, by_project);
}

#[test]
fn status_machine_forward_only_and_idempotent() {
    let (mut store, uid) = store_with_user();
    let m = Mutation;
    let q = Query;
    let p = m.create_project(&mut store, Some(uid), "P").expect("project");
    let d = m.create_dataset(&mut store, Some(uid), &p.id(), "D", "uri").expect("dataset");
    assert_eq!(q.status(&store, &EntityKind::Dataset, d.uuid), Ok(Status::Queued));
    Dataset::set_status(&mut store, d.uuid, &Status::Running).expect("to running");
    Dataset::set_status(&mut store, d.uuid, &Status::Completed).expect("to completed");
    // a repeated terminal report is a no-op, not an error
    assert_eq!(Dataset::set_status(&mut store, d.uuid, &Status::Completed), Ok(Status::Completed));
    // there is no retry transition out of a terminal state
    assert_eq!(
        Dataset::set_status(&mut store, d.uuid, &Status::Failed),
        Err(Error::InvariantViolation)
    );
    assert_eq!(q.status(&store, &EntityKind::Dataset, d.uuid), Ok(Status::Completed));
}

#[test]
fn failed_plot_captures_payload() {
    let (mut store, uid) = store_with_user();
    let m = Mutation;
    let p = m.create_project(&mut store, Some(uid), "P").expect("project");
    let d = m.create_dataset(&mut store, Some(uid), &p.id(), "D", "uri").expect("dataset");
    let a = m.create_analysis(&mut store, Some(uid), &d.id(), "A").expect("analysis");
    let r0 = Dataview::get(&store, a.dataview_uuid).expect("root");
    let plot = m
        .create_plot(&mut store, Some(uid), &r0.id(), "bar", &PlotType::Bar, "{}")
        .expect("plot");
    motoko::models::plot::Plot::set_status(
        &mut store,
        plot.uuid,
        &Status::Failed,
        &Some("{\"error\":\"unknown column\"}".to_owned()),
    )
    .expect("fail");
    let got = motoko::models::plot::Plot::get(&store, plot.uuid).expect("get");
    assert_eq!(got.status, Status::Failed);
    assert_eq!(got.error, Some("{\"error\":\"unknown column\"}".to_owned()));
}

#[test]
fn authorization_thresholds() {
    let (mut store, uid) = store_with_user();
    let m = Mutation;
    let p = m.create_project(&mut store, Some(uid), "P").expect("project");
    let viewer = User::create(&mut store, "t", "Togusa", "togusa@motoko.ai").expect("user");
    m.create_role(&mut store, Some(uid), p.uuid, viewer.uuid, &Role::Viewer).expect("grant");
    // a viewer cannot create datasets, nor act anonymously
    let r = m.create_dataset(&mut store, Some(viewer.uuid), &p.id(), "D", "uri");
    assert_eq!(r.err(), Some(Error::RequiresEditor));
    let r = m.create_dataset(&mut store, None, &p.id(), "D", "uri");
    assert_eq!(r.err(), Some(Error::NotAuthenticated));
    // a stranger has no role at all
    let stranger = User::create(&mut store, "s", "Saito", "saito@motoko.ai").expect("user");
    let r = m.rename_project(&mut store, Some(stranger.uuid), &p.id(), "Q");
    assert_eq!(r.err(), Some(Error::InvalidPermissions));
    // visibility changes take Admin, not just Editor
    let editor = User::create(&mut store, "i", "Ishikawa", "ishikawa@motoko.ai").expect("user");
    m.create_role(&mut store, Some(uid), p.uuid, editor.uuid, &Role::Editor).expect("grant");
    let r = m.make_project_public(&mut store, Some(editor.uuid), &p.id());
    assert_eq!(r.err(), Some(Error::RequiresAdmin));
    m.make_project_public(&mut store, Some(uid), &p.id()).expect("admin can");
}

#[test]
fn node_resolution_by_token() {
    let (mut store, uid) = store_with_user();
    let m = Mutation;
    let p = m.create_project(&mut store, Some(uid), "P").expect("project");
    match id_to_node(&store, &p.id()).expect("resolve") {
        Node::Project(row) => assert_eq!(row.uuid, p.uuid),
        _ => panic!("wrong node kind"),
    }
    let missing = motoko::codec::encode(EntityKind::Project, &vec!["999".to_owned()]);
    assert_eq!(id_to_node(&store, &missing).err(), Some(Error::NotFound));
    assert_eq!(
        id_to_node(&store, &"###".to_owned()).err(),
        Some(Error::InvalidToken)
    );
}

#[test]
fn duplicate_email_rejected_and_tokens_rotate() {
    let (mut store, uid) = store_with_user();
    let r = User::create(&mut store, "m2", "Clone", "motoko@motoko.ai");
    assert_eq!(r.err(), Some(Error::InvariantViolation));
    UserRefreshToken::create(&mut store, uid, &"first".to_owned(), 9_000).expect("create");
    let t = UserRefreshToken::get(&store, &"first".to_owned()).expect("get");
    assert_eq!(t.user_uuid, uid);
    UserRefreshToken::delete(&mut store, &"first".to_owned()).expect("delete");
    assert!(UserRefreshToken::get(&store, &"first".to_owned()).is_err());
}

#[test]
fn public_projects_bypass_role_checks_for_reads() {
    let (mut store, uid) = store_with_user();
    let m = Mutation;
    let q = Query;
    let p = m.create_project(&mut store, Some(uid), "P").expect("project");
    m.create_dataset(&mut store, Some(uid), &p.id(), "D", "uri").expect("dataset");
    // an anonymous read is rejected while the project is private
    assert_eq!(
        q.datasets(&store, None, &p.id()).err(),
        Some(Error::InvalidPermissions)
    );
    m.make_project_public(&mut store, Some(uid), &p.id()).expect("publish");
    let rows = q.datasets(&store, None, &p.id()).expect("public read");
    assert_eq!(rows.len(), 1);
    assert_eq!(rows[0].name, "D");
}

#[test]
fn query_collections_by_token() {
    let (mut store, uid) = store_with_user();
    let m = Mutation;
    let q = Query;
    let p = m.create_project(&mut store, Some(uid), "P").expect("project");
    let d = m.create_dataset(&mut store, Some(uid), &p.id(), "D", "uri").expect("dataset");
    let a = m.create_analysis(&mut store, Some(uid), &d.id(), "A").expect("analysis");
    let r0 = Dataview::get(&store, a.dataview_uuid).expect("root");
    m.create_plot(&mut store, Some(uid), &r0.id(), "bar", &PlotType::Bar, "{}").expect("plot");
    m.create_statistic(
        &mut store,
        Some(uid),
        &r0.id(),
        &motoko::models::statistic::Type::Summary,
        "{\"x\":\"a\"}",
    )
    .expect("statistic");
    m.create_model(
        &mut store,
        Some(uid),
        &r0.id(),
        "model 1",
        &Some("target".to_owned()),
        &vec!["feature_1".to_owned(), "feature_2".to_owned()],
        "{}",
    )
    .expect("model");
    assert_eq!(q.analyses(&store, Some(uid), &p.id()).expect("analyses").len(), 1);
    assert_eq!(q.roles(&store, Some(uid), &p.id()).expect("roles").len(), 1);
    assert_eq!(q.plots(&store, Some(uid), &r0.id()).expect("plots").len(), 1);
    assert_eq!(q.statistics(&store, Some(uid), &r0.id()).expect("stats").len(), 1);
    let models = q.models(&store, Some(uid), &r0.id()).expect("models");
    assert_eq!(models.len(), 1);
    assert_eq!(models[0].features, vec!["feature_1".to_owned(), "feature_2".to_owned()]);
    assert_eq!(q.projects(&store, Some(uid)).expect("projects").len(), 1);
}

#[test]
fn statistic_completion_records_value() {
    let (mut store, uid) = store_with_user();
    let m = Mutation;
    let p = m.create_project(&mut store, Some(uid), "P").expect("project");
    let d = m.create_dataset(&mut store, Some(uid), &p.id(), "D", "uri").expect("dataset");
    let a = m.create_analysis(&mut store, Some(uid), &d.id(), "A").expect("analysis");
    let r0 = Dataview::get(&store, a.dataview_uuid).expect("root");
    let st = m
        .create_statistic(
            &mut store,
            Some(uid),
            &r0.id(),
            &motoko::models::statistic::Type::Correlation,
            "{\"x\":\"a\",\"y\":\"b\"}",
        )
        .expect("statistic");
    motoko::models::statistic::Statistic::set_status(
        &mut store,
        st.uuid,
        &Status::Completed,
        &Some("0.87".to_owned()),
    )
    .expect("complete");
    let got = motoko::models::statistic::Statistic::get(&store, st.uuid).expect("get");
    assert_eq!(got.status, Status::Completed);
    assert_eq!(got.value, Some("0.87".to_owned()));
}

#[test]
fn modify_role_same_role_is_a_no_op() {
    let (mut store, uid) = store_with_user();
    let m = Mutation;
    let p = m.create_project(&mut store, Some(uid), "P").expect("project");
    let before = motoko::models::project_user_role::ProjectUserRole::get(&store, p.uuid, uid)
        .expect("row");
    store.set_clock(2_000);
    let row = m.modify_role(&mut store, Some(uid), p.uuid, uid, &Role::Admin).expect("same role");
    // the existing row comes back untouched: no update stamp
    assert_eq!(row, before);
    let after = motoko::models::project_user_role::ProjectUserRole::get(&store, p.uuid, uid)
        .expect("row");
    assert_eq!(after, before);
}

#[test]
fn demotion_keeps_creation_stamp() {
    let (mut store, uid) = store_with_user();
    let m = Mutation;
    let p = m.create_project(&mut store, Some(uid), "P").expect("project");
    let u2 = User::create(&mut store, "b", "Batou", "batou@motoko.ai").expect("u2");
    m.create_role(&mut store, Some(uid), p.uuid, u2.uuid, &Role::Admin).expect("grant");
    let before = motoko::models::project_user_role::ProjectUserRole::get(&store, p.uuid, uid)
        .expect("row");
    store.set_clock(3_000);
    let row = m.modify_role(&mut store, Some(uid), p.uuid, uid, &Role::Viewer).expect("demote");
    assert_eq!(row.created_at, before.created_at);
    assert_eq!(row.updated_at, 3_000);
}

#[test]
fn delete_node_rejects_user_tokens() {
    let (mut store, uid) = store_with_user();
    let m = Mutation;
    let u = motoko::models::user::User::get(&store, uid).expect("user");
    let r = m.delete_node(&mut store, Some(uid), &u.id());
    assert_eq!(r.err(), Some(Error::InvariantViolation));
    assert!(motoko::models::user::User::get(&store, uid).is_ok());
}

#[test]
fn delete_node_handles_role_and_token_kinds() {
    let (mut store, uid) = store_with_user();
    let m = Mutation;
    let p = m.create_project(&mut store, Some(uid), "P").expect("project");
    let u2 = User::create(&mut store, "b", "Batou", "batou@motoko.ai").expect("u2");
    let row = m.create_role(&mut store, Some(uid), p.uuid, u2.uuid, &Role::Editor).expect("grant");
    m.delete_node(&mut store, Some(uid), &row.id()).expect("delete role by token");
    assert!(
        motoko::models::project_user_role::ProjectUserRole::get(&store, p.uuid, u2.uuid).is_err()
    );
    let tok = UserRefreshToken::create(&mut store, uid, &"val".to_owned(), 9_000).expect("token");
    m.delete_node(&mut store, Some(uid), &tok.id()).expect("delete refresh token by token");
    assert!(UserRefreshToken::get(&store, &"val".to_owned()).is_err());
}

#[test]
fn lineage_requires_a_role_or_a_public_project() {
    let (mut store, uid) = store_with_user();
    let m = Mutation;
    let q = Query;
    let p = m.create_project(&mut store, Some(uid), "P").expect("project");
    let d = m.create_dataset(&mut store, Some(uid), &p.id(), "D", "uri").expect("dataset");
    let a = m.create_analysis(&mut store, Some(uid), &d.id(), "A").expect("analysis");
    assert_eq!(
        q.dataviews(&store, None, &a.id()).err(),
        Some(Error::InvalidPermissions)
    );
    m.make_project_public(&mut store, Some(uid), &p.id()).expect("publish");
    let lineage = q.dataviews(&store, None, &a.id()).expect("public lineage");
    assert_eq!(lineage.len(), 1);
}

#[test]
fn artifact_key_only_when_completed() {
    let (mut store, uid) = store_with_user();
    let m = Mutation;
    let p = m.create_project(&mut store, Some(uid), "P").expect("project");
    let d = m.create_dataset(&mut store, Some(uid), &p.id(), "D", "uri").expect("dataset");
    let a = m.create_analysis(&mut store, Some(uid), &d.id(), "A").expect("analysis");
    let r0 = Dataview::get(&store, a.dataview_uuid).expect("root");
    let plot = m
        .create_plot(&mut store, Some(uid), &r0.id(), "bar", &PlotType::Bar, "{}")
        .expect("plot");
    assert_eq!(plot.artifact_key(), None);
    motoko::models::plot::Plot::set_status(&mut store, plot.uuid, &Status::Completed, &None)
        .expect("complete");
    let done = motoko::models::plot::Plot::get(&store, plot.uuid).expect("get");
    let expected = {
        let mut s = "plots/".to_owned();
        s.push_str(&plot.uuid.to_string());
        s.push_str(".svg");
        s
    };
    assert_eq!(done.artifact_key(), Some(expected));
}
