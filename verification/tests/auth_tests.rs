use motoko::auth::{
    extract_bearer_token, seconds_in_n_days, unixtime, unixtime_in_n_days,
    validate_google_id_token, OAuth2User,
};
use motoko::error::Error;
use motoko::models::context_data::GoogleOAuthClientIds;
use motoko::models::user::User;
use motoko::models::user_refresh_token::UserRefreshToken;
use motoko::mutation::Mutation;
use motoko::secrets::Secrets;
use motoko::store::Store;

fn ids() -> GoogleOAuthClientIds {
    GoogleOAuthClientIds { android: "android-id".to_owned(), ios: "ios-id".to_owned() }
}

#[test]
fn google_token_checks() {
    let u = validate_google_id_token(
        &"accounts.google.com".to_owned(),
        &"ios-id".to_owned(),
        &"Motoko".to_owned(),
        &"motoko@motoko.ai".to_owned(),
        2_000,
        &ids(),
        1_000,
    )
    .expect("valid");
    assert_eq!(u, OAuth2User { display_name: "Motoko".to_owned(), email: "motoko@motoko.ai".to_owned() });
    // wrong issuer, wrong audience, expired
    let bad_iss = validate_google_id_token(
        &"evil.example".to_owned(),
        &"ios-id".to_owned(),
        &"M".to_owned(),
        &"m@a".to_owned(),
        2_000,
        &ids(),
        1_000,
    );
    assert_eq!(bad_iss.err(), Some(Error::NotAuthenticated));
    let bad_aud = validate_google_id_token(
        &"accounts.google.com".to_owned(),
        &"other".to_owned(),
        &"M".to_owned(),
        &"m@a".to_owned(),
        2_000,
        &ids(),
        1_000,
    );
    assert_eq!(bad_aud.err(), Some(Error::NotAuthenticated));
    let expired = validate_google_id_token(
        &"accounts.google.com".to_owned(),
        &"ios-id".to_owned(),
        &"M".to_owned(),
        &"m@a".to_owned(),
        500,
        &ids(),
        1_000,
    );
    assert_eq!(expired.err(), Some(Error::NotAuthenticated));
}

#[test]
fn bearer_header_parsing() {
    assert_eq!(extract_bearer_token("Bearer abc.def"), Some("abc.def".to_owned()));
    assert_eq!(extract_bearer_token("bearer   tok more"), Some("tok".to_owned()));
    assert_eq!(extract_bearer_token("Basic abc"), None);
    assert_eq!(extract_bearer_token("Bearer"), None);
    assert_eq!(extract_bearer_token("Bearer    "), None);
}

#[test]
fn day_arithmetic_saturates() {
    assert_eq!(seconds_in_n_days(1_000, 7), 1_000 + 7 * 86_400);
    assert_eq!(seconds_in_n_days(u64::MAX - 10, 1), u64::MAX);
    let now = unixtime();
    assert!(unixtime_in_n_days(0) >= now);
}

#[test]
fn login_finds_or_registers_and_rotates() {
    let mut store = Store::new();
    store.set_clock(1_000);
    let m = Mutation;
    let identity = OAuth2User {
        display_name: "Motoko Kusanagi".to_owned(),
        email: "motoko.kusanagi@motoko.ai".to_owned(),
    };
    let (user, token) = m.login(&mut store, &identity, &"r1".to_owned(), 9_000).expect("login");
    // a new user is registered, the handle derived from the address
    assert_eq!(user.display_name, "motoko_kusanagi");
    assert_eq!(user.name, "Motoko Kusanagi");
    assert_eq!(token.user_uuid, user.uuid);
    // a second sign-in finds the same user
    let (again, _t2) = m.login(&mut store, &identity, &"r2".to_owned(), 9_500).expect("login");
    assert_eq!(again.uuid, user.uuid);
    // rotation replaces the old value with the new one
    let (owner, fresh) = m.refresh(&mut store, &"r1".to_owned(), &"r3".to_owned(), 9_900)
        .expect("refresh");
    assert_eq!(owner.uuid, user.uuid);
    assert_eq!(fresh.value, "r3");
    assert!(UserRefreshToken::get(&store, &"r1".to_owned()).is_err());
    assert!(UserRefreshToken::get(&store, &"r3".to_owned()).is_ok());
    // a stale value no longer refreshes
    assert_eq!(
        m.refresh(&mut store, &"r1".to_owned(), &"r4".to_owned(), 9_999).err(),
        Some(Error::NotFound)
    );
}

#[test]
fn own_token_deletion_is_owner_only() {
    let mut store = Store::new();
    store.set_clock(1_000);
    let m = Mutation;
    let u1 = User::create(&mut store, "a", "A", "a@x").expect("u1");
    let u2 = User::create(&mut store, "b", "B", "b@x").expect("u2");
    let t = UserRefreshToken::create(&mut store, u1.uuid, &"val".to_owned(), 9_000).expect("t");
    let r = m.delete_user_refresh_token(&mut store, Some(u2.uuid), &t.id());
    assert_eq!(r.err(), Some(Error::InvalidPermissions));
    m.delete_user_refresh_token(&mut store, Some(u1.uuid), &t.id()).expect("owner deletes");
    assert!(UserRefreshToken::get(&store, &"val".to_owned()).is_err());
}

#[test]
fn local_secrets_are_fixed() {
    let s = Secrets::local();
    assert_eq!(s.meta_db_url, "postgres://postgres@localhost/motoko_meta");
    assert_eq!(s.data_db_url, "postgres://postgres@localhost/motoko_data");
    assert_eq!(s.jwt_secret, "dummy");
}

#[test]
fn delete_node_dispatches_by_kind() {
    let mut store = Store::new();
    store.set_clock(1_000);
    let m = Mutation;
    let u = User::create(&mut store, "a", "A", "a@x").expect("u");
    let p = m.create_project(&mut store, Some(u.uuid), "P").expect("p");
    let d = m.create_dataset(&mut store, Some(u.uuid), &p.id(), "D", "uri").expect("d");
    m.delete_node(&mut store, Some(u.uuid), &d.id()).expect("delete dataset by token");
    assert!(motoko::models::dataset::Dataset::get(&store, d.uuid).is_err());
    m.delete_node(&mut store, Some(u.uuid), &p.id()).expect("delete project by token");
    assert!(motoko::models::project::Project::get(&store, p.uuid).is_err());
}
