use motoko::codec::{decode, encode, model_keys, EntityKind};
use motoko::error::Error;
use motoko::num::parse_u64;
use motoko::text::{dataset_table_name, dataview_view_name, dec_string};
use motoko::utils::{get_invocation_type, user_name_from_email};

#[test]
fn token_round_trip_project() {
    let keys = vec!["7".to_owned()];
    let token = encode(EntityKind::Project, &keys);
    let (kind, back) = decode(&token).expect("token must decode");
    assert_eq!(kind, EntityKind::Project);
    assert_eq!(back, keys);
}

#[test]
fn token_round_trip_role_pair() {
    let keys = vec!["3".to_owned(), "12".to_owned()];
    let token = encode(EntityKind::ProjectUserRole, &keys);
    let (kind, back) = decode(&token).expect("token must decode");
    assert_eq!(kind, EntityKind::ProjectUserRole);
    assert_eq!(back, keys);
}

#[test]
fn token_round_trip_refresh_token_value() {
    let keys = vec!["opaque-value-42".to_owned()];
    let token = encode(EntityKind::UserRefreshToken, &keys);
    let (kind, back) = decode(&token).expect("token must decode");
    assert_eq!(kind, EntityKind::UserRefreshToken);
    assert_eq!(back, keys);
    // any delimiter-free key survives the trip, ASCII or not
    let wide = vec!["wert \u{e4}\u{f6}\u{fc} \u{4e2d}\u{6587}".to_owned()];
    let token = encode(EntityKind::UserRefreshToken, &wide);
    let (kind, back) = decode(&token).expect("token must decode");
    assert_eq!(kind, EntityKind::UserRefreshToken);
    assert_eq!(back, wide);
}

#[test]
fn token_matches_base64_of_joined_payload() {
    // the transformation is ordinary standard-alphabet base64 over
    // "<Kind>:<key>": opaque, but not secret
    let keys = vec!["7".to_owned()];
    let token = encode(EntityKind::Dataset, &keys);
    assert_eq!(token, base64::encode("Dataset:7"));
    let mk = model_keys(&base64::encode("Analysis:15")).unwrap();
    assert_eq!(mk.model, "Analysis");
    assert_eq!(mk.keys, vec!["15".to_owned()]);
}

#[test]
fn decode_rejects_garbage() {
    assert_eq!(decode(&"!!!not base64!!!".to_owned()), Err(Error::InvalidToken));
    // wrong delimiter count for the declared kind
    let two_keys = base64::encode("Project:1:2");
    assert_eq!(decode(&two_keys), Err(Error::InvalidToken));
    // a key that does not parse as an identifier
    let bad_key = base64::encode("Project:abc");
    assert_eq!(decode(&bad_key), Err(Error::InvalidToken));
    // an unknown kind name
    let bad_kind = base64::encode("Gadget:1");
    assert_eq!(decode(&bad_kind), Err(Error::InvalidToken));
}

#[test]
fn decimal_format_and_parse() {
    assert_eq!(dec_string(0), "0");
    assert_eq!(dec_string(907), "907");
    assert_eq!(dec_string(u64::MAX), "18446744073709551615");
    assert_eq!(parse_u64("907"), Some(907));
    assert_eq!(parse_u64(""), None);
    assert_eq!(parse_u64("12a"), None);
    assert_eq!(parse_u64("18446744073709551616"), None);
}

#[test]
fn physical_names_are_deterministic() {
    assert_eq!(dataset_table_name(7), "dataset_7");
    assert_eq!(dataview_view_name(31), "dataview_31");
    assert_eq!(
        motoko::text::root_view_statement(31, 7),
        "CREATE VIEW dataview_31 AS SELECT * FROM dataset_7"
    );
}

#[test]
fn user_name_strips_domain_and_dots() {
    assert_eq!(user_name_from_email("motoko.kusanagi@motoko.ai"), "motoko_kusanagi");
    assert_eq!(user_name_from_email("plain@example.com"), "plain");
    assert_eq!(user_name_from_email("nodomain"), "nodomain");
}

#[test]
fn invocation_type_depends_on_run_mode() {
    assert_eq!(get_invocation_type("local"), None);
    assert_eq!(get_invocation_type("prod"), Some("Event".to_owned()));
}

#[test]
fn error_messages_are_fixed() {
    assert_eq!(Error::NotAuthenticated.message(), "not authenticated");
    assert_eq!(Error::InvalidToken.message(), "invalid token");
    assert_eq!(Error::InvariantViolation.message(), "invariant violation");
}
