use serde_json::Value;
use siphon::gql::{
    collect_users, opt_u64, request_body, Download, GqlBroadcast, GqlData, GqlGame,
    GqlOperationResponse, GqlStream, GqlUser, IdRepr,
};
use siphon::logging::parse_iso_ms;

fn text_id(id: &str) -> Option<u64> {
    opt_u64(Some(IdRepr::Text(id.to_owned())))
}

fn some(text: &str) -> Option<String> {
    Some(text.to_owned())
}

fn alice() -> GqlUser {
    GqlUser {
        id: text_id("123"),
        login: some("alice"),
        display_name: some("Alice"),
        profile_image_url: some("http://x/y.png"),
        broadcast: Some(GqlBroadcast {
            id: text_id("999"),
            title: some("hi"),
            game: Some(GqlGame {
                id: text_id("10"),
                name: some("g"),
                display_name: some("G"),
            }),
        }),
        stream: Some(GqlStream {
            created_at: some("2026-09-10T18:35:06Z"),
        }),
    }
}

fn batch(users: Vec<Option<GqlUser>>) -> GqlOperationResponse {
    GqlOperationResponse {
        data: Some(GqlData { users: Some(users) }),
    }
}

#[test]
fn typed_decode_keeps_live_user_with_game() {
    let users = collect_users(vec![batch(vec![Some(alice())])]);
    assert_eq!(users.len(), 1);
    let user = &users[0];
    assert_eq!(user.channel_id, 123);
    assert_eq!(user.channel_name, "alice");
    assert_eq!(user.channel_display_name, "Alice");
    assert_eq!(user.profile_image_url, "http://x/y.png");
    assert_eq!(user.stream_id, 999);
    assert_eq!(user.stream_title.as_deref(), Some("hi"));
    assert_eq!(user.stream_start, parse_iso_ms("2026-09-10T18:35:06Z"));
    let game = user.game.as_ref().expect("game should decode");
    assert_eq!(game.id, 10);
    assert_eq!(game.name, "g");
    assert_eq!(game.display_name, "G");
    assert!(user.live);
}

#[test]
fn typed_decode_accepts_numeric_ids_and_offline_user() {
    let raw = GqlUser {
        id: opt_u64(Some(IdRepr::Num(456))),
        login: some("bob"),
        display_name: some("Bob"),
        profile_image_url: some("http://x/z.png"),
        broadcast: Some(GqlBroadcast {
            id: opt_u64(Some(IdRepr::Num(777))),
            title: some(""),
            game: None,
        }),
        stream: None,
    };
    let users = collect_users(vec![batch(vec![Some(raw)])]);
    assert_eq!(users.len(), 1);
    let user = &users[0];
    assert_eq!(user.channel_id, 456);
    assert_eq!(user.stream_id, 777);
    assert!(user.stream_title.is_none());
    assert!(user.stream_start.is_none());
    assert!(user.game.is_none());
    assert!(!user.live);
}

#[test]
fn typed_decode_skips_bad_entries_but_keeps_batch() {
    let ghost = GqlUser {
        id: text_id("bad"),
        login: some("ghost"),
        display_name: None,
        profile_image_url: None,
        broadcast: Some(GqlBroadcast {
            id: text_id("1"),
            title: some("t"),
            game: None,
        }),
        stream: None,
    };
    let no_broadcast = GqlUser {
        id: text_id("789"),
        login: some("nobra"),
        display_name: None,
        profile_image_url: None,
        broadcast: None,
        stream: None,
    };
    let users = collect_users(vec![
        batch(vec![None, Some(ghost), Some(no_broadcast), Some(alice())]),
        GqlOperationResponse { data: None },
        GqlOperationResponse {
            data: Some(GqlData { users: None }),
        },
    ]);
    assert_eq!(users.len(), 1);
    assert_eq!(users[0].channel_id, 123);
}

#[test]
fn an_incomplete_game_is_left_out() {
    let mut raw = alice();
    if let Some(broadcast) = raw.broadcast.as_mut() {
        broadcast.game = Some(GqlGame {
            id: text_id("10"),
            name: None,
            display_name: some("G"),
        });
    }
    let user = raw.into_user().expect("the user itself is complete");
    assert!(user.game.is_none());
}

#[test]
fn identifiers_that_are_no_number_count_as_missing() {
    assert_eq!(opt_u64(None), None);
    assert_eq!(opt_u64(Some(IdRepr::Other)), None);
    assert_eq!(text_id("12345"), Some(12345));
    assert_eq!(text_id("+7"), Some(7));
    assert_eq!(text_id(""), None);
    assert_eq!(text_id("-1"), None);
    assert_eq!(text_id("18446744073709551615"), Some(u64::MAX));
    assert_eq!(text_id("18446744073709551616"), None);
}

#[test]
fn requests_ask_for_ids_and_logins() {
    let body = request_body(&[1, 20], &["alice".to_owned()]);
    let value: Value = serde_json::from_str(&body).expect("the body is JSON");
    let operations = value.as_array().expect("an array");
    assert_eq!(operations.len(), 2);
    assert_eq!(operations[0]["operationName"], Value::from("UsersByIds"));
    assert_eq!(operations[0]["variables"]["ids"], Value::from(vec!["1", "20"]));
    assert!(operations[0]["query"]
        .as_str()
        .is_some_and(|query| query.starts_with("query UsersByIds($ids:[ID!])")));
    assert_eq!(operations[1]["operationName"], Value::from("UsersByLogins"));
    assert_eq!(operations[1]["variables"]["logins"], Value::from(vec!["alice"]));
}

#[test]
fn an_empty_list_is_not_asked_for() {
    let body = request_body(&[], &["bob".to_owned()]);
    let value: Value = serde_json::from_str(&body).expect("the body is JSON");
    assert_eq!(value.as_array().map(Vec::len), Some(1));
    assert_eq!(value[0]["operationName"], Value::from("UsersByLogins"));
    assert_eq!(request_body(&[], &[]), "[]");
}

#[test]
fn chunks_are_placed_end_to_end() {
    let mut download = Download::new();
    assert_eq!(download.place(100), Some(0));
    assert_eq!(download.place(0), Some(100));
    assert_eq!(download.place(28), Some(100));
    assert_eq!(download.place(1), Some(128));
}
