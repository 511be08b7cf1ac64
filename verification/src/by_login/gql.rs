//! Responses of the GQL endpoint, read member by member.

use vstd::prelude::*;

use crate::frame;
use crate::gql;
use crate::gql::{Game, GameView, User, UserView};
use crate::json;
use crate::json::Json;
use crate::logging;
use crate::text;

verus! {

/// The identifier that a text at a key writes.
pub open spec fn id_at(json: Json, key: Seq<char>) -> Option<u64> {
    match json::text_in(json::member(json, key)) {
        Some(s) => text::u64_of(s),
        None => None,
    }
}

/// A game counts only if it is complete.
pub open spec fn game_of(game: Json) -> Option<GameView> {
    match (
        id_at(game, "id"@),
        json::text_in(json::member(game, "name"@)),
        json::text_in(json::member(game, "displayName"@)),
    ) {
        (Some(id), Some(name), Some(display_name)) => Some(GameView { id, name, display_name }),
        _ => None,
    }
}

/// The user that an entry describes. It must have an identifier and a broadcast with one; texts
/// that are missing count as empty. It is live if it has a stream.
pub open spec fn user_of(raw: Json) -> Option<UserView> {
    let broadcast = json::member(raw, "broadcastSettings"@);
    let stream = json::member(raw, "stream"@);
    match (id_at(raw, "id"@), id_at(broadcast, "id"@)) {
        (Some(channel_id), Some(stream_id)) => Some(
            UserView {
                channel_id,
                channel_name: frame::text_at(raw, "login"@),
                channel_display_name: frame::text_at(raw, "displayName"@),
                profile_image_url: frame::text_at(raw, "profileImageURL"@),
                stream_id,
                stream_title: text::nonempty(json::text_in(json::member(broadcast, "title"@))),
                stream_start: match json::text_in(json::member(stream, "createdAt"@)) {
                    Some(at) => match logging::iso_ms(at) {
                        Some(ms) => Some(ms as i64),
                        None => None,
                    },
                    None => None,
                },
                game: game_of(json::member(broadcast, "game"@)),
                live: stream is Object,
            },
        ),
        _ => None,
    }
}

/// The users among entries, in order.
pub open spec fn users_in(entries: Seq<Json>) -> Seq<UserView>
    decreases entries.len(),
{
    if entries.len() == 0 {
        seq![]
    } else {
        let before = users_in(entries.drop_last());
        match user_of(entries.last()) {
            Some(user) => before.push(user),
            None => before,
        }
    }
}

/// The entries of one response.
pub open spec fn entries_of(response: Json) -> Seq<Json> {
    match json::items_in(json::member(json::member(response, "data"@), "users"@)) {
        Some(items) => items,
        None => seq![],
    }
}

/// The users of responses, in order.
pub open spec fn users_of_all(responses: Seq<Json>) -> Seq<UserView>
    decreases responses.len(),
{
    if responses.len() == 0 {
        seq![]
    } else {
        users_of_all(responses.drop_last()) + users_in(entries_of(responses.last()))
    }
}

/// The users of a body. One that is no array has none.
pub open spec fn users_of(body: Json) -> Seq<UserView> {
    match json::items_in(body) {
        Some(responses) => users_of_all(responses),
        None => seq![],
    }
}

fn read_id(value: &serde_json::Value, key: &str) -> (r: Option<u64>)
    ensures
        r == id_at(json::json_of(*value), key@),
{
    match json::as_str(json::at(value, key)) {
        Some(s) => text::parse_u64(s),
        None => None,
    }
}

fn read_option(value: &serde_json::Value, key: &str) -> (r: Option<String>)
    ensures
        text::opt(r) == json::text_in(json::member(json::json_of(*value), key@)),
{
    match json::as_str(json::at(value, key)) {
        Some(s) => Some(s.to_string()),
        None => None,
    }
}

fn decode_game(value: &serde_json::Value) -> (game: Option<Game>)
    ensures
        gql::game_view(game) == game_of(json::json_of(*value)),
{
    match (read_id(value, "id"), read_option(value, "name"), read_option(value, "displayName")) {
        (Some(id), Some(name), Some(display_name)) => Some(Game { id, name, display_name }),
        _ => None,
    }
}

/// Reads one entry.
pub fn decode_user(raw: &serde_json::Value) -> (user: Option<User>)
    ensures
        user_of(json::json_of(*raw)) == (match user {
            Some(u) => Some(u@),
            None => None,
        }),
{
    let broadcast = json::at(raw, "broadcastSettings");
    let stream = json::at(raw, "stream");
    match (read_id(raw, "id"), read_id(broadcast, "id")) {
        (Some(channel_id), Some(stream_id)) => {
            let stream_start: Option<i64> = match json::as_str(json::at(stream, "createdAt")) {
                Some(at) => logging::parse_iso_ms(at),
                None => None,
            };
            Some(
                User {
                    channel_id,
                    channel_name: frame::read_text(raw, "login"),
                    channel_display_name: frame::read_text(raw, "displayName"),
                    profile_image_url: frame::read_text(raw, "profileImageURL"),
                    stream_id,
                    stream_title: text::filter_empty(read_option(broadcast, "title")),
                    stream_start,
                    game: decode_game(json::at(broadcast, "game")),
                    live: json::is_object(stream),
                },
            )
        },
        _ => None,
    }
}

fn append_users(response: &serde_json::Value, users: &mut Vec<User>)
    ensures
        gql::user_views(final(users)@) == gql::user_views(old(users)@) + users_in(
            entries_of(json::json_of(*response)),
        ),
{
    let ghost start = gql::user_views(users@);
    let ghost all = entries_of(json::json_of(*response));
    match json::as_array(json::at(json::at(response, "data"), "users")) {
        Some(entries) => {
            let mut i: usize = 0;
            assert(all.take(0) =~= seq![]);
            assert(start + users_in(all.take(0)) =~= start);
            while i < entries.len()
                invariant
                    i <= entries@.len(),
                    all.len() == entries@.len(),
                    forall|k: int|
                        0 <= k < all.len() ==> all[k] == json::json_of(#[trigger] entries@[k]),
                    gql::user_views(users@) == start + users_in(all.take(i as int)),
                decreases entries@.len() - i,
            {
                assert(all.take(i + 1).drop_last() =~= all.take(i as int));
                assert(all.take(i + 1).last() == json::json_of(entries@[i as int]));
                let ghost before = users@;
                match decode_user(&entries[i]) {
                    Some(user) => {
                        users.push(user);
                        assert(gql::user_views(users@) =~= gql::user_views(before).push(user@));
                        assert(gql::user_views(users@) =~= start + users_in(all.take(i + 1)));
                    },
                    None => {},
                }
                i = i + 1;
            }
            assert(all.take(all.len() as int) =~= all);
        },
        None => {
            assert(start + users_in(all) =~= start);
        },
    }
}

/// Reads the users of a body.
pub fn decode_users(body: &serde_json::Value) -> (users: Vec<User>)
    ensures
        gql::user_views(users@) == users_of(json::json_of(*body)),
{
    let mut users: Vec<User> = Vec::new();
    assert(gql::user_views(users@) =~= seq![]);
    match json::as_array(body) {
        Some(responses) => {
            let ghost all = json::items_in(json::json_of(*body)).unwrap();
            let mut i: usize = 0;
            assert(all.take(0) =~= seq![]);
            while i < responses.len()
                invariant
                    i <= responses@.len(),
                    all.len() == responses@.len(),
                    forall|k: int|
                        0 <= k < all.len() ==> all[k] == json::json_of(#[trigger] responses@[k]),
                    gql::user_views(users@) == users_of_all(all.take(i as int)),
                decreases responses@.len() - i,
            {
                assert(all.take(i + 1).drop_last() =~= all.take(i as int));
                assert(all.take(i + 1).last() == json::json_of(responses@[i as int]));
                append_users(&responses[i], &mut users);
                i = i + 1;
            }
            assert(all.take(all.len() as int) =~= all);
        },
        None => {},
    }
    users
}

/// Reads the users of a body of bytes; where it is no JSON, the reader's error is handed on.
pub fn decode_body(bytes: &[u8]) -> (users: Result<Vec<User>, String>)
    ensures
        (match json::parsed_bytes(bytes@) {
            Ok(body) => Ok(users_of(body)),
            Err(error) => Err(error),
        }) == (match users {
            Ok(list) => Ok(gql::user_views(list@)),
            Err(error) => Err(error@),
        }),
{
    match json::parse_bytes(bytes) {
        Ok(body) => Ok(decode_users(&body)),
        Err(error) => Err(error),
    }
}

} // verus!
