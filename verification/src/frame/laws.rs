//! How messages are read, member by member, and what those that are sent hold.

use vstd::prelude::*;

use crate::balesh;
use crate::balesh::Topic;
use crate::frame;
use crate::frame::{FrameView, Playback, Pubsub};
use crate::json;
use crate::json::Json;
use crate::text;

verus! {

proof fn kinds_differ()
    ensures
        "welcome"@ != "subscribeResponse"@,
        "welcome"@ != "notification"@,
        "subscribeResponse"@ != "notification"@,
        "stream-up"@ != "stream-down"@,
{
    reveal_strlit("welcome");
    reveal_strlit("subscribeResponse");
    reveal_strlit("notification");
    reveal_strlit("stream-up");
    reveal_strlit("stream-down");
    assert("welcome"@.len() == 7);
    assert("subscribeResponse"@.len() == 17);
    assert("notification"@.len() == 12);
    assert("stream-up"@.len() == 9);
    assert("stream-down"@.len() == 11);
}

/// A welcome is read with the keepalive that it names; with 15 seconds where that is no number.
pub proof fn welcomes_are_read(json: Json)
    requires
        json::member(json, "type"@) == Json::Text("welcome"@),
    ensures
        frame::frame_of(json) matches FrameView::Welcome { keepalive_secs } && {
            let named = json::member(json::member(json, "welcome"@), "keepaliveSec"@);
            &&& named matches Json::Unsigned(n) ==> keepalive_secs == n
            &&& !(named is Unsigned) ==> keepalive_secs == 15
        },
{
}

/// An answer is read with the subscription that it names, and is an acceptance exactly if its
/// result is `ok`.
pub proof fn answers_are_read(json: Json)
    requires
        json::member(json, "type"@) == Json::Text("subscribeResponse"@),
    ensures
        frame::frame_of(json) matches FrameView::SubscribeResponse { target, accepted } && {
            let body = json::member(json, "subscribeResponse"@);
            &&& target == frame::target_of(json::member(json::member(body, "subscription"@), "id"@))
            &&& accepted <==> json::member(body, "result"@) == Json::Text("ok"@)
        },
{
    kinds_differ();
}

/// A notification is read with the subscription that it names and the payload in its text.
pub proof fn notifications_are_read(json: Json, inner: Seq<char>)
    requires
        json::member(json, "type"@) == Json::Text("notification"@),
        json::member(json::member(json, "notification"@), "pubsub"@) == Json::Text(inner),
    ensures
        frame::frame_of(json) matches FrameView::Notification { target, pubsub } && {
            let body = json::member(json, "notification"@);
            &&& target == frame::target_of(json::member(json::member(body, "subscription"@), "id"@))
            &&& json::parsed(inner) is None ==> pubsub is None
            &&& json::parsed(inner) matches Some(payload) ==> pubsub == Some(
                frame::pubsub_of(payload),
            )
        },
{
    kinds_differ();
}

/// Messages of any other kind, blank ones and those that are no JSON mean nothing.
pub proof fn other_messages_are_ignored(message: Seq<char>)
    requires
        text::trimmed(message).len() == 0 || match json::parsed(message) {
            Some(json) => {
                let kind = json::member(json, "type"@);
                &&& kind != Json::Text("welcome"@)
                &&& kind != Json::Text("subscribeResponse"@)
                &&& kind != Json::Text("notification"@)
            },
            None => true,
        },
    ensures
        frame::frame_in(message) == FrameView::Ignored,
{
}

/// A message that is JSON and not blank means what its JSON means.
pub proof fn messages_mean_their_json(message: Seq<char>, json: Json)
    requires
        text::trimmed(message).len() > 0,
        json::parsed(message) == Some(json),
    ensures
        frame::frame_in(message) == frame::frame_of(json),
{
}

/// A payload is read member by member: texts that are missing are empty, an empty game is none,
/// and an identifier of the game counts only as a number.
pub proof fn payloads_are_read(json: Json)
    ensures
        ({
            let read = frame::pubsub_of(json);
            &&& json::member(json, "status"@) matches Json::Text(s) ==> read.status == s
            &&& !(json::member(json, "status"@) is Text) ==> read.status.len() == 0
            &&& json::member(json, "old_status"@) matches Json::Text(s) ==> read.old_status == s
            &&& !(json::member(json, "old_status"@) is Text) ==> read.old_status.len() == 0
            &&& json::member(json, "old_game"@) matches Json::Text(s) ==> read.old_game == s
            &&& !(json::member(json, "old_game"@) is Text) ==> read.old_game.len() == 0
            &&& json::member(json, "game"@) matches Json::Text(s) ==> (if s.len() > 0 {
                read.game == Some(s)
            } else {
                read.game is None
            })
            &&& !(json::member(json, "game"@) is Text) ==> read.game is None
            &&& json::member(json, "game_id"@) matches Json::Unsigned(n) ==> read.game_id == Some(n)
            &&& !(json::member(json, "game_id"@) is Unsigned) ==> read.game_id is None
        }),
{
}

/// A stream starts with the kind `stream-up`, ends with `stream-down`, and does neither with any
/// other.
pub proof fn playback_is_read(json: Json)
    ensures
        ({
            let kind = json::member(json, "type"@);
            let read = frame::pubsub_of(json).playback;
            &&& kind == Json::Text("stream-up"@) <==> read == Playback::StreamUp
            &&& kind == Json::Text("stream-down"@) <==> read == Playback::StreamDown
        }),
{
    kinds_differ();
}

/// An identifier is understood only if it has 21 characters; it then means the number that they
/// spell, and only that number is spelled so.
pub proof fn targets_are_read(s: Seq<char>)
    ensures
        s.len() != 21 ==> frame::target_of(Json::Text(s)) is None,
        frame::target_of(Json::Text(s)) matches Some(n) ==> s == balesh::spelled(n, 21),
{
    if s.len() == 21 && balesh::value_of(s) is Some {
        balesh::lemma_spelled_value_of(s);
    }
}

/// A payload holds what it was read from.
pub proof fn payloads_hold_what_they_show(pubsub: Pubsub)
    ensures
        pubsub@.status == pubsub.status@,
        pubsub@.old_status == pubsub.old_status@,
        pubsub@.old_game == pubsub.old_game@,
        pubsub.game matches Some(name) ==> pubsub@.game == Some(name@),
        pubsub.game is None ==> pubsub@.game is None,
        pubsub@.game_id == pubsub.game_id,
        pubsub@.playback == pubsub.playback,
{
}

/// A subscription is sent with an identifier of the message, the one of the subscription, the name
/// of the topic and the moment, and with nothing else.
pub proof fn subscriptions_in_full(id: nat, subscription: nat, topic: Topic, stamp: Seq<char>)
    ensures
        ({
            let sent = frame::subscribe_json(id, subscription, topic, stamp);
            let body = json::member(sent, "subscribe"@);
            &&& sent is Object && sent->Object_0.dom() =~= set![
                "type"@,
                "id"@,
                "subscribe"@,
                "timestamp"@,
            ]
            &&& json::member(sent, "type"@) == Json::Text("subscribe"@)
            &&& json::member(sent, "id"@) == Json::Text(balesh::spelled(id, 21))
            &&& json::member(sent, "timestamp"@) == Json::Text(stamp)
            &&& body is Object && body->Object_0.dom() =~= set!["id"@, "type"@, "pubsub"@]
            &&& json::member(body, "id"@) == Json::Text(balesh::spelled(subscription, 21))
            &&& json::member(body, "type"@) == Json::Text("pubsub"@)
            &&& json::member(json::member(body, "pubsub"@), "topic"@) == Json::Text(
                match topic {
                    Topic::BroadcastSettingsUpdate(channel) => "broadcast-settings-update."@
                        + text::decimal(channel as nat),
                    Topic::VideoPlaybackById(channel) => "video-playback-by-id."@ + text::decimal(
                        channel as nat,
                    ),
                },
            )
        }),
{
    reveal(frame::subscribe_json);
    names_differ();
}

/// The end of a subscription is sent with an identifier of the message, the one of the
/// subscription and the moment, and with nothing else.
pub proof fn farewells_in_full(id: nat, subscription: nat, stamp: Seq<char>)
    ensures
        ({
            let sent = frame::unsubscribe_json(id, subscription, stamp);
            let body = json::member(sent, "unsubscribe"@);
            &&& sent is Object && sent->Object_0.dom() =~= set![
                "type"@,
                "id"@,
                "unsubscribe"@,
                "timestamp"@,
            ]
            &&& json::member(sent, "type"@) == Json::Text("unsubscribe"@)
            &&& json::member(sent, "id"@) == Json::Text(balesh::spelled(id, 21))
            &&& json::member(sent, "timestamp"@) == Json::Text(stamp)
            &&& body is Object && body->Object_0.dom() =~= set!["id"@]
            &&& json::member(body, "id"@) == Json::Text(balesh::spelled(subscription, 21))
        }),
{
    reveal(frame::unsubscribe_json);
    names_differ();
}

proof fn names_differ()
    ensures
        "type"@ != "id"@,
        "type"@ != "subscribe"@,
        "type"@ != "unsubscribe"@,
        "type"@ != "timestamp"@,
        "type"@ != "pubsub"@,
        "id"@ != "subscribe"@,
        "id"@ != "unsubscribe"@,
        "id"@ != "timestamp"@,
        "id"@ != "pubsub"@,
        "subscribe"@ != "timestamp"@,
        "unsubscribe"@ != "timestamp"@,
{
    reveal_strlit("type");
    reveal_strlit("id");
    reveal_strlit("subscribe");
    reveal_strlit("unsubscribe");
    reveal_strlit("timestamp");
    reveal_strlit("pubsub");
    assert("type"@.len() == 4);
    assert("id"@.len() == 2);
    assert("subscribe"@.len() == 9);
    assert("unsubscribe"@.len() == 11);
    assert("timestamp"@.len() == 9);
    assert("pubsub"@.len() == 6);
    assert("subscribe"@[0] == 's');
    assert("timestamp"@[0] == 't');
}

} // verus!
