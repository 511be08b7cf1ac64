//! Messages of the Hermes connection: what arrives, and what is sent.

pub mod laws;

use vstd::prelude::*;

use crate::balesh;
use crate::balesh::{NanoId, Topic};
use crate::json;
use crate::json::Json;
use crate::text;

verus! {

/// What a playback payload says.
#[derive(Clone, Copy, PartialEq, Eq, Structural)]
pub enum Playback {
    StreamUp,
    StreamDown,
    Other,
}

/// The payload of a notification.
pub struct Pubsub {
    pub status: String,
    pub old_status: String,
    pub game: Option<String>,
    pub old_game: String,
    pub game_id: Option<u64>,
    pub playback: Playback,
}

pub struct PubsubView {
    pub status: Seq<char>,
    pub old_status: Seq<char>,
    pub game: Option<Seq<char>>,
    pub old_game: Seq<char>,
    pub game_id: Option<u64>,
    pub playback: Playback,
}

impl View for Pubsub {
    type V = PubsubView;

    open spec fn view(&self) -> PubsubView {
        PubsubView {
            status: self.status@,
            old_status: self.old_status@,
            game: text::opt(self.game),
            old_game: self.old_game@,
            game_id: self.game_id,
            playback: self.playback,
        }
    }
}

/// A message that has arrived. The identifier of a subscription is missing where it is not
/// readable.
pub enum Frame {
    Welcome { keepalive_secs: u64 },
    SubscribeResponse { target: Option<NanoId>, accepted: bool },
    Notification { target: Option<NanoId>, pubsub: Option<Pubsub> },
    Ignored,
}

pub enum FrameView {
    Welcome { keepalive_secs: u64 },
    SubscribeResponse { target: Option<nat>, accepted: bool },
    Notification { target: Option<nat>, pubsub: Option<PubsubView> },
    Ignored,
}

pub open spec fn target_view(target: Option<NanoId>) -> Option<nat> {
    match target {
        Some(id) => Some(id@),
        None => None,
    }
}

pub open spec fn pubsub_view(pubsub: Option<Pubsub>) -> Option<PubsubView> {
    match pubsub {
        Some(p) => Some(p@),
        None => None,
    }
}

impl View for Frame {
    type V = FrameView;

    open spec fn view(&self) -> FrameView {
        match *self {
            Frame::Welcome { keepalive_secs } => FrameView::Welcome { keepalive_secs },
            Frame::SubscribeResponse { target, accepted } => FrameView::SubscribeResponse {
                target: target_view(target),
                accepted,
            },
            Frame::Notification { target, pubsub } => FrameView::Notification {
                target: target_view(target),
                pubsub: pubsub_view(pubsub),
            },
            Frame::Ignored => FrameView::Ignored,
        }
    }
}

/// The text at a key; empty where there is none.
pub open spec fn text_at(json: Json, key: Seq<char>) -> Seq<char> {
    match json::text_in(json::member(json, key)) {
        Some(s) => s,
        None => seq![],
    }
}

/// The payload that a JSON value means.
pub open spec fn pubsub_of(json: Json) -> PubsubView {
    let kind = json::text_in(json::member(json, "type"@));
    PubsubView {
        status: text_at(json, "status"@),
        old_status: text_at(json, "old_status"@),
        game: text::nonempty(json::text_in(json::member(json, "game"@))),
        old_game: text_at(json, "old_game"@),
        game_id: json::unsigned_in(json::member(json, "game_id"@)),
        playback: if kind == Some("stream-up"@) {
            Playback::StreamUp
        } else if kind == Some("stream-down"@) {
            Playback::StreamDown
        } else {
            Playback::Other
        },
    }
}

/// The payload in a text of JSON; `None` where the text is none.
pub open spec fn pubsub_in(s: Seq<char>) -> Option<PubsubView> {
    match json::parsed(s) {
        Some(json) => Some(pubsub_of(json)),
        None => None,
    }
}

/// The identifier that a JSON text spells.
pub open spec fn target_of(json: Json) -> Option<nat> {
    match json::text_in(json) {
        Some(s) => if s.len() == balesh::NANO_ID_LEN {
            balesh::value_of(s)
        } else {
            None
        },
        None => None,
    }
}

/// The message that a JSON value means.
pub open spec fn frame_of(json: Json) -> FrameView {
    let kind = json::text_in(json::member(json, "type"@));
    if kind == Some("welcome"@) {
        let keepalive = json::member(json::member(json, "welcome"@), "keepaliveSec"@);
        FrameView::Welcome {
            keepalive_secs: match json::unsigned_in(keepalive) {
                Some(n) => n,
                None => 15,
            },
        }
    } else if kind == Some("subscribeResponse"@) {
        let body = json::member(json, "subscribeResponse"@);
        FrameView::SubscribeResponse {
            target: target_of(json::member(json::member(body, "subscription"@), "id"@)),
            accepted: json::text_in(json::member(body, "result"@)) == Some("ok"@),
        }
    } else if kind == Some("notification"@) {
        let body = json::member(json, "notification"@);
        FrameView::Notification {
            target: target_of(json::member(json::member(body, "subscription"@), "id"@)),
            pubsub: pubsub_in(text_at(body, "pubsub"@)),
        }
    } else {
        FrameView::Ignored
    }
}

/// The message in a text. A text that is blank or no JSON means nothing.
pub open spec fn frame_in(s: Seq<char>) -> FrameView {
    if text::trimmed(s).len() == 0 {
        FrameView::Ignored
    } else {
        match json::parsed(s) {
            Some(json) => frame_of(json),
            None => FrameView::Ignored,
        }
    }
}

fn is_text(value: &serde_json::Value, s: &str) -> (same: bool)
    ensures
        same == (json::text_in(json::json_of(*value)) == Some(s@)),
{
    match json::as_str(value) {
        Some(t) => text::same_text(t, s),
        None => false,
    }
}

pub(crate) fn read_text(value: &serde_json::Value, key: &str) -> (r: String)
    ensures
        r@ == text_at(json::json_of(*value), key@),
{
    match json::as_str(json::at(value, key)) {
        Some(s) => s.to_string(),
        None => {
            let r = String::new();
            assert(r@ =~= seq![]);
            r
        },
    }
}

/// Reads a payload.
pub fn decode_pubsub(value: &serde_json::Value) -> (r: Pubsub)
    ensures
        r@ == pubsub_of(json::json_of(*value)),
{
    let kind = json::at(value, "type");
    let playback = if is_text(kind, "stream-up") {
        Playback::StreamUp
    } else if is_text(kind, "stream-down") {
        Playback::StreamDown
    } else {
        Playback::Other
    };
    let game = match json::as_str(json::at(value, "game")) {
        Some(s) => Some(s.to_string()),
        None => None,
    };
    Pubsub {
        status: read_text(value, "status"),
        old_status: read_text(value, "old_status"),
        game: text::filter_empty(game),
        old_game: read_text(value, "old_game"),
        game_id: json::as_u64(json::at(value, "game_id")),
        playback,
    }
}

fn read_target(value: &serde_json::Value) -> (r: Option<NanoId>)
    ensures
        target_view(r) == target_of(json::json_of(*value)),
{
    match json::as_str(value) {
        Some(s) => NanoId::parse(s),
        None => None,
    }
}

/// Reads a message.
pub fn decode_frame(message: &serde_json::Value) -> (r: Frame)
    ensures
        r@ == frame_of(json::json_of(*message)),
{
    let kind = json::at(message, "type");
    if is_text(kind, "welcome") {
        let keepalive = json::as_u64(json::at(json::at(message, "welcome"), "keepaliveSec"));
        Frame::Welcome {
            keepalive_secs: match keepalive {
                Some(n) => n,
                None => 15,
            },
        }
    } else if is_text(kind, "subscribeResponse") {
        let body = json::at(message, "subscribeResponse");
        Frame::SubscribeResponse {
            target: read_target(json::at(json::at(body, "subscription"), "id")),
            accepted: is_text(json::at(body, "result"), "ok"),
        }
    } else if is_text(kind, "notification") {
        let body = json::at(message, "notification");
        let payload = read_text(body, "pubsub");
        let pubsub = match json::parse(payload.as_str()) {
            Some(value) => Some(decode_pubsub(&value)),
            None => None,
        };
        Frame::Notification {
            target: read_target(json::at(json::at(body, "subscription"), "id")),
            pubsub,
        }
    } else {
        Frame::Ignored
    }
}

/// Reads the message in a text.
pub fn read_frame(s: &str) -> (r: Frame)
    ensures
        r@ == frame_in(s@),
{
    if text::trim(s).as_str().is_empty() {
        return Frame::Ignored;
    }
    match json::parse(s) {
        Some(message) => decode_frame(&message),
        None => Frame::Ignored,
    }
}

/// The message that subscribes to a topic.
#[verifier::opaque]
pub open spec fn subscribe_json(id: nat, subscription: nat, topic: Topic, stamp: Seq<char>) -> Json {
    let len = balesh::NANO_ID_LEN as nat;
    Json::Object(
        map![
            "type"@ => Json::Text("subscribe"@),
            "id"@ => Json::Text(balesh::spelled(id, len)),
            "subscribe"@ => Json::Object(map![
                "id"@ => Json::Text(balesh::spelled(subscription, len)),
                "type"@ => Json::Text("pubsub"@),
                "pubsub"@ => Json::Object(map!["topic"@ => Json::Text(topic.name())]),
            ]),
            "timestamp"@ => Json::Text(stamp),
        ],
    )
}

/// The message that ends a subscription.
#[verifier::opaque]
pub open spec fn unsubscribe_json(id: nat, subscription: nat, stamp: Seq<char>) -> Json {
    let len = balesh::NANO_ID_LEN as nat;
    Json::Object(
        map![
            "type"@ => Json::Text("unsubscribe"@),
            "id"@ => Json::Text(balesh::spelled(id, len)),
            "unsubscribe"@ => Json::Object(map![
                "id"@ => Json::Text(balesh::spelled(subscription, len)),
            ]),
            "timestamp"@ => Json::Text(stamp),
        ],
    )
}

/// Writes the message that subscribes to a topic.
pub fn subscribe_text(id: NanoId, subscription: NanoId, topic: Topic, stamp: &str) -> (r: String)
    ensures
        r@ == json::written(subscribe_json(id@, subscription@, topic, stamp@)),
{
    reveal(subscribe_json);
    let mut pubsub = json::no_members();
    json::insert(&mut pubsub, "topic", json::string(topic.to_text().as_str()));
    let mut body = json::no_members();
    json::insert(&mut body, "id", json::string(subscription.to_text().as_str()));
    json::insert(&mut body, "type", json::string("pubsub"));
    json::insert(&mut body, "pubsub", json::object(pubsub));
    let mut message = json::no_members();
    json::insert(&mut message, "type", json::string("subscribe"));
    json::insert(&mut message, "id", json::string(id.to_text().as_str()));
    json::insert(&mut message, "subscribe", json::object(body));
    json::insert(&mut message, "timestamp", json::string(stamp));
    json::write(&json::object(message))
}

/// Writes the message that ends a subscription.
pub fn unsubscribe_text(id: NanoId, subscription: NanoId, stamp: &str) -> (r: String)
    ensures
        r@ == json::written(unsubscribe_json(id@, subscription@, stamp@)),
{
    reveal(unsubscribe_json);
    let mut body = json::no_members();
    json::insert(&mut body, "id", json::string(subscription.to_text().as_str()));
    let mut message = json::no_members();
    json::insert(&mut message, "type", json::string("unsubscribe"));
    json::insert(&mut message, "id", json::string(id.to_text().as_str()));
    json::insert(&mut message, "unsubscribe", json::object(body));
    json::insert(&mut message, "timestamp", json::string(stamp));
    json::write(&json::object(message))
}

/// A response that names a subscription by the identifier it was sent with is understood to
/// mean that subscription.
pub proof fn lemma_target_of_sent(id: nat)
    requires
        id < balesh::NANO_ID_COUNT,
    ensures
        target_of(Json::Text(balesh::spelled(id, balesh::NANO_ID_LEN as nat))) == Some(id),
{
    balesh::lemma_value_of_spelled(id);
}

} // verus!
