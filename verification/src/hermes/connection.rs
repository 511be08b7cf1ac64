//! How long a connection is kept, what ends it, and when the next one is tried.

use vstd::prelude::*;

use crate::balesh;
use crate::balesh::{NanoId, Topic};
use crate::frame;
use crate::frame::{FrameView, PubsubView};
use crate::hermes;
use crate::hermes::{EffectView, Event, SessionView};
use crate::json;
use crate::json::Json;
use crate::subs;
use crate::subs::SubState;
use crate::text;

verus! {

/// The keepalive that a welcome names is the one that is kept: the connection is not given up
/// before twice as many seconds of silence, and it is right after. Where it names none that is a
/// number, it is 15 seconds.
pub proof fn keepalive_is_taken_from_the_welcome(
    s: SessionView,
    message: String,
    json: Json,
    now: u64,
    stamp: Seq<char>,
    after: SessionView,
    effects: Seq<EffectView>,
    later: u64,
)
    requires
        s.connected,
        text::trimmed(message@).len() > 0,
        json::parsed(message@) == Some(json),
        json::member(json, "type"@) == Json::Text("welcome"@),
        hermes::event_step(s, Event::Text(message), now, stamp, after, effects),
    ensures
        after.connected,
        after.welcomed,
        after.last_message == now,
        json::member(json::member(json, "welcome"@), "keepaliveSec"@) matches Json::Unsigned(n)
            ==> {
            &&& after.keepalive_secs == n
            &&& hermes::is_silent(after, later) <==> later > now + 2 * n * 1_000_000_000
        },
        !(json::member(json::member(json, "welcome"@), "keepaliveSec"@) is Unsigned) ==> {
            &&& after.keepalive_secs == 15
            &&& hermes::is_silent(after, later) <==> later > now + 30 * 1_000_000_000
        },
{
}

/// When a connection is given up: never where there is none; before its welcome after more than
/// 10 seconds without a message; then after more than two keepalive periods without one.
pub proof fn silence_in_full(s: SessionView, now: u64)
    ensures
        !s.connected ==> !hermes::is_silent(s, now),
        s.connected && !s.welcomed ==> (hermes::is_silent(s, now) <==> now > s.last_message
            + 10_000_000_000),
        s.connected && s.welcomed ==> (hermes::is_silent(s, now) <==> now > s.last_message
            + 2_000_000_000 * s.keepalive_secs),
{
}

/// Whatever text arrives, the connection counts as alive at that moment and stays open, and no
/// setting changes.
pub proof fn any_text_is_a_sign_of_life(
    s: SessionView,
    message: String,
    now: u64,
    stamp: Seq<char>,
    after: SessionView,
    effects: Seq<EffectView>,
)
    requires
        hermes::event_step(s, Event::Text(message), now, stamp, after, effects),
    ensures
        after.last_message == now,
        after.connected == s.connected,
        s.welcomed ==> after.welcomed,
        after.sound == s.sound,
        after.notify_title_changes == s.notify_title_changes,
        after.reconnect_at == s.reconnect_at,
        forall|t: Topic| #[trigger] after.subs.contains_key(t) <==> s.subs.contains_key(t),
        forall|t: Topic| #[trigger]
            s.subs.contains_key(t) ==> after.subs[t].id == s.subs[t].id,
{
    let begun = SessionView { last_message: now, ..s };
    match frame::frame_in(message@) {
        FrameView::Welcome { keepalive_secs } => {
            let ready = hermes::welcomed(begun, keepalive_secs);
            let list = choose|list: Seq<(Topic, NanoId)>| #[trigger]
                subs::listing(list, ready.subs) && hermes::replayed(
                    ready,
                    list,
                    stamp,
                    after,
                    effects.skip(2),
                );
            assert(hermes::replayed(ready, list, stamp, after, effects.skip(2)));
        },
        _ => {},
    }
}

/// A second that passes ends the connection exactly if it has been silent for too long, and does
/// nothing else.
pub proof fn ticks_in_full(
    s: SessionView,
    now: u64,
    stamp: Seq<char>,
    after: SessionView,
    effects: Seq<EffectView>,
)
    requires
        hermes::event_step(s, Event::Tick, now, stamp, after, effects),
    ensures
        ({
            let limit: int = if s.welcomed {
                2_000_000_000 * s.keepalive_secs
            } else {
                10_000_000_000
            };
            if s.connected && now > s.last_message + limit {
                &&& !after.connected
                &&& !after.welcomed
                &&& effects.len() == 2
                &&& effects[0] == EffectView::Close
                &&& effects[1] is Status
            } else {
                after == s && effects.len() == 0
            }
        }),
{
}

/// What has no text does nothing.
pub proof fn other_messages_do_nothing(
    s: SessionView,
    now: u64,
    stamp: Seq<char>,
    after: SessionView,
    effects: Seq<EffectView>,
)
    requires
        hermes::event_step(s, Event::Ignored, now, stamp, after, effects),
    ensures
        after == s,
        effects.len() == 0,
{
}

/// A connection that is lost is closed if it is open, and shown as lost. Channels, subscriptions
/// and settings stay; one more attempt is counted, and the next is due after the wait for it.
pub proof fn losing_a_connection_in_full(
    s: SessionView,
    now: u64,
    stamp: Seq<char>,
    after: SessionView,
    effects: Seq<EffectView>,
)
    requires
        hermes::event_step(s, Event::Closed, now, stamp, after, effects),
        s.reconnect_attempt < u32::MAX,
        now <= u64::MAX - 15_000_000_000,
    ensures
        after.channels == s.channels,
        after.subs == s.subs,
        after.sound == s.sound,
        after.notify_title_changes == s.notify_title_changes,
        after.keepalive_secs == s.keepalive_secs,
        after.last_message == s.last_message,
        after.rng == s.rng,
        !after.connected,
        !after.welcomed,
        after.reconnect_attempt == s.reconnect_attempt + 1,
        now < after.reconnect_at <= now + 15_000_000_000,
        s.reconnect_attempt == 0 ==> after.reconnect_at == now + 500_000_000,
        s.connected ==> effects.len() == 2 && effects[0] == EffectView::Close,
        !s.connected ==> effects.len() == 1,
        effects.last() matches EffectView::Status(status) && !status.connected && status.error
            is None,
{
    hermes::lemma_backoff_grows(1, (s.reconnect_attempt + 1) as u32);
    vstd::arithmetic::power2::lemma2_to64();
}

/// The wait before an attempt, attempt by attempt: it doubles from half a second on, up to 15
/// seconds.
pub proof fn waits_in_full(attempt: u32)
    requires
        attempt >= 1,
    ensures
        attempt == 1 ==> hermes::backoff_nanos(attempt) == 500_000_000,
        attempt == 2 ==> hermes::backoff_nanos(attempt) == 1_000_000_000,
        attempt == 3 ==> hermes::backoff_nanos(attempt) == 2_000_000_000,
        attempt == 4 ==> hermes::backoff_nanos(attempt) == 4_000_000_000,
        attempt == 5 ==> hermes::backoff_nanos(attempt) == 8_000_000_000,
        attempt >= 6 ==> hermes::backoff_nanos(attempt) == 15_000_000_000,
{
    vstd::arithmetic::power2::lemma2_to64();
    let exponent = if attempt < 10 {
        attempt - 1
    } else {
        9
    };
    assert(attempt >= 6 ==> exponent == 5 || exponent == 6 || exponent == 7 || exponent == 8
        || exponent == 9);
}

/// Where there is no connection nothing is sent and none is closed, whatever happens.
pub proof fn nothing_is_sent_without_a_connection(
    s: SessionView,
    event: Event,
    now: u64,
    stamp: Seq<char>,
    after: SessionView,
    effects: Seq<EffectView>,
)
    requires
        hermes::event_step(s, event, now, stamp, after, effects),
        !s.connected,
    ensures
        forall|i: int|
            0 <= i < effects.len() ==> !((#[trigger] effects[i]) is Send) && !(effects[i] is Close),
        !after.connected,
{
    if let Event::Text(message) = event {
        let begun = SessionView { last_message: now, ..s };
        if let FrameView::Welcome { keepalive_secs } = frame::frame_in(message@) {
            let ready = hermes::welcomed(begun, keepalive_secs);
            let list = choose|list: Seq<(Topic, NanoId)>| #[trigger]
                subs::listing(list, ready.subs) && hermes::replayed(
                    ready,
                    list,
                    stamp,
                    after,
                    effects.skip(2),
                );
            assert(hermes::replayed(ready, list, stamp, after, effects.skip(2)));
            assert(hermes::subscriptions(ready, list, stamp).len() == 0);
            assert(effects.len() == 2);
        }
    }
}

/// A welcome is announced with the number of channels, as a first connection or as one that has
/// been made again; then the connection is shown as standing, and the attempts start over.
pub proof fn welcomes_in_full(
    s: SessionView,
    keepalive_secs: u64,
    stamp: Seq<char>,
    after: SessionView,
    effects: Seq<EffectView>,
)
    requires
        hermes::frame_step(s, FrameView::Welcome { keepalive_secs }, stamp, after, effects),
        s.connected,
    ensures
        after.connected,
        after.welcomed,
        after.reconnect_attempt == 0,
        after.keepalive_secs == keepalive_secs,
        after.channels == s.channels,
        after.sound == s.sound,
        after.notify_title_changes == s.notify_title_changes,
        after.last_message == s.last_message,
        after.reconnect_at == s.reconnect_at,
        effects.len() >= 2,
        effects[0] matches EffectView::Notify(toast) && {
            &&& toast.sound == s.sound
            &&& toast.avatar is None
            &&& toast.login is None
            &&& s.reconnect_attempt == 0 ==> toast.summary == "Hermes connected"@
            &&& s.reconnect_attempt > 0 ==> toast.summary == "Hermes reconnected"@
            &&& toast.body == "watching "@ + text::decimal(s.channels.len()) + " channel(s)"@
        },
        effects[1] matches EffectView::Status(status) && status.connected && status.error is None,
        forall|i: int| 2 <= i < effects.len() ==> (#[trigger] effects[i]) is Send,
{
    let ready = hermes::welcomed(s, keepalive_secs);
    let list = choose|list: Seq<(Topic, NanoId)>| #[trigger]
        subs::listing(list, ready.subs) && hermes::replayed(
            ready,
            list,
            stamp,
            after,
            effects.skip(2),
        );
    assert(hermes::replayed(ready, list, stamp, after, effects.skip(2)));
    assert forall|i: int| 2 <= i < effects.len() implies (#[trigger] effects[i]) is Send by {
        assert(effects[i] == effects.skip(2)[i - 2]);
        let sent = hermes::subscriptions(ready, list, stamp);
        assert(effects.skip(2) == sent);
        assert(0 <= i - 2 < sent.len());
        let message = frame::subscribe_json(
            balesh::drawn_id(balesh::state_after(ready.rng, (2 * (i - 2)) as nat)),
            list[i - 2].1@,
            list[i - 2].0,
            stamp,
        );
        assert(sent[i - 2] == EffectView::Send(json::written(message)));
    }
}

/// A connection is opened exactly if there is a channel to open it for. Without one that is shown
/// as an error, and the next attempt waits.
pub proof fn connecting_in_full(
    s: SessionView,
    now: u64,
    after: SessionView,
    effects: Seq<EffectView>,
)
    requires
        hermes::connect_step(s, now, after, effects),
        s.reconnect_attempt < u32::MAX,
        now <= u64::MAX - 15_000_000_000,
    ensures
        effects.len() == 1,
        (exists|id: u64| #[trigger] s.channels.contains_key(id)) ==> after == s && effects[0]
            == EffectView::Connect,
        (forall|id: u64| !#[trigger] s.channels.contains_key(id)) ==> {
            &&& effects[0] matches EffectView::Status(status) && status.error == Some(
                "no channels found for the configured logins"@,
            )
            &&& after.reconnect_attempt == s.reconnect_attempt + 1
            &&& now < after.reconnect_at <= now + 15_000_000_000
            &&& after == (SessionView {
                reconnect_attempt: after.reconnect_attempt,
                reconnect_at: after.reconnect_at,
                ..s
            })
        },
{
    hermes::lemma_backoff_grows(1, (s.reconnect_attempt + 1) as u32);
    if exists|id: u64| #[trigger] s.channels.contains_key(id) {
        let id = choose|id: u64| #[trigger] s.channels.contains_key(id);
        assert(s.channels.dom().contains(id));
    } else {
        assert(s.channels.dom() =~= Set::<u64>::empty());
    }
}

/// It is never time to connect while there is a connection, before the wait is over, or with
/// nothing to connect for; else it is.
pub proof fn time_to_connect_in_full(s: SessionView, configured: Seq<u64>, now: u64)
    ensures
        s.connected ==> !hermes::is_time(s, configured, now),
        now < s.reconnect_at ==> !hermes::is_time(s, configured, now),
        configured.len() == 0 && (forall|id: u64| !#[trigger] s.channels.contains_key(id))
            ==> !hermes::is_time(s, configured, now),
        !s.connected && now >= s.reconnect_at && configured.len() > 0 ==> hermes::is_time(
            s,
            configured,
            now,
        ),
        !s.connected && now >= s.reconnect_at && (exists|id: u64| #[trigger]
            s.channels.contains_key(id)) ==> hermes::is_time(s, configured, now),
{
    if exists|id: u64| #[trigger] s.channels.contains_key(id) {
        let id = choose|id: u64| #[trigger] s.channels.contains_key(id);
        assert(s.channels.dom().contains(id));
    } else {
        assert(s.channels.dom() =~= Set::<u64>::empty());
    }
}

/// The answer to a subscription shows in the state of its topic and in nothing else, and the state
/// is shown.
pub proof fn answers_in_full(
    s: SessionView,
    topic: Topic,
    accepted: bool,
    after: SessionView,
    effects: Seq<EffectView>,
)
    requires
        hermes::response_step(s, topic, accepted, after, effects),
        s.subs.contains_key(topic),
    ensures
        after == (SessionView { subs: after.subs, ..s }),
        forall|t: Topic| #[trigger] after.subs.contains_key(t) <==> s.subs.contains_key(t),
        forall|t: Topic|
            t != topic && s.subs.contains_key(t) ==> #[trigger] after.subs[t] == s.subs[t],
        after.subs[topic].id == s.subs[topic].id,
        accepted ==> after.subs[topic].state == SubState::Subscribed,
        !accepted ==> after.subs[topic].state == SubState::Failed,
        effects.len() == 1,
        effects[0] is Status,
{
}

/// A notification takes effect on the topic whose subscription it names, if no other subscription
/// has that identifier.
pub proof fn notifications_reach_their_topic(
    s: SessionView,
    topic: Topic,
    pubsub: PubsubView,
    stamp: Seq<char>,
    after: SessionView,
    effects: Seq<EffectView>,
)
    requires
        s.subs.contains_key(topic),
        forall|t: Topic| #[trigger]
            s.subs.contains_key(t) && t != topic ==> s.subs[t].id != s.subs[topic].id,
        hermes::frame_step(
            s,
            (FrameView::Notification { target: Some(s.subs[topic].id), pubsub: Some(pubsub) }),
            stamp,
            after,
            effects,
        ),
    ensures
        hermes::notification_step(s, topic, pubsub, after, effects),
{
    assert(hermes::named(s.subs, s.subs[topic].id, topic));
    let t = choose|t: Topic| #[trigger]
        hermes::named(s.subs, s.subs[topic].id, t) && hermes::notification_step(
            s,
            t,
            pubsub,
            after,
            effects,
        );
    assert(t == topic);
}

/// The text of an answer, as it arrives: it is taken as accepted exactly if its result is `ok`,
/// and shows in the topic whose subscription it names by the identifier that was sent.
pub proof fn answers_as_they_arrive(
    s: SessionView,
    message: String,
    json: Json,
    topic: Topic,
    now: u64,
    stamp: Seq<char>,
    after: SessionView,
    effects: Seq<EffectView>,
)
    requires
        text::trimmed(message@).len() > 0,
        json::parsed(message@) == Some(json),
        json::member(json, "type"@) == Json::Text("subscribeResponse"@),
        s.subs.contains_key(topic),
        s.subs[topic].id < balesh::NANO_ID_COUNT,
        forall|t: Topic| #[trigger]
            s.subs.contains_key(t) && t != topic ==> s.subs[t].id != s.subs[topic].id,
        json::member(
            json::member(json::member(json, "subscribeResponse"@), "subscription"@),
            "id"@,
        ) == Json::Text(balesh::spelled(s.subs[topic].id, 21)),
        hermes::event_step(s, Event::Text(message), now, stamp, after, effects),
    ensures
        ({
            let result = json::member(json::member(json, "subscribeResponse"@), "result"@);
            &&& result == Json::Text("ok"@) ==> after.subs[topic].state == SubState::Subscribed
            &&& result != Json::Text("ok"@) ==> after.subs[topic].state == SubState::Failed
        }),
        after.channels == s.channels,
        effects.len() == 1,
        effects[0] is Status,
{
    let begun = SessionView { last_message: now, ..s };
    frame::laws::answers_are_read(json);
    frame::lemma_target_of_sent(s.subs[topic].id);
    assert(hermes::named(begun.subs, s.subs[topic].id, topic));
    let accepted = json::text_in(
        json::member(json::member(json, "subscribeResponse"@), "result"@),
    ) == Some("ok"@);
    let t = choose|t: Topic| #[trigger]
        hermes::named(begun.subs, s.subs[topic].id, t) && hermes::response_step(
            begun,
            t,
            accepted,
            after,
            effects,
        );
    assert(t == topic);
}

/// The text of a notification, as it arrives: the payload is the JSON in its text `pubsub`, and it
/// takes effect on the topic whose subscription it names by the identifier that was sent.
pub proof fn notifications_as_they_arrive(
    s: SessionView,
    message: String,
    json: Json,
    topic: Topic,
    inner: Seq<char>,
    payload: Json,
    now: u64,
    stamp: Seq<char>,
    after: SessionView,
    effects: Seq<EffectView>,
)
    requires
        text::trimmed(message@).len() > 0,
        json::parsed(message@) == Some(json),
        json::member(json, "type"@) == Json::Text("notification"@),
        s.subs.contains_key(topic),
        s.subs[topic].id < balesh::NANO_ID_COUNT,
        forall|t: Topic| #[trigger]
            s.subs.contains_key(t) && t != topic ==> s.subs[t].id != s.subs[topic].id,
        json::member(
            json::member(json::member(json, "notification"@), "subscription"@),
            "id"@,
        ) == Json::Text(balesh::spelled(s.subs[topic].id, 21)),
        json::member(json::member(json, "notification"@), "pubsub"@) == Json::Text(inner),
        json::parsed(inner) == Some(payload),
        hermes::event_step(s, Event::Text(message), now, stamp, after, effects),
    ensures
        hermes::notification_step(
            (SessionView { last_message: now, ..s }),
            topic,
            frame::pubsub_of(payload),
            after,
            effects,
        ),
{
    let begun = SessionView { last_message: now, ..s };
    frame::laws::notifications_are_read(json, inner);
    frame::lemma_target_of_sent(s.subs[topic].id);
    notifications_reach_their_topic(
        begun,
        topic,
        frame::pubsub_of(payload),
        stamp,
        after,
        effects,
    );
}

/// An answer or a notification that names no registered subscription does nothing.
pub proof fn unknown_targets_do_nothing(
    s: SessionView,
    frame: FrameView,
    stamp: Seq<char>,
    after: SessionView,
    effects: Seq<EffectView>,
)
    requires
        hermes::frame_step(s, frame, stamp, after, effects),
        match frame {
            FrameView::Welcome { .. } => false,
            FrameView::SubscribeResponse { target, .. } => target matches Some(id)
                ==> forall|t: Topic| #[trigger] s.subs.contains_key(t) ==> s.subs[t].id != id,
            FrameView::Notification { target, .. } => target matches Some(id)
                ==> forall|t: Topic| #[trigger] s.subs.contains_key(t) ==> s.subs[t].id != id,
            FrameView::Ignored => true,
        },
    ensures
        after == s,
        effects.len() == 0,
{
    assert(forall|id: nat, t: Topic| #[trigger]
        hermes::named(s.subs, id, t) ==> s.subs.contains_key(t));
}

} // verus!
