//! What holds of a session whatever happens to it.

use vstd::prelude::*;

use crate::balesh;
use crate::balesh::{NanoId, Topic};
use crate::frame;
use crate::frame::{Playback, PubsubView};
use crate::gql::UserView;
use crate::hermes;
use crate::hermes::{EffectView, SessionView};
use crate::json;
use crate::json::Json;
use crate::subs;
use crate::subs::{SubState, SubView};
use crate::text;

verus! {

/// The topic is one of the channel's two.
pub open spec fn about(topic: Topic, id: u64) -> bool {
    topic == Topic::BroadcastSettingsUpdate(id) || topic == Topic::VideoPlaybackById(id)
}

/// Removing a channel forgets it and its topics, and nothing else, whether it was tracked or only
/// its topics were registered.
pub proof fn removal_forgets(s: SessionView, id: u64)
    ensures
        ({
            let after = hermes::removed(s, id);
            &&& after.channels == s.channels.remove(id)
            &&& forall|t: Topic| #[trigger]
                after.subs.contains_key(t) <==> s.subs.contains_key(t) && !about(t, id)
            &&& forall|t: Topic| #[trigger]
                after.subs.contains_key(t) ==> after.subs[t] == s.subs[t]
            &&& after.connected == s.connected
            &&& after.welcomed == s.welcomed
        }),
{
}

/// The effect sends the message that ends a subscription.
pub open spec fn unsubscribes(effect: EffectView, subscription: nat, stamp: Seq<char>) -> bool {
    exists|id: nat|
        effect == EffectView::Send(
            json::written(#[trigger] frame::unsubscribe_json(id, subscription, stamp)),
        )
}

/// 1 where the topic is registered, else 0.
pub open spec fn registrations(s: SessionView, topic: Topic) -> int {
    if s.subs.contains_key(topic) {
        1
    } else {
        0
    }
}

/// A removal ends exactly the subscriptions that the channel had, each with one message that
/// carries its identifier, and then shows the state. Without a connection nothing is sent.
pub proof fn removal_unsubscribes(s: SessionView, id: u64, stamp: Seq<char>)
    ensures
        ({
            let effects = hermes::removal_effects(s, id, stamp);
            let title = Topic::BroadcastSettingsUpdate(id);
            let live = Topic::VideoPlaybackById(id);
            let n = registrations(s, title) + registrations(s, live);
            &&& effects.last() == EffectView::Refresh
            &&& s.connected ==> effects.len() == n + 1
            &&& !s.connected ==> effects.len() == 1
            &&& s.connected && s.subs.contains_key(title) ==> unsubscribes(
                effects[0],
                s.subs[title].id,
                stamp,
            )
            &&& s.connected && s.subs.contains_key(live) ==> unsubscribes(
                effects[n - 1],
                s.subs[live].id,
                stamp,
            )
        }),
{
    let effects = hermes::removal_effects(s, id, stamp);
    let title = Topic::BroadcastSettingsUpdate(id);
    let live = Topic::VideoPlaybackById(id);
    let rest = hermes::without_sub(s, title);
    if s.connected && s.subs.contains_key(title) {
        let message = frame::unsubscribe_json(balesh::drawn_id(s.rng), s.subs[title].id, stamp);
        assert(effects[0] == EffectView::Send(json::written(message)));
    }
    if s.connected && s.subs.contains_key(live) {
        let message = frame::unsubscribe_json(balesh::drawn_id(rest.rng), s.subs[live].id, stamp);
        let n = registrations(s, title) + registrations(s, live);
        assert(effects[n - 1] == EffectView::Send(json::written(message)));
    }
}

/// Registering a channel's topics again changes nothing.
pub proof fn registering_twice(s: SessionView, id: u64)
    ensures
        hermes::with_subs(hermes::with_subs(s, id), id) == hermes::with_subs(s, id),
{
}

/// Registering topics keeps every subscription that there is, under its identifier.
pub proof fn registering_keeps(s: SessionView, id: u64, topic: Topic)
    requires
        s.subs.contains_key(topic),
    ensures
        hermes::with_subs(s, id).subs.contains_key(topic),
        hermes::with_subs(s, id).subs[topic] == s.subs[topic],
{
}

/// A channel that was found is tracked with both topics, so that adding its login again does
/// nothing.
pub proof fn found_is_known(s: SessionView, user: UserView)
    ensures
        ({
            let after = hermes::found(s, user);
            &&& after.channels[user.channel_id] == user
            &&& after.subs.contains_key(Topic::BroadcastSettingsUpdate(user.channel_id))
            &&& after.subs.contains_key(Topic::VideoPlaybackById(user.channel_id))
            &&& hermes::tracks_login(after, user.channel_name)
        }),
{
    let after = hermes::found(s, user);
    assert(after.channels.contains_key(user.channel_id));
    assert(text::same_ignoring_case(user.channel_name, user.channel_name));
}

/// Losing the connection keeps the channels and the subscriptions.
pub proof fn disconnecting_keeps(s: SessionView, now: u64)
    ensures
        hermes::disconnected(s, now).channels == s.channels,
        hermes::disconnected(s, now).subs == s.subs,
        !hermes::disconnected(s, now).connected,
        !hermes::disconnected(s, now).welcomed,
{
}

proof fn merging_one(s: SessionView, users: Seq<UserView>, id: u64)
    ensures
        ({
            let after = hermes::merged(s, users);
            &&& after.channels.contains_key(id) <==> s.channels.contains_key(id)
                || hermes::has_user(users, id)
            &&& hermes::has_user(users, id) ==> after.subs.contains_key(
                Topic::BroadcastSettingsUpdate(id),
            ) && after.subs.contains_key(Topic::VideoPlaybackById(id))
        }),
    decreases users.len(),
{
    if users.len() > 0 {
        let before = users.drop_last();
        merging_one(s, before, id);
        if hermes::has_user(before, id) {
            let k = choose|k: int|
                0 <= k < before.len() && (#[trigger] before[k]).channel_id == id;
            assert(users[k].channel_id == id);
        }
        if hermes::has_user(users, id) {
            let k = choose|k: int| 0 <= k < users.len() && (#[trigger] users[k]).channel_id == id;
            if k < before.len() {
                assert(before[k].channel_id == id);
            }
        }
        if users.last().channel_id == id {
            assert(users[users.len() - 1].channel_id == id);
        }
    }
}

proof fn missing_one(ids: Seq<u64>, users: Seq<UserView>, id: u64)
    ensures
        hermes::missing_ids(ids, users).contains(id) <==> ids.contains(id) && !hermes::has_user(
            users,
            id,
        ),
    decreases ids.len(),
{
    if ids.len() > 0 {
        let before = ids.drop_last();
        missing_one(before, users, id);
        let head = hermes::missing_ids(before, users);
        if ids.contains(id) {
            let k = choose|k: int| 0 <= k < ids.len() && ids[k] == id;
            if k < before.len() {
                assert(before[k] == id);
            }
        }
        if before.contains(id) {
            let k = choose|k: int| 0 <= k < before.len() && before[k] == id;
            assert(ids[k] == id);
        }
        if ids.last() == id {
            assert(ids[ids.len() - 1] == id);
        }
        let all = hermes::missing_ids(ids, users);
        if !hermes::has_user(users, ids.last()) {
            assert(all == head.push(ids.last()));
            if head.contains(id) {
                let k = choose|k: int| 0 <= k < head.len() && head[k] == id;
                assert(all[k] == id);
            }
            if ids.last() == id {
                assert(all[head.len() as int] == id);
            }
            if all.contains(id) && id != ids.last() {
                let k = choose|k: int| 0 <= k < all.len() && all[k] == id;
                assert(head[k] == id);
            }
        }
    }
}

/// After a lookup every channel that was asked for is tracked with both topics if it was found,
/// and gone with both topics if it was not.
pub proof fn lookup_settles(s: SessionView, ids: Seq<u64>, users: Seq<UserView>, id: u64)
    requires
        ids.contains(id),
    ensures
        ({
            let after = hermes::without_channels(
                hermes::merged(s, users),
                hermes::missing_ids(ids, users),
            );
            let title = Topic::BroadcastSettingsUpdate(id);
            let live = Topic::VideoPlaybackById(id);
            if hermes::has_user(users, id) {
                after.channels.contains_key(id) && after.subs.contains_key(title)
                    && after.subs.contains_key(live)
            } else {
                !after.channels.contains_key(id) && !after.subs.contains_key(title)
                    && !after.subs.contains_key(live)
            }
        }),
{
    merging_one(s, users, id);
    missing_one(ids, users, id);
}

/// The effect sends a subscription to the topic.
pub open spec fn subscribes(
    effect: EffectView,
    subscription: nat,
    topic: Topic,
    stamp: Seq<char>,
) -> bool {
    exists|id: nat|
        effect == EffectView::Send(
            json::written(#[trigger] frame::subscribe_json(id, subscription, topic, stamp)),
        )
}

/// Some effect from the third on sends a subscription to the topic.
pub open spec fn replays(
    effects: Seq<EffectView>,
    subscription: nat,
    topic: Topic,
    stamp: Seq<char>,
) -> bool {
    exists|i: int|
        2 <= i < effects.len() && subscribes(#[trigger] effects[i], subscription, topic, stamp)
}

/// A welcome subscribes to every registered topic again, under the identifier that its
/// subscription has had all along, and awaits the answer.
pub proof fn welcome_replays_everything(
    s: SessionView,
    keepalive_secs: u64,
    stamp: Seq<char>,
    after: SessionView,
    effects: Seq<EffectView>,
    topic: Topic,
)
    requires
        hermes::welcome_step(s, keepalive_secs, stamp, after, effects),
        s.connected,
        s.subs.contains_key(topic),
    ensures
        replays(effects, s.subs[topic].id, topic, stamp),
        after.subs.contains_key(topic),
        after.subs[topic].id == s.subs[topic].id,
        after.subs[topic].state == SubState::Pending,
{
    let ready = hermes::welcomed(s, keepalive_secs);
    let list = choose|list: Seq<(Topic, NanoId)>| #[trigger]
        subs::listing(list, ready.subs) && hermes::replayed(
            ready,
            list,
            stamp,
            after,
            effects.skip(2),
        );
    let k = listed_at(list, ready.subs, topic);
    sent_at(ready, list, stamp, k);
    assert(effects[k + 2] == effects.skip(2)[k]);
}

proof fn listed_at(
    list: Seq<(Topic, NanoId)>,
    subs: Map<Topic, SubView>,
    topic: Topic,
) -> (k: int)
    requires
        subs::listing(list, subs),
        subs.contains_key(topic),
    ensures
        0 <= k < list.len(),
        list[k].0 == topic,
        list[k].1@ == subs[topic].id,
{
    assert(subs::listed(list, topic));
    choose|k: int| 0 <= k < list.len() && (#[trigger] list[k]).0 == topic
}

proof fn sent_at(s: SessionView, list: Seq<(Topic, NanoId)>, stamp: Seq<char>, k: int)
    requires
        s.connected,
        0 <= k < list.len(),
    ensures
        hermes::subscriptions(s, list, stamp).len() == list.len(),
        subscribes(
            hermes::subscriptions(s, list, stamp)[k],
            list[k].1@,
            list[k].0,
            stamp,
        ),
{
    let id = balesh::drawn_id(balesh::state_after(s.rng, (2 * k) as nat));
    let message = frame::subscribe_json(id, list[k].1@, list[k].0, stamp);
    assert(hermes::subscriptions(s, list, stamp)[k] == EffectView::Send(json::written(message)));
}

/// A payload has no effect unless its subscription was accepted.
pub proof fn only_accepted_notify(
    s: SessionView,
    topic: Topic,
    pubsub: PubsubView,
    after: SessionView,
    effects: Seq<EffectView>,
)
    requires
        hermes::notification_step(s, topic, pubsub, after, effects),
        s.subs[topic].state != SubState::Subscribed,
    ensures
        after == s,
        effects.len() == 0,
{
}

/// The moment a tracked channel goes live it is announced, before anything is looked up, and it
/// counts as live.
pub proof fn going_live_is_announced(
    s: SessionView,
    id: u64,
    pubsub: PubsubView,
    after: SessionView,
    effects: Seq<EffectView>,
)
    requires
        hermes::notification_step(s, Topic::VideoPlaybackById(id), pubsub, after, effects),
        s.subs[Topic::VideoPlaybackById(id)].state == SubState::Subscribed,
        pubsub.playback == Playback::StreamUp,
        s.channels.contains_key(id),
    ensures
        effects.len() == 3,
        effects[1] == EffectView::Notify(hermes::live_toast(s.channels[id], s.sound)),
        effects[2] == (EffectView::FetchStream { channel_id: id, notified: true }),
        after.channels[id].live,
{
}

/// A channel that gets a new title while it is offline is announced, if that is wanted.
pub proof fn retitling_is_announced(
    s: SessionView,
    id: u64,
    pubsub: PubsubView,
    after: SessionView,
    effects: Seq<EffectView>,
)
    requires
        hermes::notification_step(s, Topic::BroadcastSettingsUpdate(id), pubsub, after, effects),
        s.subs[Topic::BroadcastSettingsUpdate(id)].state == SubState::Subscribed,
        s.channels.contains_key(id),
        s.notify_title_changes,
        !s.channels[id].live,
        text::nonempty(s.channels[id].stream_title) != text::nonempty(Some(pubsub.status)),
    ensures
        effects == seq![
            EffectView::Notify(hermes::update_toast(s.channels[id], pubsub, s.sound)),
        ],
{
}

/// A channel that gets another game while it is offline is announced, if that is wanted, whether
/// or not the game has an identifier.
pub proof fn another_game_is_announced(
    s: SessionView,
    id: u64,
    pubsub: PubsubView,
    after: SessionView,
    effects: Seq<EffectView>,
)
    requires
        hermes::notification_step(s, Topic::BroadcastSettingsUpdate(id), pubsub, after, effects),
        s.subs[Topic::BroadcastSettingsUpdate(id)].state == SubState::Subscribed,
        s.channels.contains_key(id),
        s.notify_title_changes,
        !s.channels[id].live,
        pubsub.game != hermes::game_name(s.channels[id].game),
    ensures
        effects == seq![
            EffectView::Notify(hermes::update_toast(s.channels[id], pubsub, s.sound)),
        ],
{
}

/// The same update twice in a row is announced at most once: the second time nothing is sent and
/// nothing changes, whatever its title is. A game that it names has to have an identifier, since
/// one without is not kept to compare with.
pub proof fn retitling_is_announced_once(
    s: SessionView,
    id: u64,
    pubsub: PubsubView,
    between: SessionView,
    first: Seq<EffectView>,
    after: SessionView,
    effects: Seq<EffectView>,
)
    requires
        hermes::notification_step(s, Topic::BroadcastSettingsUpdate(id), pubsub, between, first),
        hermes::notification_step(
            between,
            Topic::BroadcastSettingsUpdate(id),
            pubsub,
            after,
            effects,
        ),
        pubsub.game is None || pubsub.game_id is Some,
    ensures
        effects.len() == 0,
        after == between,
{
    if s.subs[Topic::BroadcastSettingsUpdate(id)].state == SubState::Subscribed
        && s.channels.contains_key(id) {
        assert(after.channels =~= between.channels);
    }
}

/// A live channel is never announced for a new title.
pub proof fn live_channels_stay_quiet(
    s: SessionView,
    id: u64,
    pubsub: PubsubView,
    after: SessionView,
    effects: Seq<EffectView>,
)
    requires
        hermes::notification_step(
            s,
            Topic::BroadcastSettingsUpdate(id),
            pubsub,
            after,
            effects,
        ),
        s.channels.contains_key(id),
        s.channels[id].live,
    ensures
        effects.len() == 0,
{
}

/// The answer to a subscription that was sent reaches the topic that it was sent for, if no
/// other subscription has its identifier.
pub proof fn answers_reach_their_topic(
    s: SessionView,
    topic: Topic,
    accepted: bool,
    after: SessionView,
    effects: Seq<EffectView>,
)
    requires
        s.subs.contains_key(topic),
        s.subs[topic].id < balesh::NANO_ID_COUNT,
        forall|t: Topic| #[trigger]
            s.subs.contains_key(t) && t != topic ==> s.subs[t].id != s.subs[topic].id,
        ({
            let spelled = balesh::spelled(s.subs[topic].id, balesh::NANO_ID_LEN as nat);
            let target = frame::target_of(Json::Text(spelled));
            &&& target is Some
            &&& hermes::answered_step(s, target.unwrap(), accepted, after, effects)
        }),
    ensures
        after.subs[topic].state == if accepted {
            SubState::Subscribed
        } else {
            SubState::Failed
        },
{
    frame::lemma_target_of_sent(s.subs[topic].id);
    assert(hermes::named(s.subs, s.subs[topic].id, topic));
    let t = choose|t: Topic| #[trigger]
        hermes::named(s.subs, s.subs[topic].id, t) && hermes::response_step(
            s,
            t,
            accepted,
            after,
            effects,
        );
    assert(t == topic);
}

} // verus!
