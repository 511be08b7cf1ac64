//! Which channels a session tracks, what it knows of them, and how it shows them.

use vstd::prelude::*;

use crate::balesh;
use crate::balesh::Topic;
use crate::config::Config;
use crate::gql::UserView;
use crate::hermes;
use crate::hermes::{laws, Command, EffectView, SessionView, StatusView, SubStatus};
use crate::subs::SubState;
use crate::text;

verus! {

/// A lookup refreshes what is known: every channel that it brought is held just as it was brought,
/// whether or not it was tracked before.
pub proof fn lookups_refresh(s: SessionView, users: Seq<UserView>, k: int)
    requires
        0 <= k < users.len(),
        forall|j: int|
            k < j < users.len() ==> (#[trigger] users[j]).channel_id != users[k].channel_id,
    ensures
        hermes::merged(s, users).channels.contains_key(users[k].channel_id),
        hermes::merged(s, users).channels[users[k].channel_id] == users[k],
    decreases users.len(),
{
    let before = users.drop_last();
    if k < users.len() - 1 {
        assert forall|j: int| k < j < before.len() implies (#[trigger] before[j]).channel_id
            != before[k].channel_id by {
            assert(users[j].channel_id != users[k].channel_id);
        }
        lookups_refresh(s, before, k);
        assert(users[users.len() - 1].channel_id != users[k].channel_id);
    }
}

/// A lookup does not touch what it did not bring: another channel is tracked exactly if it was,
/// and is known as it was.
pub proof fn lookups_keep_the_others(s: SessionView, users: Seq<UserView>, id: u64)
    requires
        forall|j: int| 0 <= j < users.len() ==> (#[trigger] users[j]).channel_id != id,
    ensures
        hermes::merged(s, users).channels.contains_key(id) <==> s.channels.contains_key(id),
        s.channels.contains_key(id) ==> hermes::merged(s, users).channels[id] == s.channels[id],
    decreases users.len(),
{
    if users.len() > 0 {
        let before = users.drop_last();
        assert forall|j: int| 0 <= j < before.len() implies (#[trigger] before[j]).channel_id
            != id by {
            assert(users[j].channel_id != id);
        }
        lookups_keep_the_others(s, before, id);
        assert(users[users.len() - 1].channel_id != id);
    }
}

/// A lookup registers both topics of every channel that it brought, keeps every subscription that
/// there is, and changes neither the connection nor a setting.
pub proof fn lookups_register(s: SessionView, users: Seq<UserView>)
    ensures
        ({
            let after = hermes::merged(s, users);
            &&& after == (SessionView {
                channels: after.channels,
                subs: after.subs,
                rng: after.rng,
                ..s
            })
            &&& forall|k: int|
                0 <= k < users.len() ==> after.subs.contains_key(
                    Topic::BroadcastSettingsUpdate((#[trigger] users[k]).channel_id),
                ) && after.subs.contains_key(Topic::VideoPlaybackById(users[k].channel_id))
            &&& forall|t: Topic| #[trigger]
                s.subs.contains_key(t) ==> after.subs.contains_key(t) && after.subs[t] == s.subs[t]
            &&& forall|t: Topic| #[trigger]
                after.subs.contains_key(t) && !s.subs.contains_key(t) ==> after.subs[t].state
                    == SubState::Pending && exists|k: int|
                    0 <= k < users.len() && (#[trigger] users[k]).channel_id == t.channel()
        }),
    decreases users.len(),
{
    if users.len() > 0 {
        let before = users.drop_last();
        lookups_register(s, before);
        let half = hermes::merged(s, before);
        let after = hermes::merged(s, users);
        assert forall|k: int| 0 <= k < users.len() implies after.subs.contains_key(
            Topic::BroadcastSettingsUpdate((#[trigger] users[k]).channel_id),
        ) && after.subs.contains_key(Topic::VideoPlaybackById(users[k].channel_id)) by {
            if k < before.len() {
                assert(before[k] == users[k]);
            }
        }
        assert forall|t: Topic| #[trigger]
            after.subs.contains_key(t) && !s.subs.contains_key(t) implies after.subs[t].state
            == SubState::Pending && exists|k: int|
            0 <= k < users.len() && (#[trigger] users[k]).channel_id == t.channel() by {
            if half.subs.contains_key(t) {
                let k = choose|k: int|
                    0 <= k < before.len() && (#[trigger] before[k]).channel_id == t.channel();
                assert(users[k].channel_id == t.channel());
            } else {
                assert(users[users.len() - 1].channel_id == t.channel());
            }
        }
    }
}

/// The channels that a lookup was asked for and did not bring.
pub open spec fn not_brought(users: Seq<UserView>) -> spec_fn(u64) -> bool {
    |id: u64| forall|k: int| 0 <= k < users.len() ==> (#[trigger] users[k]).channel_id != id
}

proof fn missing_are_not_brought(ids: Seq<u64>, users: Seq<UserView>)
    ensures
        hermes::missing_ids(ids, users) == ids.filter(not_brought(users)),
    decreases ids.len(),
{
    reveal(Seq::filter);
    if ids.len() > 0 {
        missing_are_not_brought(ids.drop_last(), users);
        assert(hermes::has_user(users, ids.last()) <==> !not_brought(users)(ids.last()));
    }
}

/// A lookup before a connection that succeeds. A channel that it brought is held just as it was
/// brought. One that it was asked for and did not bring is dropped with its topics. Any other is
/// left as it is. If channels were dropped that is shown as an error, and just those, in the order
/// in which they were asked for, are taken out of the settings; else nothing is done.
pub proof fn lookups_in_full(
    s: SessionView,
    ids: Seq<u64>,
    users: Seq<UserView>,
    after: SessionView,
    effects: Seq<EffectView>,
)
    requires
        hermes::synced_step(s, ids, Ok(users), after, effects),
    ensures
        forall|k: int|
            0 <= k < users.len() && (forall|j: int|
                k < j < users.len() ==> (#[trigger] users[j]).channel_id != users[k].channel_id)
                ==> after.channels.contains_key((#[trigger] users[k]).channel_id)
                && after.channels[users[k].channel_id] == users[k],
        forall|id: u64|
            ids.contains(id) && not_brought(users)(id) ==> !#[trigger] after.channels.contains_key(
                id,
            ) && !after.subs.contains_key(Topic::BroadcastSettingsUpdate(id))
                && !after.subs.contains_key(Topic::VideoPlaybackById(id)),
        forall|id: u64|
            !ids.contains(id) && not_brought(users)(id) ==> (
            #[trigger] after.channels.contains_key(id) <==> s.channels.contains_key(id)) && (
            s.channels.contains_key(id) ==> after.channels[id] == s.channels[id]),
        after == (SessionView {
            channels: after.channels,
            subs: after.subs,
            rng: after.rng,
            ..s
        }),
        ({
            let gone = ids.filter(not_brought(users));
            if gone.len() == 0 {
                effects.len() == 0
            } else {
                &&& effects.len() == 2
                &&& effects[0] matches EffectView::Status(status) && status.error == Some(
                    "a channel no longer resolves and was removed"@,
                )
                &&& effects[1] == EffectView::PruneIds(gone)
            }
        }),
{
    missing_are_not_brought(ids, users);
    crate::state::laws::filter_members(ids, not_brought(users));
    lookups_register(s, users);
    let gone = ids.filter(not_brought(users));
    let merged = hermes::merged(s, users);
    assert forall|k: int|
        0 <= k < users.len() && (forall|j: int|
            k < j < users.len() ==> (#[trigger] users[j]).channel_id
                != users[k].channel_id) implies after.channels.contains_key(
        (#[trigger] users[k]).channel_id,
    ) && after.channels[users[k].channel_id] == users[k] by {
        lookups_refresh(s, users, k);
        assert(!not_brought(users)(users[k].channel_id));
        assert(!gone.contains(users[k].channel_id));
    }
    assert forall|id: u64| ids.contains(id) && not_brought(users)(id) implies !(
    #[trigger] after.channels.contains_key(id)) && !after.subs.contains_key(
        Topic::BroadcastSettingsUpdate(id),
    ) && !after.subs.contains_key(Topic::VideoPlaybackById(id)) by {
        assert(gone.contains(id));
    }
    assert forall|id: u64| !ids.contains(id) && not_brought(users)(id) implies (
    #[trigger] after.channels.contains_key(id) <==> s.channels.contains_key(id)) && (
    s.channels.contains_key(id) ==> after.channels[id] == s.channels[id]) by {
        lookups_keep_the_others(s, users, id);
        assert(!gone.contains(id));
    }
}

proof fn registering_in_full(s: SessionView, ids: Seq<u64>)
    ensures
        ({
            let after = hermes::registered(s, ids);
            &&& after == (SessionView { subs: after.subs, rng: after.rng, ..s })
            &&& forall|k: int|
                0 <= k < ids.len() ==> after.subs.contains_key(
                    Topic::BroadcastSettingsUpdate(#[trigger] ids[k]),
                ) && after.subs.contains_key(Topic::VideoPlaybackById(ids[k]))
            &&& forall|t: Topic| #[trigger]
                s.subs.contains_key(t) ==> after.subs.contains_key(t) && after.subs[t] == s.subs[t]
            &&& forall|t: Topic| #[trigger]
                after.subs.contains_key(t) ==> s.subs.contains_key(t) || ids.contains(t.channel())
        }),
    decreases ids.len(),
{
    if ids.len() > 0 {
        let before = ids.drop_last();
        registering_in_full(s, before);
        let half = hermes::registered(s, before);
        let after = hermes::registered(s, ids);
        assert forall|k: int| 0 <= k < ids.len() implies after.subs.contains_key(
            Topic::BroadcastSettingsUpdate(#[trigger] ids[k]),
        ) && after.subs.contains_key(Topic::VideoPlaybackById(ids[k])) by {
            if k < before.len() {
                assert(before[k] == ids[k]);
            }
        }
        assert forall|t: Topic| #[trigger] after.subs.contains_key(t) implies s.subs.contains_key(t)
            || ids.contains(t.channel()) by {
            if half.subs.contains_key(t) && !s.subs.contains_key(t) {
                let k = choose|k: int| 0 <= k < before.len() && before[k] == t.channel();
                assert(ids[k] == t.channel());
            } else if !half.subs.contains_key(t) {
                assert(ids[ids.len() - 1] == t.channel());
            }
        }
    }
}

/// A lookup before a connection that fails: what is known stays known, and the topics of every
/// channel that it was asked for are registered, so that they are subscribed to all the same.
pub proof fn failed_lookups_in_full(
    s: SessionView,
    ids: Seq<u64>,
    error: Seq<char>,
    after: SessionView,
    effects: Seq<EffectView>,
)
    requires
        hermes::synced_step(s, ids, Err(error), after, effects),
    ensures
        effects.len() == 0,
        after.channels == s.channels,
        after == (SessionView { subs: after.subs, rng: after.rng, ..s }),
        forall|k: int|
            0 <= k < ids.len() ==> after.subs.contains_key(
                Topic::BroadcastSettingsUpdate(#[trigger] ids[k]),
            ) && after.subs.contains_key(Topic::VideoPlaybackById(ids[k])),
        forall|t: Topic| #[trigger]
            s.subs.contains_key(t) ==> after.subs.contains_key(t) && after.subs[t] == s.subs[t],
{
    registering_in_full(s, ids);
}

/// The settings ask for the identifier of each of their channels, in their order.
pub proof fn configured_channels_in_full(config: Config)
    ensures
        hermes::configured_ids(config).len() == config.channels@.len(),
        forall|i: int|
            0 <= i < config.channels@.len() ==> #[trigger] hermes::configured_ids(config)[i]
                == config.channels@[i].id,
{
}

/// Before a connection every channel of the settings and every channel that is tracked is looked
/// up, those of the settings first and in their order, and no other.
pub proof fn every_channel_is_looked_up(ids: Seq<u64>, configured: Seq<u64>, known: Set<u64>)
    requires
        hermes::connect_list(ids, configured, known),
    ensures
        forall|id: u64| #[trigger]
            ids.contains(id) <==> configured.contains(id) || known.contains(id),
        forall|k: int|
            0 <= k < configured.len() ==> k < ids.len() && #[trigger] ids[k] == configured[k],
        forall|a: int, b: int|
            0 <= a < b < ids.len() && configured.len() <= b ==> #[trigger] ids[a] != #[trigger] ids[b],
{
    let n = configured.len() as int;
    assert forall|a: int, b: int| 0 <= a < b < ids.len() && n <= b implies #[trigger] ids[a]
        != #[trigger] ids[b] by {
        assert(ids.skip(n)[b - n] == ids[b]);
        assert(ids.skip(n).contains(ids[b]));
        if a < n {
            assert(ids.take(n)[a] == configured[a]);
            assert(configured.contains(ids[a]));
        } else {
            assert(ids.skip(n)[a - n] == ids[a]);
        }
    }
    assert forall|k: int| 0 <= k < configured.len() implies k < ids.len() && #[trigger] ids[k]
        == configured[k] by {
        assert(ids.take(n)[k] == configured[k]);
    }
    assert forall|id: u64| #[trigger] ids.contains(id) <==> configured.contains(id)
        || known.contains(id) by {
        if ids.contains(id) {
            let k = choose|k: int| 0 <= k < ids.len() && ids[k] == id;
            if k < n {
                assert(configured[k] == id);
            } else {
                assert(ids.skip(n)[k - n] == id);
                assert(ids.skip(n).contains(id));
            }
        }
        if configured.contains(id) {
            let k = choose|k: int| 0 <= k < configured.len() && configured[k] == id;
            assert(ids[k] == id);
        } else if known.contains(id) {
            assert(ids.skip(n).contains(id));
            let k = choose|k: int| 0 <= k < ids.skip(n).len() && ids.skip(n)[k] == id;
            assert(ids[k + n] == id);
        }
    }
}

/// A login that was looked up and found: its channel is tracked just as it was brought, with both
/// topics; no other channel, no subscription and no setting is touched. Over a welcomed connection
/// both topics are subscribed to at once, under the identifiers that they are registered with;
/// else that waits for the welcome. Then the state is shown.
pub proof fn found_logins_in_full(
    s: SessionView,
    login: Seq<char>,
    users: Seq<UserView>,
    stamp: Seq<char>,
    after: SessionView,
    effects: Seq<EffectView>,
)
    requires
        hermes::added_step(s, login, Ok(users), stamp, after, effects),
        users.len() > 0,
        text::same_ignoring_case(users.last().channel_name, login),
    ensures
        ({
            let user = users.last();
            let title = Topic::BroadcastSettingsUpdate(user.channel_id);
            let live = Topic::VideoPlaybackById(user.channel_id);
            &&& after.channels == s.channels.insert(user.channel_id, user)
            &&& after == (SessionView {
                channels: after.channels,
                subs: after.subs,
                rng: after.rng,
                ..s
            })
            &&& after.subs.contains_key(title) && after.subs.contains_key(live)
            &&& forall|t: Topic| #[trigger]
                s.subs.contains_key(t) ==> after.subs.contains_key(t) && after.subs[t] == s.subs[t]
            &&& forall|t: Topic| #[trigger]
                after.subs.contains_key(t) ==> s.subs.contains_key(t) || t == title || t == live
            &&& !s.subs.contains_key(title) ==> after.subs[title].state == SubState::Pending
            &&& !s.subs.contains_key(live) ==> after.subs[live].state == SubState::Pending
            &&& effects.last() == EffectView::Refresh
            &&& !(s.welcomed && s.connected) ==> effects.len() == 1
            &&& s.welcomed && s.connected ==> {
                &&& effects.len() == 3
                &&& laws::subscribes(effects[0], after.subs[title].id, title, stamp)
                &&& laws::subscribes(effects[1], after.subs[live].id, live, stamp)
            }
        }),
{
    let user = users.last();
    let id = user.channel_id;
    let title = Topic::BroadcastSettingsUpdate(id);
    let live = Topic::VideoPlaybackById(id);
    let known = hermes::with_subs(hermes::with_user(s, user), id);
    if s.welcomed && s.connected {
        let first = crate::frame::subscribe_json(
            crate::balesh::drawn_id(known.rng),
            known.subs[title].id,
            title,
            stamp,
        );
        let second = crate::frame::subscribe_json(
            crate::balesh::drawn_id(crate::balesh::state_after(known.rng, 2)),
            known.subs[live].id,
            live,
            stamp,
        );
        assert(effects[0] == EffectView::Send(crate::json::written(first)));
        assert(effects[1] == EffectView::Send(crate::json::written(second)));
    }
}

/// A login that was looked up and that names no channel: nothing changes, that is shown as an
/// error, and the login is taken out of the settings.
pub proof fn unknown_logins_in_full(
    s: SessionView,
    login: Seq<char>,
    users: Seq<UserView>,
    stamp: Seq<char>,
    after: SessionView,
    effects: Seq<EffectView>,
)
    requires
        hermes::added_step(s, login, Ok(users), stamp, after, effects),
        users.len() > 0 ==> !text::same_ignoring_case(users.last().channel_name, login),
    ensures
        after == s,
        effects.len() == 2,
        effects[0] matches EffectView::Status(status) && status.error == Some(
            "channel "@ + login + " not found"@,
        ),
        effects[1] == EffectView::PruneLogin(login),
{
}

/// A login that could not be looked up: nothing changes, and why is shown as an error. The login
/// stays in the settings.
pub proof fn failed_logins_in_full(
    s: SessionView,
    login: Seq<char>,
    error: Seq<char>,
    stamp: Seq<char>,
    after: SessionView,
    effects: Seq<EffectView>,
)
    requires
        hermes::added_step(s, login, Err(error), stamp, after, effects),
    ensures
        after == s,
        effects.len() == 1,
        effects[0] matches EffectView::Status(status) && status.error == Some(
            "failed to fetch "@ + login + ": "@ + error,
        ),
{
}

/// The state as it is shown. It is connected once the connection is welcomed. Every tracked
/// channel has one row, in the order of the logins, with its names; a topic is shown as connected
/// once its subscription was accepted, as failed once it was rejected, and as pending before.
pub proof fn shown_states_in_full(status: StatusView, s: SessionView, error: Option<Seq<char>>)
    requires
        hermes::shows(status, s, error),
    ensures
        status.connected <==> s.connected && s.welcomed,
        status.error == error,
        forall|i: int|
            0 <= i < status.channels.len() ==> {
                let row = #[trigger] status.channels[i];
                let title = Topic::BroadcastSettingsUpdate(row.channel_id);
                let live = Topic::VideoPlaybackById(row.channel_id);
                &&& s.channels.contains_key(row.channel_id)
                &&& row.login == s.channels[row.channel_id].channel_name
                &&& row.display_name == s.channels[row.channel_id].channel_display_name
                &&& row.title_status == SubStatus::Connected <==> s.subs.contains_key(title)
                    && s.subs[title].state == SubState::Subscribed
                &&& row.title_status == SubStatus::Failed <==> s.subs.contains_key(title)
                    && s.subs[title].state == SubState::Failed
                &&& row.live_status == SubStatus::Connected <==> s.subs.contains_key(live)
                    && s.subs[live].state == SubState::Subscribed
                &&& row.live_status == SubStatus::Failed <==> s.subs.contains_key(live)
                    && s.subs[live].state == SubState::Failed
            },
        forall|i: int, j: int|
            0 <= i < j < status.channels.len() ==> (#[trigger] status.channels[i]).channel_id != (
            #[trigger] status.channels[j]).channel_id && text::text_le(
                status.channels[i].login,
                status.channels[j].login,
            ),
        forall|id: u64| #[trigger]
            s.channels.contains_key(id) ==> exists|i: int|
                0 <= i < status.channels.len() && (#[trigger] status.channels[i]).channel_id == id,
{
    assert forall|id: u64| #[trigger] s.channels.contains_key(id) implies exists|i: int|
        0 <= i < status.channels.len() && (#[trigger] status.channels[i]).channel_id == id by {
        assert(s.channels.dom().contains(id));
        assert(hermes::has_row(status.channels, id));
    }
}

/// A login is looked up exactly if no tracked channel has it, in whatever case; nothing changes
/// before the answer.
pub proof fn adding_in_full(
    s: SessionView,
    login: String,
    stamp: Seq<char>,
    after: SessionView,
    effects: Seq<EffectView>,
)
    requires
        hermes::command_step(s, Command::AddChannel(login), stamp, after, effects),
    ensures
        after == s,
        (exists|id: u64| #[trigger]
            s.channels.contains_key(id) && text::same_ignoring_case(
                s.channels[id].channel_name,
                login@,
            )) ==> effects.len() == 0,
        (forall|id: u64| #[trigger]
            s.channels.contains_key(id) ==> !text::same_ignoring_case(
                s.channels[id].channel_name,
                login@,
            )) ==> effects == seq![EffectView::FetchLogin(login@)],
{
}

/// A setting takes the value that it is given, and nothing else changes or happens.
pub proof fn settings_in_full(
    s: SessionView,
    value: bool,
    stamp: Seq<char>,
    after: SessionView,
    effects: Seq<EffectView>,
)
    ensures
        hermes::command_step(s, Command::SetSound(value), stamp, after, effects) ==> {
            &&& after.sound == value
            &&& after == (SessionView { sound: after.sound, ..s })
            &&& effects.len() == 0
        },
        hermes::command_step(s, Command::SetNotifyTitleChanges(value), stamp, after, effects) ==> {
            &&& after.notify_title_changes == value
            &&& after == (SessionView { notify_title_changes: after.notify_title_changes, ..s })
            &&& effects.len() == 0
        },
{
}

/// A channel that is removed is not tracked any more, nor are its topics registered; every other
/// channel and topic is as it was, and so are the connection and the settings.
pub proof fn removing_in_full(
    s: SessionView,
    id: u64,
    stamp: Seq<char>,
    after: SessionView,
    effects: Seq<EffectView>,
)
    requires
        hermes::command_step(s, Command::RemoveChannel(id), stamp, after, effects),
    ensures
        after == (SessionView {
            channels: after.channels,
            subs: after.subs,
            rng: after.rng,
            ..s
        }),
        !after.channels.contains_key(id),
        forall|other: u64|
            other != id ==> (#[trigger] after.channels.contains_key(other)
                <==> s.channels.contains_key(other)) && (s.channels.contains_key(other)
                ==> after.channels[other] == s.channels[other]),
        !after.subs.contains_key(Topic::BroadcastSettingsUpdate(id)),
        !after.subs.contains_key(Topic::VideoPlaybackById(id)),
        forall|t: Topic|
            t != Topic::BroadcastSettingsUpdate(id) && t != Topic::VideoPlaybackById(id) ==> (
            #[trigger] after.subs.contains_key(t) <==> s.subs.contains_key(t)) && (
            s.subs.contains_key(t) ==> after.subs[t] == s.subs[t]),
        effects == hermes::removal_effects(s, id, stamp),
        ({
            let title: nat = if s.subs.contains_key(Topic::BroadcastSettingsUpdate(id)) {
                1
            } else {
                0
            };
            let live: nat = if s.subs.contains_key(Topic::VideoPlaybackById(id)) {
                1
            } else {
                0
            };
            after.rng == balesh::state_after(s.rng, 2 * (title + live))
        }),
{
    balesh::lemma_state_after(s.rng, 0, 0);
    balesh::lemma_state_after(s.rng, 2, 2);
}

/// Every identifier that a channel needs when it is found is drawn after the one before: one for
/// each topic that is not registered yet, and one for each message that is sent.
pub proof fn identifiers_of_found_channels(s: SessionView, user: UserView)
    ensures
        ({
            let after = hermes::found(s, user);
            let title = Topic::BroadcastSettingsUpdate(user.channel_id);
            let live = Topic::VideoPlaybackById(user.channel_id);
            let first: nat = if s.subs.contains_key(title) {
                0
            } else {
                2
            };
            let second: nat = if s.subs.contains_key(live) {
                0
            } else {
                2
            };
            let sent: nat = if s.welcomed {
                4
            } else {
                0
            };
            &&& !s.subs.contains_key(title) ==> after.subs[title].id == balesh::drawn_id(s.rng)
            &&& !s.subs.contains_key(live) ==> after.subs[live].id == balesh::drawn_id(
                balesh::state_after(s.rng, first),
            )
            &&& after.rng == balesh::state_after(s.rng, first + second + sent)
        }),
{
    balesh::lemma_state_after(s.rng, 0, 0);
    balesh::lemma_state_after(s.rng, 2, 2);
    balesh::lemma_state_after(s.rng, 0, 4);
    balesh::lemma_state_after(s.rng, 2, 4);
    balesh::lemma_state_after(s.rng, 4, 4);
}

} // verus!
