//! What is announced, in which words, and what a channel holds afterwards.

use vstd::prelude::*;

use crate::balesh::Topic;
use crate::frame::{Playback, PubsubView};
use crate::gql::UserView;
use crate::hermes;
use crate::hermes::{EffectView, SessionView};
use crate::notifier::Toast;
use crate::subs::SubState;

verus! {

/// A notification is shown as it is held: nothing of it is lost or made up.
pub proof fn toasts_hold_what_they_show(toast: Toast)
    ensures
        toast@.summary == toast.summary@,
        toast@.body == toast.body@,
        toast@.sound == toast.sound,
        toast.avatar matches Some(url) ==> toast@.avatar == Some(url@),
        toast.avatar is None ==> toast@.avatar is None,
        toast.login matches Some(login) ==> toast@.login == Some(login@),
        toast.login is None ==> toast@.login is None,
{
}

/// The notification of a channel that goes live, part by part: it rings exactly if sound is on,
/// says who is live, gives the title and the game as far as they are known, shows the picture if
/// there is one, and leads to the channel.
pub proof fn live_toasts_in_full(user: UserView, sound: bool)
    ensures
        ({
            let toast = hermes::live_toast(user, sound);
            &&& toast.sound == sound
            &&& toast.summary == "["@ + user.channel_display_name + "] is LIVE"@
            &&& toast.login == Some(user.channel_name)
            &&& user.profile_image_url.len() == 0 ==> toast.avatar is None
            &&& user.profile_image_url.len() > 0 ==> toast.avatar == Some(user.profile_image_url)
            &&& user.game is None && user.stream_title is None ==> toast.body.len() == 0
            &&& user.game is None && user.stream_title is Some ==> Some(toast.body)
                == user.stream_title
            &&& user.game is Some && user.stream_title is None ==> toast.body
                == user.game.unwrap().name
            &&& user.game is Some && user.stream_title is Some ==> toast.body
                == user.stream_title.unwrap() + " — "@ + user.game.unwrap().name
        }),
{
}

/// The moment a tracked channel goes live: the state is shown, then the channel is announced from
/// what is known of it, with the sound that the session has, and then it is looked up. It counts
/// as live from then on, and nothing else changes.
pub proof fn going_live_in_full(
    s: SessionView,
    id: u64,
    pubsub: PubsubView,
    after: SessionView,
    effects: Seq<EffectView>,
)
    requires
        hermes::notification_step(s, Topic::VideoPlaybackById(id), pubsub, after, effects),
        s.subs[Topic::VideoPlaybackById(id)].state == SubState::Subscribed,
        pubsub.playback == Playback::StreamUp,
        s.channels.contains_key(id),
    ensures
        effects.len() == 3,
        effects[0] is Status,
        effects[1] matches EffectView::Notify(toast) && {
            let user = s.channels[id];
            &&& toast.sound == s.sound
            &&& toast.summary == "["@ + user.channel_display_name + "] is LIVE"@
            &&& toast.login == Some(user.channel_name)
            &&& user.profile_image_url.len() == 0 ==> toast.avatar is None
            &&& user.profile_image_url.len() > 0 ==> toast.avatar == Some(user.profile_image_url)
            &&& user.game is None && user.stream_title is None ==> toast.body.len() == 0
            &&& user.game is None && user.stream_title is Some ==> Some(toast.body)
                == user.stream_title
            &&& user.game is Some && user.stream_title is None ==> toast.body
                == user.game.unwrap().name
            &&& user.game is Some && user.stream_title is Some ==> toast.body
                == user.stream_title.unwrap() + " — "@ + user.game.unwrap().name
        },
        effects[2] matches EffectView::FetchStream { channel_id, notified } && channel_id == id
            && notified,
        after.channels[id].live,
{
    live_toasts_in_full(s.channels[id], s.sound);
}

/// A channel that is not tracked cannot be announced before it has been looked up.
pub proof fn going_live_unknown(
    s: SessionView,
    id: u64,
    pubsub: PubsubView,
    after: SessionView,
    effects: Seq<EffectView>,
)
    requires
        hermes::notification_step(s, Topic::VideoPlaybackById(id), pubsub, after, effects),
        s.subs[Topic::VideoPlaybackById(id)].state == SubState::Subscribed,
        pubsub.playback == Playback::StreamUp,
        !s.channels.contains_key(id),
    ensures
        after == s,
        effects.len() == 2,
        effects[0] is Status,
        effects[1] matches EffectView::FetchStream { channel_id, notified } && channel_id == id
            && !notified,
{
}

/// A stream that ends, and the count of those who watch, are never announced.
pub proof fn only_starting_streams_are_announced(
    s: SessionView,
    id: u64,
    pubsub: PubsubView,
    after: SessionView,
    effects: Seq<EffectView>,
)
    requires
        hermes::notification_step(s, Topic::VideoPlaybackById(id), pubsub, after, effects),
        pubsub.playback != Playback::StreamUp,
    ensures
        effects.len() == 0,
{
}

/// A playback event says whether the channel is live and changes nothing else: not what is known
/// of the channel, not another channel, not a subscription, not a setting.
pub proof fn playback_changes_only_live(
    s: SessionView,
    id: u64,
    pubsub: PubsubView,
    after: SessionView,
    effects: Seq<EffectView>,
)
    requires
        hermes::notification_step(s, Topic::VideoPlaybackById(id), pubsub, after, effects),
        s.subs[Topic::VideoPlaybackById(id)].state == SubState::Subscribed,
    ensures
        after == (SessionView { channels: after.channels, ..s }),
        forall|other: u64| #[trigger]
            after.channels.contains_key(other) <==> s.channels.contains_key(other),
        forall|other: u64|
            other != id && s.channels.contains_key(other) ==> #[trigger] after.channels[other]
                == s.channels[other],
        s.channels.contains_key(id) ==> {
            let user = after.channels[id];
            &&& user == (UserView { live: user.live, ..s.channels[id] })
            &&& pubsub.playback == Playback::StreamUp ==> user.live
            &&& pubsub.playback == Playback::StreamDown ==> !user.live
            &&& pubsub.playback == Playback::Other ==> user.live == s.channels[id].live
        },
{
}

/// Looking a channel up that has gone live: the first user with its identifier is taken over as
/// it is, but live; it is announced if it has not been; and the state is shown.
pub proof fn live_lookups_in_full(
    s: SessionView,
    id: u64,
    notified: bool,
    users: Seq<UserView>,
    k: int,
    after: SessionView,
    effects: Seq<EffectView>,
)
    requires
        hermes::streamed_step(s, id, notified, Ok(users), after, effects),
        0 <= k < users.len(),
        users[k].channel_id == id,
        forall|j: int| 0 <= j < k ==> (#[trigger] users[j]).channel_id != id,
    ensures
        after == (SessionView {
            channels: s.channels.insert(id, (UserView { live: true, ..users[k] })),
            ..s
        }),
        effects.last() is Status,
        notified ==> effects.len() == 1,
        !notified ==> effects.len() == 2,
        !notified ==> (effects[0] matches EffectView::Notify(toast) && {
            let user = users[k];
            &&& toast.sound == s.sound
            &&& toast.summary == "["@ + user.channel_display_name + "] is LIVE"@
            &&& toast.login == Some(user.channel_name)
            &&& user.profile_image_url.len() == 0 ==> toast.avatar is None
            &&& user.profile_image_url.len() > 0 ==> toast.avatar == Some(user.profile_image_url)
            &&& user.game is None && user.stream_title is None ==> toast.body.len() == 0
            &&& user.game is None && user.stream_title is Some ==> Some(toast.body)
                == user.stream_title
            &&& user.game is Some && user.stream_title is None ==> toast.body
                == user.game.unwrap().name
            &&& user.game is Some && user.stream_title is Some ==> toast.body
                == user.stream_title.unwrap() + " — "@ + user.game.unwrap().name
        }),
{
    first_user_at(users, id, k);
    live_toasts_in_full(users[k], s.sound);
}

proof fn first_user_at(users: Seq<UserView>, id: u64, k: int)
    requires
        0 <= k < users.len(),
        users[k].channel_id == id,
        forall|j: int| 0 <= j < k ==> (#[trigger] users[j]).channel_id != id,
    ensures
        hermes::first_user(users, id) == Some(users[k]),
    decreases k,
{
    if k > 0 {
        let rest = users.drop_first();
        assert forall|j: int| 0 <= j < k - 1 implies (#[trigger] rest[j]).channel_id != id by {
            assert(users[j + 1].channel_id != id);
        }
        first_user_at(rest, id, k - 1);
    }
}

proof fn no_first_user(users: Seq<UserView>, id: u64)
    requires
        forall|j: int| 0 <= j < users.len() ==> (#[trigger] users[j]).channel_id != id,
    ensures
        hermes::first_user(users, id) is None,
    decreases users.len(),
{
    if users.len() > 0 {
        let rest = users.drop_first();
        assert forall|j: int| 0 <= j < rest.len() implies (#[trigger] rest[j]).channel_id != id by {
            assert(users[j + 1].channel_id != id);
        }
        no_first_user(rest, id);
    }
}

/// A lookup that fails, or that does not bring the channel, changes and announces nothing.
pub proof fn empty_live_lookups(
    s: SessionView,
    id: u64,
    notified: bool,
    result: Result<Seq<UserView>, Seq<char>>,
    after: SessionView,
    effects: Seq<EffectView>,
)
    requires
        hermes::streamed_step(s, id, notified, result, after, effects),
        result matches Ok(users) ==> forall|j: int|
            0 <= j < users.len() ==> (#[trigger] users[j]).channel_id != id,
    ensures
        after == s,
        effects.len() == 0,
{
    if let Ok(users) = result {
        no_first_user(users, id);
    }
}

/// While announcements of titles are off no update is announced, whatever it brings.
pub proof fn updates_stay_quiet_when_unwanted(
    s: SessionView,
    id: u64,
    pubsub: PubsubView,
    after: SessionView,
    effects: Seq<EffectView>,
)
    requires
        hermes::notification_step(s, Topic::BroadcastSettingsUpdate(id), pubsub, after, effects),
        !s.notify_title_changes,
    ensures
        effects.len() == 0,
{
}

/// An update that brings the title and the game that are known is not announced.
pub proof fn updates_without_news_stay_quiet(
    s: SessionView,
    id: u64,
    pubsub: PubsubView,
    after: SessionView,
    effects: Seq<EffectView>,
)
    requires
        hermes::notification_step(s, Topic::BroadcastSettingsUpdate(id), pubsub, after, effects),
        ({
            let user = s.channels[id];
            &&& user.stream_title == Some(pubsub.status) || (user.stream_title is None
                && pubsub.status.len() == 0)
            &&& pubsub.game is Some <==> user.game is Some
            &&& pubsub.game is Some ==> pubsub.game.unwrap() == user.game.unwrap().name
        }),
    ensures
        effects.len() == 0,
{
}

/// An update of a channel that is not tracked does nothing.
pub proof fn updates_of_others_do_nothing(
    s: SessionView,
    id: u64,
    pubsub: PubsubView,
    after: SessionView,
    effects: Seq<EffectView>,
)
    requires
        hermes::notification_step(s, Topic::BroadcastSettingsUpdate(id), pubsub, after, effects),
        !s.channels.contains_key(id),
    ensures
        after == s,
        effects.len() == 0,
{
}

/// An update that is announced, part by part: it rings exactly if sound is on, names who it is
/// about, leads to the channel, and says what changed, from what to what.
pub proof fn updates_in_full(
    s: SessionView,
    id: u64,
    pubsub: PubsubView,
    after: SessionView,
    effects: Seq<EffectView>,
)
    requires
        hermes::notification_step(s, Topic::BroadcastSettingsUpdate(id), pubsub, after, effects),
        s.subs[Topic::BroadcastSettingsUpdate(id)].state == SubState::Subscribed,
        s.channels.contains_key(id),
        s.notify_title_changes,
        !s.channels[id].live,
    ensures
        ({
            let user = s.channels[id];
            let title = if pubsub.status.len() == 0 {
                user.stream_title matches Some(known) && known.len() > 0
            } else {
                user.stream_title != Some(pubsub.status)
            };
            let game = match (pubsub.game, user.game) {
                (Some(name), Some(known)) => name != known.name,
                (None, None) => false,
                _ => true,
            };
            let new_game = match pubsub.game {
                Some(name) => name,
                None => seq![],
            };
            let head = "["@ + user.channel_display_name + "] "@;
            let title_line = pubsub.old_status + " → "@ + pubsub.status;
            let game_line = pubsub.old_game + " → "@ + new_game;
            if !title && !game {
                effects.len() == 0
            } else {
                &&& effects.len() == 1
                &&& effects[0] matches EffectView::Notify(toast)
                &&& toast.sound == s.sound
                &&& toast.login == Some(user.channel_name)
                &&& user.profile_image_url.len() == 0 ==> toast.avatar is None
                &&& user.profile_image_url.len() > 0 ==> toast.avatar == Some(
                    user.profile_image_url,
                )
                &&& title && game ==> {
                    &&& toast.summary == head + "title & game"@ + " changed"@
                    &&& toast.body == title_line + "\n"@ + game_line
                }
                &&& title && !game ==> {
                    &&& toast.summary == head + "title"@ + " changed"@
                    &&& toast.body == title_line
                }
                &&& !title && game ==> {
                    &&& toast.summary == head + "game"@ + " changed"@
                    &&& toast.body == game_line
                }
            }
        }),
{
}

/// After an update the channel holds its title and its game, announced or not, and nothing else
/// changes: not the rest of the channel, not another channel, not a subscription, not a setting.
pub proof fn updates_are_kept(
    s: SessionView,
    id: u64,
    pubsub: PubsubView,
    after: SessionView,
    effects: Seq<EffectView>,
)
    requires
        hermes::notification_step(s, Topic::BroadcastSettingsUpdate(id), pubsub, after, effects),
        s.subs[Topic::BroadcastSettingsUpdate(id)].state == SubState::Subscribed,
        s.channels.contains_key(id),
    ensures
        after == (SessionView { channels: after.channels, ..s }),
        forall|other: u64| #[trigger]
            after.channels.contains_key(other) <==> s.channels.contains_key(other),
        forall|other: u64|
            other != id && s.channels.contains_key(other) ==> #[trigger] after.channels[other]
                == s.channels[other],
        ({
            let before = s.channels[id];
            let user = after.channels[id];
            &&& user == (UserView {
                stream_title: user.stream_title,
                game: user.game,
                ..before
            })
            &&& pubsub.status.len() == 0 ==> user.stream_title is None
            &&& pubsub.status.len() > 0 ==> user.stream_title == Some(pubsub.status)
            &&& pubsub.game is None || pubsub.game_id is None ==> user.game is None
            &&& pubsub.game is Some && pubsub.game_id is Some ==> {
                &&& user.game matches Some(game)
                &&& game.name == pubsub.game.unwrap()
                &&& game.id == pubsub.game_id.unwrap()
                &&& game.display_name == match before.game {
                    Some(known) => known.display_name,
                    None => seq![],
                }
            }
        }),
{
}

} // verus!
