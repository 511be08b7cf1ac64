//! What holds of the edition whose commands name channels by login.

use vstd::prelude::*;

use crate::by_login::config;
use crate::by_login::config::ConfigView;
use crate::by_login::gql;
use crate::by_login::hermes;
use crate::by_login::hermes::{Command, EntryView, LoginSessionView, Next};
use crate::by_login::state;
use crate::by_login::state::{CommandView, FrameStateView, UiIntent};
use crate::by_login::window;
use crate::config::ChannelView;
use crate::gql::{User, UserView};
use crate::hermes::{connection, tracking, EffectView, SessionView, SubStatus};
use crate::json;
use crate::json::Json;
use crate::logging;
use crate::state::laws::filter_members;
use crate::text;
use crate::window::laws::{found_row_at, no_row_found};

verus! {

/// A channel of which only the entry is known is shown by its display name, or by its login, is
/// offline, and has neither title nor game nor picture.
pub proof fn placeholders_in_full(entry: EntryView, id: u64)
    ensures
        ({
            let user = hermes::placeholder_user(entry, id);
            &&& user.channel_id == id
            &&& user.channel_name == entry.login
            &&& entry.display_name matches Some(name) ==> user.channel_display_name == name
            &&& entry.display_name is None ==> user.channel_display_name == entry.login
            &&& !user.live
            &&& user.stream_title is None
            &&& user.game is None
            &&& user.profile_image_url.len() == 0
        }),
{
}

proof fn first_answer_at(users: Seq<UserView>, entry: EntryView, k: int)
    requires
        0 <= k < users.len(),
        hermes::answers(users[k], entry),
        forall|j: int| 0 <= j < k ==> !hermes::answers(#[trigger] users[j], entry),
    ensures
        hermes::first_answer(users, entry) == Some(users[k]),
    decreases k,
{
    if k > 0 {
        let rest = users.drop_first();
        assert(!hermes::answers(users[0], entry));
        assert forall|j: int| 0 <= j < k - 1 implies !hermes::answers(
            #[trigger] rest[j],
            entry,
        ) by {
            assert(!hermes::answers(users[j + 1], entry));
        }
        first_answer_at(rest, entry, k - 1);
    }
}

/// A user answers an entry exactly if it has the entry's identifier or, in whatever case, its
/// login; the first one that does is the answer.
pub proof fn answers_in_full(users: Seq<UserView>, entry: EntryView, k: int)
    requires
        0 <= k < users.len(),
        entry.id == Some(users[k].channel_id) || text::same_ignoring_case(
            users[k].channel_name,
            entry.login,
        ),
        forall|j: int|
            0 <= j < k ==> entry.id != Some((#[trigger] users[j]).channel_id)
                && !text::same_ignoring_case(users[j].channel_name, entry.login),
    ensures
        hermes::first_answer(users, entry) == Some(users[k]),
{
    assert forall|j: int| 0 <= j < k implies !hermes::answers(#[trigger] users[j], entry) by {}
    first_answer_at(users, entry, k);
}

/// No user answers where none has the identifier or the login.
pub proof fn no_answer(users: Seq<UserView>, entry: EntryView)
    requires
        forall|j: int|
            0 <= j < users.len() ==> entry.id != Some((#[trigger] users[j]).channel_id)
                && !text::same_ignoring_case(users[j].channel_name, entry.login),
    ensures
        hermes::first_answer(users, entry) is None,
    decreases users.len(),
{
    if users.len() > 0 {
        let rest = users.drop_first();
        assert(!hermes::answers(users[0], entry));
        assert forall|j: int| 0 <= j < rest.len() implies entry.id != Some(
            (#[trigger] rest[j]).channel_id,
        ) && !text::same_ignoring_case(rest[j].channel_name, entry.login) by {
            assert(entry.id != Some(users[j + 1].channel_id));
        }
        no_answer(rest, entry);
    }
}

/// An entry that was looked up. If it was answered the channel is tracked as it was brought, and
/// the login is not unresolved any more. If it was not but has an identifier, a placeholder is
/// tracked. Else its login is unresolved, and no channel changes.
pub proof fn settled_entries_in_full(
    s: LoginSessionView,
    entry: EntryView,
    found: Option<UserView>,
)
    ensures
        ({
            let after = hermes::settled(s, entry, found);
            match (found, entry.id) {
                (Some(user), _) => {
                    &&& after.session.channels == s.session.channels.insert(user.channel_id, user)
                    &&& forall|login: Seq<char>| #[trigger]
                        after.unresolved.contains(login) <==> s.unresolved.contains(login)
                            && !text::same_ignoring_case(login, entry.login)
                },
                (None, Some(id)) => {
                    &&& after.unresolved == s.unresolved
                    &&& after.session.channels.dom() == s.session.channels.dom().insert(id)
                    &&& after.session.channels[id].channel_name == entry.login
                    &&& !after.session.channels[id].live
                    &&& forall|other: u64|
                        other != id && s.session.channels.contains_key(other) ==> (
                        #[trigger] after.session.channels[other]) == s.session.channels[other]
                },
                (None, None) => {
                    &&& after.session == s.session
                    &&& after.unresolved == s.unresolved.push(entry.login)
                },
            }
        }),
{
    filter_members(s.unresolved, crate::state::other_texts(entry.login));
}

/// Settling an entry always ends with the state being shown.
pub proof fn settling_is_shown(
    s: LoginSessionView,
    entry: EntryView,
    found: Option<UserView>,
    stamp: Seq<char>,
)
    ensures
        hermes::settled_effects(s, entry, found, stamp).last() == EffectView::Refresh,
        !s.session.connected ==> hermes::settled_effects(s, entry, found, stamp).len() == 1,
{
}

proof fn still_unresolved(unresolved: Seq<Seq<char>>, users: Seq<UserView>)
    ensures
        forall|login: Seq<char>| #[trigger]
            hermes::without_all(unresolved, users).contains(login) <==> unresolved.contains(login)
                && forall|k: int|
                0 <= k < users.len() ==> !text::same_ignoring_case(
                    login,
                    (#[trigger] users[k]).channel_name,
                ),
    decreases users.len(),
{
    if users.len() > 0 {
        let before = users.drop_last();
        still_unresolved(unresolved, before);
        let half = hermes::without_all(unresolved, before);
        let name = users.last().channel_name;
        filter_members(half, crate::state::other_texts(name));
        assert forall|login: Seq<char>| #[trigger]
            hermes::without_all(unresolved, users).contains(login) <==> unresolved.contains(login)
            && forall|k: int|
            0 <= k < users.len() ==> !text::same_ignoring_case(
                login,
                (#[trigger] users[k]).channel_name,
            ) by {
            if half.contains(login) && !text::same_ignoring_case(login, name) {
                assert forall|k: int| 0 <= k < users.len() implies !text::same_ignoring_case(
                    login,
                    (#[trigger] users[k]).channel_name,
                ) by {
                    if k < before.len() {
                        assert(!text::same_ignoring_case(login, before[k].channel_name));
                    }
                }
            }
            if forall|k: int|
                0 <= k < users.len() ==> !text::same_ignoring_case(
                    login,
                    (#[trigger] users[k]).channel_name,
                ) {
                assert(!text::same_ignoring_case(login, users[users.len() - 1].channel_name));
                assert forall|k: int| 0 <= k < before.len() implies !text::same_ignoring_case(
                    login,
                    (#[trigger] before[k]).channel_name,
                ) by {
                    assert(!text::same_ignoring_case(login, users[k].channel_name));
                }
            }
        }
    }
}

/// A lookup before a connection that succeeds: every channel that it brought is held just as it
/// was brought, others stay as they are, and just the logins that were found are not unresolved
/// any more.
pub proof fn lookups_in_full(
    s: LoginSessionView,
    ids: Seq<u64>,
    users: Seq<UserView>,
    k: int,
)
    requires
        0 <= k < users.len(),
        forall|j: int|
            k < j < users.len() ==> (#[trigger] users[j]).channel_id != users[k].channel_id,
    ensures
        ({
            let after = hermes::synced(s, ids, Ok(users));
            &&& after.session.channels.contains_key(users[k].channel_id)
            &&& after.session.channels[users[k].channel_id] == users[k]
            &&& forall|login: Seq<char>| #[trigger]
                after.unresolved.contains(login) <==> s.unresolved.contains(login) && forall|
                    j: int,
                |
                    0 <= j < users.len() ==> !text::same_ignoring_case(
                        login,
                        (#[trigger] users[j]).channel_name,
                    )
        }),
{
    tracking::lookups_refresh(s.session, users, k);
    still_unresolved(s.unresolved, users);
}

/// Channels that a lookup did not bring are kept as they are, and so is everything where it fails.
pub proof fn lookups_drop_nothing(
    s: LoginSessionView,
    ids: Seq<u64>,
    result: Result<Seq<UserView>, Seq<char>>,
    id: u64,
)
    requires
        s.session.channels.contains_key(id),
        result matches Ok(users) ==> forall|j: int|
            0 <= j < users.len() ==> (#[trigger] users[j]).channel_id != id,
    ensures
        hermes::synced(s, ids, result).session.channels.contains_key(id),
        hermes::synced(s, ids, result).session.channels[id] == s.session.channels[id],
        result is Err ==> hermes::synced(s, ids, result).unresolved == s.unresolved,
{
    match result {
        Ok(users) => {
            tracking::lookups_keep_the_others(s.session, users, id);
        },
        Err(_) => {
            registering_keeps_channels(s, ids);
        },
    }
}

proof fn registering_keeps_channels(s: LoginSessionView, ids: Seq<u64>)
    ensures
        crate::hermes::registered(s.session, ids).channels == s.session.channels,
    decreases ids.len(),
{
    if ids.len() > 0 {
        registering_keeps_channels(s, ids.drop_last());
    }
}

/// A login that is removed is gone wherever it was: no tracked channel that was removed for it
/// stays, and it is not unresolved. At most one channel goes, and only one that has the login.
pub proof fn removals_in_full(
    s: LoginSessionView,
    login: String,
    stamp: Seq<char>,
    after: LoginSessionView,
    next: Next,
)
    requires
        hermes::command_step(s, Command::RemoveChannel(login), stamp, after, next),
    ensures
        forall|name: Seq<char>| #[trigger]
            after.unresolved.contains(name) <==> s.unresolved.contains(name)
                && !text::same_ignoring_case(name, login@),
        (forall|id: u64| #[trigger]
            s.session.channels.contains_key(id) ==> !text::same_ignoring_case(
                s.session.channels[id].channel_name,
                login@,
            )) ==> after.session == s.session,
        (exists|id: u64| #[trigger]
            s.session.channels.contains_key(id) && text::same_ignoring_case(
                s.session.channels[id].channel_name,
                login@,
            )) ==> exists|id: u64| #[trigger]
            s.session.channels.contains_key(id) && text::same_ignoring_case(
                s.session.channels[id].channel_name,
                login@,
            ) && after.session.channels == s.session.channels.remove(id),
        next is Effects,
{
    filter_members(s.unresolved, crate::state::other_texts(login@));
    if exists|id: u64| #[trigger] hermes::has_login(s.session, id, login@) {
        let effects = crate::hermes::effect_views(next->Effects_0@);
        let id = choose|id: u64| #[trigger]
            hermes::has_login(s.session, id, login@) && after.session == crate::hermes::removed(
                s.session,
                id,
            ) && effects == crate::hermes::removal_effects(s.session, id, stamp);
        assert(s.session.channels.contains_key(id));
        assert(after.session.channels == s.session.channels.remove(id));
    }
    assert forall|id: u64|
        !(#[trigger] s.session.channels.contains_key(id) && text::same_ignoring_case(
            s.session.channels[id].channel_name,
            login@,
        )) implies !hermes::has_login(s.session, id, login@) by {}
    if exists|id: u64| #[trigger]
        s.session.channels.contains_key(id) && text::same_ignoring_case(
            s.session.channels[id].channel_name,
            login@,
        ) {
        let id = choose|id: u64| #[trigger]
            s.session.channels.contains_key(id) && text::same_ignoring_case(
                s.session.channels[id].channel_name,
                login@,
            );
        assert(hermes::has_login(s.session, id, login@));
    }
}

/// An entry is looked up exactly if no tracked channel and no unresolved login has its login: by
/// its identifier, or by its login if it has none.
pub proof fn additions_in_full(
    s: LoginSessionView,
    command: Command,
    stamp: Seq<char>,
    after: LoginSessionView,
    next: Next,
)
    requires
        hermes::command_step(s, command, stamp, after, next),
        command is AddChannel,
    ensures
        ({
            let entry = command->AddChannel_0;
            let known = (exists|id: u64| #[trigger]
                s.session.channels.contains_key(id) && text::same_ignoring_case(
                    s.session.channels[id].channel_name,
                    entry.login@,
                )) || (exists|i: int|
                0 <= i < s.unresolved.len() && text::same_ignoring_case(
                    #[trigger] s.unresolved[i],
                    entry.login@,
                ));
            &&& after == s
            &&& known ==> (next matches Next::Effects(effects) && effects@.len() == 0)
            &&& !known ==> (next matches Next::Look(asked, lookup) && asked == entry && {
                &&& entry.id matches Some(id) ==> lookup.ids@ == seq![id] && lookup.logins@.len()
                    == 0
                &&& entry.id is None ==> lookup.ids@.len() == 0 && lookup.logins@.len() == 1
                    && lookup.logins@[0]@ == entry.login@
            })
        }),
{
    let entry = command->AddChannel_0;
    if let Next::Look(_, lookup) = next {
        if entry.id is None {
            assert(text::views(lookup.logins@).len() == 1);
            assert(text::views(lookup.logins@)[0] == entry.login@);
        }
    }
}

/// Settings take effect at once, each on itself alone, and nothing is sent for them.
pub proof fn settings_in_full(
    s: LoginSessionView,
    value: bool,
    stamp: Seq<char>,
    after: LoginSessionView,
    next: Next,
)
    ensures
        hermes::command_step(s, Command::SetSound(value), stamp, after, next) ==> {
            &&& after.unresolved == s.unresolved
            &&& after.session.sound == value
            &&& after.session == (SessionView { sound: after.session.sound, ..s.session })
            &&& next matches Next::Effects(effects) && effects@.len() == 0
        },
        hermes::command_step(s, Command::SetNotifyTitleChanges(value), stamp, after, next) ==> {
            &&& after.unresolved == s.unresolved
            &&& after.session.notify_title_changes == value
            &&& after.session == (SessionView {
                notify_title_changes: after.session.notify_title_changes,
                ..s.session
            })
            &&& next matches Next::Effects(effects) && effects@.len() == 0
        },
{
}

/// What happens to the connection is what happens to one in the other edition, and leaves the
/// unresolved logins alone.
pub proof fn events_in_full(
    s: LoginSessionView,
    event: hermes::Event,
    now: u64,
    stamp: Seq<char>,
    after: LoginSessionView,
    next: Next,
)
    requires
        hermes::event_step(s, event, now, stamp, after, next),
        !(event is Command),
    ensures
        after.unresolved == s.unresolved,
        next matches Next::Effects(effects) && {
            let shown = crate::hermes::effect_views(effects@);
            match event {
                hermes::Event::Text(text) => {
                    &&& after.session.last_message == now
                    &&& crate::hermes::event_step(
                        s.session,
                        crate::hermes::Event::Text(text),
                        now,
                        stamp,
                        after.session,
                        shown,
                    )
                },
                hermes::Event::Closed => crate::hermes::event_step(
                    s.session,
                    crate::hermes::Event::Closed,
                    now,
                    stamp,
                    after.session,
                    shown,
                ),
                hermes::Event::Tick => crate::hermes::event_step(
                    s.session,
                    crate::hermes::Event::Tick,
                    now,
                    stamp,
                    after.session,
                    shown,
                ),
                _ => after.session == s.session && effects@.len() == 0,
            }
        },
{
    if let hermes::Event::Text(message) = event {
        connection::any_text_is_a_sign_of_life(
            s.session,
            message,
            now,
            stamp,
            after.session,
            crate::hermes::effect_views(next->Effects_0@),
        );
    }
}

/// A lookup that fails finds nothing, and one that succeeds what answers the entry.
pub proof fn replies_in_full(users: Vec<User>, error: String, entry: EntryView)
    ensures
        hermes::found_in(Err(error), entry) is None,
        state::resolved_in(Err(error), entry.login) is None,
        users@.len() > 0 && text::same_ignoring_case(users@[0]@.channel_name, entry.login) ==> {
            &&& hermes::found_in(Ok(users), entry) == Some(users@[0]@)
            &&& state::resolved_in(Ok(users), entry.login) == Some(users@[0]@)
        },
        users@.len() == 0 ==> {
            &&& hermes::found_in(Ok(users), entry) is None
            &&& state::resolved_in(Ok(users), entry.login) is None
        },
{
}

/// An entry of which only the login is known has neither an identifier nor a display name.
pub proof fn bare_entries_in_full(login: Seq<char>)
    ensures
        state::bare_entry(login).login == login,
        state::bare_entry(login).id is None,
        state::bare_entry(login).display_name is None,
{
}

/// The session starts with every channel of the settings, in order, and with both settings.
pub proof fn startups_in_full(config: ConfigView)
    ensures
        ({
            let commands = state::seed_commands(config);
            let n = config.channels.len() as int;
            &&& commands.len() == n + 2
            &&& forall|i: int|
                0 <= i < n ==> {
                    &&& (#[trigger] commands[i]) matches CommandView::AddChannel(entry)
                    &&& entry.login == config.channels[i].login
                    &&& entry.id == Some(config.channels[i].id)
                    &&& entry.display_name == config.channels[i].display_name
                }
            &&& commands[n] == CommandView::SetNotifyTitleChanges(config.notify_title_changes)
            &&& commands[n + 1] == CommandView::SetSound(config.sound)
        }),
{
}

/// A channel that is added stands behind the others, under the names and the identifier that it
/// was found with.
pub proof fn added_channels_in_full(config: ConfigView, user: UserView)
    ensures
        ({
            let after = state::stamped(state::with_channel(config, user));
            &&& after.channels.len() == config.channels.len() + 1
            &&& after.channels.drop_last() == config.channels
            &&& after.channels.last().login == user.channel_name
            &&& after.channels.last().id == user.channel_id
            &&& after.channels.last().display_name == Some(user.channel_display_name)
            &&& after == (ConfigView { version: 1, channels: after.channels, ..config })
        }),
{
    assert(config.channels.push(crate::state::channel_of(user)).drop_last() =~= config.channels);
}

/// A wish changes just what it names, and tells the session.
pub proof fn wishes_in_full(config: ConfigView, login: String, value: bool)
    ensures
        state::changed(config, UiIntent::RemoveLogin(login)) matches Some((after, forward)) && {
            &&& forward == CommandView::RemoveChannel(login@)
            &&& forall|c: ChannelView| #[trigger]
                after.channels.contains(c) <==> config.channels.contains(c)
                    && !text::same_ignoring_case(c.login, login@)
            &&& after == (ConfigView { version: 1, channels: after.channels, ..config })
        },
        state::changed(config, UiIntent::SetSound(value)) matches Some((after, forward)) && {
            &&& forward == CommandView::SetSound(value)
            &&& after.sound == value
            &&& after == (ConfigView { version: 1, sound: after.sound, ..config })
        },
        state::changed(config, UiIntent::SetNotifyTitleChanges(value)) matches Some(
            (after, forward),
        ) && {
            &&& forward == CommandView::SetNotifyTitleChanges(value)
            &&& after.notify_title_changes == value
            &&& after == (ConfigView {
                version: 1,
                notify_title_changes: after.notify_title_changes,
                ..config
            })
        },
{
    filter_members(config.channels, crate::state::other_logins(login@));
}

/// A new installation tracks nobody, and neither announces titles nor rings.
pub proof fn new_installations()
    ensures
        config::default_config().channels.len() == 0,
        !config::default_config().notify_title_changes,
        !config::default_config().sound,
        config::default_config().version == 0,
{
}

/// An entry of a response is used exactly if it and its broadcast have identifiers that write
/// numbers, and then member by member.
pub proof fn entries_in_full(raw: Json)
    ensures
        ({
            let broadcast = json::member(raw, "broadcastSettings"@);
            let id = json::member(raw, "id"@);
            let stream_id = json::member(broadcast, "id"@);
            gql::user_of(raw) is Some <==> (id matches Json::Text(a) && text::u64_of(a) is Some)
                && (stream_id matches Json::Text(b) && text::u64_of(b) is Some)
        }),
        gql::user_of(raw) matches Some(user) ==> {
            let broadcast = json::member(raw, "broadcastSettings"@);
            let stream = json::member(raw, "stream"@);
            &&& json::member(raw, "id"@) matches Json::Text(s) && text::u64_of(s) == Some(
                user.channel_id,
            )
            &&& json::member(broadcast, "id"@) matches Json::Text(s) && text::u64_of(s) == Some(
                user.stream_id,
            )
            &&& json::member(raw, "login"@) matches Json::Text(s) ==> user.channel_name == s
            &&& !(json::member(raw, "login"@) is Text) ==> user.channel_name.len() == 0
            &&& json::member(raw, "displayName"@) matches Json::Text(s)
                ==> user.channel_display_name == s
            &&& !(json::member(raw, "displayName"@) is Text) ==> user.channel_display_name.len()
                == 0
            &&& json::member(raw, "profileImageURL"@) matches Json::Text(s)
                ==> user.profile_image_url == s
            &&& !(json::member(raw, "profileImageURL"@) is Text) ==> user.profile_image_url.len()
                == 0
            &&& json::member(broadcast, "title"@) matches Json::Text(s) ==> (if s.len() > 0 {
                user.stream_title == Some(s)
            } else {
                user.stream_title is None
            })
            &&& !(json::member(broadcast, "title"@) is Text) ==> user.stream_title is None
            &&& user.live <==> stream is Object
            &&& json::member(stream, "createdAt"@) matches Json::Text(at) ==> (
            match logging::iso_ms(at) {
                Some(ms) => user.stream_start == Some(ms as i64),
                None => user.stream_start is None,
            })
            &&& !(json::member(stream, "createdAt"@) is Text) ==> user.stream_start is None
            &&& user.game is Some <==> {
                let named = json::member(broadcast, "game"@);
                &&& json::member(named, "id"@) matches Json::Text(s) && text::u64_of(s) is Some
                &&& json::member(named, "name"@) is Text
                &&& json::member(named, "displayName"@) is Text
            }
            &&& user.game matches Some(game) ==> {
                let named = json::member(broadcast, "game"@);
                &&& json::member(named, "id"@) matches Json::Text(s) && text::u64_of(s) == Some(
                    game.id,
                )
                &&& json::member(named, "name"@) == Json::Text(game.name)
                &&& json::member(named, "displayName"@) == Json::Text(game.display_name)
            }
        },
{
}

/// The users of two lists of entries, one after the other, are those of the first and then those
/// of the second; of a single entry it is the user that it describes, if it is used.
pub proof fn entries_add_up(a: Seq<Json>, b: Seq<Json>, raw: Json)
    ensures
        gql::users_in(a + b) == gql::users_in(a) + gql::users_in(b),
        gql::user_of(raw) matches Some(user) ==> gql::users_in(seq![raw]) == seq![user],
        gql::user_of(raw) is None ==> gql::users_in(seq![raw]).len() == 0,
    decreases b.len(),
{
    let single = seq![raw];
    assert(single.drop_last() =~= Seq::empty());
    assert(gql::users_in(single.drop_last()) =~= seq![]);
    if let Some(user) = gql::user_of(raw) {
        assert(gql::users_in(single) =~= seq![user]);
    }
    if b.len() == 0 {
        assert(a + b =~= a);
        assert(gql::users_in(a) + gql::users_in(b) =~= gql::users_in(a));
    } else {
        let rest = b.drop_last();
        entries_add_up(a, rest, raw);
        assert((a + b).drop_last() =~= a + rest);
        assert((a + b).last() == b.last());
        assert(gql::users_in(a + b) =~= gql::users_in(a) + gql::users_in(b));
    }
}

/// The users of two batches, one after the other, are those of the first and then those of the
/// second; of a single response they are those of the entries in its data.
pub proof fn batches_add_up(a: Seq<Json>, b: Seq<Json>, response: Json)
    ensures
        gql::users_of(Json::Array(a + b)) == gql::users_of(Json::Array(a)) + gql::users_of(
            Json::Array(b),
        ),
        json::member(json::member(response, "data"@), "users"@) matches Json::Array(entries)
            ==> gql::users_of(Json::Array(seq![response])) == gql::users_in(entries),
        !(json::member(json::member(response, "data"@), "users"@) is Array) ==> gql::users_of(
            Json::Array(seq![response]),
        ).len() == 0,
        !(response is Array) ==> gql::users_of(response).len() == 0,
    decreases b.len(),
{
    let single = seq![response];
    assert(single.drop_last() =~= Seq::empty());
    assert(gql::users_of_all(single.drop_last()) =~= seq![]);
    assert(gql::users_of_all(single) =~= gql::users_in(gql::entries_of(response)));
    if b.len() == 0 {
        assert(a + b =~= a);
        assert(gql::users_of_all(a) + gql::users_of_all(b) =~= gql::users_of_all(a));
    } else {
        let rest = b.drop_last();
        batches_add_up(a, rest, response);
        assert((a + b).drop_last() =~= a + rest);
        assert((a + b).last() == b.last());
        assert(gql::users_of_all(a + b) =~= gql::users_of_all(a) + gql::users_of_all(b));
    }
}

/// The table has one row for each channel of the settings, in order. A row is removed by its
/// login, and says that nothing was found exactly if its login is unresolved.
pub proof fn tables_in_full(frame: FrameStateView)
    ensures
        ({
            let rows = window::table_of(frame);
            &&& rows.len() == frame.config.channels.len()
            &&& forall|i: int|
                0 <= i < rows.len() ==> {
                    &&& (#[trigger] rows[i]).remove == frame.config.channels[i].login
                    &&& frame.status is None ==> !rows[i].not_found
                    &&& frame.status matches Some(event) ==> (rows[i].not_found <==> exists|j: int|
                        0 <= j < event.unresolved.len() && text::same_ignoring_case(
                            #[trigger] event.unresolved[j],
                            frame.config.channels[i].login,
                        ))
                }
        }),
{
}

/// A channel that the session knows is shown with the name and the states that the session gives.
pub proof fn known_rows_in_full(frame: FrameStateView, i: int, k: int)
    requires
        0 <= i < frame.config.channels.len(),
        frame.status matches Some(event) && {
            &&& 0 <= k < event.status.channels.len()
            &&& event.status.channels[k].channel_id == frame.config.channels[i].id
            &&& forall|j: int|
                0 <= j < k ==> (#[trigger] event.status.channels[j]).channel_id
                    != frame.config.channels[i].id
        },
    ensures
        ({
            let row = window::table_of(frame)[i];
            let known = frame.status.unwrap().status.channels[k];
            &&& row.name == known.display_name
            &&& row.live == known.live_status
            &&& row.title == known.title_status
        }),
{
    found_row_at(frame.status.unwrap().status.channels, frame.config.channels[i].id, k);
}

/// A channel that the session does not know is shown by its display name, or by its login without
/// one, and as pending.
pub proof fn unknown_rows_in_full(frame: FrameStateView, i: int)
    requires
        0 <= i < frame.config.channels.len(),
        frame.status matches Some(event) ==> forall|j: int|
            0 <= j < event.status.channels.len() ==> (
            #[trigger] event.status.channels[j]).channel_id != frame.config.channels[i].id,
    ensures
        ({
            let row = window::table_of(frame)[i];
            let channel = frame.config.channels[i];
            &&& channel.display_name matches Some(name) ==> row.name == name
            &&& channel.display_name is None ==> row.name == channel.login
            &&& row.live == SubStatus::Pending
            &&& row.title == SubStatus::Pending
        }),
{
    if let Some(event) = frame.status {
        no_row_found(event.status.channels, frame.config.channels[i].id);
    }
}

} // verus!
