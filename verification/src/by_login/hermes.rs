//! The session whose commands name channels by login.

use vstd::prelude::*;

use crate::gql;
use crate::gql::{Game, User, UserView};
use crate::hermes;
use crate::hermes::{ChannelStatus, Effect, EffectView, SessionView, Status};
use crate::state;
use crate::text;

verus! {

/// A channel as it is configured. Without an identifier the login has not been resolved; it
/// cannot be subscribed to.
pub struct ChannelEntry {
    pub login: String,
    pub id: Option<u64>,
    pub display_name: Option<String>,
}

pub struct EntryView {
    pub login: Seq<char>,
    pub id: Option<u64>,
    pub display_name: Option<Seq<char>>,
}

impl View for ChannelEntry {
    type V = EntryView;

    open spec fn view(&self) -> EntryView {
        EntryView { login: self.login@, id: self.id, display_name: text::opt(self.display_name) }
    }
}

/// What a command asks for.
pub enum Command {
    AddChannel(ChannelEntry),
    RemoveChannel(String),
    SetNotifyTitleChanges(bool),
    SetSound(bool),
}

/// The state of the session as it is shown, with the logins that are not resolved.
#[derive(Debug)]
pub struct StatusEvent {
    pub connected: bool,
    pub error: Option<String>,
    pub channels: Vec<ChannelStatus>,
    pub unresolved: Vec<String>,
}

/// What is tracked of a channel: how it is shown, and what notifications are measured against.
pub struct TrackedChannel {
    pub login: String,
    pub display_name: String,
    pub avatar: String,
    pub title: Option<String>,
    pub game: Option<Game>,
    pub live: bool,
}

/// A channel of which only the entry is known: offline, without title, game or picture. Without a
/// display name it is shown by its login.
pub open spec fn placeholder_user(entry: EntryView, id: u64) -> UserView {
    UserView {
        channel_id: id,
        channel_name: entry.login,
        channel_display_name: match entry.display_name {
            Some(name) => name,
            None => entry.login,
        },
        profile_image_url: seq![],
        stream_id: 0,
        stream_title: None,
        stream_start: None,
        game: None,
        live: false,
    }
}

impl TrackedChannel {
    /// What is tracked of a channel of which only the entry is known.
    pub fn placeholder(entry: &ChannelEntry) -> (r: TrackedChannel)
        ensures
            r.login@ == entry@.login,
            r.display_name@ == (match entry@.display_name {
                Some(name) => name,
                None => entry@.login,
            }),
            r.avatar@.len() == 0,
            r.title is None,
            r.game is None,
            !r.live,
    {
        TrackedChannel {
            login: entry.login.clone(),
            display_name: match &entry.display_name {
                Some(name) => name.clone(),
                None => entry.login.clone(),
            },
            avatar: String::new(),
            title: None,
            game: None,
            live: false,
        }
    }

    /// The channel, under its identifier. Nothing is known of a stream.
    pub fn into_user(self, id: u64) -> (r: User)
        ensures
            r@ == (UserView {
                channel_id: id,
                channel_name: self.login@,
                channel_display_name: self.display_name@,
                profile_image_url: self.avatar@,
                stream_id: 0,
                stream_title: text::opt(self.title),
                stream_start: None,
                game: gql::game_view(self.game),
                live: self.live,
            }),
    {
        User {
            channel_id: id,
            channel_name: self.login,
            channel_display_name: self.display_name,
            profile_image_url: self.avatar,
            stream_id: 0,
            stream_title: self.title,
            stream_start: None,
            game: self.game,
            live: self.live,
        }
    }
}

/// Channels to look up, by identifier and by login.
pub struct Lookup {
    pub ids: Vec<u64>,
    pub logins: Vec<String>,
}

/// The lookup asks for the entry: by its identifier, or by its login without one.
pub open spec fn looks_for(lookup: Lookup, entry: EntryView) -> bool {
    match entry.id {
        Some(id) => lookup.ids@ == seq![id] && lookup.logins@.len() == 0,
        None => lookup.ids@.len() == 0 && text::views(lookup.logins@) == seq![entry.login],
    }
}

/// What follows a command: effects, or an entry to look up.
pub enum Next {
    Effects(Vec<Effect>),
    Look(ChannelEntry, Lookup),
}

/// What the session waits for.
pub enum Event {
    Command(Command),
    /// A text has arrived.
    Text(String),
    /// The connection was closed, or reading from it failed.
    Closed,
    /// A second has passed.
    Tick,
    /// Something without a text has arrived.
    Ignored,
}

/// The session: the tracked channels, and the logins that are not resolved.
pub struct Session {
    inner: hermes::Session,
    unresolved: Vec<String>,
}

#[verifier::ext_equal]
pub struct LoginSessionView {
    pub session: SessionView,
    pub unresolved: Seq<Seq<char>>,
}

impl View for Session {
    type V = LoginSessionView;

    closed spec fn view(&self) -> LoginSessionView {
        LoginSessionView { session: self.inner@, unresolved: text::views(self.unresolved@) }
    }
}

/// The session knows the login, tracked or not resolved.
pub open spec fn knows(s: LoginSessionView, login: Seq<char>) -> bool {
    hermes::tracks_login(s.session, login) || state::lists_text(s.unresolved, login)
}

/// The user answers the entry: it has its identifier or its login.
pub open spec fn answers(user: UserView, entry: EntryView) -> bool {
    (entry.id matches Some(id) && user.channel_id == id) || text::same_ignoring_case(
        user.channel_name,
        entry.login,
    )
}

/// The first user that answers the entry.
pub open spec fn first_answer(users: Seq<UserView>, entry: EntryView) -> Option<UserView>
    decreases users.len(),
{
    if users.len() == 0 {
        None
    } else if answers(users[0], entry) {
        Some(users[0])
    } else {
        first_answer(users.drop_first(), entry)
    }
}

/// The logins without the one that was resolved.
pub open spec fn without(unresolved: Seq<Seq<char>>, login: Seq<char>) -> Seq<Seq<char>> {
    unresolved.filter(state::other_texts(login))
}

/// The logins without those of the users.
pub open spec fn without_all(unresolved: Seq<Seq<char>>, users: Seq<UserView>) -> Seq<Seq<char>>
    decreases users.len(),
{
    if users.len() == 0 {
        unresolved
    } else {
        without(without_all(unresolved, users.drop_last()), users.last().channel_name)
    }
}

/// The session after an entry was looked up: it is tracked if it was found, or if it has an
/// identifier; else its login is not resolved.
pub open spec fn settled(s: LoginSessionView, entry: EntryView, found: Option<UserView>) -> LoginSessionView {
    match (found, entry.id) {
        (Some(user), _) => LoginSessionView {
            session: hermes::found(s.session, user),
            unresolved: without(s.unresolved, entry.login),
        },
        (None, Some(id)) => LoginSessionView {
            session: hermes::found(s.session, placeholder_user(entry, id)),
            ..s
        },
        (None, None) => LoginSessionView { unresolved: s.unresolved.push(entry.login), ..s },
    }
}

/// What settling an entry leads to.
pub open spec fn settled_effects(
    s: LoginSessionView,
    entry: EntryView,
    found: Option<UserView>,
    stamp: Seq<char>,
) -> Seq<EffectView> {
    match (found, entry.id) {
        (Some(user), _) => hermes::found_effects(s.session, user, stamp),
        (None, Some(id)) => hermes::found_effects(
            s.session,
            placeholder_user(entry, id),
            stamp,
        ),
        (None, None) => seq![EffectView::Refresh],
    }
}

/// The user of a lookup that answers the entry; none where the lookup failed.
pub open spec fn found_in(result: Result<Vec<User>, String>, entry: EntryView) -> Option<UserView> {
    match result {
        Ok(users) => first_answer(gql::user_views(users@), entry),
        Err(_) => None,
    }
}

fn take_answer(users: Vec<User>, entry: &ChannelEntry) -> (r: Option<User>)
    ensures
        first_answer(gql::user_views(users@), entry@) == (match r {
            Some(user) => Some(user@),
            None => None,
        }),
{
    let ghost all = gql::user_views(users@);
    assert(all.skip(0) =~= all);
    for user in it: users
        invariant
            all == gql::user_views(it.seq()),
            first_answer(all, entry@) == first_answer(all.skip(it.index() as int), entry@),
    {
        let ghost i = it.index() as int;
        assert(all.skip(i)[0] == user@);
        assert(all.skip(i).drop_first() =~= all.skip(i + 1));
        let by_id = match entry.id {
            Some(id) => user.channel_id == id,
            None => false,
        };
        if by_id || text::eq_ignore_ascii_case(user.channel_name.as_str(), entry.login.as_str()) {
            return Some(user);
        }
    }
    assert(all.skip(all.len() as int) =~= seq![]);
    None
}

/// The channel has the login.
pub open spec fn has_login(s: SessionView, id: u64, login: Seq<char>) -> bool {
    s.channels.contains_key(id) && text::same_ignoring_case(s.channels[id].channel_name, login)
}

/// A channel with the login is removed, if there is one.
pub open spec fn removal_step(
    s: SessionView,
    login: Seq<char>,
    stamp: Seq<char>,
    after: SessionView,
    effects: Seq<EffectView>,
) -> bool {
    ||| exists|id: u64| #[trigger]
        has_login(s, id, login) && after == hermes::removed(s, id) && effects
            == hermes::removal_effects(s, id, stamp)
    ||| (forall|id: u64| !#[trigger] has_login(s, id, login)) && after == s && effects == seq![
        EffectView::Refresh,
    ]
}

/// The session after a lookup before a connection.
pub open spec fn synced(
    s: LoginSessionView,
    ids: Seq<u64>,
    result: Result<Seq<UserView>, Seq<char>>,
) -> LoginSessionView {
    match result {
        Ok(users) => LoginSessionView {
            session: hermes::merged(s.session, users),
            unresolved: without_all(s.unresolved, users),
        },
        Err(_) => LoginSessionView { session: hermes::registered(s.session, ids), ..s },
    }
}

/// What a command does.
pub open spec fn command_step(
    s: LoginSessionView,
    command: Command,
    stamp: Seq<char>,
    after: LoginSessionView,
    next: Next,
) -> bool {
    match command {
        Command::AddChannel(entry) => {
            &&& after == s
            &&& if knows(s, entry@.login) {
                next matches Next::Effects(effects) && effects@.len() == 0
            } else {
                next matches Next::Look(asked, lookup) && asked == entry && looks_for(
                    lookup,
                    entry@,
                )
            }
        },
        Command::RemoveChannel(login) => {
            &&& after.unresolved == without(s.unresolved, login@)
            &&& next matches Next::Effects(effects) && removal_step(
                s.session,
                login@,
                stamp,
                after.session,
                hermes::effect_views(effects@),
            )
        },
        Command::SetNotifyTitleChanges(value) => {
            &&& after == (LoginSessionView {
                session: (SessionView { notify_title_changes: value, ..s.session }),
                ..s
            })
            &&& next matches Next::Effects(effects) && effects@.len() == 0
        },
        Command::SetSound(value) => {
            &&& after == (LoginSessionView {
                session: (SessionView { sound: value, ..s.session }),
                ..s
            })
            &&& next matches Next::Effects(effects) && effects@.len() == 0
        },
    }
}

/// What an event does.
pub open spec fn event_step(
    s: LoginSessionView,
    event: Event,
    now: u64,
    stamp: Seq<char>,
    after: LoginSessionView,
    next: Next,
) -> bool {
    match event {
        Event::Command(command) => command_step(s, command, stamp, after, next),
        Event::Text(text) => {
            &&& after.unresolved == s.unresolved
            &&& next matches Next::Effects(effects) && hermes::frame_step(
                (SessionView { last_message: now, ..s.session }),
                crate::frame::frame_in(text@),
                stamp,
                after.session,
                hermes::effect_views(effects@),
            )
        },
        Event::Closed => lost(s, now, after, next),
        Event::Tick => if hermes::is_silent(s.session, now) {
            lost(s, now, after, next)
        } else {
            after == s && (next matches Next::Effects(effects) && effects@.len() == 0)
        },
        Event::Ignored => after == s && (next matches Next::Effects(effects) && effects@.len()
            == 0),
    }
}

/// The connection is given up.
pub open spec fn lost(s: LoginSessionView, now: u64, after: LoginSessionView, next: Next) -> bool {
    &&& after == (LoginSessionView { session: hermes::disconnected(s.session, now), ..s })
    &&& next matches Next::Effects(effects) && hermes::disconnect_effects(
        hermes::effect_views(effects@),
        s.session,
        after.session,
    )
}

/// The event ends the connection.
pub open spec fn ends_connection(s: LoginSessionView, event: Event, now: u64) -> bool {
    event is Closed || (event is Tick && hermes::is_silent(s.session, now))
}

impl Session {
    /// A session without channels or connection. Title changes are announced, with sound, until a
    /// command says otherwise.
    pub fn new(now: u64, seed: u64) -> (r: Session)
        ensures
            r@.session == (SessionView {
                channels: Map::empty(),
                subs: Map::empty(),
                notify_title_changes: true,
                sound: true,
                connected: false,
                welcomed: false,
                keepalive_secs: 15,
                last_message: now,
                reconnect_at: now,
                reconnect_attempt: 0,
                rng: seed,
            }),
            r@.unresolved.len() == 0,
    {
        Session { inner: hermes::Session::new(true, true, now, seed), unresolved: Vec::new() }
    }

    /// Whether there is anything to connect for.
    pub fn has_work(&self) -> (r: bool)
        ensures
            r == (self@.session.channels.dom() != Set::<u64>::empty() || self@.unresolved.len() > 0),
    {
        let ids = self.inner.ids();
        proof {
            if ids@.len() > 0 {
                assert(ids@.to_set().contains(ids@[0]));
                assert(self@.session.channels.dom().contains(ids@[0]));
            } else {
                assert(self@.session.channels.dom() =~= Set::<u64>::empty());
            }
        }
        ids.len() > 0 || self.unresolved.len() > 0
    }

    /// Whether to connect: there is no connection, something to connect for, and the wait is over.
    pub fn should_connect(&self, now: u64) -> (r: bool)
        ensures
            r == (!self@.session.connected && now >= self@.session.reconnect_at && (
            self@.session.channels.dom() != Set::<u64>::empty() || self@.unresolved.len() > 0)),
    {
        !self.inner.is_connected() && self.has_work() && now >= self.inner.reconnects_at()
    }

    /// The state as it is shown.
    pub fn event(&self, status: Status) -> (event: StatusEvent)
        ensures
            event.connected == status.connected,
            text::opt(event.error) == text::opt(status.error),
            hermes::row_views(event.channels@) == hermes::row_views(status.channels@),
            text::views(event.unresolved@) == self@.unresolved,
    {
        StatusEvent {
            connected: status.connected,
            error: status.error,
            channels: status.channels,
            unresolved: text::copy_texts(&self.unresolved),
        }
    }

    /// Begins to track an entry: it is looked up by its identifier, or by its login without one,
    /// unless the session knows the login.
    fn add_channel(&self, entry: &ChannelEntry) -> (lookup: Option<Lookup>)
        ensures
            match lookup {
                Some(l) => !knows(self@, entry@.login) && looks_for(l, entry@),
                None => knows(self@, entry@.login),
            },
    {
        if self.inner.has_login(entry.login.as_str()) || state::contains_text(
            &self.unresolved,
            entry.login.as_str(),
        ) {
            return None;
        }
        let mut ids: Vec<u64> = Vec::new();
        let mut logins: Vec<String> = Vec::new();
        match entry.id {
            Some(id) => {
                ids.push(id);
                assert(ids@ =~= seq![id]);
            },
            None => {
                logins.push(entry.login.clone());
                assert(text::views(logins@) =~= seq![entry@.login]);
            },
        }
        Some(Lookup { ids, logins })
    }

    fn forget_unresolved(&mut self, login: &str)
        ensures
            final(self)@ == (LoginSessionView {
                unresolved: without(old(self)@.unresolved, login@),
                ..old(self)@
            }),
    {
        let mut list: Vec<String> = Vec::new();
        std::mem::swap(&mut list, &mut self.unresolved);
        self.unresolved = state::without_text(list, login);
    }

    /// Goes on when an entry has been looked up.
    pub fn finish_add_channel(
        &mut self,
        entry: ChannelEntry,
        result: Result<Vec<User>, String>,
        stamp: &str,
    ) -> (effects: Vec<Effect>)
        ensures
            final(self)@ == settled(old(self)@, entry@, found_in(result, entry@)),
            hermes::effect_views(effects@) == settled_effects(
                old(self)@,
                entry@,
                found_in(result, entry@),
                stamp@,
            ),
    {
        let user = match result {
            Ok(users) => take_answer(users, &entry),
            Err(_) => None,
        };
        match user {
            Some(user) => {
                self.forget_unresolved(entry.login.as_str());
                self.inner.track(user, stamp)
            },
            None => {
                match entry.id {
                    Some(id) => {
                        let user = TrackedChannel::placeholder(&entry).into_user(id);
                        proof {
                            assert(user@.profile_image_url =~= seq![]);
                            assert(user@ == placeholder_user(entry@, id));
                        }
                        self.inner.track(user, stamp)
                    },
                    None => {
                        let ghost before = self.unresolved@;
                        self.unresolved.push(entry.login);
                        assert(text::views(self.unresolved@) =~= text::views(before).push(
                            entry@.login,
                        ));
                        let mut effects: Vec<Effect> = Vec::new();
                        effects.push(Effect::Refresh);
                        assert(hermes::effect_views(effects@) =~= seq![EffectView::Refresh]);
                        effects
                    },
                }
            },
        }
    }

    /// Stops tracking the channel with a login, and forgets the login where it is not resolved.
    fn remove_channel(&mut self, login: &str, stamp: &str) -> (effects: Vec<Effect>)
        ensures
            final(self)@.unresolved == without(old(self)@.unresolved, login@),
            removal_step(
                old(self)@.session,
                login@,
                stamp@,
                final(self)@.session,
                hermes::effect_views(effects@),
            ),
    {
        self.forget_unresolved(login);
        let ghost start = self@.session;
        match self.inner.find_login(login) {
            Some(id) => {
                let effects = self.inner.remove_channel(id, stamp);
                assert(has_login(start, id, login@));
                effects
            },
            None => {
                let mut effects: Vec<Effect> = Vec::new();
                effects.push(Effect::Refresh);
                proof {
                    assert(hermes::effect_views(effects@) =~= seq![EffectView::Refresh]);
                    assert forall|id: u64| !#[trigger] has_login(start, id, login@) by {
                        if start.channels.contains_key(id) {
                            assert(!hermes::tracks_login(start, login@));
                        }
                    }
                }
                effects
            },
        }
    }

    /// Sets whether new titles are announced.
    fn set_notify_title_changes(&mut self, value: bool)
        ensures
            final(self)@ == (LoginSessionView {
                session: (SessionView { notify_title_changes: value, ..old(self)@.session }),
                ..old(self)@
            }),
    {
        self.inner.on_command(hermes::Command::SetNotifyTitleChanges(value), "");
    }

    /// Sets whether notifications make a sound.
    fn set_sound(&mut self, value: bool)
        ensures
            final(self)@ == (LoginSessionView {
                session: (SessionView { sound: value, ..old(self)@.session }),
                ..old(self)@
            }),
    {
        self.inner.on_command(hermes::Command::SetSound(value), "");
    }

    /// Carries a command out. An entry that is new has to be looked up, and
    /// [`Session::finish_add_channel`] goes on.
    pub fn on_command(&mut self, command: Command, stamp: &str) -> (next: Next)
        ensures
            command_step(old(self)@, command, stamp@, final(self)@, next),
    {
        match command {
            Command::AddChannel(entry) => {
                match self.add_channel(&entry) {
                    Some(lookup) => Next::Look(entry, lookup),
                    None => Next::Effects(Vec::new()),
                }
            },
            Command::RemoveChannel(login) => Next::Effects(
                self.remove_channel(login.as_str(), stamp),
            ),
            Command::SetNotifyTitleChanges(value) => {
                self.set_notify_title_changes(value);
                Next::Effects(Vec::new())
            },
            Command::SetSound(value) => {
                self.set_sound(value);
                Next::Effects(Vec::new())
            },
        }
    }

    /// An event has come.
    pub fn on_event(&mut self, event: Event, now: u64, stamp: &str) -> (next: Next)
        requires
            ends_connection(old(self)@, event, now) ==> hermes::can_reschedule(
                old(self)@.session,
                now,
            ),
        ensures
            event_step(old(self)@, event, now, stamp@, final(self)@, next),
    {
        match event {
            Event::Command(command) => self.on_command(command, stamp),
            Event::Text(text) => Next::Effects(self.handle_message(text.as_str(), now, stamp)),
            Event::Closed => Next::Effects(self.on_disconnect(now)),
            Event::Tick => Next::Effects(self.on_tick(now)),
            Event::Ignored => Next::Effects(Vec::new()),
        }
    }

    /// What is looked up before a connection: the tracked channels, and the logins that are not
    /// resolved.
    pub fn connect_lookup(&self) -> (lookup: Lookup)
        ensures
            lookup.ids@.no_duplicates(),
            lookup.ids@.to_set() == self@.session.channels.dom(),
            text::views(lookup.logins@) == self@.unresolved,
    {
        Lookup { ids: self.inner.ids(), logins: text::copy_texts(&self.unresolved) }
    }

    /// Takes over what a lookup before a connection brought: logins that were found are resolved,
    /// every channel that was found is taken over and its topics are registered. If the lookup
    /// failed, the topics are registered all the same.
    pub fn sync(&mut self, ids: &Vec<u64>, result: Result<Vec<User>, String>)
        ensures
            final(self)@ == synced(old(self)@, ids@, gql::lookup_view(result)),
    {
        match result {
            Ok(users) => {
                let ghost start = self@;
                let ghost all = gql::user_views(users@);
                let mut i: usize = 0;
                assert(all.take(0) =~= seq![]);
                while i < users.len()
                    invariant
                        i <= users@.len(),
                        all == gql::user_views(users@),
                        self@.session == start.session,
                        self@.unresolved == without_all(start.unresolved, all.take(i as int)),
                    decreases users@.len() - i,
                {
                    assert(all.take(i + 1).drop_last() =~= all.take(i as int));
                    assert(all.take(i + 1).last() == users@[i as int]@);
                    self.forget_unresolved(users[i].channel_name.as_str());
                    i = i + 1;
                }
                assert(all.take(all.len() as int) =~= all);
                self.inner.merge(users);
            },
            Err(_) => {
                self.inner.register(ids);
            },
        }
    }

    /// The session without its unresolved logins: connections, ticks and messages are its own.
    pub fn inner(&self) -> (r: &hermes::Session)
        ensures
            r@ == self@.session,
    {
        &self.inner
    }

    /// Connects once the channels have been looked up.
    pub fn begin_connect(&mut self, now: u64) -> (effects: Vec<Effect>)
        requires
            old(self)@.session.channels.dom() == Set::<u64>::empty() ==> hermes::can_reschedule(
                old(self)@.session,
                now,
            ),
        ensures
            final(self)@.unresolved == old(self)@.unresolved,
            if old(self)@.session.channels.dom() == Set::<u64>::empty() {
                &&& final(self)@.session == hermes::rescheduled(old(self)@.session, now)
                &&& effects@.len() == 1
                &&& hermes::reports(
                    hermes::effect_views(effects@),
                    final(self)@.session,
                    hermes::nothing_found_text(),
                )
            } else {
                &&& final(self)@.session == old(self)@.session
                &&& hermes::effect_views(effects@) == seq![EffectView::Connect]
            },
    {
        self.inner.begin_connect(now)
    }

    /// A connection is open.
    pub fn on_connected(&mut self, now: u64)
        ensures
            final(self)@ == (LoginSessionView {
                session: (SessionView {
                    connected: true,
                    welcomed: false,
                    last_message: now,
                    ..old(self)@.session
                }),
                ..old(self)@
            }),
    {
        self.inner.on_connected(now);
    }

    /// The connection is lost.
    pub fn on_disconnect(&mut self, now: u64) -> (effects: Vec<Effect>)
        requires
            hermes::can_reschedule(old(self)@.session, now),
        ensures
            final(self)@ == (LoginSessionView {
                session: hermes::disconnected(old(self)@.session, now),
                ..old(self)@
            }),
            hermes::disconnect_effects(
                hermes::effect_views(effects@),
                old(self)@.session,
                final(self)@.session,
            ),
    {
        self.inner.on_disconnect(now)
    }

    /// Once a second: gives a silent connection up.
    pub fn on_tick(&mut self, now: u64) -> (effects: Vec<Effect>)
        requires
            hermes::is_silent(old(self)@.session, now) ==> hermes::can_reschedule(
                old(self)@.session,
                now,
            ),
        ensures
            final(self)@.unresolved == old(self)@.unresolved,
            if hermes::is_silent(old(self)@.session, now) {
                &&& final(self)@.session == hermes::disconnected(old(self)@.session, now)
                &&& hermes::disconnect_effects(
                    hermes::effect_views(effects@),
                    old(self)@.session,
                    final(self)@.session,
                )
            } else {
                final(self)@.session == old(self)@.session && effects@.len() == 0
            },
    {
        self.inner.on_tick(now)
    }

    /// A text has arrived over the connection.
    pub fn handle_message(&mut self, text: &str, now: u64, stamp: &str) -> (effects: Vec<Effect>)
        ensures
            final(self)@.unresolved == old(self)@.unresolved,
            hermes::frame_step(
                (SessionView { last_message: now, ..old(self)@.session }),
                crate::frame::frame_in(text@),
                stamp@,
                final(self)@.session,
                hermes::effect_views(effects@),
            ),
    {
        self.inner.handle_message(text, now, stamp)
    }
}

/// Whatever a lookup brings, the login of its entry is known afterwards, so that adding it again
/// does nothing. It must not be one of a channel that was found under another login.
pub proof fn lemma_settled_is_known(s: LoginSessionView, entry: EntryView, found: Option<UserView>)
    requires
        found matches Some(user) ==> text::same_ignoring_case(user.channel_name, entry.login),
    ensures
        knows(settled(s, entry, found), entry.login),
{
    let after = settled(s, entry, found);
    match (found, entry.id) {
        (Some(user), _) => {
            assert(after.session.channels.contains_key(user.channel_id));
        },
        (None, Some(id)) => {
            assert(after.session.channels.contains_key(id));
            assert(text::same_ignoring_case(entry.login, entry.login));
        },
        (None, None) => {
            assert(text::same_ignoring_case(
                after.unresolved[s.unresolved.len() as int],
                entry.login,
            ));
        },
    }
}

/// A login that was resolved or removed is not listed as unresolved.
pub proof fn lemma_resolved_is_gone(unresolved: Seq<Seq<char>>, login: Seq<char>)
    ensures
        !state::lists_text(without(unresolved, login), login),
{
    state::laws::filter_members(unresolved, state::other_texts(login));
    let kept = without(unresolved, login);
    if state::lists_text(kept, login) {
        let i = choose|i: int|
            0 <= i < kept.len() && text::same_ignoring_case(#[trigger] kept[i], login);
        assert(kept.contains(kept[i]));
    }
}

} // verus!
