//! The Hermes session: which channels are tracked and subscribed, and what each event leads to.

pub mod announcements;
pub mod connection;
pub mod laws;
pub mod tracking;

use std::collections::HashMap;

use vstd::prelude::*;
use vstd::std_specs::hash::*;

use crate::balesh;
use crate::balesh::{NanoId, Rng, Topic};
use crate::config::Config;
use crate::frame;
use crate::frame::{Frame, FrameView, Playback, Pubsub, PubsubView};
use crate::gql;
use crate::gql::{Game, GameView, User, UserView};
use crate::json;
use crate::notifier::{Toast, ToastView};
use crate::subs;
use crate::subs::{Sub, SubState, SubTable, SubView};
use crate::text;

verus! {

broadcast use group_hash_axioms;

/// How a subscription is shown.
#[derive(Clone, Copy, PartialEq, Eq, Structural, Debug)]
pub enum SubStatus {
    Pending,
    Connected,
    Failed,
}

/// A channel as it is shown.
#[derive(Debug)]
pub struct ChannelStatus {
    pub channel_id: u64,
    pub login: String,
    pub display_name: String,
    pub title_status: SubStatus,
    pub live_status: SubStatus,
}

pub struct ChannelStatusView {
    pub channel_id: u64,
    pub login: Seq<char>,
    pub display_name: Seq<char>,
    pub title_status: SubStatus,
    pub live_status: SubStatus,
}

impl View for ChannelStatus {
    type V = ChannelStatusView;

    open spec fn view(&self) -> ChannelStatusView {
        ChannelStatusView {
            channel_id: self.channel_id,
            login: self.login@,
            display_name: self.display_name@,
            title_status: self.title_status,
            live_status: self.live_status,
        }
    }
}

impl Clone for ChannelStatus {
    fn clone(&self) -> (r: ChannelStatus)
        ensures
            r@ == self@,
    {
        ChannelStatus {
            channel_id: self.channel_id,
            login: self.login.clone(),
            display_name: self.display_name.clone(),
            title_status: self.title_status,
            live_status: self.live_status,
        }
    }
}

/// What shown channels hold.
pub open spec fn row_views(rows: Seq<ChannelStatus>) -> Seq<ChannelStatusView> {
    Seq::new(rows.len(), |i: int| rows[i]@)
}

/// The state of the connection and the channels, as it is shown.
#[derive(Debug)]
pub struct Status {
    pub connected: bool,
    pub error: Option<String>,
    pub channels: Vec<ChannelStatus>,
}

pub struct StatusView {
    pub connected: bool,
    pub error: Option<Seq<char>>,
    pub channels: Seq<ChannelStatusView>,
}

impl View for Status {
    type V = StatusView;

    open spec fn view(&self) -> StatusView {
        StatusView {
            connected: self.connected,
            error: text::opt(self.error),
            channels: row_views(self.channels@),
        }
    }
}

/// The session: tracked channels by identifier, subscriptions, and the connection. Moments are
/// nanoseconds on a clock of the caller's.
pub struct Session {
    channels: HashMap<u64, User>,
    subs: SubTable,
    notify_title_changes: bool,
    sound: bool,
    connected: bool,
    welcomed: bool,
    keepalive_secs: u64,
    last_message: u64,
    reconnect_at: u64,
    reconnect_attempt: u32,
    rng: Rng,
}

#[verifier::ext_equal]
pub struct SessionView {
    pub channels: Map<u64, UserView>,
    pub subs: Map<Topic, SubView>,
    pub notify_title_changes: bool,
    pub sound: bool,
    pub connected: bool,
    pub welcomed: bool,
    pub keepalive_secs: u64,
    pub last_message: u64,
    pub reconnect_at: u64,
    pub reconnect_attempt: u32,
    pub rng: u64,
}

/// What tracked channels hold.
pub open spec fn channel_views(channels: Map<u64, User>) -> Map<u64, UserView> {
    channels.map_values(|u: User| u@)
}

impl View for Session {
    type V = SessionView;

    closed spec fn view(&self) -> SessionView {
        SessionView {
            channels: channel_views(self.channels@),
            subs: self.subs@,
            notify_title_changes: self.notify_title_changes,
            sound: self.sound,
            connected: self.connected,
            welcomed: self.welcomed,
            keepalive_secs: self.keepalive_secs,
            last_message: self.last_message,
            reconnect_at: self.reconnect_at,
            reconnect_attempt: self.reconnect_attempt,
            rng: self.rng@,
        }
    }
}

/// How the subscription to a topic is shown.
pub open spec fn status_of(subs: Map<Topic, SubView>, topic: Topic) -> SubStatus {
    if !subs.contains_key(topic) {
        SubStatus::Pending
    } else {
        match subs[topic].state {
            SubState::Pending => SubStatus::Pending,
            SubState::Subscribed => SubStatus::Connected,
            SubState::Failed => SubStatus::Failed,
        }
    }
}

/// A tracked channel as it is shown.
pub open spec fn row(s: SessionView, id: u64) -> ChannelStatusView {
    ChannelStatusView {
        channel_id: id,
        login: s.channels[id].channel_name,
        display_name: s.channels[id].channel_display_name,
        title_status: status_of(s.subs, Topic::BroadcastSettingsUpdate(id)),
        live_status: status_of(s.subs, Topic::VideoPlaybackById(id)),
    }
}

pub open spec fn has_row(rows: Seq<ChannelStatusView>, id: u64) -> bool {
    exists|i: int| 0 <= i < rows.len() && (#[trigger] rows[i]).channel_id == id
}

/// The rows are those of the channels `ids`, each once, by login.
pub open spec fn rows_of(rows: Seq<ChannelStatusView>, s: SessionView, ids: Set<u64>) -> bool {
    &&& forall|i: int|
        0 <= i < rows.len() ==> ids.contains((#[trigger] rows[i]).channel_id) && rows[i] == row(
            s,
            rows[i].channel_id,
        )
    &&& forall|i: int, j: int|
        0 <= i < j < rows.len() ==> (#[trigger] rows[i]).channel_id != (#[trigger] rows[j]).channel_id
    &&& forall|i: int, j: int|
        0 <= i < j < rows.len() ==> text::text_le((#[trigger] rows[i]).login, (
        #[trigger] rows[j]).login)
    &&& forall|id: u64| #[trigger] ids.contains(id) ==> has_row(rows, id)
}

/// `status` shows the session: every tracked channel once, in the order of the logins.
pub open spec fn shows(status: StatusView, s: SessionView, error: Option<Seq<char>>) -> bool {
    &&& status.connected == (s.connected && s.welcomed)
    &&& status.error == error
    &&& rows_of(status.channels, s, s.channels.dom())
}

impl Session {
    /// The tracked channels, each once.
    pub(crate) fn ids(&self) -> (ids: Vec<u64>)
        ensures
            ids@.no_duplicates(),
            ids@.to_set() == self@.channels.dom(),
    {
        let mut ids: Vec<u64> = Vec::new();
        let ghost all = vstd::std_specs::iter::IteratorSpec::remaining(
            &spec_keys_iter(&self.channels),
        ).unref();
        for id in it: self.channels.keys()
            invariant
                it.seq().unref() == all,
                ids@ == all.take(it.index() as int),
        {
            ids.push(*id);
        }
        assert(all.take(all.len() as int) =~= all);
        assert(self@.channels.dom() =~= self.channels@.dom());
        ids
    }

    fn status_for(&self, topic: Topic) -> (status: SubStatus)
        ensures
            status == status_of(self@.subs, topic),
    {
        match self.subs.get(topic) {
            Some(sub) => match sub.state {
                SubState::Pending => SubStatus::Pending,
                SubState::Subscribed => SubStatus::Connected,
                SubState::Failed => SubStatus::Failed,
            },
            None => SubStatus::Pending,
        }
    }

    /// The tracked channels in the order of their logins.
    fn rows(&self) -> (rows: Vec<ChannelStatus>)
        ensures
            rows_of(row_views(rows@), self@, self@.channels.dom()),
    {
        let ids = self.ids();
        let mut rows: Vec<ChannelStatus> = Vec::new();
        let mut i: usize = 0;
        assert(ids@.take(0).to_set() =~= Set::<u64>::empty());
        while i < ids.len()
            invariant
                i <= ids@.len(),
                ids@.no_duplicates(),
                ids@.to_set() == self@.channels.dom(),
                rows_of(row_views(rows@), self@, ids@.take(i as int).to_set()),
            decreases ids@.len() - i,
        {
            let id: u64 = ids[i];
            proof {
                assert(ids@.to_set().contains(ids@[i as int]));
                assert(self.channels@.contains_key(id));
            }
            match self.channels.get(&id) {
                Some(user) => {
                    let new = ChannelStatus {
                        channel_id: id,
                        login: user.channel_name.clone(),
                        display_name: user.channel_display_name.clone(),
                        title_status: self.status_for(Topic::BroadcastSettingsUpdate(id)),
                        live_status: self.status_for(Topic::VideoPlaybackById(id)),
                    };
                    proof {
                        assert(new@ == row(self@, id));
                        assert forall|k: int| 0 <= k < i implies #[trigger] ids@[k] != id by {}
                        let seen = ids@.take(i as int);
                        assert(!seen.to_set().contains(id)) by {
                            if seen.contains(id) {
                                let k = choose|k: int| 0 <= k < seen.len() && seen[k] == id;
                                assert(ids@[k] == id);
                            }
                        }
                        assert(ids@.take(i + 1) =~= seen.push(id));
                        assert(ids@.take(i + 1).to_set() =~= seen.to_set().insert(id)) by {
                            assert forall|x: u64| seen.push(id).contains(x) == (seen.contains(x)
                                || x == id) by {
                                if seen.contains(x) {
                                    let k = choose|k: int| 0 <= k < seen.len() && seen[k] == x;
                                    assert(seen.push(id)[k] == x);
                                }
                                if x == id {
                                    assert(seen.push(id)[seen.len() as int] == x);
                                }
                            }
                        }
                    }
                    insert_row(&mut rows, new, Ghost(self@), Ghost(ids@.take(i as int).to_set()));
                },
                None => {},
            }
            i = i + 1;
        }
        assert(ids@.take(ids@.len() as int) =~= ids@);
        rows
    }
}

/// What is to be done outside the session, in order.
pub enum Effect {
    /// Show this state.
    Status(Status),
    /// Show the state that the session has when this is reached, without an error.
    Refresh,
    /// Show a notification.
    Notify(Toast),
    /// Send a text over the connection. Once sending fails the connection is gone: the session
    /// is told so before anything else, and the texts that are left are not sent.
    Send(String),
    /// Look a login up, and go on with [`Session::finish_add_channel`].
    FetchLogin(String),
    /// Look a channel up that has gone live, and go on with [`Session::finish_stream_up`].
    FetchStream { channel_id: u64, notified: bool },
    /// Take a login out of the settings.
    PruneLogin(String),
    /// Take channels out of the settings.
    PruneIds(Vec<u64>),
    /// Close the connection.
    Close,
    /// Open a connection, and go on with [`Session::on_connected`] or, if that fails,
    /// [`Session::on_disconnect`].
    Connect,
}

#[verifier::ext_equal]
pub enum EffectView {
    Status(StatusView),
    Refresh,
    Notify(ToastView),
    Send(Seq<char>),
    FetchLogin(Seq<char>),
    FetchStream { channel_id: u64, notified: bool },
    PruneLogin(Seq<char>),
    PruneIds(Seq<u64>),
    Close,
    Connect,
}

impl View for Effect {
    type V = EffectView;

    open spec fn view(&self) -> EffectView {
        match *self {
            Effect::Status(status) => EffectView::Status(status@),
            Effect::Refresh => EffectView::Refresh,
            Effect::Notify(toast) => EffectView::Notify(toast@),
            Effect::Send(s) => EffectView::Send(s@),
            Effect::FetchLogin(s) => EffectView::FetchLogin(s@),
            Effect::FetchStream { channel_id, notified } => EffectView::FetchStream {
                channel_id,
                notified,
            },
            Effect::PruneLogin(s) => EffectView::PruneLogin(s@),
            Effect::PruneIds(ids) => EffectView::PruneIds(ids@),
            Effect::Close => EffectView::Close,
            Effect::Connect => EffectView::Connect,
        }
    }
}

/// What effects hold.
pub open spec fn effect_views(effects: Seq<Effect>) -> Seq<EffectView> {
    Seq::new(effects.len(), |i: int| effects[i]@)
}

/// The session after the channel's topic has been registered. A topic that is registered
/// already keeps its subscription.
pub open spec fn with_sub(s: SessionView, topic: Topic) -> SessionView {
    if s.subs.contains_key(topic) {
        s
    } else {
        SessionView {
            subs: s.subs.insert(
                topic,
                SubView { id: balesh::drawn_id(s.rng), state: SubState::Pending },
            ),
            rng: balesh::state_after(s.rng, 2),
            ..s
        }
    }
}

/// The session after both topics of a channel have been registered.
pub open spec fn with_subs(s: SessionView, id: u64) -> SessionView {
    with_sub(with_sub(s, Topic::BroadcastSettingsUpdate(id)), Topic::VideoPlaybackById(id))
}

/// The session with a channel as it was looked up.
pub open spec fn with_user(s: SessionView, user: UserView) -> SessionView {
    SessionView { channels: s.channels.insert(user.channel_id, user), ..s }
}

/// The session without a channel and its topics.
pub open spec fn without_channel(s: SessionView, id: u64) -> SessionView {
    SessionView {
        channels: s.channels.remove(id),
        subs: s.subs.remove(Topic::BroadcastSettingsUpdate(id)).remove(
            Topic::VideoPlaybackById(id),
        ),
        ..s
    }
}

/// Some tracked channel has the login.
pub open spec fn tracks_login(s: SessionView, login: Seq<char>) -> bool {
    exists|id: u64| #[trigger]
        s.channels.contains_key(id) && text::same_ignoring_case(
            s.channels[id].channel_name,
            login,
        )
}

impl Session {
    fn upsert(&mut self, user: User)
        ensures
            final(self)@ == with_user(old(self)@, user@),
    {
        let ghost before = self@;
        let ghost held = user@;
        self.channels.insert(user.channel_id, user);
        assert(self@.channels =~= before.channels.insert(held.channel_id, held));
    }

    fn ensure_sub(&mut self, topic: Topic)
        ensures
            final(self)@ == with_sub(old(self)@, topic),
    {
        if self.subs.get(topic).is_none() {
            let id = self.rng.nano_id();
            self.subs.add(topic, Sub { id, state: SubState::Pending });
        }
    }

    /// Registers both topics of a channel. Registrations outlive the connection: every welcome
    /// subscribes all of them again.
    fn ensure_subs(&mut self, id: u64)
        ensures
            final(self)@ == with_subs(old(self)@, id),
    {
        self.ensure_sub(Topic::BroadcastSettingsUpdate(id));
        self.ensure_sub(Topic::VideoPlaybackById(id));
    }

    /// Drops a channel that is gone. There is nothing left that the server would know to
    /// unsubscribe from.
    fn drop_channel(&mut self, id: u64)
        ensures
            final(self)@ == without_channel(old(self)@, id),
    {
        let ghost before = self@;
        self.channels.remove(&id);
        self.subs.remove(Topic::BroadcastSettingsUpdate(id));
        self.subs.remove(Topic::VideoPlaybackById(id));
        assert(self@.channels =~= before.channels.remove(id));
    }

    /// A channel with the login.
    pub(crate) fn find_login(&self, login: &str) -> (r: Option<u64>)
        ensures
            match r {
                Some(id) => self@.channels.contains_key(id) && text::same_ignoring_case(
                    self@.channels[id].channel_name,
                    login@,
                ),
                None => !tracks_login(self@, login@),
            },
    {
        let ids = self.ids();
        let mut i: usize = 0;
        while i < ids.len()
            invariant
                i <= ids@.len(),
                ids@.to_set() == self@.channels.dom(),
                forall|k: int|
                    0 <= k < i ==> !text::same_ignoring_case(
                        self@.channels[#[trigger] ids@[k]].channel_name,
                        login@,
                    ),
            decreases ids@.len() - i,
        {
            let id: u64 = ids[i];
            proof {
                assert(ids@.to_set().contains(ids@[i as int]));
                assert(self.channels@.contains_key(id));
            }
            if let Some(user) = self.channels.get(&id) {
                if text::eq_ignore_ascii_case(user.channel_name.as_str(), login) {
                    assert(self@.channels.contains_key(id));
                    return Some(id);
                }
            }
            i = i + 1;
        }
        proof {
            assert forall|id: u64| #[trigger]
                self@.channels.contains_key(id) implies !text::same_ignoring_case(
                self@.channels[id].channel_name,
                login@,
            ) by {
                assert(ids@.to_set().contains(id));
                let k = choose|k: int| 0 <= k < ids@.len() && ids@[k] == id;
                assert(ids@[k] == id);
            }
        }
        None
    }

    pub(crate) fn has_login(&self, login: &str) -> (r: bool)
        ensures
            r == tracks_login(self@, login@),
    {
        self.find_login(login).is_some()
    }

    /// The state as it is shown, with an error.
    pub fn status(&self, error: Option<String>) -> (status: Status)
        ensures
            shows(status@, self@, text::opt(error)),
    {
        Status { connected: self.connected && self.welcomed, error, channels: self.rows() }
    }
}

/// What a command asks for.
pub enum Command {
    AddChannel(String),
    RemoveChannel(u64),
    SetNotifyTitleChanges(bool),
    SetSound(bool),
}

/// The messages that subscribe to the listed topics, each under a message identifier of its own.
/// Without a connection there are none.
pub open spec fn subscriptions(
    s: SessionView,
    list: Seq<(Topic, NanoId)>,
    stamp: Seq<char>,
) -> Seq<EffectView> {
    Seq::new(
        if s.connected {
            list.len()
        } else {
            0
        },
        |i: int|
            EffectView::Send(
                json::written(
                    frame::subscribe_json(
                        balesh::drawn_id(balesh::state_after(s.rng, (2 * i) as nat)),
                        list[i].1@,
                        list[i].0,
                        stamp,
                    ),
                ),
            ),
    )
}

/// The session after `n` message identifiers were drawn.
pub open spec fn with_draws(s: SessionView, n: nat) -> SessionView {
    SessionView { rng: balesh::state_after(s.rng, 2 * n), ..s }
}

/// The session after the subscription to a topic has been ended.
pub open spec fn without_sub(s: SessionView, topic: Topic) -> SessionView {
    if s.subs.contains_key(topic) {
        SessionView {
            subs: s.subs.remove(topic),
            rng: balesh::state_after(s.rng, 2),
            ..s
        }
    } else {
        s
    }
}

/// The message that ends the subscription to a topic, if there is one and a connection.
pub open spec fn farewell(s: SessionView, topic: Topic, stamp: Seq<char>) -> Seq<EffectView> {
    if s.connected && s.subs.contains_key(topic) {
        seq![
            EffectView::Send(
                json::written(
                    frame::unsubscribe_json(balesh::drawn_id(s.rng), s.subs[topic].id, stamp),
                ),
            ),
        ]
    } else {
        seq![]
    }
}

/// The session after a channel has been removed: it is not tracked any more, and its
/// subscriptions have ended. Topics can be registered for a channel that no lookup has brought
/// yet; they end all the same.
pub open spec fn removed(s: SessionView, id: u64) -> SessionView {
    let untracked = SessionView { channels: s.channels.remove(id), ..s };
    without_sub(
        without_sub(untracked, Topic::BroadcastSettingsUpdate(id)),
        Topic::VideoPlaybackById(id),
    )
}

/// What removing a channel leads to: its subscriptions are ended over the connection.
pub open spec fn removal_effects(s: SessionView, id: u64, stamp: Seq<char>) -> Seq<EffectView> {
    farewell(s, Topic::BroadcastSettingsUpdate(id), stamp) + farewell(
        without_sub(s, Topic::BroadcastSettingsUpdate(id)),
        Topic::VideoPlaybackById(id),
        stamp,
    ) + seq![EffectView::Refresh]
}

proof fn lemma_removal_effects(s: SessionView, id: u64, stamp: Seq<char>, i: int)
    requires
        0 <= i < removal_effects(s, id, stamp).len(),
    ensures
        removal_effects(s, id, stamp)[i] is Send || removal_effects(s, id, stamp)[i] is Refresh,
{
    let first = farewell(s, Topic::BroadcastSettingsUpdate(id), stamp);
    let rest = farewell(
        without_sub(s, Topic::BroadcastSettingsUpdate(id)),
        Topic::VideoPlaybackById(id),
        stamp,
    );
    let all = removal_effects(s, id, stamp);
    if i < first.len() {
        assert(all[i] == first[i]);
    } else if i < first.len() + rest.len() {
        assert(all[i] == rest[i - first.len()]);
    }
}

impl Session {
    /// Subscribes to the listed topics.
    fn send_subscriptions(
        &mut self,
        list: &Vec<(Topic, NanoId)>,
        stamp: &str,
        effects: &mut Vec<Effect>,
    )
        ensures
            final(self)@ == with_draws(old(self)@, list@.len()),
            effect_views(final(effects)@) == effect_views(old(effects)@) + subscriptions(
                old(self)@,
                list@,
                stamp@,
            ),
    {
        let ghost start = self@;
        let ghost before = effect_views(effects@);
        let ghost all = subscriptions(start, list@, stamp@);
        let mut i: usize = 0;
        proof {
            balesh::lemma_state_after(start.rng, 0, 0);
            assert(all.take(0) =~= seq![]);
            assert(before + all.take(0) =~= before);
        }
        while i < list.len()
            invariant
                i <= list@.len(),
                self@ == with_draws(start, i as nat),
                all == subscriptions(start, list@, stamp@),
                effect_views(effects@) == before + (if start.connected {
                    all.take(i as int)
                } else {
                    seq![]
                }),
            decreases list@.len() - i,
        {
            let (topic, subscription) = list[i];
            let id = self.rng.nano_id();
            proof {
                balesh::lemma_state_after(start.rng, (2 * i) as nat, 2);
                assert(self@ == with_draws(start, (i + 1) as nat));
            }
            if self.connected {
                let ghost held = effects@;
                let sent = Effect::Send(frame::subscribe_text(id, subscription, topic, stamp));
                effects.push(sent);
                proof {
                    assert(effect_views(effects@) =~= effect_views(held).push(sent@));
                    assert(sent@ == all[i as int]);
                    assert(all.take(i + 1) =~= all.take(i as int).push(sent@));
                    assert(effect_views(effects@) =~= before + all.take(i + 1));
                }
            }
            i = i + 1;
        }
        proof {
            if start.connected {
                assert(all.take(all.len() as int) =~= all);
            } else {
                assert(all =~= seq![]);
            }
        }
    }

    /// Ends the subscription to a topic.
    fn end_subscription(&mut self, topic: Topic, stamp: &str, effects: &mut Vec<Effect>)
        ensures
            final(self)@ == without_sub(old(self)@, topic),
            effect_views(final(effects)@) == effect_views(old(effects)@) + farewell(
                old(self)@,
                topic,
                stamp@,
            ),
    {
        let ghost before = effects@;
        match self.subs.remove(topic) {
            Some(sub) => {
                let id = self.rng.nano_id();
                if self.connected {
                    let sent = Effect::Send(frame::unsubscribe_text(id, sub.id, stamp));
                    effects.push(sent);
                    assert(effect_views(effects@) =~= effect_views(before) + seq![sent@]);
                }
            },
            None => {
                assert(self@.subs =~= old(self)@.subs);
            },
        }
        assert(effect_views(effects@) =~= effect_views(before) + farewell(
            old(self)@,
            topic,
            stamp@,
        ));
    }

    /// Stops tracking a channel, and ends the subscriptions to its topics.
    pub(crate) fn remove_channel(&mut self, id: u64, stamp: &str) -> (effects: Vec<Effect>)
        ensures
            final(self)@ == removed(old(self)@, id),
            effect_views(effects@) == removal_effects(old(self)@, id, stamp@),
    {
        let ghost start = self@;
        let mut effects: Vec<Effect> = Vec::new();
        assert(effect_views(effects@) =~= seq![]);
        self.channels.remove(&id);
        assert(self@.channels =~= start.channels.remove(id));
        self.end_subscription(Topic::BroadcastSettingsUpdate(id), stamp, &mut effects);
        self.end_subscription(Topic::VideoPlaybackById(id), stamp, &mut effects);
        let ghost before = effects@;
        effects.push(Effect::Refresh);
        assert(effect_views(effects@) =~= effect_views(before).push(EffectView::Refresh));
        assert(effect_views(effects@) =~= removal_effects(start, id, stamp@));
        effects
    }
}

pub open spec fn not_found_text(login: Seq<char>) -> Seq<char> {
    "channel "@ + login + " not found"@
}

/// The error for a login that names no channel.
pub fn not_found(login: &str) -> (r: String)
    ensures
        r@ == not_found_text(login@),
{
    let mut r: String = "channel ".to_string();
    r.append(login);
    r.append(" not found");
    r
}

pub open spec fn fetch_failed_text(login: Seq<char>, error: Seq<char>) -> Seq<char> {
    "failed to fetch "@ + login + ": "@ + error
}

fn fetch_failed(login: &str, error: &str) -> (r: String)
    ensures
        r@ == fetch_failed_text(login@, error@),
{
    let mut r: String = "failed to fetch ".to_string();
    r.append(login);
    r.append(": ");
    r.append(error);
    r
}

/// The channel among those looked up that answers a search for a login: the last one, if it has
/// that login.
pub open spec fn answer(users: Seq<UserView>, login: Seq<char>) -> Option<UserView> {
    if users.len() > 0 && text::same_ignoring_case(users.last().channel_name, login) {
        Some(users.last())
    } else {
        None
    }
}

/// A message that subscribes to a topic.
pub open spec fn subscription(
    rng: u64,
    subscription: nat,
    topic: Topic,
    stamp: Seq<char>,
) -> EffectView {
    EffectView::Send(
        json::written(frame::subscribe_json(balesh::drawn_id(rng), subscription, topic, stamp)),
    )
}

/// The session after a channel was found: it is tracked, its topics are registered, and on a
/// welcomed connection they are subscribed to.
pub open spec fn found(s: SessionView, user: UserView) -> SessionView {
    let known = with_subs(with_user(s, user), user.channel_id);
    if s.welcomed {
        with_draws(known, 2)
    } else {
        known
    }
}

/// What finding a channel leads to.
pub open spec fn found_effects(s: SessionView, user: UserView, stamp: Seq<char>) -> Seq<
    EffectView,
> {
    let id = user.channel_id;
    let known = with_subs(with_user(s, user), id);
    if s.welcomed && s.connected {
        seq![
            subscription(
                known.rng,
                known.subs[Topic::BroadcastSettingsUpdate(id)].id,
                Topic::BroadcastSettingsUpdate(id),
                stamp,
            ),
            subscription(
                balesh::state_after(known.rng, 2),
                known.subs[Topic::VideoPlaybackById(id)].id,
                Topic::VideoPlaybackById(id),
                stamp,
            ),
            EffectView::Refresh,
        ]
    } else {
        seq![EffectView::Refresh]
    }
}

/// One status with an error.
pub open spec fn reports(effects: Seq<EffectView>, s: SessionView, error: Seq<char>) -> bool {
    effects.len() > 0 && (effects[0] matches EffectView::Status(status) && shows(
        status,
        s,
        Some(error),
    ))
}

/// What looking a login up leads to.
pub open spec fn added_step(
    s: SessionView,
    login: Seq<char>,
    result: Result<Seq<UserView>, Seq<char>>,
    stamp: Seq<char>,
    after: SessionView,
    effects: Seq<EffectView>,
) -> bool {
    match result {
        Ok(users) => match answer(users, login) {
            Some(user) => {
                &&& after == found(s, user)
                &&& effects == found_effects(s, user, stamp)
            },
            None => {
                &&& after == s
                &&& effects.len() == 2
                &&& reports(effects, after, not_found_text(login))
                &&& effects[1] == EffectView::PruneLogin(login)
            },
        },
        Err(error) => {
            &&& after == s
            &&& effects.len() == 1
            &&& reports(effects, after, fetch_failed_text(login, error))
        },
    }
}

/// It is time to connect: there is no connection, something to connect for, and the wait is over.
pub open spec fn is_time(s: SessionView, configured: Seq<u64>, now: u64) -> bool {
    &&& !s.connected
    &&& now >= s.reconnect_at
    &&& s.channels.dom() != Set::<u64>::empty() || configured.len() > 0
}

impl Session {
    /// Begins to track a login: it is looked up unless a channel with it is tracked.
    fn add_channel(&self, login: String) -> (effects: Vec<Effect>)
        ensures
            effect_views(effects@) == (if tracks_login(self@, login@) {
                seq![]
            } else {
                seq![EffectView::FetchLogin(login@)]
            }),
    {
        let mut effects: Vec<Effect> = Vec::new();
        if !self.has_login(login.as_str()) {
            effects.push(Effect::FetchLogin(login));
            assert(effect_views(effects@) =~= seq![EffectView::FetchLogin(login@)]);
        } else {
            assert(effect_views(effects@) =~= seq![]);
        }
        effects
    }

    /// Subscribes to a channel's topics over the connection.
    fn subscribe_channel(&mut self, id: u64, stamp: &str, effects: &mut Vec<Effect>)
        requires
            old(self)@.subs.contains_key(Topic::BroadcastSettingsUpdate(id)),
            old(self)@.subs.contains_key(Topic::VideoPlaybackById(id)),
        ensures
            final(self)@ == with_draws(old(self)@, 2),
            effect_views(final(effects)@) == effect_views(old(effects)@) + (if old(
                self,
            )@.connected {
                seq![
                    subscription(
                        old(self)@.rng,
                        old(self)@.subs[Topic::BroadcastSettingsUpdate(id)].id,
                        Topic::BroadcastSettingsUpdate(id),
                        stamp@,
                    ),
                    subscription(
                        balesh::state_after(old(self)@.rng, 2),
                        old(self)@.subs[Topic::VideoPlaybackById(id)].id,
                        Topic::VideoPlaybackById(id),
                        stamp@,
                    ),
                ]
            } else {
                seq![]
            }),
    {
        let mut list: Vec<(Topic, NanoId)> = Vec::new();
        let title = Topic::BroadcastSettingsUpdate(id);
        let live = Topic::VideoPlaybackById(id);
        if let Some(sub) = self.subs.get(title) {
            list.push((title, sub.id));
        }
        if let Some(sub) = self.subs.get(live) {
            list.push((live, sub.id));
        }
        proof {
            balesh::lemma_state_after(self@.rng, 0, 2);
        }
        self.send_subscriptions(&list, stamp, effects);
        assert(effect_views(effects@) =~= effect_views(old(effects)@) + (if old(self)@.connected {
            seq![
                subscription(
                    old(self)@.rng,
                    old(self)@.subs[title].id,
                    title,
                    stamp@,
                ),
                subscription(
                    balesh::state_after(old(self)@.rng, 2),
                    old(self)@.subs[live].id,
                    live,
                    stamp@,
                ),
            ]
        } else {
            seq![]
        }));
    }

    /// Tracks a channel that was found, and subscribes to its topics at once when the connection
    /// is welcomed; otherwise the next welcome does.
    #[verifier::rlimit(40)]
    pub(crate) fn track(&mut self, user: User, stamp: &str) -> (effects: Vec<Effect>)
        ensures
            final(self)@ == found(old(self)@, user@),
            effect_views(effects@) == found_effects(old(self)@, user@, stamp@),
    {
        let id: u64 = user.channel_id;
        let mut effects: Vec<Effect> = Vec::new();
        assert(effect_views(effects@) =~= seq![]);
        self.upsert(user);
        self.ensure_subs(id);
        let ghost known = self@;
        assert(known == with_subs(with_user(old(self)@, user@), id));
        assert(known.welcomed == old(self)@.welcomed && known.connected == old(self)@.connected);
        if self.welcomed {
            self.subscribe_channel(id, stamp, &mut effects);
        }
        let ghost before = effects@;
        effects.push(Effect::Refresh);
        proof {
            assert(effect_views(effects@) =~= effect_views(before).push(EffectView::Refresh));
            assert(effect_views(effects@) =~= found_effects(old(self)@, user@, stamp@));
        }
        effects
    }

    /// Goes on when a login has been looked up.
    pub fn finish_add_channel(
        &mut self,
        login: String,
        result: Result<Vec<User>, String>,
        stamp: &str,
    ) -> (effects: Vec<Effect>)
        ensures
            added_step(
                old(self)@,
                login@,
                gql::lookup_view(result),
                stamp@,
                final(self)@,
                effect_views(effects@),
            ),
    {
        let mut effects: Vec<Effect> = Vec::new();
        assert(effect_views(effects@) =~= seq![]);
        match result {
            Ok(users) => {
                let mut users = users;
                let ghost all = gql::user_views(users@);
                let last = users.pop();
                if let Some(user) = last {
                    assert(all.last() == user@);
                    if text::eq_ignore_ascii_case(user.channel_name.as_str(), login.as_str()) {
                        return self.track(user, stamp);
                    }
                }
                let status = self.status(Some(not_found(login.as_str())));
                effects.push(Effect::Status(status));
                effects.push(Effect::PruneLogin(login));
                assert(effect_views(effects@)[0] == EffectView::Status(status@));
            },
            Err(error) => {
                let status = self.status(Some(fetch_failed(login.as_str(), error.as_str())));
                effects.push(Effect::Status(status));
                assert(effect_views(effects@)[0] == EffectView::Status(status@));
            },
        }
        effects
    }

    /// Carries a command out. The connection is never restarted for one.
    pub fn on_command(&mut self, command: Command, stamp: &str) -> (effects: Vec<Effect>)
        ensures
            final(self)@.connected == old(self)@.connected,
            forall|i: int|
                0 <= i < effects@.len() ==> !((#[trigger] effects@[i]) is Close) && !(
                effects@[i] is Connect),
            command_step(old(self)@, command, stamp@, final(self)@, effect_views(effects@)),
    {
        let effects = match command {
            Command::AddChannel(login) => self.add_channel(login),
            Command::RemoveChannel(id) => self.remove_channel(id, stamp),
            Command::SetNotifyTitleChanges(value) => {
                self.notify_title_changes = value;
                Vec::new()
            },
            Command::SetSound(value) => {
                self.sound = value;
                Vec::new()
            },
        };
        assert forall|i: int| 0 <= i < effects@.len() implies !((#[trigger] effects@[i]) is Close)
            && !(effects@[i] is Connect) by {
            assert(effect_views(effects@)[i] == effects@[i]@);
            match command {
                Command::RemoveChannel(id) => {
                    lemma_removal_effects(old(self)@, id, stamp@, i);
                },
                Command::AddChannel(login) => {
                    let views = effect_views(effects@);
                    assert(views.len() == effects@.len());
                    assert(views[i] == EffectView::FetchLogin(login@));
                },
                _ => {},
            }
        }
        effects
    }
}

/// Some user has the identifier.
pub open spec fn has_user(users: Seq<UserView>, id: u64) -> bool {
    exists|k: int| 0 <= k < users.len() && (#[trigger] users[k]).channel_id == id
}

/// The identifiers that no user has, in order.
pub open spec fn missing_ids(ids: Seq<u64>, users: Seq<UserView>) -> Seq<u64>
    decreases ids.len(),
{
    if ids.len() == 0 {
        seq![]
    } else {
        let before = missing_ids(ids.drop_last(), users);
        if has_user(users, ids.last()) {
            before
        } else {
            before.push(ids.last())
        }
    }
}

/// The session with all users as they were looked up, and their topics registered.
pub open spec fn merged(s: SessionView, users: Seq<UserView>) -> SessionView
    decreases users.len(),
{
    if users.len() == 0 {
        s
    } else {
        with_subs(
            with_user(merged(s, users.drop_last()), users.last()),
            users.last().channel_id,
        )
    }
}

/// The session with the topics of all channels registered.
pub open spec fn registered(s: SessionView, ids: Seq<u64>) -> SessionView
    decreases ids.len(),
{
    if ids.len() == 0 {
        s
    } else {
        with_subs(registered(s, ids.drop_last()), ids.last())
    }
}

/// The session without the channels and their topics.
pub open spec fn without_channels(s: SessionView, ids: Seq<u64>) -> SessionView {
    SessionView {
        channels: Map::new(
            |id: u64| s.channels.contains_key(id) && !ids.contains(id),
            |id: u64| s.channels[id],
        ),
        subs: Map::new(
            |t: Topic| s.subs.contains_key(t) && !ids.contains(t.channel()),
            |t: Topic| s.subs[t],
        ),
        ..s
    }
}

/// The identifiers that a connection is begun with: those of the settings, then those that are
/// known besides, each of them once.
pub open spec fn connect_list(ids: Seq<u64>, configured: Seq<u64>, known: Set<u64>) -> bool {
    let n = configured.len() as int;
    &&& ids.len() >= n
    &&& ids.take(n) == configured
    &&& ids.skip(n).no_duplicates()
    &&& forall|id: u64| #[trigger]
        ids.skip(n).contains(id) <==> known.contains(id) && !configured.contains(id)
}

/// The identifiers of the channels in the settings.
pub open spec fn configured_ids(config: Config) -> Seq<u64> {
    Seq::new(config.channels@.len(), |i: int| config.channels@[i].id)
}

fn contains_id(ids: &Vec<u64>, id: u64) -> (r: bool)
    ensures
        r == ids@.contains(id),
{
    let mut i: usize = 0;
    while i < ids.len()
        invariant
            i <= ids@.len(),
            forall|k: int| 0 <= k < i ==> ids@[k] != id,
        decreases ids@.len() - i,
    {
        if ids[i] == id {
            return true;
        }
        i = i + 1;
    }
    false
}

impl Session {
    /// Whether there is anything to subscribe to. Nothing is known before the first
    /// connection, so the settings count as well.
    pub fn has_work(&self, config: &Config) -> (r: bool)
        ensures
            r == (self@.channels.dom() != Set::<u64>::empty() || config.channels@.len() > 0),
    {
        let ids = self.ids();
        proof {
            if ids@.len() > 0 {
                assert(ids@.to_set().contains(ids@[0]));
                assert(self@.channels.dom().contains(ids@[0]));
            } else {
                assert(self@.channels.dom() =~= Set::<u64>::empty());
            }
        }
        ids.len() > 0 || config.channels.len() > 0
    }

    /// Whether it is time to connect.
    pub fn should_connect(&self, config: &Config, now: u64) -> (r: bool)
        ensures
            r == is_time(self@, configured_ids(*config), now),
    {
        !self.connected && self.has_work(config) && now >= self.reconnect_at
    }

    pub(crate) fn is_connected(&self) -> (r: bool)
        ensures
            r == self@.connected,
    {
        self.connected
    }

    /// When the next connection is due.
    pub(crate) fn reconnects_at(&self) -> (r: u64)
        ensures
            r == self@.reconnect_at,
    {
        self.reconnect_at
    }

    /// The channels that are looked up before a connection.
    pub fn connect_ids(&self, config: &Config) -> (ids: Vec<u64>)
        ensures
            connect_list(ids@, configured_ids(*config), self@.channels.dom()),
    {
        let mut ids: Vec<u64> = Vec::new();
        for i in 0..config.channels.len()
            invariant
                ids@ == configured_ids(*config).take(i as int),
        {
            ids.push(config.channels[i].id);
            assert(ids@ =~= configured_ids(*config).take(i + 1));
        }
        let ghost configured = configured_ids(*config);
        let ghost n = configured.len() as int;
        assert(ids@ =~= configured);
        assert(ids@.skip(n) =~= seq![]);
        let known = self.ids();
        let mut k: usize = 0;
        while k < known.len()
            invariant
                k <= known@.len(),
                n == configured.len(),
                known@.no_duplicates(),
                ids@.len() >= n,
                ids@.take(n) == configured,
                ids@.skip(n).no_duplicates(),
                forall|id: u64| #[trigger]
                    ids@.skip(n).contains(id) <==> known@.take(k as int).contains(id)
                        && !configured.contains(id),
            decreases known@.len() - k,
        {
            let id: u64 = known[k];
            let ghost before = ids@;
            let ghost seen = known@.take(k as int);
            let ghost more = known@.take(k + 1);
            proof {
                assert(more =~= seen.push(id));
                assert forall|x: u64| more.contains(x) == (seen.contains(x) || x == id) by {
                    if seen.contains(x) {
                        let j = choose|j: int| 0 <= j < seen.len() && seen[j] == x;
                        assert(more[j] == x);
                    }
                    if x == id {
                        assert(more[k as int] == x);
                    }
                }
                assert(!seen.contains(id));
                assert(before =~= configured + before.skip(n));
            }
            if !contains_id(&ids, id) {
                ids.push(id);
                proof {
                    assert(ids@.take(n) =~= configured);
                    assert(ids@.skip(n) =~= before.skip(n).push(id));
                    assert(!configured.contains(id)) by {
                        if configured.contains(id) {
                            let j = choose|j: int| 0 <= j < n && configured[j] == id;
                            assert(before[j] == id);
                        }
                    }
                    assert forall|x: u64| #[trigger]
                        ids@.skip(n).contains(x) <==> more.contains(x) && !configured.contains(
                            x,
                        ) by {
                        let tail = before.skip(n);
                        if tail.push(id).contains(x) && x != id {
                            let j = choose|j: int|
                                0 <= j < tail.push(id).len() && tail.push(id)[j] == x;
                            assert(tail[j] == x);
                        }
                        if tail.contains(x) {
                            let j = choose|j: int| 0 <= j < tail.len() && tail[j] == x;
                            assert(tail.push(id)[j] == x);
                        }
                        if x == id {
                            assert(tail.push(id)[tail.len() as int] == x);
                        }
                    }
                }
            } else {
                proof {
                    assert(configured.contains(id)) by {
                        let j = choose|j: int| 0 <= j < before.len() && before[j] == id;
                        if j < n {
                            assert(configured[j] == id);
                        } else {
                            assert(before.skip(n)[j - n] == id);
                            assert(before.skip(n).contains(id));
                        }
                    }
                }
            }
            k = k + 1;
        }
        assert(known@.take(known@.len() as int) =~= known@);
        assert forall|id: u64| #[trigger]
            ids@.skip(n).contains(id) <==> self@.channels.dom().contains(id)
                && !configured.contains(id) by {
            assert(known@.to_set().contains(id) == known@.contains(id));
        }
        ids
    }

    /// Takes over users that were looked up.
    pub(crate) fn merge(&mut self, users: Vec<User>)
        ensures
            final(self)@ == merged(old(self)@, gql::user_views(users@)),
    {
        let ghost start = self@;
        let ghost all = gql::user_views(users@);
        assert(all.take(0) =~= seq![]);
        for user in it: users
            invariant
                all == gql::user_views(it.seq()),
                self@ == merged(start, all.take(it.index() as int)),
        {
            let ghost i = it.index() as int;
            assert(all.take(i + 1).drop_last() =~= all.take(i));
            assert(all.take(i + 1).last() == user@);
            let id: u64 = user.channel_id;
            self.upsert(user);
            self.ensure_subs(id);
        }
        assert(all.take(all.len() as int) =~= all);
    }

    /// Registers the topics of channels.
    pub(crate) fn register(&mut self, ids: &Vec<u64>)
        ensures
            final(self)@ == registered(old(self)@, ids@),
    {
        let ghost start = self@;
        let mut i: usize = 0;
        assert(ids@.take(0) =~= seq![]);
        while i < ids.len()
            invariant
                i <= ids@.len(),
                self@ == registered(start, ids@.take(i as int)),
            decreases ids@.len() - i,
        {
            assert(ids@.take(i + 1).drop_last() =~= ids@.take(i as int));
            self.ensure_subs(ids[i]);
            i = i + 1;
        }
        assert(ids@.take(ids@.len() as int) =~= ids@);
    }

    fn drop_channels(&mut self, ids: &Vec<u64>)
        ensures
            final(self)@ == without_channels(old(self)@, ids@),
    {
        let ghost start = self@;
        let mut i: usize = 0;
        assert(self@ =~= without_channels(start, ids@.take(0)));
        while i < ids.len()
            invariant
                i <= ids@.len(),
                self@ == without_channels(start, ids@.take(i as int)),
            decreases ids@.len() - i,
        {
            let ghost seen = ids@.take(i as int);
            let ghost more = ids@.take(i + 1);
            let id: u64 = ids[i];
            self.drop_channel(id);
            proof {
                assert(more =~= seen.push(id));
                assert forall|x: u64| more.contains(x) == (seen.contains(x) || x == id) by {
                    if seen.contains(x) {
                        let j = choose|j: int| 0 <= j < seen.len() && seen[j] == x;
                        assert(more[j] == x);
                    }
                    if x == id {
                        assert(more[i as int] == x);
                    }
                }
                assert(self@ =~= without_channels(start, more)) by {
                    assert(self@.channels =~= without_channels(start, more).channels);
                    assert forall|t: Topic| t.channel() == id <==> (t
                        == Topic::BroadcastSettingsUpdate(id) || t == Topic::VideoPlaybackById(
                        id,
                    )) by {}
                    assert(self@.subs =~= without_channels(start, more).subs);
                }
            }
            i = i + 1;
        }
        assert(ids@.take(ids@.len() as int) =~= ids@);
    }
}

fn contains_user(users: &Vec<User>, id: u64) -> (r: bool)
    ensures
        r == has_user(gql::user_views(users@), id),
{
    let ghost all = gql::user_views(users@);
    let mut k: usize = 0;
    while k < users.len()
        invariant
            k <= users@.len(),
            all == gql::user_views(users@),
            forall|j: int| 0 <= j < k ==> (#[trigger] all[j]).channel_id != id,
        decreases users@.len() - k,
    {
        assert(all[k as int].channel_id == users@[k as int].channel_id);
        if users[k].channel_id == id {
            return true;
        }
        k = k + 1;
    }
    false
}

fn absent_ids(ids: &Vec<u64>, users: &Vec<User>) -> (r: Vec<u64>)
    ensures
        r@ == missing_ids(ids@, gql::user_views(users@)),
{
    let ghost all = gql::user_views(users@);
    let mut r: Vec<u64> = Vec::new();
    let mut i: usize = 0;
    assert(ids@.take(0) =~= seq![]);
    while i < ids.len()
        invariant
            i <= ids@.len(),
            all == gql::user_views(users@),
            r@ == missing_ids(ids@.take(i as int), all),
        decreases ids@.len() - i,
    {
        let id: u64 = ids[i];
        let seen: bool = contains_user(users, id);
        assert(ids@.take(i + 1).drop_last() =~= ids@.take(i as int));
        assert(ids@.take(i + 1).last() == id);
        if !seen {
            r.push(id);
        }
        i = i + 1;
    }
    assert(ids@.take(ids@.len() as int) =~= ids@);
    r
}

/// The error when channels are gone.
pub open spec fn gone_text() -> Seq<char> {
    "a channel no longer resolves and was removed"@
}

/// The error when there is nothing to connect for.
pub open spec fn nothing_found_text() -> Seq<char> {
    "no channels found for the configured logins"@
}

/// How long to wait before the `attempt`-th attempt in a row: half a second, twice as long each
/// time, 15 seconds at most.
pub open spec fn backoff_nanos(attempt: u32) -> int {
    let exponent = if attempt < 10 {
        attempt - 1
    } else {
        9
    };
    let delay = 500_000_000 * vstd::arithmetic::power2::pow2(exponent as nat);
    if delay < 15_000_000_000 {
        delay as int
    } else {
        15_000_000_000
    }
}

/// Waiting never gets shorter from one attempt to the next, and never exceeds 15 seconds.
pub proof fn lemma_backoff_grows(a: u32, b: u32)
    requires
        1 <= a <= b,
    ensures
        500_000_000 <= backoff_nanos(a) <= backoff_nanos(b) <= 15_000_000_000,
{
    let x = if a < 10 {
        a - 1
    } else {
        9
    };
    let y = if b < 10 {
        b - 1
    } else {
        9
    };
    vstd::arithmetic::power2::lemma2_to64();
    if x < y {
        vstd::arithmetic::power2::lemma_pow2_strictly_increases(x as nat, y as nat);
    }
    vstd::arithmetic::power2::lemma_pow2_pos(x as nat);
}

/// A moment and a number of attempts that leave room for another attempt.
pub open spec fn can_reschedule(s: SessionView, now: u64) -> bool {
    s.reconnect_attempt < u32::MAX && now <= u64::MAX - 15_000_000_000
}

/// The session after another attempt was scheduled.
pub open spec fn rescheduled(s: SessionView, now: u64) -> SessionView {
    SessionView {
        reconnect_attempt: (s.reconnect_attempt + 1) as u32,
        reconnect_at: (now + backoff_nanos((s.reconnect_attempt + 1) as u32)) as u64,
        ..s
    }
}

/// The session after attempts were scheduled one after the other, at these moments.
pub open spec fn rescheduled_at(s: SessionView, moments: Seq<u64>) -> SessionView
    decreases moments.len(),
{
    if moments.len() == 0 {
        s
    } else {
        rescheduled(rescheduled_at(s, moments.drop_last()), moments.last())
    }
}

/// The n-th attempt in a row waits 500 ms times 2^(n-1), at most 15 s.
pub proof fn lemma_backoff_in_a_row(s: SessionView, moments: Seq<u64>)
    requires
        s.reconnect_attempt == 0,
        1 <= moments.len() <= u32::MAX,
        moments.last() <= u64::MAX - 15_000_000_000,
    ensures
        ({
            let n = moments.len();
            let delay = 500_000_000 * vstd::arithmetic::power2::pow2((n - 1) as nat);
            let after = rescheduled_at(s, moments);
            &&& after.reconnect_attempt == n
            &&& after.reconnect_at == moments.last() + (if delay < 15_000_000_000 {
                delay as int
            } else {
                15_000_000_000
            })
        }),
{
    let n = moments.len();
    lemma_attempts_in_a_row(s, moments.drop_last());
    vstd::arithmetic::power2::lemma2_to64();
    if n > 10 {
        vstd::arithmetic::power2::lemma_pow2_strictly_increases(9, (n - 1) as nat);
    }
}

proof fn lemma_attempts_in_a_row(s: SessionView, moments: Seq<u64>)
    requires
        s.reconnect_attempt == 0,
        moments.len() <= u32::MAX,
    ensures
        rescheduled_at(s, moments).reconnect_attempt == moments.len(),
    decreases moments.len(),
{
    if moments.len() > 0 {
        lemma_attempts_in_a_row(s, moments.drop_last());
    }
}

/// What a lookup before a connection leads to.
pub open spec fn synced_step(
    s: SessionView,
    ids: Seq<u64>,
    result: Result<Seq<UserView>, Seq<char>>,
    after: SessionView,
    effects: Seq<EffectView>,
) -> bool {
    match result {
        Ok(users) => {
            let missing = missing_ids(ids, users);
            &&& after == without_channels(merged(s, users), missing)
            &&& if missing.len() == 0 {
                effects.len() == 0
            } else {
                &&& effects.len() == 2
                &&& reports(effects, after, gone_text())
                &&& effects[1] == EffectView::PruneIds(missing)
            }
        },
        Err(_) => after == registered(s, ids) && effects.len() == 0,
    }
}

/// How a connection begins once the channels have been looked up.
pub open spec fn connect_step(
    s: SessionView,
    now: u64,
    after: SessionView,
    effects: Seq<EffectView>,
) -> bool {
    if s.channels.dom() == Set::<u64>::empty() {
        &&& after == rescheduled(s, now)
        &&& effects.len() == 1
        &&& reports(effects, after, nothing_found_text())
    } else {
        after == s && effects == seq![EffectView::Connect]
    }
}

/// The session after the connection was lost.
pub open spec fn disconnected(s: SessionView, now: u64) -> SessionView {
    rescheduled(SessionView { connected: false, welcomed: false, ..s }, now)
}

/// What losing the connection leads to: it is closed if it is open, and the state is shown.
pub open spec fn disconnect_effects(
    effects: Seq<EffectView>,
    s: SessionView,
    after: SessionView,
) -> bool {
    let n: int = if s.connected {
        1
    } else {
        0
    };
    &&& effects.len() == n + 1
    &&& s.connected ==> effects[0] == EffectView::Close
    &&& effects[n] matches EffectView::Status(status) && shows(status, after, None)
}

impl Session {
    /// A session without channels or connection that may connect at once.
    pub fn new(notify_title_changes: bool, sound: bool, now: u64, seed: u64) -> (r: Session)
        ensures
            r@ == (SessionView {
                channels: Map::empty(),
                subs: Map::empty(),
                notify_title_changes,
                sound,
                connected: false,
                welcomed: false,
                keepalive_secs: 15,
                last_message: now,
                reconnect_at: now,
                reconnect_attempt: 0,
                rng: seed,
            }),
    {
        let r = Session {
            channels: HashMap::new(),
            subs: SubTable::new(),
            notify_title_changes,
            sound,
            connected: false,
            welcomed: false,
            keepalive_secs: 15,
            last_message: now,
            reconnect_at: now,
            reconnect_attempt: 0,
            rng: Rng::new(seed),
        };
        assert(r@.channels =~= Map::empty());
        r
    }

    /// Whether another attempt can be scheduled.
    pub fn can_schedule(&self, now: u64) -> (r: bool)
        ensures
            r == can_reschedule(self@, now),
    {
        self.reconnect_attempt < u32::MAX && now <= u64::MAX - 15_000_000_000
    }

    /// Schedules another attempt to connect.
    pub(crate) fn schedule_reconnect(&mut self, now: u64)
        requires
            can_reschedule(old(self)@, now),
        ensures
            final(self)@ == rescheduled(old(self)@, now),
    {
        self.reconnect_attempt = self.reconnect_attempt + 1;
        proof {
            vstd::arithmetic::power2::lemma2_to64();
        }
        let delay: u64 = match self.reconnect_attempt {
            1 => 500_000_000,
            2 => 1_000_000_000,
            3 => 2_000_000_000,
            4 => 4_000_000_000,
            5 => 8_000_000_000,
            _ => 15_000_000_000,
        };
        proof {
            if self.reconnect_attempt >= 6 {
                let e = if self.reconnect_attempt < 10 {
                    self.reconnect_attempt - 1
                } else {
                    9
                };
                if e > 5 {
                    vstd::arithmetic::power2::lemma_pow2_strictly_increases(5, e as nat);
                }
            }
            assert(delay == backoff_nanos(self.reconnect_attempt));
        }
        self.reconnect_at = now + delay;
    }

    /// Takes over what a lookup before a connection brought: every channel that was found is
    /// taken over and its topics are registered. Channels that were not found are dropped, here
    /// and in the settings. If the lookup failed, the topics are registered all the same.
    pub fn sync(&mut self, ids: &Vec<u64>, result: Result<Vec<User>, String>) -> (effects: Vec<
        Effect,
    >)
        ensures
            synced_step(
                old(self)@,
                ids@,
                gql::lookup_view(result),
                final(self)@,
                effect_views(effects@),
            ),
    {
        let mut effects: Vec<Effect> = Vec::new();
        match result {
            Ok(users) => {
                let missing = absent_ids(ids, &users);
                self.merge(users);
                self.drop_channels(&missing);
                if missing.len() > 0 {
                    let error: String = "a channel no longer resolves and was removed".to_string();
                    let status = self.status(Some(error));
                    effects.push(Effect::Status(status));
                    effects.push(Effect::PruneIds(missing));
                    assert(effect_views(effects@)[0] == EffectView::Status(status@));
                }
            },
            Err(_) => {
                self.register(ids);
            },
        }
        effects
    }

    /// Connects once the channels have been looked up. Without any channel a connection would
    /// only time out, so the next attempt is scheduled instead.
    pub fn begin_connect(&mut self, now: u64) -> (effects: Vec<Effect>)
        requires
            old(self)@.channels.dom() == Set::<u64>::empty() ==> can_reschedule(old(self)@, now),
        ensures
            connect_step(old(self)@, now, final(self)@, effect_views(effects@)),
    {
        let mut effects: Vec<Effect> = Vec::new();
        assert(self@.channels.dom() =~= self.channels@.dom());
        if self.channels.is_empty() {
            assert(self@.channels.dom() =~= Set::<u64>::empty());
            let error: String = "no channels found for the configured logins".to_string();
            let status = self.status(Some(error));
            effects.push(Effect::Status(status));
            assert(effect_views(effects@)[0] == EffectView::Status(status@));
            self.schedule_reconnect(now);
        } else {
            effects.push(Effect::Connect);
            assert(effect_views(effects@) =~= seq![EffectView::Connect]);
        }
        effects
    }

    /// A connection is open; the welcome is awaited.
    pub fn on_connected(&mut self, now: u64)
        ensures
            final(self)@ == (SessionView {
                connected: true,
                welcomed: false,
                last_message: now,
                ..old(self)@
            }),
    {
        self.connected = true;
        self.welcomed = false;
        self.last_message = now;
    }

    /// The connection is lost, or could not be opened. The next attempt starts afresh and
    /// subscribes to everything again.
    pub fn on_disconnect(&mut self, now: u64) -> (effects: Vec<Effect>)
        requires
            can_reschedule(old(self)@, now),
        ensures
            final(self)@ == disconnected(old(self)@, now),
            disconnect_effects(effect_views(effects@), old(self)@, final(self)@),
    {
        let mut effects: Vec<Effect> = Vec::new();
        if self.connected {
            effects.push(Effect::Close);
        }
        self.connected = false;
        self.welcomed = false;
        let status = self.status(None);
        let ghost n = effects@.len() as int;
        effects.push(Effect::Status(status));
        self.schedule_reconnect(now);
        assert(effect_views(effects@)[n] == EffectView::Status(status@));
        effects
    }

    /// Once a second: gives a connection up that was not welcomed within 10 seconds, or that
    /// missed two keepalives. Any message counts as a sign of life.
    pub fn on_tick(&mut self, now: u64) -> (effects: Vec<Effect>)
        requires
            is_silent(old(self)@, now) ==> can_reschedule(old(self)@, now),
        ensures
            if is_silent(old(self)@, now) {
                &&& final(self)@ == disconnected(old(self)@, now)
                &&& disconnect_effects(effect_views(effects@), old(self)@, final(self)@)
            } else {
                final(self)@ == old(self)@ && effects@.len() == 0
            },
    {
        if !self.connected {
            return Vec::new();
        }
        let silence: u64 = if now > self.last_message {
            now - self.last_message
        } else {
            0
        };
        let limit: u128 = if self.welcomed {
            self.keepalive_secs as u128 * 2 * 1_000_000_000
        } else {
            10_000_000_000
        };
        if silence as u128 > limit {
            self.on_disconnect(now)
        } else {
            Vec::new()
        }
    }
}

/// The connection has been silent for too long: more than 10 seconds before the welcome, more
/// than two keepalive periods after it.
pub open spec fn is_silent(s: SessionView, now: u64) -> bool {
    s.connected && now - s.last_message > 1_000_000_000 * (if s.welcomed {
        2 * s.keepalive_secs
    } else {
        10
    })
}

/// The notification when a connection is welcomed.
pub open spec fn welcome_toast(s: SessionView) -> ToastView {
    ToastView {
        summary: if s.reconnect_attempt == 0 {
            "Hermes connected"@
        } else {
            "Hermes reconnected"@
        },
        body: "watching "@ + text::decimal(s.channels.len()) + " channel(s)"@,
        sound: s.sound,
        avatar: None,
        login: None,
    }
}

/// The notification when a channel goes live.
pub open spec fn live_toast(user: UserView, sound: bool) -> ToastView {
    ToastView {
        summary: "["@ + user.channel_display_name + "] is LIVE"@,
        body: match (user.game, user.stream_title) {
            (Some(game), Some(title)) => title + " — "@ + game.name,
            (Some(game), None) => game.name,
            (None, Some(title)) => title,
            (None, None) => seq![],
        },
        sound,
        avatar: text::nonempty(Some(user.profile_image_url)),
        login: Some(user.channel_name),
    }
}

pub open spec fn game_name(game: Option<GameView>) -> Option<Seq<char>> {
    match game {
        Some(g) => Some(g.name),
        None => None,
    }
}

/// The update brings another title. An empty title is none.
pub open spec fn title_changed(user: UserView, update: PubsubView) -> bool {
    text::nonempty(user.stream_title) != text::nonempty(Some(update.status))
}

/// The update names another game than the one that is kept.
pub open spec fn game_changed(user: UserView, update: PubsubView) -> bool {
    update.game != game_name(user.game)
}

/// The notification when the title or the game of a channel changes.
pub open spec fn update_toast(user: UserView, update: PubsubView, sound: bool) -> ToastView {
    let title_line = update.old_status + " → "@ + update.status;
    let game_line = update.old_game + " → "@ + (match update.game {
        Some(name) => name,
        None => seq![],
    });
    let title = title_changed(user, update);
    let game = game_changed(user, update);
    ToastView {
        summary: "["@ + user.channel_display_name + "] "@ + (if title && game {
            "title & game"@
        } else if title {
            "title"@
        } else {
            "game"@
        }) + " changed"@,
        body: if title && game {
            title_line + "\n"@ + game_line
        } else if title {
            title_line
        } else {
            game_line
        },
        sound,
        avatar: text::nonempty(Some(user.profile_image_url)),
        login: Some(user.channel_name),
    }
}

/// The channel after an update of its title and game. A game without an identifier is dropped;
/// its display name is taken from the game before.
pub open spec fn retitled(user: UserView, update: PubsubView) -> UserView {
    UserView {
        stream_title: text::nonempty(Some(update.status)),
        game: match (update.game, update.game_id) {
            (Some(name), Some(id)) => Some(
                GameView {
                    id,
                    name,
                    display_name: match user.game {
                        Some(game) => game.display_name,
                        None => seq![],
                    },
                },
            ),
            _ => None,
        },
        ..user
    }
}

/// A notification about titles is wanted for the channel: the setting is on, and it is offline.
pub open spec fn wants_update(s: SessionView, user: UserView, update: PubsubView) -> bool {
    s.notify_title_changes && !user.live && (title_changed(user, update) || game_changed(
        user,
        update,
    ))
}

/// The session with another state of a channel.
pub open spec fn with_channel(s: SessionView, id: u64, user: UserView) -> SessionView {
    SessionView { channels: s.channels.insert(id, user), ..s }
}

fn copy_or_empty(o: &Option<String>) -> (r: String)
    ensures
        r@ == (match text::opt(*o) {
            Some(s) => s,
            None => seq![],
        }),
{
    match o {
        Some(s) => s.clone(),
        None => {
            let r = String::new();
            assert(r@ =~= seq![]);
            r
        },
    }
}

fn arrow_line(old: &str, new: &str) -> (r: String)
    ensures
        r@ == old@ + " → "@ + new@,
{
    let mut r: String = old.to_string();
    r.append(" → ");
    r.append(new);
    r
}

/// The notification when a channel goes live.
fn notify_live(user: &User, sound: bool) -> (toast: Toast)
    ensures
        toast@ == live_toast(user@, sound),
{
    let mut summary: String = "[".to_string();
    summary.append(user.channel_display_name.as_str());
    summary.append("] is LIVE");
    let body = match (&user.game, &user.stream_title) {
        (Some(game), Some(title)) => {
            let mut body: String = title.clone();
            body.append(" — ");
            body.append(game.name.as_str());
            body
        },
        (Some(game), None) => game.name.clone(),
        (None, Some(title)) => title.clone(),
        (None, None) => {
            let body = String::new();
            assert(body@ =~= seq![]);
            body
        },
    };
    Toast {
        summary,
        body,
        sound,
        avatar: text::filter_empty(Some(user.profile_image_url.clone())),
        login: Some(user.channel_name.clone()),
    }
}

/// The notification when the title or the game of a channel changes.
fn notify_update(user: &User, update: &Pubsub, title: bool, game: bool, sound: bool) -> (toast:
    Toast)
    requires
        title == title_changed(user@, update@),
        game == game_changed(user@, update@),
    ensures
        toast@ == update_toast(user@, update@, sound),
{
    let mut summary: String = "[".to_string();
    summary.append(user.channel_display_name.as_str());
    summary.append("] ");
    if title && game {
        summary.append("title & game");
    } else if title {
        summary.append("title");
    } else {
        summary.append("game");
    }
    summary.append(" changed");
    let title_line = arrow_line(update.old_status.as_str(), update.status.as_str());
    let game_line = arrow_line(update.old_game.as_str(), copy_or_empty(&update.game).as_str());
    let body = if title && game {
        let mut body = title_line;
        body.append("\n");
        body.append(game_line.as_str());
        body
    } else if title {
        title_line
    } else {
        game_line
    };
    Toast {
        summary,
        body,
        sound,
        avatar: text::filter_empty(Some(user.profile_image_url.clone())),
        login: Some(user.channel_name.clone()),
    }
}

/// Whether an update brings another title.
fn brings_title(user: &User, update: &Pubsub) -> (r: bool)
    ensures
        r == title_changed(user@, update@),
{
    let held = copy_or_empty(&user.stream_title);
    proof {
        if held@.len() == 0 && update.status@.len() == 0 {
            assert(held@ =~= update.status@);
        }
    }
    !text::same_text(held.as_str(), update.status.as_str())
}

/// Whether an update brings another game.
fn brings_game(user: &User, update: &Pubsub) -> (r: bool)
    ensures
        r == game_changed(user@, update@),
{
    match (&update.game, &user.game) {
        (Some(name), Some(game)) => !text::same_text(name.as_str(), game.name.as_str()),
        (None, None) => false,
        _ => true,
    }
}

/// The channel after an update of its title and game.
fn retitle(user: User, update: Pubsub) -> (r: User)
    ensures
        r@ == retitled(user@, update@),
{
    let display_name = match &user.game {
        Some(game) => game.display_name.clone(),
        None => {
            let empty = String::new();
            assert(empty@ =~= seq![]);
            empty
        },
    };
    let game = match (update.game, update.game_id) {
        (Some(name), Some(id)) => Some(Game { id, name, display_name }),
        _ => None,
    };
    User {
        channel_id: user.channel_id,
        channel_name: user.channel_name,
        channel_display_name: user.channel_display_name,
        profile_image_url: user.profile_image_url,
        stream_id: user.stream_id,
        stream_title: text::filter_empty(Some(update.status)),
        stream_start: user.stream_start,
        game,
        live: user.live,
    }
}

impl Session {
    /// The title or the game of a channel has changed.
    pub(crate) fn on_broadcast_settings_update(&mut self, channel_id: u64, update: Pubsub) -> (effects: Vec<
        Effect,
    >)
        ensures
            if old(self)@.channels.contains_key(channel_id) {
                let user = old(self)@.channels[channel_id];
                &&& final(self)@ == with_channel(
                    old(self)@,
                    channel_id,
                    retitled(user, update@),
                )
                &&& effect_views(effects@) == (if wants_update(old(self)@, user, update@) {
                    seq![EffectView::Notify(update_toast(user, update@, old(self)@.sound))]
                } else {
                    seq![]
                })
            } else {
                final(self)@ == old(self)@ && effect_views(effects@) == Seq::<EffectView>::empty()
            },
    {
        let ghost start = self@;
        let mut effects: Vec<Effect> = Vec::new();
        match self.channels.remove(&channel_id) {
            Some(user) => {
                assert(start.channels[channel_id] == user@);
                let title = brings_title(&user, &update);
                let game = brings_game(&user, &update);
                if self.notify_title_changes && !user.live && (title || game) {
                    let toast = notify_update(&user, &update, title, game, self.sound);
                    effects.push(Effect::Notify(toast));
                    assert(effect_views(effects@) =~= seq![EffectView::Notify(toast@)]);
                } else {
                    assert(effect_views(effects@) =~= seq![]);
                }
                let ghost held = retitled(user@, update@);
                self.channels.insert(channel_id, retitle(user, update));
                assert(self@.channels =~= start.channels.insert(channel_id, held));
            },
            None => {
                assert(self@.channels =~= start.channels);
                assert(effect_views(effects@) =~= seq![]);
            },
        }
        effects
    }
}

/// The channel, live or not.
pub open spec fn with_live(user: UserView, live: bool) -> UserView {
    UserView { live, ..user }
}

/// The session after a playback event.
pub open spec fn played(s: SessionView, channel_id: u64, playback: Playback) -> SessionView {
    if s.channels.contains_key(channel_id) && playback != Playback::Other {
        with_channel(
            s,
            channel_id,
            with_live(s.channels[channel_id], playback == Playback::StreamUp),
        )
    } else {
        s
    }
}

/// What a playback event leads to. When a stream starts the state is shown, a notification goes
/// out if the channel is tracked, and the channel is looked up.
pub open spec fn playback_effects(
    effects: Seq<EffectView>,
    s: SessionView,
    channel_id: u64,
    playback: Playback,
    after: SessionView,
) -> bool {
    if playback == Playback::StreamUp {
        let notified = s.channels.contains_key(channel_id);
        let n: int = if notified {
            1
        } else {
            0
        };
        &&& effects.len() == n + 2
        &&& effects[0] matches EffectView::Status(status) && shows(status, after, None)
        &&& notified ==> effects[1] == EffectView::Notify(
            live_toast(s.channels[channel_id], s.sound),
        )
        &&& effects[n + 1] == EffectView::FetchStream { channel_id, notified }
    } else {
        effects.len() == 0
    }
}

/// The first user with the identifier.
pub open spec fn first_user(users: Seq<UserView>, id: u64) -> Option<UserView>
    decreases users.len(),
{
    if users.len() == 0 {
        None
    } else if users[0].channel_id == id {
        Some(users[0])
    } else {
        first_user(users.drop_first(), id)
    }
}

fn take_user(users: Vec<User>, id: u64) -> (r: Option<User>)
    ensures
        first_user(gql::user_views(users@), id) == (match r {
            Some(user) => Some(user@),
            None => None,
        }),
{
    let ghost all = gql::user_views(users@);
    assert(all.skip(0) =~= all);
    for user in it: users
        invariant
            all == gql::user_views(it.seq()),
            first_user(all, id) == first_user(all.skip(it.index() as int), id),
    {
        let ghost i = it.index() as int;
        assert(all.skip(i)[0] == user@);
        assert(all.skip(i).drop_first() =~= all.skip(i + 1));
        if user.channel_id == id {
            return Some(user);
        }
    }
    assert(all.skip(all.len() as int) =~= seq![]);
    None
}

impl Session {
    fn set_live(&mut self, channel_id: u64, live: bool) -> (toast: Option<Toast>)
        ensures
            if old(self)@.channels.contains_key(channel_id) {
                let user = old(self)@.channels[channel_id];
                &&& final(self)@ == with_channel(old(self)@, channel_id, with_live(user, live))
                &&& toast matches Some(t) && t@ == live_toast(user, old(self)@.sound)
            } else {
                final(self)@ == old(self)@ && toast is None
            },
    {
        let ghost start = self@;
        match self.channels.remove(&channel_id) {
            Some(user) => {
                let mut user = user;
                let ghost held = with_live(user@, live);
                let toast = notify_live(&user, self.sound);
                user.live = live;
                self.channels.insert(channel_id, user);
                assert(self@.channels =~= start.channels.insert(channel_id, held));
                Some(toast)
            },
            None => {
                assert(self@.channels =~= start.channels);
                None
            },
        }
    }

    /// A stream has started or ended. A start is announced from what is known, before the channel
    /// is looked up.
    fn on_video_playback(&mut self, channel_id: u64, playback: Playback) -> (effects: Vec<Effect>)
        ensures
            final(self)@ == played(old(self)@, channel_id, playback),
            playback_effects(
                effect_views(effects@),
                old(self)@,
                channel_id,
                playback,
                final(self)@,
            ),
    {
        let mut effects: Vec<Effect> = Vec::new();
        match playback {
            Playback::StreamUp => {
                let toast = self.set_live(channel_id, true);
                let status = self.status(None);
                effects.push(Effect::Status(status));
                let ghost shown = Effect::Status(status)@;
                match toast {
                    Some(toast) => {
                        effects.push(Effect::Notify(toast));
                        effects.push(Effect::FetchStream { channel_id, notified: true });
                    },
                    None => {
                        effects.push(Effect::FetchStream { channel_id, notified: false });
                    },
                }
                assert(effect_views(effects@)[0] == shown);
            },
            Playback::StreamDown => {
                self.set_live(channel_id, false);
            },
            Playback::Other => {},
        }
        effects
    }

    /// Goes on when a channel that has gone live was looked up: it is taken over, and announced
    /// if it has not been.
    pub fn finish_stream_up(
        &mut self,
        channel_id: u64,
        notified: bool,
        result: Result<Vec<User>, String>,
    ) -> (effects: Vec<Effect>)
        ensures
            streamed_step(
                old(self)@,
                channel_id,
                notified,
                gql::lookup_view(result),
                final(self)@,
                effect_views(effects@),
            ),
    {
        let mut effects: Vec<Effect> = Vec::new();
        if let Ok(users) = result {
            if let Some(user) = take_user(users, channel_id) {
                let mut user = user;
                if !notified {
                    effects.push(Effect::Notify(notify_live(&user, self.sound)));
                }
                user.live = true;
                self.upsert(user);
                let status = self.status(None);
                let ghost n = effects@.len() as int;
                effects.push(Effect::Status(status));
                assert(effect_views(effects@)[n] == EffectView::Status(status@));
            }
        }
        effects
    }
}

/// What looking a channel up that has gone live leads to.
pub open spec fn streamed_step(
    s: SessionView,
    channel_id: u64,
    notified: bool,
    result: Result<Seq<UserView>, Seq<char>>,
    after: SessionView,
    effects: Seq<EffectView>,
) -> bool {
    let found = match result {
        Ok(users) => first_user(users, channel_id),
        Err(_) => None,
    };
    match found {
        Some(user) => {
            let n: int = if notified {
                0
            } else {
                1
            };
            &&& after == with_user(s, with_live(user, true))
            &&& effects.len() == n + 1
            &&& !notified ==> effects[0] == EffectView::Notify(live_toast(user, s.sound))
            &&& effects[n] matches EffectView::Status(status) && shows(status, after, None)
        },
        None => no_step(s, after, effects),
    }
}

/// The topic's subscription has the identifier.
pub open spec fn named(subs: Map<Topic, SubView>, id: nat, topic: Topic) -> bool {
    subs.contains_key(topic) && subs[topic].id == id
}

/// The session once it is welcomed.
pub open spec fn welcomed(s: SessionView, keepalive_secs: u64) -> SessionView {
    SessionView { welcomed: true, reconnect_attempt: 0, keepalive_secs, ..s }
}

/// Every registered topic is subscribed to again, in the order of `list`.
pub open spec fn replayed(
    s: SessionView,
    list: Seq<(Topic, NanoId)>,
    stamp: Seq<char>,
    after: SessionView,
    effects: Seq<EffectView>,
) -> bool {
    &&& after == with_draws(SessionView { subs: subs::all_pending(s.subs), ..s }, list.len())
    &&& effects == subscriptions(s, list, stamp)
}

/// A welcome is announced and shown, and every topic is subscribed to again.
pub open spec fn welcome_step(
    s: SessionView,
    keepalive_secs: u64,
    stamp: Seq<char>,
    after: SessionView,
    effects: Seq<EffectView>,
) -> bool {
    let ready = welcomed(s, keepalive_secs);
    &&& effects.len() >= 2
    &&& effects[0] == EffectView::Notify(welcome_toast(s))
    &&& effects[1] matches EffectView::Status(status) && shows(status, ready, None)
    &&& exists|list: Seq<(Topic, NanoId)>| #[trigger]
        subs::listing(list, ready.subs) && replayed(ready, list, stamp, after, effects.skip(2))
}

/// Nothing happens.
pub open spec fn no_step(s: SessionView, after: SessionView, effects: Seq<EffectView>) -> bool {
    after == s && effects.len() == 0
}

/// The answer to a subscription is noted and shown.
pub open spec fn response_step(
    s: SessionView,
    topic: Topic,
    accepted: bool,
    after: SessionView,
    effects: Seq<EffectView>,
) -> bool {
    let state = if accepted {
        SubState::Subscribed
    } else {
        SubState::Failed
    };
    &&& after == SessionView {
        subs: s.subs.insert(topic, SubView { id: s.subs[topic].id, state }),
        ..s
    }
    &&& effects.len() == 1
    &&& effects[0] matches EffectView::Status(status) && shows(status, after, None)
}

/// A payload of a topic that is subscribed to takes its effect.
pub open spec fn notification_step(
    s: SessionView,
    topic: Topic,
    pubsub: PubsubView,
    after: SessionView,
    effects: Seq<EffectView>,
) -> bool {
    if s.subs[topic].state != SubState::Subscribed {
        no_step(s, after, effects)
    } else {
        match topic {
            Topic::BroadcastSettingsUpdate(id) => if s.channels.contains_key(id) {
                let user = s.channels[id];
                &&& after == with_channel(s, id, retitled(user, pubsub))
                &&& effects == (if wants_update(s, user, pubsub) {
                    seq![EffectView::Notify(update_toast(user, pubsub, s.sound))]
                } else {
                    seq![]
                })
            } else {
                no_step(s, after, effects)
            },
            Topic::VideoPlaybackById(id) => {
                &&& after == played(s, id, pubsub.playback)
                &&& playback_effects(effects, s, id, pubsub.playback, after)
            },
        }
    }
}

/// The answer to a subscription takes its effect. The subscription is one with the identifier;
/// without one nothing happens.
pub open spec fn answered_step(
    s: SessionView,
    id: nat,
    accepted: bool,
    after: SessionView,
    effects: Seq<EffectView>,
) -> bool {
    ||| exists|t: Topic| #[trigger]
        named(s.subs, id, t) && response_step(s, t, accepted, after, effects)
    ||| (forall|t: Topic| !#[trigger] named(s.subs, id, t)) && no_step(s, after, effects)
}

/// A payload takes its effect. The subscription is one with the identifier; without one nothing
/// happens.
pub open spec fn notified_step(
    s: SessionView,
    id: nat,
    pubsub: PubsubView,
    after: SessionView,
    effects: Seq<EffectView>,
) -> bool {
    ||| exists|t: Topic| #[trigger]
        named(s.subs, id, t) && notification_step(s, t, pubsub, after, effects)
    ||| (forall|t: Topic| !#[trigger] named(s.subs, id, t)) && no_step(s, after, effects)
}

/// What a message does.
pub open spec fn frame_step(
    s: SessionView,
    frame: FrameView,
    stamp: Seq<char>,
    after: SessionView,
    effects: Seq<EffectView>,
) -> bool {
    match frame {
        FrameView::Welcome { keepalive_secs } => welcome_step(
            s,
            keepalive_secs,
            stamp,
            after,
            effects,
        ),
        FrameView::SubscribeResponse { target: Some(id), accepted } => answered_step(
            s,
            id,
            accepted,
            after,
            effects,
        ),
        FrameView::Notification { target: Some(id), pubsub: Some(pubsub) } => notified_step(
            s,
            id,
            pubsub,
            after,
            effects,
        ),
        _ => no_step(s, after, effects),
    }
}

impl Session {
    /// Subscribes to every registered topic again.
    fn resubscribe_all(&mut self, stamp: &str, effects: &mut Vec<Effect>) -> (list: Ghost<
        Seq<(Topic, NanoId)>,
    >)
        ensures
            subs::listing(list@, old(self)@.subs),
            final(self)@ == with_draws(
                (SessionView { subs: subs::all_pending(old(self)@.subs), ..old(self)@ }),
                list@.len(),
            ),
            effect_views(final(effects)@) == effect_views(old(effects)@) + subscriptions(
                old(self)@,
                list@,
                stamp@,
            ),
    {
        let ghost start = self@;
        let list = self.subs.reset();
        let ghost reset = self@;
        self.send_subscriptions(&list, stamp, effects);
        proof {
            assert(subscriptions(reset, list@, stamp@) =~= subscriptions(start, list@, stamp@));
        }
        Ghost(list@)
    }

    fn on_welcome(&mut self, keepalive_secs: u64, stamp: &str) -> (effects: Vec<Effect>)
        ensures
            welcome_step(
                old(self)@,
                keepalive_secs,
                stamp@,
                final(self)@,
                effect_views(effects@),
            ),
    {
        let summary: String = if self.reconnect_attempt == 0 {
            "Hermes connected".to_string()
        } else {
            "Hermes reconnected".to_string()
        };
        let ghost start = self@;
        self.welcomed = true;
        self.reconnect_attempt = 0;
        self.keepalive_secs = keepalive_secs;
        let mut body: String = "watching ".to_string();
        assert(self@.channels.dom() =~= self.channels@.dom());
        text::append_decimal(&mut body, self.channels.len() as u64);
        body.append(" channel(s)");
        let toast = Toast { summary, body, sound: self.sound, avatar: None, login: None };
        let mut effects: Vec<Effect> = Vec::new();
        effects.push(Effect::Notify(toast));
        let status = self.status(None);
        effects.push(Effect::Status(status));
        let ghost ready = self@;
        assert(ready == welcomed(start, keepalive_secs));
        let ghost before = effects@;
        proof {
            assert(effect_views(before) =~= seq![
                EffectView::Notify(toast@),
                EffectView::Status(status@),
            ]);
        }
        let list = self.resubscribe_all(stamp, &mut effects);
        proof {
            let views = effect_views(effects@);
            assert(views.skip(2) =~= subscriptions(ready, list@, stamp@));
            assert(views[0] == EffectView::Notify(toast@));
            assert(views[1] == EffectView::Status(status@));
            assert(subs::listing(list@, ready.subs) && replayed(
                ready,
                list@,
                stamp@,
                self@,
                views.skip(2),
            ));
        }
        effects
    }

    fn on_response(&mut self, target: NanoId, accepted: bool) -> (effects: Vec<Effect>)
        ensures
            answered_step(
                old(self)@,
                target@,
                accepted,
                final(self)@,
                effect_views(effects@),
            ),
    {
        let ghost start = self@;
        let mut effects: Vec<Effect> = Vec::new();
        match self.subs.find(target) {
            Some(topic) => {
                assert(named(start.subs, target@, topic));
                let state = if accepted {
                    SubState::Subscribed
                } else {
                    SubState::Failed
                };
                self.subs.set_state(topic, state);
                let status = self.status(None);
                effects.push(Effect::Status(status));
                proof {
                    assert(effect_views(effects@)[0] == EffectView::Status(status@));
                    assert(response_step(start, topic, accepted, self@, effect_views(effects@)));
                }
            },
            None => {
                assert forall|t: Topic| !named(start.subs, target@, t) by {
                    if start.subs.contains_key(t) {
                        assert(self.subs@.contains_key(t));
                    }
                }
            },
        }
        effects
    }

    /// A payload has arrived.
    fn handle_notification(&mut self, target: NanoId, pubsub: Pubsub) -> (effects: Vec<Effect>)
        ensures
            notified_step(
                old(self)@,
                target@,
                pubsub@,
                final(self)@,
                effect_views(effects@),
            ),
    {
        let ghost start = self@;
        let ghost held = pubsub@;
        match self.subs.find(target) {
            Some(topic) => {
                assert(named(start.subs, target@, topic));
                let state = match self.subs.get(topic) {
                    Some(sub) => sub.state,
                    None => SubState::Pending,
                };
                let effects = if state != SubState::Subscribed {
                    Vec::new()
                } else {
                    match topic {
                        Topic::BroadcastSettingsUpdate(id) => {
                            self.on_broadcast_settings_update(id, pubsub)
                        },
                        Topic::VideoPlaybackById(id) => {
                            self.on_video_playback(id, pubsub.playback)
                        },
                    }
                };
                assert(notification_step(start, topic, held, self@, effect_views(effects@)));
                effects
            },
            None => {
                assert forall|t: Topic| !named(start.subs, target@, t) by {
                    if start.subs.contains_key(t) {
                        assert(self.subs@.contains_key(t));
                    }
                }
                Vec::new()
            },
        }
    }

    /// A message has arrived.
    pub fn on_frame(&mut self, frame: Frame, stamp: &str) -> (effects: Vec<Effect>)
        ensures
            frame_step(
                old(self)@,
                frame@,
                stamp@,
                final(self)@,
                effect_views(effects@),
            ),
    {
        match frame {
            Frame::Welcome { keepalive_secs } => self.on_welcome(keepalive_secs, stamp),
            Frame::SubscribeResponse { target: Some(target), accepted } => self.on_response(
                target,
                accepted,
            ),
            Frame::Notification { target: Some(target), pubsub: Some(pubsub) } => {
                self.handle_notification(target, pubsub)
            },
            _ => Vec::new(),
        }
    }

    /// A text has arrived over the connection. Any text at all is a sign of life, even a blank
    /// one.
    pub fn handle_message(&mut self, text: &str, now: u64, stamp: &str) -> (effects: Vec<Effect>)
        ensures
            frame_step(
                (SessionView { last_message: now, ..old(self)@ }),
                frame::frame_in(text@),
                stamp@,
                final(self)@,
                effect_views(effects@),
            ),
    {
        self.last_message = now;
        let frame = frame::read_frame(text);
        self.on_frame(frame, stamp)
    }
}

/// What a session waits for.
pub enum Event {
    Command(Command),
    /// A text has arrived.
    Text(String),
    /// The connection was closed, or reading from it failed.
    Closed,
    /// A second has passed.
    Tick,
    /// Something without a text has arrived.
    Ignored,
}

/// What a command does.
pub open spec fn command_step(
    s: SessionView,
    command: Command,
    stamp: Seq<char>,
    after: SessionView,
    effects: Seq<EffectView>,
) -> bool {
    match command {
        Command::AddChannel(login) => after == s && effects == (if tracks_login(s, login@) {
            seq![]
        } else {
            seq![EffectView::FetchLogin(login@)]
        }),
        Command::RemoveChannel(id) => after == removed(s, id) && effects == removal_effects(
            s,
            id,
            stamp,
        ),
        Command::SetNotifyTitleChanges(value) => after == SessionView {
            notify_title_changes: value,
            ..s
        } && effects.len() == 0,
        Command::SetSound(value) => after == SessionView { sound: value, ..s } && effects.len()
            == 0,
    }
}

/// What an event does.
pub open spec fn event_step(
    s: SessionView,
    event: Event,
    now: u64,
    stamp: Seq<char>,
    after: SessionView,
    effects: Seq<EffectView>,
) -> bool {
    match event {
        Event::Command(command) => command_step(s, command, stamp, after, effects),
        Event::Text(text) => frame_step(
            SessionView { last_message: now, ..s },
            frame::frame_in(text@),
            stamp,
            after,
            effects,
        ),
        Event::Closed => after == disconnected(s, now) && disconnect_effects(effects, s, after),
        Event::Tick => if is_silent(s, now) {
            after == disconnected(s, now) && disconnect_effects(effects, s, after)
        } else {
            no_step(s, after, effects)
        },
        Event::Ignored => no_step(s, after, effects),
    }
}

/// The event ends the connection.
pub open spec fn ends_connection(s: SessionView, event: Event, now: u64) -> bool {
    event is Closed || (event is Tick && is_silent(s, now))
}

impl Session {
    /// An event has come.
    pub fn on_event(&mut self, event: Event, now: u64, stamp: &str) -> (effects: Vec<Effect>)
        requires
            ends_connection(old(self)@, event, now) ==> can_reschedule(old(self)@, now),
        ensures
            event_step(
                old(self)@,
                event,
                now,
                stamp@,
                final(self)@,
                effect_views(effects@),
            ),
    {
        match event {
            Event::Command(command) => self.on_command(command, stamp),
            Event::Text(text) => self.handle_message(text.as_str(), now, stamp),
            Event::Closed => self.on_disconnect(now),
            Event::Tick => self.on_tick(now),
            Event::Ignored => Vec::new(),
        }
    }
}

/// Puts a row where its login belongs.
fn insert_row(
    rows: &mut Vec<ChannelStatus>,
    new: ChannelStatus,
    Ghost(s): Ghost<SessionView>,
    Ghost(ids): Ghost<Set<u64>>,
)
    requires
        rows_of(row_views(old(rows)@), s, ids),
        !ids.contains(new.channel_id),
        new@ == row(s, new.channel_id),
    ensures
        rows_of(row_views(final(rows)@), s, ids.insert(new.channel_id)),
{
    let mut k: usize = 0;
    let ghost before = row_views(rows@);
    while k < rows.len() && text::not_after(rows[k].login.as_str(), new.login.as_str())
        invariant
            k <= rows@.len(),
            before == row_views(rows@),
            forall|j: int| 0 <= j < k ==> text::text_le((#[trigger] before[j]).login, new.login@),
        decreases rows@.len() - k,
    {
        assert(before[k as int].login == rows@[k as int].login@);
        k = k + 1;
    }
    let ghost added = new@;
    proof {
        if k < rows@.len() {
            text::lemma_bytes_le_total(
                vstd::utf8::encode_utf8(before[k as int].login),
                vstd::utf8::encode_utf8(added.login),
            );
        }
        assert forall|j: int| k <= j < before.len() implies text::text_le(
            added.login,
            (#[trigger] before[j]).login,
        ) by {
            if j > k {
                assert(text::text_le(before[k as int].login, before[j].login));
                text::lemma_bytes_le_trans(
                    vstd::utf8::encode_utf8(added.login),
                    vstd::utf8::encode_utf8(before[k as int].login),
                    vstd::utf8::encode_utf8(before[j].login),
                );
            }
        }
    }
    rows.insert(k, new);
    proof {
        let after = row_views(rows@);
        assert(after =~= before.insert(k as int, added));
        assert forall|i: int| 0 <= i < after.len() implies #[trigger] after[i] == (if i < k {
            before[i]
        } else if i == k {
            added
        } else {
            before[i - 1]
        }) by {}
        assert forall|id: u64| #[trigger] ids.insert(added.channel_id).contains(id) implies has_row(
            after,
            id,
        ) by {
            if ids.contains(id) {
                let i = choose|i: int|
                    0 <= i < before.len() && (#[trigger] before[i]).channel_id == id;
                if i < k {
                    assert(after[i].channel_id == id);
                } else {
                    assert(after[i + 1].channel_id == id);
                }
            } else {
                assert(after[k as int].channel_id == id);
            }
        }
    }
}

} // verus!
