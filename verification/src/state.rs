//! The state of the program behind the window: settings, status and errors.

pub mod laws;

use vstd::prelude::*;

use crate::config;
use crate::config::{Channel, ChannelView, Config, ConfigView};
use crate::gql;
use crate::gql::{User, UserView};
use crate::hermes;
use crate::hermes::{ChannelStatus, Command, Status, StatusView};
use crate::text;
use crate::tray::TrayAction;

verus! {

/// What the window asks for.
pub enum UiIntent {
    AddLogin(String),
    RemoveChannel(u64),
    SetNotifyTitleChanges(bool),
    SetSound(bool),
    ClearError,
}

/// The state of the session as the window shows it, with the logins that are being looked up.
#[derive(Debug)]
pub struct StatusSnapshot {
    pub connected: bool,
    pub error: Option<String>,
    pub channels: Vec<ChannelStatus>,
    pub pending_adds: Vec<String>,
}

pub struct SnapshotView {
    pub status: StatusView,
    pub pending_adds: Seq<Seq<char>>,
}

impl View for StatusSnapshot {
    type V = SnapshotView;

    open spec fn view(&self) -> SnapshotView {
        SnapshotView {
            status: StatusView {
                connected: self.connected,
                error: text::opt(self.error),
                channels: hermes::row_views(self.channels@),
            },
            pending_adds: text::views(self.pending_adds@),
        }
    }
}

/// What the window shows.
#[derive(Debug)]
pub struct FrameState {
    pub config: Config,
    pub status: Option<StatusSnapshot>,
    pub error: String,
}

pub struct FrameStateView {
    pub config: ConfigView,
    pub status: Option<SnapshotView>,
    pub error: Seq<char>,
}

pub open spec fn snapshot_view(status: Option<StatusSnapshot>) -> Option<SnapshotView> {
    match status {
        Some(s) => Some(s@),
        None => None,
    }
}

impl View for FrameState {
    type V = FrameStateView;

    open spec fn view(&self) -> FrameStateView {
        FrameStateView {
            config: self.config@,
            status: snapshot_view(self.status),
            error: self.error@,
        }
    }
}

impl Clone for StatusSnapshot {
    fn clone(&self) -> (r: StatusSnapshot)
        ensures
            r@ == self@,
    {
        StatusSnapshot {
            connected: self.connected,
            error: text::copy_option(&self.error),
            channels: copy_rows(&self.channels),
            pending_adds: text::copy_texts(&self.pending_adds),
        }
    }
}

impl Clone for FrameState {
    fn clone(&self) -> (r: FrameState)
        ensures
            r@ == self@,
    {
        FrameState {
            config: self.config.clone(),
            status: match &self.status {
                Some(status) => Some(status.clone()),
                None => None,
            },
            error: self.error.clone(),
        }
    }
}

/// What is to be done outside the state, in order.
pub enum WorkEffect {
    /// Show this, and wake the window.
    Frame(FrameState),
    /// Hand a command to the session.
    Forward(Command),
    /// Hand an action of the tray to the window, and wake it.
    Tray(TrayAction),
}

pub enum CommandView {
    AddChannel(Seq<char>),
    RemoveChannel(u64),
    SetNotifyTitleChanges(bool),
    SetSound(bool),
}

impl View for Command {
    type V = CommandView;

    open spec fn view(&self) -> CommandView {
        match *self {
            Command::AddChannel(login) => CommandView::AddChannel(login@),
            Command::RemoveChannel(id) => CommandView::RemoveChannel(id),
            Command::SetNotifyTitleChanges(value) => CommandView::SetNotifyTitleChanges(value),
            Command::SetSound(value) => CommandView::SetSound(value),
        }
    }
}

pub enum WorkEffectView {
    Frame(FrameStateView),
    Forward(CommandView),
    Tray(TrayAction),
}

impl View for WorkEffect {
    type V = WorkEffectView;

    open spec fn view(&self) -> WorkEffectView {
        match *self {
            WorkEffect::Frame(frame) => WorkEffectView::Frame(frame@),
            WorkEffect::Forward(command) => WorkEffectView::Forward(command@),
            WorkEffect::Tray(action) => WorkEffectView::Tray(action),
        }
    }
}

/// What effects hold.
pub open spec fn effect_views(effects: Seq<WorkEffect>) -> Seq<WorkEffectView> {
    Seq::new(effects.len(), |i: int| effects[i]@)
}

/// Settings that are to be written, and the command that follows once they are.
pub struct PendingSave {
    pub config: Config,
    pub forward: Command,
}

/// Settings, status and errors. Logins that are being looked up are remembered, so that none is
/// looked up twice at a time.
pub struct WorkState {
    config: Config,
    error: String,
    status: Option<Status>,
    pending_adds: Vec<String>,
}

#[verifier::ext_equal]
pub struct WorkView {
    pub config: ConfigView,
    pub error: Seq<char>,
    pub status: Option<StatusView>,
    pub pending_adds: Seq<Seq<char>>,
}

pub open spec fn status_view(status: Option<Status>) -> Option<StatusView> {
    match status {
        Some(s) => Some(s@),
        None => None,
    }
}

impl View for WorkState {
    type V = WorkView;

    closed spec fn view(&self) -> WorkView {
        WorkView {
            config: self.config@,
            error: self.error@,
            status: status_view(self.status),
            pending_adds: text::views(self.pending_adds@),
        }
    }
}

/// What the window shows of the state.
pub open spec fn frame_of(w: WorkView) -> FrameStateView {
    FrameStateView {
        config: w.config,
        status: match w.status {
            Some(status) => Some(SnapshotView { status, pending_adds: w.pending_adds }),
            None => None,
        },
        error: w.error,
    }
}

pub(crate) fn copy_rows(rows: &Vec<ChannelStatus>) -> (r: Vec<ChannelStatus>)
    ensures
        hermes::row_views(r@) == hermes::row_views(rows@),
{
    let mut r: Vec<ChannelStatus> = Vec::new();
    for i in 0..rows.len()
        invariant
            r@.len() == i,
            forall|k: int| 0 <= k < i ==> (#[trigger] r@[k])@ == rows@[k]@,
    {
        r.push(rows[i].clone());
    }
    assert(hermes::row_views(r@) =~= hermes::row_views(rows@));
    r
}

impl WorkState {
    /// The state at the start.
    pub fn new(config: Config) -> (r: WorkState)
        ensures
            r@ == (WorkView {
                config: config@,
                error: seq![],
                status: None,
                pending_adds: seq![],
            }),
    {
        let r = WorkState {
            config,
            error: String::new(),
            status: None,
            pending_adds: Vec::new(),
        };
        assert(r@.error =~= seq![]);
        assert(r@.pending_adds =~= seq![]);
        r
    }

    /// What the window shows now.
    pub fn frame(&self) -> (frame: FrameState)
        ensures
            frame@ == frame_of(self@),
    {
        let status = match &self.status {
            Some(status) => Some(
                StatusSnapshot {
                    connected: status.connected,
                    error: text::copy_option(&status.error),
                    channels: copy_rows(&status.channels),
                    pending_adds: text::copy_texts(&self.pending_adds),
                },
            ),
            None => None,
        };
        FrameState { config: self.config.clone(), status, error: self.error.clone() }
    }

    /// Shows the state.
    pub fn push_frame(&self) -> (effects: Vec<WorkEffect>)
        ensures
            effect_views(effects@) == seq![WorkEffectView::Frame(frame_of(self@))],
    {
        let mut effects: Vec<WorkEffect> = Vec::new();
        effects.push(WorkEffect::Frame(self.frame()));
        assert(effect_views(effects@) =~= seq![WorkEffectView::Frame(frame_of(self@))]);
        effects
    }

    /// Forgets the error.
    pub fn clear_error(&mut self) -> (effects: Vec<WorkEffect>)
        ensures
            final(self)@ == (WorkView { error: seq![], ..old(self)@ }),
            effect_views(effects@) == seq![WorkEffectView::Frame(frame_of(final(self)@))],
    {
        self.error = String::new();
        assert(self@.error =~= seq![]);
        self.push_frame()
    }

    /// The settings.
    pub fn config_snapshot(&self) -> (config: &Config)
        ensures
            config@ == self@.config,
    {
        &self.config
    }

    /// Takes over the state of the session.
    pub fn set_status(&mut self, status: Status) -> (effects: Vec<WorkEffect>)
        ensures
            final(self)@ == (WorkView { status: Some(status@), ..old(self)@ }),
            effect_views(effects@) == seq![WorkEffectView::Frame(frame_of(final(self)@))],
    {
        self.status = Some(status);
        self.push_frame()
    }

    /// Hands an action of the tray on.
    pub fn forward_tray(&self, action: TrayAction) -> (effects: Vec<WorkEffect>)
        ensures
            effect_views(effects@) == seq![WorkEffectView::Tray(action)],
    {
        let mut effects: Vec<WorkEffect> = Vec::new();
        effects.push(WorkEffect::Tray(action));
        assert(effect_views(effects@) =~= seq![WorkEffectView::Tray(action)]);
        effects
    }

    fn set_error(&mut self, message: String) -> (effects: Vec<WorkEffect>)
        ensures
            final(self)@ == (WorkView { error: message@, ..old(self)@ }),
            effect_views(effects@) == seq![WorkEffectView::Frame(frame_of(final(self)@))],
    {
        self.error = message;
        self.push_frame()
    }
}

/// Some text of the list equals `s`, but for the case of ASCII letters.
pub open spec fn lists_text(list: Seq<Seq<char>>, s: Seq<char>) -> bool {
    exists|i: int| 0 <= i < list.len() && text::same_ignoring_case(#[trigger] list[i], s)
}

/// Some channel of the settings has the login.
pub open spec fn lists_login(channels: Seq<ChannelView>, login: Seq<char>) -> bool {
    exists|i: int|
        0 <= i < channels.len() && text::same_ignoring_case((#[trigger] channels[i]).login, login)
}

/// Some channel of the settings has the identifier.
pub open spec fn lists_id(channels: Seq<ChannelView>, id: u64) -> bool {
    exists|i: int| 0 <= i < channels.len() && (#[trigger] channels[i]).id == id
}

/// A login as it is looked up: without space around it, in small letters.
pub open spec fn normalized(login: Seq<char>) -> Seq<char> {
    text::lowercased(text::trimmed(login))
}

/// A login that is worth looking up: it is not empty, not in the settings, and not being looked
/// up.
pub open spec fn worth_adding(w: WorkView, login: Seq<char>) -> bool {
    login.len() > 0 && !lists_login(w.config.channels, login) && !lists_text(w.pending_adds, login)
}

/// The state while a login is being looked up: the error is gone.
pub open spec fn begun(w: WorkView, name: Seq<char>) -> WorkView {
    WorkView { error: seq![], pending_adds: w.pending_adds.push(name), ..w }
}

/// Keeps the texts other than `s`, case of ASCII letters aside.
pub open spec fn other_texts(s: Seq<char>) -> spec_fn(Seq<char>) -> bool {
    |t: Seq<char>| !text::same_ignoring_case(t, s)
}

/// Keeps the channels other than that with the identifier.
pub open spec fn other_ids(id: u64) -> spec_fn(ChannelView) -> bool {
    |c: ChannelView| c.id != id
}

/// Keeps the channels whose identifier is not among `ids`.
pub open spec fn not_among(ids: Seq<u64>) -> spec_fn(ChannelView) -> bool {
    |c: ChannelView| !ids.contains(c.id)
}

/// Keeps the channels with another login.
pub open spec fn other_logins(login: Seq<char>) -> spec_fn(ChannelView) -> bool {
    |c: ChannelView| !text::same_ignoring_case(c.login, login)
}

/// The first user with the login.
pub open spec fn first_named(users: Seq<UserView>, login: Seq<char>) -> Option<UserView>
    decreases users.len(),
{
    if users.len() == 0 {
        None
    } else if text::same_ignoring_case(users[0].channel_name, login) {
        Some(users[0])
    } else {
        first_named(users.drop_first(), login)
    }
}

/// The channel of a user, as the settings keep it.
pub open spec fn channel_of(user: UserView) -> ChannelView {
    ChannelView {
        login: user.channel_name,
        id: user.channel_id,
        display_name: Some(user.channel_display_name),
    }
}

pub open spec fn resolve_failed_text(login: Seq<char>, error: Seq<char>) -> Seq<char> {
    "failed to resolve "@ + login + ": "@ + error
}

/// The state with other channels in the settings.
pub open spec fn with_channels(w: WorkView, channels: Seq<ChannelView>) -> WorkView {
    WorkView { config: ConfigView { channels, ..w.config }, ..w }
}

/// The state with settings of the current layout.
pub open spec fn stamped(w: WorkView) -> WorkView {
    WorkView { config: ConfigView { version: Config::VERSION, ..w.config }, ..w }
}

/// The state without the login among those that are being looked up.
pub open spec fn looked_up(w: WorkView, login: Seq<char>) -> WorkView {
    WorkView { pending_adds: w.pending_adds.filter(other_texts(login)), ..w }
}

pub(crate) fn contains_text(list: &Vec<String>, s: &str) -> (r: bool)
    ensures
        r == lists_text(text::views(list@), s@),
{
    let ghost all = text::views(list@);
    let mut i: usize = 0;
    while i < list.len()
        invariant
            i <= list@.len(),
            all == text::views(list@),
            forall|k: int| 0 <= k < i ==> !text::same_ignoring_case(#[trigger] all[k], s@),
        decreases list@.len() - i,
    {
        assert(all[i as int] == list@[i as int]@);
        if text::eq_ignore_ascii_case(list[i].as_str(), s) {
            return true;
        }
        i = i + 1;
    }
    false
}

pub(crate) fn contains_login(channels: &Vec<Channel>, login: &str) -> (r: bool)
    ensures
        r == lists_login(config::channel_views(channels@), login@),
{
    let ghost all = config::channel_views(channels@);
    let mut i: usize = 0;
    while i < channels.len()
        invariant
            i <= channels@.len(),
            all == config::channel_views(channels@),
            forall|k: int|
                0 <= k < i ==> !text::same_ignoring_case((#[trigger] all[k]).login, login@),
        decreases channels@.len() - i,
    {
        assert(all[i as int].login == channels@[i as int].login@);
        if text::eq_ignore_ascii_case(channels[i].login.as_str(), login) {
            return true;
        }
        i = i + 1;
    }
    false
}

pub(crate) fn contains_channel(channels: &Vec<Channel>, id: u64) -> (r: bool)
    ensures
        r == lists_id(config::channel_views(channels@), id),
{
    let ghost all = config::channel_views(channels@);
    let mut i: usize = 0;
    while i < channels.len()
        invariant
            i <= channels@.len(),
            all == config::channel_views(channels@),
            forall|k: int| 0 <= k < i ==> (#[trigger] all[k]).id != id,
        decreases channels@.len() - i,
    {
        assert(all[i as int].id == channels@[i as int].id);
        if channels[i].id == id {
            return true;
        }
        i = i + 1;
    }
    false
}

pub(crate) fn without_text(list: Vec<String>, s: &str) -> (r: Vec<String>)
    ensures
        text::views(r@) == text::views(list@).filter(other_texts(s@)),
{
    let ghost all = text::views(list@);
    let ghost keep = other_texts(s@);
    let mut r: Vec<String> = Vec::new();
    proof {
        reveal(Seq::filter);
        assert(all.take(0) =~= seq![]);
        assert(text::views(r@) =~= seq![]);
    }
    for item in it: list
        invariant
            all == text::views(it.seq()),
            keep == other_texts(s@),
            text::views(r@) == all.take(it.index() as int).filter(keep),
    {
        let ghost i = it.index() as int;
        let ghost before = r@;
        proof {
            reveal(Seq::filter);
            assert(all.take(i + 1).drop_last() =~= all.take(i));
            assert(all.take(i + 1).last() == item@);
        }
        if !text::eq_ignore_ascii_case(item.as_str(), s) {
            r.push(item);
            assert(text::views(r@) =~= text::views(before).push(item@));
        }
    }
    assert(all.take(all.len() as int) =~= all);
    r
}

fn without_id(channels: Vec<Channel>, id: u64) -> (r: Vec<Channel>)
    ensures
        config::channel_views(r@) == config::channel_views(channels@).filter(other_ids(id)),
{
    let ghost all = config::channel_views(channels@);
    let ghost keep = other_ids(id);
    let mut r: Vec<Channel> = Vec::new();
    proof {
        reveal(Seq::filter);
        assert(all.take(0) =~= seq![]);
        assert(config::channel_views(r@) =~= seq![]);
    }
    for channel in it: channels
        invariant
            all == config::channel_views(it.seq()),
            keep == other_ids(id),
            config::channel_views(r@) == all.take(it.index() as int).filter(keep),
    {
        let ghost i = it.index() as int;
        let ghost before = r@;
        proof {
            reveal(Seq::filter);
            assert(all.take(i + 1).drop_last() =~= all.take(i));
            assert(all.take(i + 1).last() == channel@);
        }
        if channel.id != id {
            r.push(channel);
            assert(config::channel_views(r@) =~= config::channel_views(before).push(channel@));
        }
    }
    assert(all.take(all.len() as int) =~= all);
    r
}

fn is_among(ids: &[u64], id: u64) -> (r: bool)
    ensures
        r == ids@.contains(id),
{
    let mut i: usize = 0;
    while i < ids.len()
        invariant
            i <= ids@.len(),
            forall|k: int| 0 <= k < i ==> ids@[k] != id,
        decreases ids@.len() - i,
    {
        if ids[i] == id {
            return true;
        }
        i = i + 1;
    }
    false
}

fn without_ids(channels: Vec<Channel>, ids: &[u64]) -> (r: Vec<Channel>)
    ensures
        config::channel_views(r@) == config::channel_views(channels@).filter(not_among(ids@)),
{
    let ghost all = config::channel_views(channels@);
    let ghost keep = not_among(ids@);
    let mut r: Vec<Channel> = Vec::new();
    proof {
        reveal(Seq::filter);
        assert(all.take(0) =~= seq![]);
        assert(config::channel_views(r@) =~= seq![]);
    }
    for channel in it: channels
        invariant
            all == config::channel_views(it.seq()),
            keep == not_among(ids@),
            config::channel_views(r@) == all.take(it.index() as int).filter(keep),
    {
        let ghost i = it.index() as int;
        let ghost before = r@;
        proof {
            reveal(Seq::filter);
            assert(all.take(i + 1).drop_last() =~= all.take(i));
            assert(all.take(i + 1).last() == channel@);
        }
        if !is_among(ids, channel.id) {
            r.push(channel);
            assert(config::channel_views(r@) =~= config::channel_views(before).push(channel@));
        }
    }
    assert(all.take(all.len() as int) =~= all);
    r
}

pub(crate) fn without_login(channels: Vec<Channel>, login: &str) -> (r: Vec<Channel>)
    ensures
        config::channel_views(r@) == config::channel_views(channels@).filter(
            other_logins(login@),
        ),
{
    let ghost all = config::channel_views(channels@);
    let ghost keep = other_logins(login@);
    let mut r: Vec<Channel> = Vec::new();
    proof {
        reveal(Seq::filter);
        assert(all.take(0) =~= seq![]);
        assert(config::channel_views(r@) =~= seq![]);
    }
    for channel in it: channels
        invariant
            all == config::channel_views(it.seq()),
            keep == other_logins(login@),
            config::channel_views(r@) == all.take(it.index() as int).filter(keep),
    {
        let ghost i = it.index() as int;
        let ghost before = r@;
        proof {
            reveal(Seq::filter);
            assert(all.take(i + 1).drop_last() =~= all.take(i));
            assert(all.take(i + 1).last() == channel@);
        }
        if !text::eq_ignore_ascii_case(channel.login.as_str(), login) {
            r.push(channel);
            assert(config::channel_views(r@) =~= config::channel_views(before).push(channel@));
        }
    }
    assert(all.take(all.len() as int) =~= all);
    r
}

pub(crate) fn take_named(users: Vec<User>, login: &str) -> (r: Option<User>)
    ensures
        first_named(gql::user_views(users@), login@) == (match r {
            Some(user) => Some(user@),
            None => None,
        }),
{
    let ghost all = gql::user_views(users@);
    assert(all.skip(0) =~= all);
    for user in it: users
        invariant
            all == gql::user_views(it.seq()),
            first_named(all, login@) == first_named(all.skip(it.index() as int), login@),
    {
        let ghost i = it.index() as int;
        assert(all.skip(i)[0] == user@);
        assert(all.skip(i).drop_first() =~= all.skip(i + 1));
        if text::eq_ignore_ascii_case(user.channel_name.as_str(), login) {
            return Some(user);
        }
    }
    assert(all.skip(all.len() as int) =~= seq![]);
    None
}

fn resolve_failed(login: &str, error: &str) -> (r: String)
    ensures
        r@ == resolve_failed_text(login@, error@),
{
    let mut r: String = "failed to resolve ".to_string();
    r.append(login);
    r.append(": ");
    r.append(error);
    r
}

/// Settings are handed over for writing, with the command that follows.
pub open spec fn saves(save: PendingSave, w: WorkView, forward: CommandView) -> bool {
    save.config@ == w.config && save.forward@ == forward
}

/// What settings that may have to be written hold, with the command that follows.
pub open spec fn save_view(save: Option<PendingSave>) -> Option<(ConfigView, CommandView)> {
    match save {
        Some(save) => Some((save.config@, save.forward@)),
        None => None,
    }
}

/// What settings that may have to be written hold.
pub open spec fn config_view(config: Option<Config>) -> Option<ConfigView> {
    match config {
        Some(config) => Some(config@),
        None => None,
    }
}

/// What came of writing settings: nothing, or an error.
pub open spec fn outcome(result: Result<(), String>) -> Option<Seq<char>> {
    match result {
        Ok(_) => None,
        Err(error) => Some(error@),
    }
}

/// What beginning to add a login does.
pub open spec fn begun_step(
    w: WorkView,
    name: Seq<char>,
    after: WorkView,
    lookup: Option<Seq<char>>,
    effects: Seq<WorkEffectView>,
) -> bool {
    if worth_adding(w, name) {
        &&& after == begun(w, name)
        &&& lookup == Some(name)
        &&& effects == seq![WorkEffectView::Frame(frame_of(after))]
    } else {
        after == w && lookup is None && effects.len() == 0
    }
}

/// What looking a login up does.
pub open spec fn added_step(
    w: WorkView,
    login: Seq<char>,
    result: Result<Seq<UserView>, Seq<char>>,
    after: WorkView,
    save: Option<(ConfigView, CommandView)>,
    effects: Seq<WorkEffectView>,
) -> bool {
    let base = looked_up(w, login);
    match result {
        Ok(users) => match first_named(users, login) {
            Some(user) => if lists_id(base.config.channels, user.channel_id) {
                &&& after == base
                &&& save is None
                &&& effects == seq![WorkEffectView::Frame(frame_of(after))]
            } else {
                &&& after == stamped(
                    with_channels(base, base.config.channels.push(channel_of(user))),
                )
                &&& save == Some((after.config, CommandView::AddChannel(user.channel_name)))
                &&& effects.len() == 0
            },
            None => {
                &&& after == (WorkView { error: hermes::not_found_text(login), ..base })
                &&& save is None
                &&& effects == seq![
                    WorkEffectView::Frame(frame_of(after)),
                    WorkEffectView::Frame(frame_of(after)),
                ]
            },
        },
        Err(error) => {
            &&& after == (WorkView { error: resolve_failed_text(login, error), ..base })
            &&& save is None
            &&& effects == seq![
                WorkEffectView::Frame(frame_of(after)),
                WorkEffectView::Frame(frame_of(after)),
            ]
        },
    }
}

/// What writing settings leads to.
pub open spec fn committed_step(
    w: WorkView,
    forward: CommandView,
    error: Option<Seq<char>>,
    after: WorkView,
    effects: Seq<WorkEffectView>,
) -> bool {
    match error {
        None => {
            &&& after == w
            &&& effects == seq![
                WorkEffectView::Forward(forward),
                WorkEffectView::Frame(frame_of(after)),
            ]
        },
        Some(error) => {
            &&& after == (WorkView { error, ..w })
            &&& effects == seq![WorkEffectView::Frame(frame_of(after))]
        },
    }
}

/// What leaving channels out of the settings does, if `kept` are left.
pub open spec fn pruned_step(
    w: WorkView,
    kept: Seq<ChannelView>,
    after: WorkView,
    save: Option<ConfigView>,
) -> bool {
    if kept.len() == w.config.channels.len() {
        after == w && save is None
    } else {
        after == stamped(with_channels(w, kept)) && save == Some(after.config)
    }
}

impl WorkState {
    /// Begins to add a login that has its final form. Gives the login to look up; nothing where it
    /// is not worth it.
    pub fn begin_add_normalized(&mut self, name: String) -> (r: (Option<String>, Vec<WorkEffect>))
        ensures
            begun_step(old(self)@, name@, final(self)@, text::opt(r.0), effect_views(r.1@)),
    {
        if name.as_str().is_empty() || contains_login(&self.config.channels, name.as_str())
            || contains_text(&self.pending_adds, name.as_str()) {
            return (None, Vec::new());
        }
        let ghost before = self.pending_adds@;
        self.pending_adds.push(name.clone());
        self.error = String::new();
        assert(text::views(self.pending_adds@) =~= text::views(before).push(name@));
        assert(self@.error =~= seq![]);
        let effects = self.push_frame();
        (Some(name), effects)
    }

    /// Begins to add a login as it was typed.
    pub fn begin_add_login(&mut self, login: &str) -> (r: (Option<String>, Vec<WorkEffect>))
        ensures
            begun_step(
                old(self)@,
                normalized(login@),
                final(self)@,
                text::opt(r.0),
                effect_views(r.1@),
            ),
    {
        self.begin_add_normalized(text::to_lowercase(text::trim(login).as_str()))
    }

    fn forget_pending(&mut self, login: &str)
        ensures
            final(self)@ == looked_up(old(self)@, login@),
    {
        let mut list: Vec<String> = Vec::new();
        std::mem::swap(&mut list, &mut self.pending_adds);
        self.pending_adds = without_text(list, login);
    }

    fn stage_save(&mut self, forward: Command) -> (save: PendingSave)
        ensures
            final(self)@ == stamped(old(self)@),
            saves(save, final(self)@, forward@),
    {
        self.config.version = Config::VERSION;
        PendingSave { config: self.config.clone(), forward }
    }

    /// Goes on when a login has been looked up: a channel that was found enters the settings,
    /// which are to be written; for an unknown login there is only an error.
    pub fn finish_add_login(
        &mut self,
        login: String,
        result: Result<Vec<User>, String>,
    ) -> (r: (Option<PendingSave>, Vec<WorkEffect>))
        ensures
            added_step(
                old(self)@,
                login@,
                gql::lookup_view(result),
                final(self)@,
                save_view(r.0),
                effect_views(r.1@),
            ),
    {
        self.forget_pending(login.as_str());
        match result {
            Ok(users) => {
                match take_named(users, login.as_str()) {
                    Some(user) => {
                        if contains_channel(&self.config.channels, user.channel_id) {
                            let effects = self.push_frame();
                            return (None, effects);
                        }
                        let ghost before = self.config.channels@;
                        let forward = Command::AddChannel(user.channel_name.clone());
                        let channel = Channel {
                            login: user.channel_name,
                            id: user.channel_id,
                            display_name: Some(user.channel_display_name),
                        };
                        let ghost added = channel@;
                        self.config.channels.push(channel);
                        assert(config::channel_views(self.config.channels@)
                            =~= config::channel_views(before).push(added));
                        let save = self.stage_save(forward);
                        (Some(save), Vec::new())
                    },
                    None => {
                        let mut effects = self.set_error(hermes::not_found(login.as_str()));
                        let ghost before = effects@;
                        effects.push(WorkEffect::Frame(self.frame()));
                        assert(effect_views(effects@) =~= effect_views(before).push(
                            WorkEffectView::Frame(frame_of(self@)),
                        ));
                        assert(effect_views(effects@) =~= seq![
                            WorkEffectView::Frame(frame_of(self@)),
                            WorkEffectView::Frame(frame_of(self@)),
                        ]);
                        (None, effects)
                    },
                }
            },
            Err(error) => {
                let mut effects = self.set_error(resolve_failed(login.as_str(), error.as_str()));
                let ghost before = effects@;
                effects.push(WorkEffect::Frame(self.frame()));
                assert(effect_views(effects@) =~= effect_views(before).push(
                    WorkEffectView::Frame(frame_of(self@)),
                ));
                assert(effect_views(effects@) =~= seq![
                    WorkEffectView::Frame(frame_of(self@)),
                    WorkEffectView::Frame(frame_of(self@)),
                ]);
                (None, effects)
            },
        }
    }

    /// Goes on when settings have been written: the command goes out and the state is shown. If
    /// they could not be written, the error is shown.
    pub fn commit_save(&mut self, save: PendingSave, result: Result<(), String>) -> (effects: Vec<
        WorkEffect,
    >)
        ensures
            committed_step(
                old(self)@,
                save.forward@,
                outcome(result),
                final(self)@,
                effect_views(effects@),
            ),
    {
        match result {
            Ok(_) => {
                let mut effects: Vec<WorkEffect> = Vec::new();
                effects.push(WorkEffect::Forward(save.forward));
                effects.push(WorkEffect::Frame(self.frame()));
                assert(effect_views(effects@) =~= seq![
                    WorkEffectView::Forward(save.forward@),
                    WorkEffectView::Frame(frame_of(self@)),
                ]);
                effects
            },
            Err(error) => self.set_error(error),
        }
    }

    /// Takes a channel out of the settings.
    pub fn apply_remove_channel(&mut self, id: u64) -> (save: PendingSave)
        ensures
            final(self)@ == stamped(
                with_channels(
                    old(self)@,
                    old(self)@.config.channels.filter(other_ids(id)),
                ),
            ),
            saves(save, final(self)@, CommandView::RemoveChannel(id)),
    {
        let mut channels: Vec<Channel> = Vec::new();
        std::mem::swap(&mut channels, &mut self.config.channels);
        self.config.channels = without_id(channels, id);
        self.stage_save(Command::RemoveChannel(id))
    }

    /// Sets whether new titles are announced.
    pub fn apply_notify_title_changes(&mut self, value: bool) -> (save: PendingSave)
        ensures
            final(self)@ == stamped(
                (WorkView {
                    config: (ConfigView { notify_title_changes: value, ..old(self)@.config }),
                    ..old(self)@
                }),
            ),
            saves(save, final(self)@, CommandView::SetNotifyTitleChanges(value)),
    {
        self.config.notify_title_changes = value;
        self.stage_save(Command::SetNotifyTitleChanges(value))
    }

    /// Sets whether notifications make a sound.
    pub fn apply_sound(&mut self, value: bool) -> (save: PendingSave)
        ensures
            final(self)@ == stamped(
                (WorkView {
                    config: (ConfigView { sound: value, ..old(self)@.config }),
                    ..old(self)@
                }),
            ),
            saves(save, final(self)@, CommandView::SetSound(value)),
    {
        self.config.sound = value;
        self.stage_save(Command::SetSound(value))
    }

    /// Takes channels that are gone out of the settings. Gives the settings to write; nothing
    /// where none of them was there.
    pub fn apply_prune_ids(&mut self, ids: &[u64]) -> (save: Option<Config>)
        ensures
            pruned_step(
                old(self)@,
                old(self)@.config.channels.filter(not_among(ids@)),
                final(self)@,
                config_view(save),
            ),
    {
        let ghost start = self@;
        let before: usize = self.config.channels.len();
        let mut channels: Vec<Channel> = Vec::new();
        std::mem::swap(&mut channels, &mut self.config.channels);
        self.config.channels = without_ids(channels, ids);
        proof {
            lemma_full_filter(start.config.channels, not_among(ids@));
        }
        if self.config.channels.len() == before {
            assert(self@ =~= start);
            return None;
        }
        self.config.version = Config::VERSION;
        Some(self.config.clone())
    }

    /// Goes on when settings without the channels that are gone have been written: the error
    /// says that they are gone, or why they could not be written.
    pub fn finish_prune_ids(&mut self, result: Result<(), String>) -> (effects: Vec<WorkEffect>)
        ensures
            final(self)@ == (WorkView {
                error: match result {
                    Ok(_) => hermes::gone_text(),
                    Err(error) => error@,
                },
                ..old(self)@
            }),
            effect_views(effects@) == seq![WorkEffectView::Frame(frame_of(final(self)@))],
    {
        match result {
            Ok(_) => self.set_error("a channel no longer resolves and was removed".to_string()),
            Err(error) => self.set_error(error),
        }
    }

    /// Takes a login that names no channel out of the settings. Gives the settings to write;
    /// nothing where it was not there, as with a login that was never added.
    pub fn apply_prune_login(&mut self, login: &str) -> (save: Option<Config>)
        ensures
            pruned_step(
                old(self)@,
                old(self)@.config.channels.filter(other_logins(login@)),
                final(self)@,
                config_view(save),
            ),
    {
        let ghost start = self@;
        let before: usize = self.config.channels.len();
        let mut channels: Vec<Channel> = Vec::new();
        std::mem::swap(&mut channels, &mut self.config.channels);
        self.config.channels = without_login(channels, login);
        proof {
            lemma_full_filter(start.config.channels, other_logins(login@));
        }
        if self.config.channels.len() == before {
            assert(self@ =~= start);
            return None;
        }
        self.config.version = Config::VERSION;
        Some(self.config.clone())
    }

    /// Goes on when settings without the login have been written, or need not be.
    pub fn finish_prune_login(&mut self, login: &str, result: Result<(), String>) -> (effects: Vec<
        WorkEffect,
    >)
        ensures
            final(self)@ == (WorkView {
                error: match result {
                    Ok(_) => hermes::not_found_text(login@),
                    Err(error) => error@,
                },
                ..old(self)@
            }),
            effect_views(effects@) == seq![WorkEffectView::Frame(frame_of(final(self)@))],
    {
        match result {
            Ok(_) => self.set_error(hermes::not_found(login)),
            Err(error) => self.set_error(error),
        }
    }
}

/// A filter that drops nothing changes nothing.
proof fn lemma_full_filter<A>(s: Seq<A>, keep: spec_fn(A) -> bool)
    ensures
        s.filter(keep).len() <= s.len(),
        s.filter(keep).len() == s.len() ==> s.filter(keep) == s,
    decreases s.len(),
{
    reveal(Seq::filter);
    if s.len() > 0 {
        lemma_full_filter(s.drop_last(), keep);
        assert(s =~= s.drop_last().push(s.last()));
    }
}

} // verus!
