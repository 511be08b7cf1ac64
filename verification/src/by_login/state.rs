//! The state of the program behind the window: settings, status and errors.

use vstd::prelude::*;

use crate::by_login::config::{Config, ConfigView};
use crate::by_login::hermes;
use crate::by_login::hermes::{ChannelEntry, Command, EntryView, StatusEvent};
use crate::config;
use crate::config::{Channel, ChannelView};
use crate::gql;
use crate::gql::{User, UserView};
use crate::hermes::StatusView;
use crate::state;
use crate::text;
use crate::tray::TrayAction;

verus! {

/// What the window asks for.
pub enum UiIntent {
    AddLogin(String),
    RemoveLogin(String),
    SetNotifyTitleChanges(bool),
    SetSound(bool),
}

pub struct EventView {
    pub status: StatusView,
    pub unresolved: Seq<Seq<char>>,
}

impl View for StatusEvent {
    type V = EventView;

    open spec fn view(&self) -> EventView {
        EventView {
            status: StatusView {
                connected: self.connected,
                error: text::opt(self.error),
                channels: crate::hermes::row_views(self.channels@),
            },
            unresolved: text::views(self.unresolved@),
        }
    }
}

pub open spec fn event_view(event: Option<StatusEvent>) -> Option<EventView> {
    match event {
        Some(e) => Some(e@),
        None => None,
    }
}

/// What the window shows.
#[derive(Debug)]
pub struct FrameState {
    pub config: Config,
    pub status: Option<StatusEvent>,
    pub error: String,
}

#[verifier::ext_equal]
pub struct FrameStateView {
    pub config: ConfigView,
    pub status: Option<EventView>,
    pub error: Seq<char>,
}

impl View for FrameState {
    type V = FrameStateView;

    open spec fn view(&self) -> FrameStateView {
        FrameStateView {
            config: self.config@,
            status: event_view(self.status),
            error: self.error@,
        }
    }
}

impl Clone for StatusEvent {
    fn clone(&self) -> (r: StatusEvent)
        ensures
            r@ == self@,
    {
        StatusEvent {
            connected: self.connected,
            error: text::copy_option(&self.error),
            channels: state::copy_rows(&self.channels),
            unresolved: text::copy_texts(&self.unresolved),
        }
    }
}

impl Clone for FrameState {
    fn clone(&self) -> (r: FrameState)
        ensures
            r@ == self@,
    {
        FrameState {
            config: self.config.clone(),
            status: match &self.status {
                Some(event) => Some(event.clone()),
                None => None,
            },
            error: self.error.clone(),
        }
    }
}

pub enum CommandView {
    AddChannel(EntryView),
    RemoveChannel(Seq<char>),
    SetNotifyTitleChanges(bool),
    SetSound(bool),
}

impl View for Command {
    type V = CommandView;

    open spec fn view(&self) -> CommandView {
        match *self {
            Command::AddChannel(entry) => CommandView::AddChannel(entry@),
            Command::RemoveChannel(login) => CommandView::RemoveChannel(login@),
            Command::SetNotifyTitleChanges(value) => CommandView::SetNotifyTitleChanges(value),
            Command::SetSound(value) => CommandView::SetSound(value),
        }
    }
}

/// What is to be done outside the state, in order.
pub enum WorkEffect {
    Frame(FrameState),
    Forward(Command),
    Tray(TrayAction),
}

pub enum WorkEffectView {
    Frame(FrameStateView),
    Forward(CommandView),
    Tray(TrayAction),
}

impl View for WorkEffect {
    type V = WorkEffectView;

    open spec fn view(&self) -> WorkEffectView {
        match *self {
            WorkEffect::Frame(frame) => WorkEffectView::Frame(frame@),
            WorkEffect::Forward(command) => WorkEffectView::Forward(command@),
            WorkEffect::Tray(action) => WorkEffectView::Tray(action),
        }
    }
}

/// What effects hold.
pub open spec fn effect_views(effects: Seq<WorkEffect>) -> Seq<WorkEffectView> {
    Seq::new(effects.len(), |i: int| effects[i]@)
}

/// Settings that are to be written, and the command that follows once they are.
pub struct PendingSave {
    pub config: Config,
    pub forward: Command,
}

/// Settings are handed over for writing, with the command that follows.
pub open spec fn saves(save: PendingSave, config: ConfigView, forward: CommandView) -> bool {
    save.config@ == config && save.forward@ == forward
}

/// Settings, status and errors. The window shows all of it.
pub struct WorkState {
    config: Config,
    error: String,
    status: Option<StatusEvent>,
}

impl View for WorkState {
    type V = FrameStateView;

    closed spec fn view(&self) -> FrameStateView {
        FrameStateView {
            config: self.config@,
            status: event_view(self.status),
            error: self.error@,
        }
    }
}

/// The entry of a channel of the settings.
pub open spec fn entry_of(channel: ChannelView) -> EntryView {
    EntryView { login: channel.login, id: Some(channel.id), display_name: channel.display_name }
}

/// The entry of a login that was not found.
pub open spec fn bare_entry(login: Seq<char>) -> EntryView {
    EntryView { login, id: None, display_name: None }
}

/// The entry of a channel of the settings.
pub fn entry(channel: &Channel) -> (r: ChannelEntry)
    ensures
        r@ == entry_of(channel@),
{
    ChannelEntry {
        login: channel.login.clone(),
        id: Some(channel.id),
        display_name: text::copy_option(&channel.display_name),
    }
}

/// The commands that the session starts with: one entry for each channel of the settings, then
/// the preferences.
pub open spec fn seed_commands(config: ConfigView) -> Seq<CommandView> {
    Seq::new(
        config.channels.len(),
        |i: int| CommandView::AddChannel(entry_of(config.channels[i])),
    ) + seq![
        CommandView::SetNotifyTitleChanges(config.notify_title_changes),
        CommandView::SetSound(config.sound),
    ]
}

/// What commands hold.
pub open spec fn command_views(commands: Seq<Command>) -> Seq<CommandView> {
    Seq::new(commands.len(), |i: int| commands[i]@)
}

/// The commands that the session starts with.
pub fn startup_commands(config: &Config) -> (commands: Vec<Command>)
    ensures
        command_views(commands@) == seed_commands(config@),
{
    let mut commands: Vec<Command> = Vec::new();
    for i in 0..config.channels.len()
        invariant
            commands@.len() == i,
            forall|k: int|
                0 <= k < i ==> (#[trigger] commands@[k])@ == CommandView::AddChannel(
                    entry_of(config@.channels[k]),
                ),
    {
        commands.push(Command::AddChannel(entry(&config.channels[i])));
    }
    commands.push(Command::SetNotifyTitleChanges(config.notify_title_changes));
    commands.push(Command::SetSound(config.sound));
    assert(command_views(commands@) =~= seed_commands(config@));
    commands
}

/// The settings of the current layout.
pub open spec fn stamped(config: ConfigView) -> ConfigView {
    ConfigView { version: Config::VERSION, ..config }
}

/// The settings with one more channel.
pub open spec fn with_channel(config: ConfigView, user: UserView) -> ConfigView {
    ConfigView { channels: config.channels.push(state::channel_of(user)), ..config }
}

/// The settings without the channels of a login.
pub open spec fn without_login(config: ConfigView, login: Seq<char>) -> ConfigView {
    ConfigView { channels: config.channels.filter(state::other_logins(login)), ..config }
}

/// The user of a lookup that has the login; none where the lookup failed.
pub open spec fn resolved_in(result: Result<Vec<User>, String>, login: Seq<char>) -> Option<
    UserView,
> {
    match result {
        Ok(users) => state::first_named(gql::user_views(users@), login),
        Err(_) => None,
    }
}

/// The user of a lookup that has the login.
pub fn resolve(result: Result<Vec<User>, String>, login: &str) -> (r: Option<User>)
    ensures
        resolved_in(result, login@) == (match r {
            Some(user) => Some(user@),
            None => None,
        }),
{
    match result {
        Ok(users) => state::take_named(users, login),
        Err(_) => None,
    }
}

impl WorkState {
    /// The state at the start.
    pub fn new(config: Config) -> (r: WorkState)
        ensures
            r@ == (FrameStateView { config: config@, status: None, error: seq![] }),
    {
        let r = WorkState { config, error: String::new(), status: None };
        assert(r@.error =~= seq![]);
        r
    }

    fn frame(&self) -> (frame: FrameState)
        ensures
            frame@ == self@,
    {
        let status = match &self.status {
            Some(event) => Some(event.clone()),
            None => None,
        };
        FrameState { config: self.config.clone(), status, error: self.error.clone() }
    }

    fn push_frame(&self) -> (effects: Vec<WorkEffect>)
        ensures
            effect_views(effects@) == seq![WorkEffectView::Frame(self@)],
    {
        let mut effects: Vec<WorkEffect> = Vec::new();
        effects.push(WorkEffect::Frame(self.frame()));
        assert(effect_views(effects@) =~= seq![WorkEffectView::Frame(self@)]);
        effects
    }

    /// Tells the session what it starts with, and shows the state.
    pub fn seed(&self) -> (effects: Vec<WorkEffect>)
        ensures
            effect_views(effects@) == Seq::new(
                seed_commands(self@.config).len(),
                |i: int| WorkEffectView::Forward(seed_commands(self@.config)[i]),
            ).push(WorkEffectView::Frame(self@)),
    {
        let commands = startup_commands(&self.config);
        let ghost all = seed_commands(self@.config);
        let mut effects: Vec<WorkEffect> = Vec::new();
        for command in it: commands
            invariant
                all == command_views(it.seq()),
                effects@.len() == it.index(),
                forall|k: int|
                    0 <= k < it.index() ==> (#[trigger] effects@[k])@ == WorkEffectView::Forward(
                        all[k],
                    ),
        {
            assert(all[it.index() as int] == command@);
            effects.push(WorkEffect::Forward(command));
        }
        effects.push(WorkEffect::Frame(self.frame()));
        assert(effect_views(effects@) =~= Seq::new(
            all.len(),
            |i: int| WorkEffectView::Forward(all[i]),
        ).push(WorkEffectView::Frame(self@)));
        effects
    }

    /// Takes over the state of the session.
    pub fn set_status(&mut self, status: StatusEvent) -> (effects: Vec<WorkEffect>)
        ensures
            final(self)@ == (FrameStateView { status: Some(status@), ..old(self)@ }),
            effect_views(effects@) == seq![WorkEffectView::Frame(final(self)@)],
    {
        self.status = Some(status);
        self.push_frame()
    }

    /// Hands an action of the tray on.
    pub fn forward_tray(&self, action: TrayAction) -> (effects: Vec<WorkEffect>)
        ensures
            effect_views(effects@) == seq![WorkEffectView::Tray(action)],
    {
        let mut effects: Vec<WorkEffect> = Vec::new();
        effects.push(WorkEffect::Tray(action));
        assert(effect_views(effects@) =~= seq![WorkEffectView::Tray(action)]);
        effects
    }

    /// Begins to add a login that has its final form. Gives the login to look up; nothing where it
    /// is empty or in the settings.
    pub fn begin_add_normalized(&mut self, name: String) -> (r: (Option<String>, Vec<WorkEffect>))
        ensures
            if name@.len() > 0 && !state::lists_login(old(self)@.config.channels, name@) {
                &&& final(self)@ == (FrameStateView { error: seq![], ..old(self)@ })
                &&& text::opt(r.0) == Some(name@)
                &&& effect_views(r.1@) == seq![WorkEffectView::Frame(final(self)@)]
            } else {
                &&& final(self)@ == old(self)@
                &&& r.0 is None
                &&& r.1@.len() == 0
            },
    {
        if name.as_str().is_empty() || state::contains_login(
            &self.config.channels,
            name.as_str(),
        ) {
            return (None, Vec::new());
        }
        self.error = String::new();
        assert(self@.error =~= seq![]);
        let effects = self.push_frame();
        (Some(name), effects)
    }

    /// Begins to add a login as it was typed.
    pub fn begin_add_login(&mut self, login: &str) -> (r: (Option<String>, Vec<WorkEffect>))
        ensures
            ({
                let name = state::normalized(login@);
                if name.len() > 0 && !state::lists_login(old(self)@.config.channels, name) {
                    &&& final(self)@ == (FrameStateView { error: seq![], ..old(self)@ })
                    &&& text::opt(r.0) == Some(name)
                    &&& effect_views(r.1@) == seq![WorkEffectView::Frame(final(self)@)]
                } else {
                    &&& final(self)@ == old(self)@
                    &&& r.0 is None
                    &&& r.1@.len() == 0
                }
            }),
    {
        self.begin_add_normalized(text::to_lowercase(text::trim(login).as_str()))
    }

    fn stage_save(&mut self, forward: Command) -> (save: PendingSave)
        ensures
            final(self)@ == (FrameStateView {
                config: stamped(old(self)@.config),
                ..old(self)@
            }),
            saves(save, final(self)@.config, forward@),
    {
        self.config.version = Config::VERSION;
        PendingSave { config: self.config.clone(), forward }
    }

    /// Goes on when a login has been looked up: a channel that was found enters the settings,
    /// which are to be written. A login that was not found goes to the session alone, so that it
    /// is shown as not found and never written.
    pub fn finish_add_login(
        &mut self,
        login: String,
        result: Result<Vec<User>, String>,
    ) -> (r: (Option<PendingSave>, Vec<WorkEffect>))
        ensures
            match resolved_in(result, login@) {
                Some(user) => if state::lists_id(old(self)@.config.channels, user.channel_id) {
                    final(self)@ == old(self)@ && r.0 is None && r.1@.len() == 0
                } else {
                    &&& final(self)@ == (FrameStateView {
                        config: stamped(with_channel(old(self)@.config, user)),
                        ..old(self)@
                    })
                    &&& r.0 matches Some(save) && saves(
                        save,
                        final(self)@.config,
                        CommandView::AddChannel(entry_of(state::channel_of(user))),
                    )
                    &&& r.1@.len() == 0
                },
                None => {
                    &&& final(self)@ == old(self)@
                    &&& r.0 is None
                    &&& effect_views(r.1@) == seq![
                        WorkEffectView::Forward(CommandView::AddChannel(bare_entry(login@))),
                        WorkEffectView::Frame(final(self)@),
                    ]
                },
            },
    {
        match resolve(result, login.as_str()) {
            Some(user) => {
                if state::contains_channel(&self.config.channels, user.channel_id) {
                    return (None, Vec::new());
                }
                let ghost before = self.config.channels@;
                let channel = Channel {
                    login: user.channel_name,
                    id: user.channel_id,
                    display_name: Some(user.channel_display_name),
                };
                let ghost added = channel@;
                let forward = Command::AddChannel(entry(&channel));
                self.config.channels.push(channel);
                assert(config::channel_views(self.config.channels@) =~= config::channel_views(
                    before,
                ).push(added));
                let save = self.stage_save(forward);
                (Some(save), Vec::new())
            },
            None => {
                let bare = ChannelEntry { login, id: None, display_name: None };
                let mut effects: Vec<WorkEffect> = Vec::new();
                effects.push(WorkEffect::Forward(Command::AddChannel(bare)));
                effects.push(WorkEffect::Frame(self.frame()));
                assert(effect_views(effects@) =~= seq![
                    WorkEffectView::Forward(CommandView::AddChannel(bare_entry(login@))),
                    WorkEffectView::Frame(self@),
                ]);
                (None, effects)
            },
        }
    }

    /// Takes the channels of a login out of the settings.
    pub fn apply_remove_login(&mut self, login: &str) -> (save: PendingSave)
        ensures
            final(self)@ == (FrameStateView {
                config: stamped(without_login(old(self)@.config, login@)),
                ..old(self)@
            }),
            saves(save, final(self)@.config, CommandView::RemoveChannel(login@)),
    {
        let mut channels: Vec<Channel> = Vec::new();
        std::mem::swap(&mut channels, &mut self.config.channels);
        self.config.channels = state::without_login(channels, login);
        self.stage_save(Command::RemoveChannel(login.to_string()))
    }

    /// Sets whether new titles are announced.
    pub fn apply_notify_title_changes(&mut self, value: bool) -> (save: PendingSave)
        ensures
            final(self)@ == (FrameStateView {
                config: stamped(
                    (ConfigView { notify_title_changes: value, ..old(self)@.config }),
                ),
                ..old(self)@
            }),
            saves(save, final(self)@.config, CommandView::SetNotifyTitleChanges(value)),
    {
        self.config.notify_title_changes = value;
        self.stage_save(Command::SetNotifyTitleChanges(value))
    }

    /// Sets whether notifications make a sound.
    pub fn apply_sound(&mut self, value: bool) -> (save: PendingSave)
        ensures
            final(self)@ == (FrameStateView {
                config: stamped((ConfigView { sound: value, ..old(self)@.config })),
                ..old(self)@
            }),
            saves(save, final(self)@.config, CommandView::SetSound(value)),
    {
        self.config.sound = value;
        self.stage_save(Command::SetSound(value))
    }

    /// Goes on when settings have been written: the command goes out and the state is shown. If
    /// they could not be written, the error is shown.
    pub fn commit_save(&mut self, save: PendingSave, result: Result<(), String>) -> (effects: Vec<
        WorkEffect,
    >)
        ensures
            match result {
                Ok(_) => {
                    &&& final(self)@ == old(self)@
                    &&& effect_views(effects@) == seq![
                        WorkEffectView::Forward(save.forward@),
                        WorkEffectView::Frame(final(self)@),
                    ]
                },
                Err(error) => {
                    &&& final(self)@ == (FrameStateView { error: error@, ..old(self)@ })
                    &&& effect_views(effects@) == seq![WorkEffectView::Frame(final(self)@)]
                },
            },
    {
        match result {
            Ok(_) => {
                let mut effects: Vec<WorkEffect> = Vec::new();
                effects.push(WorkEffect::Forward(save.forward));
                effects.push(WorkEffect::Frame(self.frame()));
                assert(effect_views(effects@) =~= seq![
                    WorkEffectView::Forward(save.forward@),
                    WorkEffectView::Frame(self@),
                ]);
                effects
            },
            Err(error) => {
                self.error = error;
                self.push_frame()
            },
        }
    }
}

/// What is to be done for a wish: effects at once, then perhaps a login to look up
/// ([`WorkState::finish_add_login`] goes on) or settings to write ([`WorkState::commit_save`]
/// goes on).
pub struct Step {
    pub effects: Vec<WorkEffect>,
    pub lookup: Option<String>,
    pub save: Option<PendingSave>,
}

/// The settings after a wish that changes them, and the command that follows.
pub open spec fn changed(config: ConfigView, intent: UiIntent) -> Option<
    (ConfigView, CommandView),
> {
    match intent {
        UiIntent::AddLogin(_) => None,
        UiIntent::RemoveLogin(login) => Some(
            (stamped(without_login(config, login@)), CommandView::RemoveChannel(login@)),
        ),
        UiIntent::SetNotifyTitleChanges(value) => Some(
            (
                stamped(ConfigView { notify_title_changes: value, ..config }),
                CommandView::SetNotifyTitleChanges(value),
            ),
        ),
        UiIntent::SetSound(value) => Some(
            (stamped(ConfigView { sound: value, ..config }), CommandView::SetSound(value)),
        ),
    }
}

/// Carries a wish of the window out.
pub fn handle_intent(work: &mut WorkState, intent: UiIntent) -> (step: Step)
    ensures
        match intent {
            UiIntent::AddLogin(login) => {
                let name = state::normalized(login@);
                &&& step.save is None
                &&& if name.len() > 0 && !state::lists_login(old(work)@.config.channels, name) {
                    &&& final(work)@ == (FrameStateView { error: seq![], ..old(work)@ })
                    &&& text::opt(step.lookup) == Some(name)
                    &&& effect_views(step.effects@) == seq![WorkEffectView::Frame(final(work)@)]
                } else {
                    &&& final(work)@ == old(work)@
                    &&& step.lookup is None
                    &&& step.effects@.len() == 0
                }
            },
            _ => {
                &&& changed(old(work)@.config, intent) matches Some((config, forward))
                &&& final(work)@ == (FrameStateView { config, ..old(work)@ })
                &&& step.lookup is None
                &&& step.effects@.len() == 0
                &&& step.save matches Some(save) && saves(save, config, forward)
            },
        },
{
    match intent {
        UiIntent::AddLogin(login) => {
            let (lookup, effects) = work.begin_add_login(login.as_str());
            Step { effects, lookup, save: None }
        },
        UiIntent::RemoveLogin(login) => {
            let save = work.apply_remove_login(login.as_str());
            Step { effects: Vec::new(), lookup: None, save: Some(save) }
        },
        UiIntent::SetNotifyTitleChanges(value) => {
            let save = work.apply_notify_title_changes(value);
            Step { effects: Vec::new(), lookup: None, save: Some(save) }
        },
        UiIntent::SetSound(value) => {
            let save = work.apply_sound(value);
            Step { effects: Vec::new(), lookup: None, save: Some(save) }
        },
    }
}

} // verus!
