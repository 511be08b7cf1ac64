//! The state behind a window that calls for one change at a time and waits for its outcome.

use vstd::prelude::*;

use crate::by_login::config::{Config, ConfigView};
use crate::by_login::hermes::{ChannelEntry, Command, StatusEvent};
use crate::by_login::state;
use crate::by_login::state::{CommandView, PendingSave};
use crate::config;
use crate::config::Channel;
use crate::gql::User;
use crate::text;

verus! {

/// The settings as they stand, and the last state of the session. Every change updates the
/// settings, has them written and tells the session.
pub struct AppState {
    config: Config,
    status: Option<StatusEvent>,
}

impl View for AppState {
    type V = ConfigView;

    closed spec fn view(&self) -> ConfigView {
        self.config@
    }
}

/// What follows a change.
pub enum Change {
    /// Nothing.
    Nothing,
    /// The settings are to be written, and [`AppState::commit_save`] goes on.
    Save(PendingSave),
    /// The command goes out.
    Send(Command),
}

/// The settings are stamped and written, and the command follows.
pub open spec fn saved(change: Change, config: ConfigView, forward: CommandView) -> bool {
    change matches Change::Save(save) && state::saves(save, config, forward)
}

impl AppState {
    /// The state at the start. Settings of another layout are stamped and have to be written.
    pub fn new(config: Config) -> (r: (AppState, bool))
        ensures
            r.0@ == state::stamped(config@),
            r.1 == (config.version != Config::VERSION),
            r.0.last_status() is None,
    {
        let mut config = config;
        let must_save = config.version != Config::VERSION;
        config.version = Config::VERSION;
        (AppState { config, status: None }, must_save)
    }

    /// The last state of the session.
    pub closed spec fn last_status(&self) -> Option<StatusEvent> {
        self.status
    }

    /// The settings.
    pub fn get_config(&self) -> (r: Config)
        ensures
            r@ == self@,
    {
        self.config.clone()
    }

    /// The last state of the session.
    pub fn get_status(&self) -> (r: &Option<StatusEvent>)
        ensures
            *r == self.last_status(),
    {
        &self.status
    }

    /// Takes over the state of the session.
    pub fn set_status(&mut self, status: StatusEvent)
        ensures
            final(self)@ == old(self)@,
            final(self).last_status() == Some(status),
    {
        self.status = Some(status);
    }

    /// The commands that the session starts with.
    pub fn startup(&self) -> (commands: Vec<Command>)
        ensures
            state::command_views(commands@) == state::seed_commands(self@),
    {
        state::startup_commands(&self.config)
    }

    fn persist(&mut self, forward: Command) -> (change: Change)
        ensures
            final(self)@ == state::stamped(old(self)@),
            final(self).last_status() == old(self).last_status(),
            saved(change, final(self)@, forward@),
    {
        self.config.version = Config::VERSION;
        Change::Save(PendingSave { config: self.config.clone(), forward })
    }

    /// Goes on when the settings of a change have been written, or could not be. The command goes
    /// out only once they are; else the change fails with that error. The settings stay as they
    /// are either way.
    pub fn commit_save(&self, save: PendingSave, result: Result<(), String>) -> (r: Result<
        Command,
        String,
    >)
        ensures
            match result {
                Ok(_) => r == Ok::<Command, String>(save.forward),
                Err(error) => r == Err::<Command, String>(error),
            },
    {
        match result {
            Ok(_) => Ok(save.forward),
            Err(error) => Err(error),
        }
    }

    /// Whether a login that has its final form is in the settings.
    pub fn knows_login(&self, name: &str) -> (r: bool)
        ensures
            r == crate::state::lists_login(self@.channels, name@),
    {
        crate::state::contains_login(&self.config.channels, name)
    }

    /// Begins to add a login as it was typed. Gives the login to look up; nothing where it is in
    /// the settings.
    pub fn begin_add_channel(&self, login: &str) -> (r: Option<String>)
        ensures
            ({
                let name = crate::state::normalized(login@);
                if crate::state::lists_login(self@.channels, name) {
                    r is None
                } else {
                    text::opt(r) == Some(name)
                }
            }),
    {
        let name = text::to_lowercase(text::trim(login).as_str());
        if self.knows_login(name.as_str()) {
            None
        } else {
            Some(name)
        }
    }

    /// Goes on when a login has been looked up. Only a channel that was found enters the settings;
    /// a login that was not goes to the session alone, so that it is shown as not found and never
    /// written.
    pub fn add_channel(&mut self, login: String, result: Result<Vec<User>, String>) -> (change:
        Change)
        ensures
            final(self).last_status() == old(self).last_status(),
            match state::resolved_in(result, login@) {
                Some(user) => if crate::state::lists_id(old(self)@.channels, user.channel_id) {
                    final(self)@ == old(self)@ && change is Nothing
                } else {
                    &&& final(self)@ == state::stamped(state::with_channel(old(self)@, user))
                    &&& saved(
                        change,
                        final(self)@,
                        CommandView::AddChannel(
                            state::entry_of(crate::state::channel_of(user)),
                        ),
                    )
                },
                None => {
                    &&& final(self)@ == old(self)@
                    &&& change matches Change::Send(command) && command@
                        == CommandView::AddChannel(state::bare_entry(login@))
                },
            },
    {
        match state::resolve(result, login.as_str()) {
            Some(user) => {
                if crate::state::contains_channel(&self.config.channels, user.channel_id) {
                    return Change::Nothing;
                }
                let ghost before = self.config.channels@;
                let channel = Channel {
                    login: user.channel_name,
                    id: user.channel_id,
                    display_name: Some(user.channel_display_name),
                };
                let ghost added = channel@;
                let forward = Command::AddChannel(state::entry(&channel));
                self.config.channels.push(channel);
                assert(config::channel_views(self.config.channels@) =~= config::channel_views(
                    before,
                ).push(added));
                self.persist(forward)
            },
            None => Change::Send(
                Command::AddChannel(ChannelEntry { login, id: None, display_name: None }),
            ),
        }
    }

    /// Takes the channels of a login out of the settings.
    pub fn remove_channel(&mut self, login: String) -> (change: Change)
        ensures
            final(self).last_status() == old(self).last_status(),
            final(self)@ == state::stamped(state::without_login(old(self)@, login@)),
            saved(change, final(self)@, CommandView::RemoveChannel(login@)),
    {
        let mut channels: Vec<Channel> = Vec::new();
        std::mem::swap(&mut channels, &mut self.config.channels);
        self.config.channels = crate::state::without_login(channels, login.as_str());
        self.persist(Command::RemoveChannel(login))
    }

    /// Sets whether new titles are announced.
    pub fn set_notify_title_changes(&mut self, value: bool) -> (change: Change)
        ensures
            final(self).last_status() == old(self).last_status(),
            final(self)@ == state::stamped(
                (ConfigView { notify_title_changes: value, ..old(self)@ }),
            ),
            saved(change, final(self)@, CommandView::SetNotifyTitleChanges(value)),
    {
        self.config.notify_title_changes = value;
        self.persist(Command::SetNotifyTitleChanges(value))
    }

    /// Sets whether notifications make a sound.
    pub fn set_sound(&mut self, value: bool) -> (change: Change)
        ensures
            final(self).last_status() == old(self).last_status(),
            final(self)@ == state::stamped((ConfigView { sound: value, ..old(self)@ })),
            saved(change, final(self)@, CommandView::SetSound(value)),
    {
        self.config.sound = value;
        self.persist(Command::SetSound(value))
    }
}

} // verus!
