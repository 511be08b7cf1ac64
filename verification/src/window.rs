//! What the window shows, and what closing it does.

pub mod laws;

use vstd::prelude::*;

use crate::config;
use crate::config::{Channel, ChannelView};
use crate::hermes;
use crate::hermes::{ChannelStatus, ChannelStatusView, SubStatus};
use crate::state;
use crate::state::{FrameState, FrameStateView, SnapshotView, StatusSnapshot, UiIntent};
use crate::text;
use crate::tray::TrayAction;

verus! {

/// The colour of a text.
#[derive(Clone, Copy, PartialEq, Eq, Structural, Debug)]
pub enum Tone {
    Green,
    Red,
    Gray,
}

/// The line about the connection: whether it stands, else the error or that it is being made.
pub open spec fn connection_line(status: Option<SnapshotView>) -> (Seq<char>, Tone) {
    match status {
        Some(snapshot) => if snapshot.status.connected {
            ("Connected"@, Tone::Green)
        } else {
            (
                match snapshot.status.error {
                    Some(error) => error,
                    None => "Connecting…"@,
                },
                Tone::Red,
            )
        },
        None => ("Connecting…"@, Tone::Gray),
    }
}

/// The line about the connection.
pub fn connection_text(status: &Option<StatusSnapshot>) -> (line: (String, Tone))
    ensures
        (line.0@, line.1) == connection_line(state::snapshot_view(*status)),
{
    match status {
        Some(snapshot) => {
            if snapshot.connected {
                ("Connected".to_string(), Tone::Green)
            } else {
                match &snapshot.error {
                    Some(error) => (error.clone(), Tone::Red),
                    None => ("Connecting…".to_string(), Tone::Red),
                }
            }
        },
        None => ("Connecting…".to_string(), Tone::Gray),
    }
}

/// How a subscription is named.
pub open spec fn badge_of(state: SubStatus) -> (Seq<char>, Tone) {
    match state {
        SubStatus::Pending => ("Pending"@, Tone::Gray),
        SubStatus::Connected => ("Connected"@, Tone::Green),
        SubStatus::Failed => ("Failed"@, Tone::Red),
    }
}

/// How a subscription is named.
pub fn sub_badge(state: SubStatus) -> (badge: (&'static str, Tone))
    ensures
        (badge.0@, badge.1) == badge_of(state),
{
    match state {
        SubStatus::Pending => ("Pending", Tone::Gray),
        SubStatus::Connected => ("Connected", Tone::Green),
        SubStatus::Failed => ("Failed", Tone::Red),
    }
}

/// A row of the table. A channel of the settings can be removed; a login that is being looked up
/// cannot.
pub struct Row {
    pub name: String,
    pub live: SubStatus,
    pub title: SubStatus,
    pub striped: bool,
    pub remove: Option<u64>,
}

pub struct RowView {
    pub name: Seq<char>,
    pub live: SubStatus,
    pub title: SubStatus,
    pub striped: bool,
    pub remove: Option<u64>,
}

impl View for Row {
    type V = RowView;

    open spec fn view(&self) -> RowView {
        RowView {
            name: self.name@,
            live: self.live,
            title: self.title,
            striped: self.striped,
            remove: self.remove,
        }
    }
}

/// The first row of the session's channels with the identifier.
pub open spec fn find_row(rows: Seq<ChannelStatusView>, id: u64) -> Option<ChannelStatusView>
    decreases rows.len(),
{
    if rows.len() == 0 {
        None
    } else if rows[0].channel_id == id {
        Some(rows[0])
    } else {
        find_row(rows.drop_first(), id)
    }
}

/// What the session says of a channel.
pub open spec fn resolved(status: Option<SnapshotView>, id: u64) -> Option<ChannelStatusView> {
    match status {
        Some(snapshot) => find_row(snapshot.status.channels, id),
        None => None,
    }
}

/// The row of a channel of the settings. Its name is the one that the session knows, else the
/// display name of the settings, else the login.
pub open spec fn channel_row(
    channel: ChannelView,
    status: Option<SnapshotView>,
    striped: bool,
) -> RowView {
    match resolved(status, channel.id) {
        Some(entry) => RowView {
            name: entry.display_name,
            live: entry.live_status,
            title: entry.title_status,
            striped,
            remove: Some(channel.id),
        },
        None => RowView {
            name: match channel.display_name {
                Some(name) => name,
                None => channel.login,
            },
            live: SubStatus::Pending,
            title: SubStatus::Pending,
            striped,
            remove: Some(channel.id),
        },
    }
}

/// The row of a login that is being looked up.
pub open spec fn pending_row(login: Seq<char>, striped: bool) -> RowView {
    RowView {
        name: login,
        live: SubStatus::Pending,
        title: SubStatus::Pending,
        striped,
        remove: None,
    }
}

/// The logins that are being looked up, as far as the session has reported.
pub open spec fn pending_of(frame: FrameStateView) -> Seq<Seq<char>> {
    match frame.status {
        Some(snapshot) => snapshot.pending_adds,
        None => seq![],
    }
}

/// The table: the channels of the settings, then the logins that are being looked up. Every
/// other row has a stripe, the first one included.
pub open spec fn table_of(frame: FrameStateView) -> Seq<RowView> {
    let channels = frame.config.channels;
    let pending = pending_of(frame);
    Seq::new(
        channels.len() + pending.len(),
        |i: int|
            if i < channels.len() {
                channel_row(channels[i], frame.status, i % 2 == 0)
            } else {
                pending_row(pending[i - channels.len()], i % 2 == 0)
            },
    )
}

/// What rows hold.
pub open spec fn row_views(rows: Seq<Row>) -> Seq<RowView> {
    Seq::new(rows.len(), |i: int| rows[i]@)
}

pub(crate) fn find_status(rows: &Vec<ChannelStatus>, id: u64) -> (r: Option<usize>)
    ensures
        match r {
            Some(i) => i < rows@.len() && find_row(hermes::row_views(rows@), id) == Some(
                rows@[i as int]@,
            ),
            None => find_row(hermes::row_views(rows@), id) is None,
        },
{
    let ghost all = hermes::row_views(rows@);
    let mut i: usize = 0;
    assert(all.skip(0) =~= all);
    while i < rows.len()
        invariant
            i <= rows@.len(),
            all == hermes::row_views(rows@),
            find_row(all, id) == find_row(all.skip(i as int), id),
        decreases rows@.len() - i,
    {
        assert(all.skip(i as int)[0] == rows@[i as int]@);
        assert(all.skip(i as int).drop_first() =~= all.skip(i + 1));
        if rows[i].channel_id == id {
            return Some(i);
        }
        i = i + 1;
    }
    assert(all.skip(all.len() as int) =~= seq![]);
    None
}

fn row_of_channel(channel: &Channel, status: &Option<StatusSnapshot>, striped: bool) -> (row: Row)
    ensures
        row@ == channel_row(channel@, state::snapshot_view(*status), striped),
{
    if let Some(snapshot) = status {
        if let Some(i) = find_status(&snapshot.channels, channel.id) {
            return Row {
                name: snapshot.channels[i].display_name.clone(),
                live: snapshot.channels[i].live_status,
                title: snapshot.channels[i].title_status,
                striped,
                remove: Some(channel.id),
            };
        }
    }
    let name = match &channel.display_name {
        Some(name) => name.clone(),
        None => channel.login.clone(),
    };
    Row {
        name,
        live: SubStatus::Pending,
        title: SubStatus::Pending,
        striped,
        remove: Some(channel.id),
    }
}

/// The rows of the table.
pub fn table(frame: &FrameState) -> (rows: Vec<Row>)
    ensures
        row_views(rows@) == table_of(frame@),
{
    let ghost all = table_of(frame@);
    let mut rows: Vec<Row> = Vec::new();
    let mut striped: bool = true;
    let mut i: usize = 0;
    while i < frame.config.channels.len()
        invariant
            i <= frame.config.channels@.len(),
            all == table_of(frame@),
            striped == (i as int % 2 == 0),
            rows@.len() == i,
            forall|k: int| 0 <= k < i ==> (#[trigger] rows@[k])@ == all[k],
        decreases frame.config.channels@.len() - i,
    {
        let row = row_of_channel(&frame.config.channels[i], &frame.status, striped);
        assert(row@ == all[i as int]);
        rows.push(row);
        striped = !striped;
        i = i + 1;
    }
    if let Some(snapshot) = &frame.status {
        let ghost n = frame.config.channels@.len();
        let mut k: usize = 0;
        while k < snapshot.pending_adds.len()
            invariant
                k <= snapshot.pending_adds@.len(),
                n == frame.config.channels@.len(),
                all == table_of(frame@),
                pending_of(frame@) == text::views(snapshot.pending_adds@),
                striped == ((n + k) % 2 == 0),
                rows@.len() == n + k,
                forall|j: int| 0 <= j < n + k ==> (#[trigger] rows@[j])@ == all[j],
            decreases snapshot.pending_adds@.len() - k,
        {
            let row = Row {
                name: snapshot.pending_adds[k].clone(),
                live: SubStatus::Pending,
                title: SubStatus::Pending,
                striped,
                remove: None,
            };
            assert(row@ == all[n + k]);
            rows.push(row);
            striped = !striped;
            k = k + 1;
        }
    }
    assert(row_views(rows@) =~= all);
    rows
}

/// What stands in place of an empty table.
pub fn empty_label(rows: &Vec<Row>) -> (label: Option<&'static str>)
    ensures
        match label {
            Some(s) => rows@.len() == 0 && s@ == "No channels configured. Add a streamer below."@,
            None => rows@.len() > 0,
        },
{
    if rows.len() == 0 {
        Some("No channels configured. Add a streamer below.")
    } else {
        None
    }
}

/// The line that was typed is handed in: it is emptied, and unless it is blank the login is to be
/// added.
pub fn submit_add(new_login: &mut String) -> (intent: Option<UiIntent>)
    ensures
        final(new_login)@.len() == 0,
        match intent {
            Some(UiIntent::AddLogin(login)) => login@ == text::trimmed(old(new_login)@)
                && login@.len() > 0,
            Some(_) => false,
            None => text::trimmed(old(new_login)@).len() == 0,
        },
{
    let login = text::trim(new_login.as_str());
    *new_login = String::new();
    if login.as_str().is_empty() {
        None
    } else {
        Some(UiIntent::AddLogin(login))
    }
}

/// What the window is told to do.
#[derive(Clone, Copy, PartialEq, Eq, Structural, Debug)]
pub enum WindowCmd {
    /// Become visible and take the focus.
    Show,
    /// Become invisible.
    Hide,
    /// Do not close after all.
    CancelClose,
    /// Close, which ends the program.
    Close,
}

/// Whether the window may be hidden, and whether the program is to end.
#[derive(Clone, Copy, PartialEq, Eq, Structural, Debug)]
pub struct Lifecycle {
    pub has_tray: bool,
    pub quit_requested: bool,
}

/// What the tray's wish leads to.
pub open spec fn tray_step(
    life: Lifecycle,
    action: TrayAction,
    after: Lifecycle,
    command: WindowCmd,
) -> bool {
    match action {
        TrayAction::Show => after == life && command == WindowCmd::Show,
        TrayAction::Quit => after == (Lifecycle { quit_requested: true, ..life }) && command
            == WindowCmd::Close,
    }
}

/// What closing the window leads to.
pub open spec fn close_step(life: Lifecycle, after: Lifecycle, commands: Seq<WindowCmd>) -> bool {
    if life.quit_requested {
        after == life && commands.len() == 0
    } else if life.has_tray {
        after == life && commands == seq![WindowCmd::CancelClose, WindowCmd::Hide]
    } else {
        after == (Lifecycle { quit_requested: true, ..life }) && commands == seq![
            WindowCmd::CancelClose,
            WindowCmd::Close,
        ]
    }
}

impl Lifecycle {
    pub fn new(has_tray: bool) -> (r: Lifecycle)
        ensures
            r == (Lifecycle { has_tray, quit_requested: false }),
    {
        Lifecycle { has_tray, quit_requested: false }
    }

    /// The tray asks for something.
    pub fn on_tray(&mut self, action: TrayAction) -> (command: WindowCmd)
        ensures
            tray_step(*old(self), action, *final(self), command),
    {
        match action {
            TrayAction::Show => WindowCmd::Show,
            TrayAction::Quit => {
                self.quit_requested = true;
                WindowCmd::Close
            },
        }
    }

    /// The window is asked to close. It hides in the tray; without a tray it could not be found
    /// again, so the program ends.
    pub fn on_close_requested(&mut self) -> (commands: Vec<WindowCmd>)
        ensures
            !old(self).has_tray ==> !commands@.contains(WindowCmd::Hide),
            close_step(*old(self), *final(self), commands@),
    {
        let mut commands: Vec<WindowCmd> = Vec::new();
        if self.quit_requested {
            return commands;
        }
        commands.push(WindowCmd::CancelClose);
        if self.has_tray {
            commands.push(WindowCmd::Hide);
            assert(commands@ =~= seq![WindowCmd::CancelClose, WindowCmd::Hide]);
        } else {
            self.quit_requested = true;
            commands.push(WindowCmd::Close);
            assert(commands@ =~= seq![WindowCmd::CancelClose, WindowCmd::Close]);
        }
        commands
    }
}

/// The newest of the frames that have arrived; the others are out of date.
pub fn newest(frames: Vec<FrameState>) -> (frame: Option<FrameState>)
    ensures
        match frame {
            Some(f) => frames@.len() > 0 && f == frames@.last(),
            None => frames@.len() == 0,
        },
{
    let mut frames = frames;
    frames.pop()
}

} // verus!
