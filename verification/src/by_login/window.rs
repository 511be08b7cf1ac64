//! What the window shows.

use vstd::prelude::*;

use crate::by_login::state;
use crate::by_login::state::{EventView, FrameState, FrameStateView, UiIntent};
use crate::by_login::hermes::StatusEvent;
use crate::config::{Channel, ChannelView};
use crate::hermes;
use crate::hermes::SubStatus;
use crate::text;
use crate::window;
use crate::window::Tone;

verus! {

/// A row of the table. Where the login was not found that stands in place of both states.
pub struct Row {
    pub name: String,
    pub not_found: bool,
    pub live: SubStatus,
    pub title: SubStatus,
    pub remove: String,
}

pub struct RowView {
    pub name: Seq<char>,
    pub not_found: bool,
    pub live: SubStatus,
    pub title: SubStatus,
    pub remove: Seq<char>,
}

impl View for Row {
    type V = RowView;

    open spec fn view(&self) -> RowView {
        RowView {
            name: self.name@,
            not_found: self.not_found,
            live: self.live,
            title: self.title,
            remove: self.remove@,
        }
    }
}

/// What rows hold.
pub open spec fn row_views(rows: Seq<Row>) -> Seq<RowView> {
    Seq::new(rows.len(), |i: int| rows[i]@)
}

/// The row of a channel of the settings. Its name is the one that the session knows, else the
/// display name of the settings, else the login.
pub open spec fn row_of(channel: ChannelView, status: Option<EventView>) -> RowView {
    let entry = match status {
        Some(event) => window::find_row(event.status.channels, channel.id),
        None => None,
    };
    RowView {
        name: match entry {
            Some(row) => row.display_name,
            None => match channel.display_name {
                Some(name) => name,
                None => channel.login,
            },
        },
        not_found: match status {
            Some(event) => crate::state::lists_text(event.unresolved, channel.login),
            None => false,
        },
        live: match entry {
            Some(row) => row.live_status,
            None => SubStatus::Pending,
        },
        title: match entry {
            Some(row) => row.title_status,
            None => SubStatus::Pending,
        },
        remove: channel.login,
    }
}

/// The table: one row for each channel of the settings, in order.
pub open spec fn table_of(frame: FrameStateView) -> Seq<RowView> {
    Seq::new(
        frame.config.channels.len(),
        |i: int| row_of(frame.config.channels[i], frame.status),
    )
}

fn row(channel: &Channel, status: &Option<StatusEvent>) -> (r: Row)
    ensures
        r@ == row_of(channel@, state::event_view(*status)),
{
    let fallback = match &channel.display_name {
        Some(name) => name.clone(),
        None => channel.login.clone(),
    };
    match status {
        Some(event) => {
            let not_found = crate::state::contains_text(&event.unresolved, channel.login.as_str());
            match window::find_status(&event.channels, channel.id) {
                Some(i) => Row {
                    name: event.channels[i].display_name.clone(),
                    not_found,
                    live: event.channels[i].live_status,
                    title: event.channels[i].title_status,
                    remove: channel.login.clone(),
                },
                None => Row {
                    name: fallback,
                    not_found,
                    live: SubStatus::Pending,
                    title: SubStatus::Pending,
                    remove: channel.login.clone(),
                },
            }
        },
        None => Row {
            name: fallback,
            not_found: false,
            live: SubStatus::Pending,
            title: SubStatus::Pending,
            remove: channel.login.clone(),
        },
    }
}

/// The rows of the table.
pub fn table(frame: &FrameState) -> (rows: Vec<Row>)
    ensures
        row_views(rows@) == table_of(frame@),
{
    let mut rows: Vec<Row> = Vec::new();
    for i in 0..frame.config.channels.len()
        invariant
            rows@.len() == i,
            forall|k: int|
                0 <= k < i ==> (#[trigger] rows@[k])@ == row_of(
                    frame@.config.channels[k],
                    frame@.status,
                ),
    {
        rows.push(row(&frame.config.channels[i], &frame.status));
    }
    assert(row_views(rows@) =~= table_of(frame@));
    rows
}

/// The color of a row's name: red where the login was not found, else that of any text.
pub fn name_tone(row: &Row) -> (tone: Option<Tone>)
    ensures
        tone == (if row.not_found {
            Some(Tone::Red)
        } else {
            None
        }),
{
    if row.not_found {
        Some(Tone::Red)
    } else {
        None
    }
}

/// The states of a row: that of the live topic, and that of the title. Where the login was not
/// found both say so.
pub fn badges(row: &Row) -> (badges: ((&'static str, Tone), (&'static str, Tone)))
    ensures
        (badges.0.0@, badges.0.1) == (if row.not_found {
            ("Not found"@, Tone::Red)
        } else {
            window::badge_of(row.live)
        }),
        (badges.1.0@, badges.1.1) == (if row.not_found {
            ("Not found"@, Tone::Red)
        } else {
            window::badge_of(row.title)
        }),
{
    if row.not_found {
        (("Not found", Tone::Red), ("Not found", Tone::Red))
    } else {
        (window::sub_badge(row.live), window::sub_badge(row.title))
    }
}

/// What stands in place of an empty table.
pub fn empty_label(rows: &Vec<Row>) -> (label: Option<&'static str>)
    ensures
        match label {
            Some(s) => rows@.len() == 0 && s@ == "No channels configured. Add a streamer below."@,
            None => rows@.len() > 0,
        },
{
    if rows.len() == 0 {
        Some("No channels configured. Add a streamer below.")
    } else {
        None
    }
}

/// The line that was typed is handed in: it is emptied, and unless it is blank the login is to be
/// added.
pub fn submit_add(new_login: &mut String) -> (intent: Option<UiIntent>)
    ensures
        final(new_login)@.len() == 0,
        match intent {
            Some(UiIntent::AddLogin(login)) => login@ == text::trimmed(old(new_login)@)
                && login@.len() > 0,
            Some(_) => false,
            None => text::trimmed(old(new_login)@).len() == 0,
        },
{
    let login = text::trim(new_login.as_str());
    *new_login = String::new();
    if login.as_str().is_empty() {
        None
    } else {
        Some(UiIntent::AddLogin(login))
    }
}

/// The line about the connection: whether it stands, else the error or that it is being made.
pub fn connection_text(status: &Option<StatusEvent>) -> (line: (String, Tone))
    ensures
        match state::event_view(*status) {
            Some(event) => if event.status.connected {
                line.0@ == "Connected"@ && line.1 == Tone::Green
            } else {
                &&& line.0@ == (match event.status.error {
                    Some(error) => error,
                    None => "Connecting…"@,
                })
                &&& line.1 == Tone::Red
            },
            None => line.0@ == "Connecting…"@ && line.1 == Tone::Gray,
        },
{
    match status {
        Some(event) => {
            if event.connected {
                ("Connected".to_string(), Tone::Green)
            } else {
                match &event.error {
                    Some(error) => (error.clone(), Tone::Red),
                    None => ("Connecting…".to_string(), Tone::Red),
                }
            }
        },
        None => ("Connecting…".to_string(), Tone::Gray),
    }
}

} // verus!
