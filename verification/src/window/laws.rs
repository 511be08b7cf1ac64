//! What the window shows of the state, row by row.

use vstd::prelude::*;

use crate::hermes::{ChannelStatusView, SubStatus};
use crate::state::FrameStateView;
use crate::tray::TrayAction;
use crate::window;
use crate::window::{Lifecycle, Tone, WindowCmd};

verus! {

/// The line about the connection: green while it stands; red with the error, or that it is being
/// made, while it does not; gray before the session has said anything.
pub proof fn connection_lines_in_full(frame: FrameStateView)
    ensures
        ({
            let line = window::connection_line(frame.status);
            match frame.status {
                None => line.0 == "Connecting…"@ && line.1 == Tone::Gray,
                Some(shown) => if shown.status.connected {
                    line.0 == "Connected"@ && line.1 == Tone::Green
                } else {
                    &&& line.1 == Tone::Red
                    &&& shown.status.error matches Some(error) ==> line.0 == error
                    &&& shown.status.error is None ==> line.0 == "Connecting…"@
                },
            }
        }),
{
}

/// Closing the window keeps the program running in the tray: it is hidden and not closed. Without
/// a tray the program ends, since a hidden window could not be found again. Once the program is to
/// end the window just closes.
pub proof fn closing_in_full(life: Lifecycle, after: Lifecycle, commands: Seq<WindowCmd>)
    requires
        window::close_step(life, after, commands),
    ensures
        after.has_tray == life.has_tray,
        commands.contains(WindowCmd::Hide) <==> life.has_tray && !life.quit_requested,
        commands.contains(WindowCmd::Close) <==> !life.has_tray && !life.quit_requested,
        commands.contains(WindowCmd::CancelClose) <==> !life.quit_requested,
        !commands.contains(WindowCmd::Show),
        after.quit_requested <==> life.quit_requested || !life.has_tray,
{
    if !life.quit_requested {
        assert(commands[0] == WindowCmd::CancelClose);
        assert(commands[1] == WindowCmd::Hide || commands[1] == WindowCmd::Close);
    }
}

/// The tray shows the window, or ends the program; a window that is asked to close after that
/// closes.
pub proof fn tray_wishes_in_full(
    life: Lifecycle,
    action: TrayAction,
    after: Lifecycle,
    command: WindowCmd,
)
    requires
        window::tray_step(life, action, after, command),
    ensures
        after.has_tray == life.has_tray,
        action is Show ==> command is Show && after.quit_requested == life.quit_requested,
        action is Quit ==> command is Close && after.quit_requested,
{
}

/// How each state of a subscription is named and colored.
pub proof fn badges_in_full()
    ensures
        window::badge_of(SubStatus::Pending) == ("Pending"@, Tone::Gray),
        window::badge_of(SubStatus::Connected) == ("Connected"@, Tone::Green),
        window::badge_of(SubStatus::Failed) == ("Failed"@, Tone::Red),
{
}

pub proof fn found_row_at(rows: Seq<ChannelStatusView>, id: u64, k: int)
    requires
        0 <= k < rows.len(),
        rows[k].channel_id == id,
        forall|j: int| 0 <= j < k ==> (#[trigger] rows[j]).channel_id != id,
    ensures
        window::find_row(rows, id) == Some(rows[k]),
    decreases k,
{
    if k > 0 {
        let rest = rows.drop_first();
        assert(rows[0].channel_id != id);
        assert forall|j: int| 0 <= j < k - 1 implies (#[trigger] rest[j]).channel_id != id by {
            assert(rows[j + 1].channel_id != id);
        }
        found_row_at(rest, id, k - 1);
    }
}

pub proof fn no_row_found(rows: Seq<ChannelStatusView>, id: u64)
    requires
        forall|j: int| 0 <= j < rows.len() ==> (#[trigger] rows[j]).channel_id != id,
    ensures
        window::find_row(rows, id) is None,
    decreases rows.len(),
{
    if rows.len() > 0 {
        let rest = rows.drop_first();
        assert(rows[0].channel_id != id);
        assert forall|j: int| 0 <= j < rest.len() implies (#[trigger] rest[j]).channel_id != id by {
            assert(rows[j + 1].channel_id != id);
        }
        no_row_found(rest, id);
    }
}

/// The table has one row for each channel of the settings, in order, and then one for each login
/// that is being looked up, in order. Every other row has a stripe, from the first on.
pub proof fn tables_in_full(frame: FrameStateView)
    ensures
        ({
            let rows = window::table_of(frame);
            let n = frame.config.channels.len() as int;
            &&& frame.status is None ==> rows.len() == n
            &&& frame.status matches Some(shown) ==> rows.len() == n + shown.pending_adds.len()
            &&& forall|i: int|
                0 <= i < rows.len() ==> ((#[trigger] rows[i]).striped <==> i % 2 == 0)
            &&& forall|i: int|
                0 <= i < n ==> (#[trigger] rows[i]).remove == Some(frame.config.channels[i].id)
            &&& forall|i: int|
                n <= i < rows.len() ==> {
                    &&& (#[trigger] rows[i]).remove is None
                    &&& rows[i].name == frame.status.unwrap().pending_adds[i - n]
                    &&& rows[i].live == SubStatus::Pending
                    &&& rows[i].title == SubStatus::Pending
                }
        }),
{
}

/// A channel that the session knows is shown with the name and the states that the session gives.
pub proof fn known_channels_in_full(frame: FrameStateView, i: int, k: int)
    requires
        0 <= i < frame.config.channels.len(),
        frame.status matches Some(shown) && {
            &&& 0 <= k < shown.status.channels.len()
            &&& shown.status.channels[k].channel_id == frame.config.channels[i].id
            &&& forall|j: int|
                0 <= j < k ==> (#[trigger] shown.status.channels[j]).channel_id
                    != frame.config.channels[i].id
        },
    ensures
        ({
            let row = window::table_of(frame)[i];
            let known = frame.status.unwrap().status.channels[k];
            &&& row.name == known.display_name
            &&& row.live == known.live_status
            &&& row.title == known.title_status
        }),
{
    found_row_at(frame.status.unwrap().status.channels, frame.config.channels[i].id, k);
}

/// A channel that the session does not know is shown by its display name, or by its login without
/// one, and as pending.
pub proof fn unknown_channels_in_full(frame: FrameStateView, i: int)
    requires
        0 <= i < frame.config.channels.len(),
        frame.status matches Some(shown) ==> forall|j: int|
            0 <= j < shown.status.channels.len() ==> (
            #[trigger] shown.status.channels[j]).channel_id != frame.config.channels[i].id,
    ensures
        ({
            let row = window::table_of(frame)[i];
            let channel = frame.config.channels[i];
            &&& channel.display_name matches Some(name) ==> row.name == name
            &&& channel.display_name is None ==> row.name == channel.login
            &&& row.live == SubStatus::Pending
            &&& row.title == SubStatus::Pending
        }),
{
    if let Some(shown) = frame.status {
        no_row_found(shown.status.channels, frame.config.channels[i].id);
    }
}

} // verus!
