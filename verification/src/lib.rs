//! The logic of Siphon, a Twitch notifier: it keeps a list of streamers, follows them over one
//! Hermes connection, and announces a channel the moment it goes live or gets a new title while it
//! is offline.
//!
//! Nothing here reads a socket, a file or a clock. A state machine is told what has happened and
//! answers with a list of effects; the program around it carries them out and comes back with the
//! next event:
//!
//! - [`hermes`] is the session, with [`subs`] and [`frame`] under it: what is subscribed, what a
//!   message means, what is sent, when a silent connection is given up and when the next is tried;
//! - [`state`], [`event_loop`], [`window`] and [`tray`] stand behind the window: the settings, the
//!   wishes that the window sends, and what it shows;
//! - [`config`] and [`gql`] say what the settings on disk and the answers of the endpoint mean;
//! - [`notifier`] says what a notification shows;
//! - [`logging`], [`rotation`] and [`calendar`] date the lines of the log and keep its files below
//!   a cap;
//! - [`matcher`], [`balesh`], [`text`] and [`json`] are the ground that the rest stands on;
//! - [`by_login`] is the edition whose commands name channels by login.
//!
//! Laws that span several functions are public proof functions: in the modules named `laws`, for
//! the session also in [`hermes::announcements`], [`hermes::connection`] and [`hermes::tracking`],
//! and beside the types of the other modules.

pub mod balesh;
pub mod by_login;
pub mod calendar;
pub mod config;
pub mod event_loop;
pub mod frame;
pub mod gql;
pub mod hermes;
pub mod json;
pub mod logging;
pub mod matcher;
pub mod notifier;
pub mod rotation;
pub mod state;
pub mod subs;
pub mod text;
pub mod tray;
pub mod window;
