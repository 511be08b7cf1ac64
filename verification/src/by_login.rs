//! The edition whose commands name channels by login. A login that no channel is found for stays
//! in the session as unresolved and is looked up again with every connection; settings have
//! layout 1, and responses of the endpoint are read member by member.

pub mod app_state;
pub mod config;
pub mod gql;
pub mod hermes;
pub mod laws;
pub mod state;
pub mod tray;
pub mod window;
