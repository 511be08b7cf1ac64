//! The settings of layout 1.

use vstd::prelude::*;

use crate::config;
use crate::config::{Channel, ChannelView};

verus! {

/// The settings. A file of a newer layout is not read; one without a version is from before
/// there was one, and gets the current version when it is written next.
#[derive(Debug)]
pub struct Config {
    pub version: u32,
    pub channels: Vec<Channel>,
    pub notify_title_changes: bool,
    pub sound: bool,
}

#[verifier::ext_equal]
pub struct ConfigView {
    pub version: u32,
    pub channels: Seq<ChannelView>,
    pub notify_title_changes: bool,
    pub sound: bool,
}

impl View for Config {
    type V = ConfigView;

    open spec fn view(&self) -> ConfigView {
        ConfigView {
            version: self.version,
            channels: config::channel_views(self.channels@),
            notify_title_changes: self.notify_title_changes,
            sound: self.sound,
        }
    }
}

/// The settings of a new installation.
pub open spec fn default_config() -> ConfigView {
    ConfigView { version: 0, channels: seq![], notify_title_changes: false, sound: false }
}

impl Default for Config {
    fn default() -> (r: Config)
        ensures
            r@ == default_config(),
    {
        let r = Config {
            version: 0,
            channels: Vec::new(),
            notify_title_changes: false,
            sound: false,
        };
        assert(r@.channels =~= seq![]);
        r
    }
}

impl Config {
    /// The layout that this edition writes.
    pub const VERSION: u32 = 1;

    /// The settings that were read; those of a new installation where they could not be, or
    /// where their layout is newer.
    pub fn load(decoded: Option<Config>) -> (r: Config)
        ensures
            match decoded {
                Some(config) => if config.version > Config::VERSION {
                    r@ == default_config()
                } else {
                    r == config
                },
                None => r@ == default_config(),
            },
    {
        match decoded {
            Some(config) => {
                if config.version > Config::VERSION {
                    Config::default()
                } else {
                    config
                }
            },
            None => Config::default(),
        }
    }
}

impl Clone for Config {
    fn clone(&self) -> (r: Config)
        ensures
            r@ == self@,
    {
        Config {
            version: self.version,
            channels: config::copy_channels(&self.channels),
            notify_title_changes: self.notify_title_changes,
            sound: self.sound,
        }
    }
}

} // verus!
