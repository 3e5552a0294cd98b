//! The home tab.
//!
//! Its one control toggles whether the home tab opens on startup; the toggle
//! writes straight into the configuration.

use vstd::prelude::*;
use crate::config::Config;

verus! {

pub enum Message {
    ChangeShowOnStartup(bool),
}

/// What a home-tab message does to the configuration.
pub open spec fn spec_update(c: Config, message: Message) -> Config {
    match message {
        Message::ChangeShowOnStartup(b) => Config { show_home_on_startup: b },
    }
}

pub fn update(config: &mut Config, message: Message)
    ensures
        *final(config) == spec_update(*old(config), message),
{
    match message {
        Message::ChangeShowOnStartup(b) => config.show_home_on_startup = b,
    }
}

} // verus!
