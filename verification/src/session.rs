//! Replies of the woven session daemon.
use vstd::prelude::*;

verus! {

/// Battery charge and whether the charger is connected.
pub struct BatteryState {
    pub percent: u8,
    pub ac_online: bool,
}

/// What the media player is playing.
pub struct MediaState {
    pub playing: bool,
    pub title: String,
    pub artist: String,
}

/// Which power actions the session allows.
pub struct PowerState {
    pub can_suspend: bool,
    pub can_poweroff: bool,
}

} // verus!
