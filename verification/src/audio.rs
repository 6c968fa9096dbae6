//! Audio module (placeholder)
//!
//! No sound is produced yet: the calls are accepted so that a game can be
//! written against them, and only the switch that turns sound on and off
//! is kept.

use crate::math::fixed_point::FixedPoint;
use vstd::prelude::*;

verus! {

/// Audio system placeholder
pub struct AudioSystem {
    enabled: bool,
}

impl AudioSystem {
    /// True when sound is switched on.
    pub closed spec fn enabled(&self) -> bool {
        self.enabled
    }

    /// An audio system with sound switched on.
    pub fn new() -> (r: Self)
        ensures
            r.enabled(),
    {
        AudioSystem { enabled: true }
    }

    pub fn play_sound(&self, _id: u32) {
    }

    pub fn play_music(&self, _id: u32) {
    }

    pub fn stop_music(&self) {
    }

    pub fn set_volume(&mut self, _volume: FixedPoint)
        ensures
            final(self).enabled() == old(self).enabled(),
    {
    }

    pub fn set_enabled(&mut self, enabled: bool)
        ensures
            final(self).enabled() == enabled,
    {
        self.enabled = enabled;
    }

    #[verifier::when_used_as_spec(enabled)]
    pub fn is_enabled(&self) -> (r: bool)
        ensures
            r == self.enabled(),
    {
        self.enabled
    }
}

impl Default for AudioSystem {
    fn default() -> (r: AudioSystem)
        ensures
            r.enabled(),
    {
        AudioSystem::new()
    }
}

} // verus!
