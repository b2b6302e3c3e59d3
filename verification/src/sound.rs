//! What is played, and whether anything is.
use vstd::prelude::*;

verus! {

/// A cue.
#[derive(Clone, Copy, PartialEq, Eq, Structural, Debug)]
pub enum SoundEvent {
    Loss,
    Down,
    Recover,
    Shimmer,
    ProbeAnomaly,
}

/// The mute switch.
#[derive(Clone, Copy, PartialEq, Eq, Structural, Debug)]
pub struct AudioState {
    pub muted: bool,
}

impl Default for AudioState {
    fn default() -> (s: Self)
        ensures
            !s.muted,
    {
        AudioState { muted: false }
    }
}

impl AudioState {
    pub fn set_muted(&mut self, m: bool)
        ensures
            final(self).muted == m,
    {
        self.muted = m;
    }

    pub fn muted(&self) -> (r: bool)
        ensures
            r == self.muted,
    {
        self.muted
    }
}

} // verus!
