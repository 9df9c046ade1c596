//! When the game may make sound: browsers block audio until the player has
//! pressed a key, and the player can mute it.

use vstd::prelude::*;

verus! {

#[derive(Clone, Copy)]
pub struct Audio {
    /// No sound until the user has pressed a key — browsers block it.
    pub unlocked: bool,
    pub muted: bool,
}

impl Audio {
    pub fn new() -> (a: Audio)
        ensures
            !a.unlocked,
            !a.muted,
    {
        Audio { unlocked: false, muted: false }
    }

    pub fn unlock(&mut self)
        ensures
            final(self).unlocked,
            final(self).muted == old(self).muted,
    {
        self.unlocked = true;
    }

    pub fn toggle_mute(&mut self)
        ensures
            final(self).unlocked == old(self).unlocked,
            final(self).muted == !old(self).muted,
    {
        self.muted = !self.muted;
    }

    pub fn is_muted(&self) -> (r: bool)
        ensures
            r == self.muted,
    {
        self.muted
    }

    /// Sound may play once unlocked, unless muted.
    pub fn can_play(&self) -> (r: bool)
        ensures
            r == (self.unlocked && !self.muted),
    {
        self.unlocked && !self.muted
    }
}

} // verus!
