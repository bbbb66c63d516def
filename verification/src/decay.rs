//! Entities that vanish after a number of game steps.

use vstd::prelude::*;

verus! {

/// decay will kill an entity ofer x turns
#[derive(Clone, Default, Debug)]
pub struct Decay(u16);

impl Decay {
    /// The number of steps that the entity still lasts.
    pub closed spec fn turns(&self) -> u16 {
        self.0
    }

    /// An entity that lasts `turns` more steps.
    pub fn new(turns: u16) -> (d: Decay)
        ensures
            d.turns() == turns,
    {
        Decay(turns)
    }

    /// Lets one game step pass. Says `true` when the time of the entity is
    /// up and it is to be deleted; otherwise one step less is left.
    pub fn tick(&mut self) -> (expired: bool)
        ensures
            expired == (old(self).turns() == 0),
            final(self).turns() == (if old(self).turns() == 0 {
                0
            } else {
                old(self).turns() - 1
            }),
    {
        if self.0 == 0 {
            true
        } else {
            self.0 -= 1;
            false
        }
    }
}

} // verus!
