//! The pellet-eating score.

use vstd::prelude::*;

verus! {

/// The running score.
#[derive(Debug, Default)]
pub struct Score {
    pub value: u32,
}

impl Score {
    /// One more pellet eaten.
    pub fn plus_one(&mut self)
        requires
            old(self).value < u32::MAX,
        ensures
            final(self).value == old(self).value + 1,
    {
        self.value = self.value + 1;
    }

    /// Awards the points for an eaten pellet: one for a general pellet,
    /// ten for a power pellet.
    pub fn award(&mut self, pellet_type: crate::pellet::PelletType)
        requires
            old(self).value + 10 <= u32::MAX,
        ensures
            pellet_type is General ==> final(self).value == old(self).value + 1,
            pellet_type is Power ==> final(self).value == old(self).value + 10,
    {
        match pellet_type {
            crate::pellet::PelletType::General => {
                self.value = self.value + 1;
            },
            crate::pellet::PelletType::Power => {
                self.value = self.value + 10;
            },
        }
    }
}

} // verus!
