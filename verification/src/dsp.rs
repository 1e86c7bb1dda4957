//! Per-track effect settings (reverb, chorus, delay, overdrive; 0-100 each).
use vstd::prelude::*;

verus! {

/// Effect amounts of one track, each 0-100.
#[derive(Clone, Copy, Debug, PartialEq, Eq, Structural)]
pub struct Fx {
    pub reverb: u8,
    pub chorus: u8,
    pub delay: u8,
    pub drive: u8,
}

impl Fx {
    /// Every amount at zero.
    pub open spec fn spec_is_off(&self) -> bool {
        self.reverb == 0 && self.chorus == 0 && self.delay == 0 && self.drive == 0
    }

    /// True when no effect is applied (every amount is zero).
    pub fn is_off(&self) -> (r: bool)
        ensures
            r == self.spec_is_off(),
    {
        self.reverb == 0 && self.chorus == 0 && self.delay == 0 && self.drive == 0
    }

    /// No effect.
    pub fn none() -> (r: Fx)
        ensures
            r.spec_is_off(),
    {
        Fx { reverb: 0, chorus: 0, delay: 0, drive: 0 }
    }
}

impl Default for Fx {
    fn default() -> (r: Fx)
        ensures
            r.spec_is_off(),
    {
        Fx::none()
    }
}

} // verus!
