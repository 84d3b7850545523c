//! The gain stage: one amplitude, applied last to the whole mix.

use crate::audio::parameters::{Knobs, Parameters};
use vstd::prelude::*;

verus! {

/// The gain stage. Its only state is the parameter `A`, the amplitude.
pub struct General<R> {
    params: Parameters<R>,
}

impl<R: Copy> General<R> {
    /// The stage's parameters, as mathematics.
    pub closed spec fn view(self) -> Knobs<R> {
        self.params@
    }

    /// A gain stage with no amplitude set: it reads as `equilibrium`.
    pub fn new(equilibrium: R) -> (r: Self)
        ensures
            r@ == Knobs::empty(equilibrium),
    {
        General { params: Parameters::new(equilibrium) }
    }

    /// Sets a parameter of the stage.
    pub fn param(&mut self, key: &str, value: R)
        ensures
            final(self)@ == old(self)@.update(key@, value),
    {
        self.params.update(key, &value);
    }

    /// The amplitude by which the stage scales every sample of the mix.
    pub fn process(&self) -> (amp: R)
        ensures
            amp == self@.get("A"@),
    {
        self.params.get("A")
    }
}

} // verus!
