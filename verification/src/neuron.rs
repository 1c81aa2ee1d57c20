//! Integrate-and-fire neuron with a fixed-point membrane potential.

use vstd::prelude::*;
use crate::fixed::{add_sat, add_sat_spec, Fixed};

verus! {

/// An integrate-and-fire cell. Inputs accumulate in `membrane`; when the
/// membrane reaches `threshold` the cell fires and the membrane returns to
/// zero. Before tick `refractory_until` the cell ignores its inputs.
#[derive(Clone, Copy, Debug, PartialEq, Eq, Structural)]
pub struct Neuron {
    pub id: u32,
    pub membrane: Fixed,
    pub threshold: Fixed,
    pub refractory_until: u64,
}

impl Neuron {
    /// The neuron after an input at a tick, and whether it fired.
    ///
    /// During the refractory period nothing happens. Otherwise the input is
    /// added to the membrane with saturation; a membrane at or above the
    /// threshold fires and returns to zero. A negative membrane is kept as
    /// it is: it neither fires nor is clamped.
    pub open spec fn injected(self, input: Fixed, time: u64) -> (Neuron, bool) {
        if time < self.refractory_until {
            (self, false)
        } else {
            let charged = add_sat_spec(self.membrane as int, input as int) as Fixed;
            if charged >= self.threshold {
                (Neuron { membrane: 0, ..self }, true)
            } else {
                (Neuron { membrane: charged, ..self }, false)
            }
        }
    }

    /// A resting neuron: empty membrane, no refractory period.
    pub fn new(id: u32, threshold: Fixed) -> (n: Neuron)
        ensures
            n == (Neuron { id, membrane: 0, threshold, refractory_until: 0 }),
    {
        Neuron { id, membrane: 0, threshold, refractory_until: 0 }
    }

    /// Feeds `input` into the neuron at tick `time` and reports whether it
    /// fired. Scheduling the resulting spike is left to the caller.
    pub fn inject(&mut self, input: Fixed, time: u64) -> (fired: bool)
        ensures
            (*final(self), fired) == old(self).injected(input, time),
            time < old(self).refractory_until ==> !fired && *final(self) == *old(self),
            fired ==> final(self).membrane == 0,
    {
        if time < self.refractory_until {
            return false;
        }
        self.membrane = add_sat(self.membrane, input);
        if self.membrane >= self.threshold {
            self.membrane = 0;
            return true;
        }
        false
    }
}

} // verus!
