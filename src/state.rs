//! The three-lane permutation state.

use vstd::prelude::*;
use crate::field::Felt;

verus! {

/// Working registers of a permutation: two rate lanes and a capacity/key lane.
#[derive(Clone, Copy, Debug, PartialEq, Eq)]
pub struct State {
    pub x: Felt,
    pub y: Felt,
    pub z: Felt,
}

impl View for State {
    type V = (int, int, int);

    /// The raw representations of the three lanes.
    open spec fn view(&self) -> (int, int, int) {
        (self.x.raw(), self.y.raw(), self.z.raw())
    }
}

impl State {
    /// Every lane holds a well-formed field element.
    pub open spec fn wf(self) -> bool {
        self.x.wf() && self.y.wf() && self.z.wf()
    }
}

} // verus!
