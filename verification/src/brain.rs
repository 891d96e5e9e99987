//! The decision function of an agent, as the simulation sees it.

use vstd::prelude::*;

verus! {

/// One input feature of a decision function: the ratio `num / den`.
///
/// Features are handed over as exact ratios; turning them into whatever
/// number format a decision function computes in is left to that function.
#[derive(Clone, Copy, Debug, PartialEq, Eq, Structural)]
pub struct Signal {
    pub num: i128,
    pub den: i128,
}

/// A decision function: five input features in, one score per action out.
///
/// The outputs score, in this order, moving, reproducing, attacking and
/// healing. The simulation only ever compares scores with each other and with
/// the score of doing nothing special, which is `0`; it never adds or scales
/// them. A decision function that computes in another number format hands
/// over any image of its outputs that keeps their order and sends zero to `0`.
///
/// Nothing is assumed of an implementation: whatever is proved of the
/// simulation holds for every decision function.
pub trait Brain: Clone {
    /// A fresh decision function with `inputs` inputs, `hidden_layers` hidden
    /// layers of `layer_width` units each, and `outputs` outputs.
    fn new(inputs: usize, hidden_layers: usize, layer_width: usize, outputs: usize) -> Self;

    /// The score of each action for the given features.
    fn execute(&self, inputs: [Signal; 5]) -> [i64; 4];

    /// Perturbs the parameters in place; later answers may differ.
    fn mutate(&mut self);
}

} // verus!
