//! The result of reading a halted (or stuck) machine's tape.

use vstd::prelude::*;

verus! {

/// What the machine's tape is worth: `Undefined` while the machine sits in
/// the undefined-transition condition, else `Defined` with the number of
/// steps taken so far and the number of `1` symbols on the tape.
#[derive(Debug, Clone, Copy, PartialEq, Eq, Hash)]
pub enum TuringOutput {
    Undefined(usize),
    Defined((usize, u32)),
}

impl Default for TuringOutput {
    /// The output of a machine that has not run: undefined at zero steps.
    fn default() -> (r: Self)
        ensures
            r == TuringOutput::Undefined(0usize),
    {
        Self::Undefined(0)
    }
}

} // verus!
