//! The errors of the gadget.

use vstd::prelude::*;

verus! {

/// Why building the table or folding a commitment was refused.
#[derive(Clone, Copy, Debug, PartialEq, Eq, Structural)]
pub enum GadgetError {
    /// The sizes do not fit together: the table length is not `2^K`, or the
    /// number of bases is not the number of limbs.
    Configuration,
    /// A row outside the public input column was asked for.
    Layout,
    /// A lookup found no row for the claimed word, or a value does not fit
    /// the width it was claimed to have.
    Unsatisfied,
}

} // verus!
