//! The seal that keeps the supported parameter sets closed.

use vstd::prelude::*;

verus! {

/// Implemented only by the parameter sets of this crate.
pub trait Sealed {
}

} // verus!
