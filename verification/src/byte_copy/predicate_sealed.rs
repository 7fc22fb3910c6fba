use vstd::prelude::*;

use super::Lift;

verus! {

/// Seals `True`: implemented for `Lift<true>` alone.
pub trait TSealed {}

impl TSealed for Lift<true> {}

/// Seals `False`: implemented for `Lift<false>` alone.
pub trait FSealed {}

impl FSealed for Lift<false> {}

} // verus!
