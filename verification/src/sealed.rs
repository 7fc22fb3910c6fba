use vstd::prelude::*;

use crate::LedStrip;

verus! {

/// Closes the colour operations to single LEDs and strips.
pub trait Sealed {}

impl Sealed for [u8; 3] {}

impl Sealed for LedStrip {}

} // verus!
