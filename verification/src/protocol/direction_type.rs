//! `lighting_effect.direction_type` values.
use vstd::prelude::*;

verus! {

pub const HORIZONTAL: u8 = 0;

pub const VERTICAL: u8 = 1;

pub const RADIAL: u8 = 2;

} // verus!
