//! `lighting_effect.type` values.
use vstd::prelude::*;

verus! {

pub const DISABLED: u8 = 0;

pub const COLORSHIFT: u8 = 1;

pub const BREATHE: u8 = 2;

} // verus!
