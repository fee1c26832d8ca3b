//! `settings_mask` values of a per-key `0x0E` element. Bits 5-7 are
//! reserved by the firmware.
use vstd::prelude::*;

verus! {

/// Key follows the uploaded lighting effect at `effect_index`.
pub const EFFECT: u8 = 0;

/// Key shows a fixed `init` color (what `all`/`key`/`off` use).
pub const STEADY: u8 = 1;

/// Key color is driven live by the host (streaming).
pub const HOST_STREAM: u8 = 2;

/// Key color override (used by the single-key `0x03` vendor command).
pub const OVERRIDE: u8 = 4;

/// Key shows `init` at rest and flashes to `react` on keypress, fading
/// back over `react.time` ms.
pub const REACTIVE: u8 = 8;

} // verus!
