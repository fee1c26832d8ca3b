//! Software-owned brightness and the last applied logical frame, kept
//! before any color-scale or brightness scaling so that the same lighting
//! can be re-applied at another brightness; and the reading of a brightness
//! argument (`0..=255`, or a percentage such as `50%`).
use vstd::prelude::*;
use vstd::string::StrSliceExecFns;

use crate::command::{Direction, EffectMode};
use crate::text::{
    ascii_byte, ascii_bytes, parse_radix, spec_from_str_radix, spec_trim, str_chars, trim_range,
};

verus! {

/// Brightness when nothing has been stored yet: full brightness.
pub const DEFAULT_BRIGHTNESS: u8 = 255;

/// A logical lighting frame, before color-scale and brightness scaling:
/// colors are the user's RGB, keys are resolved HID usage codes.
#[derive(Debug, Clone, PartialEq)]
pub enum Frame {
    /// Every key one solid color.
    All { color: [u8; 3] },
    /// Individual keys as `(hid, rgb)` pairs.
    Keys { pairs: Vec<(u8, [u8; 3])> },
    /// Keypress-trail reactive effect on every key.
    Reactive { base: [u8; 3], hit: [u8; 3], fade: u16 },
    /// Onboard effect program; positions are stored already defaulted,
    /// one per color.
    Effect {
        mode: EffectMode,
        colors: Vec<[u8; 3]>,
        speed: u16,
        dir: Option<Direction>,
        slot: u8,
        positions: Vec<u8>,
    },
    /// All keys off.
    Off,
}

/// Stored brightness and the last applied logical frame.
#[derive(Debug, Clone, PartialEq)]
pub struct State {
    /// Software brightness, `0..=255`.
    pub brightness: u8,
    /// The last applied frame, if any.
    pub frame: Option<Frame>,
}

impl Default for State {
    /// Full brightness and no frame.
    fn default() -> (res: Self)
        ensures
            res.brightness == DEFAULT_BRIGHTNESS,
            res.frame is None,
    {
        State { brightness: DEFAULT_BRIGHTNESS, frame: None }
    }
}

/// Why a brightness argument was rejected. The two percentage errors come
/// from reading the number of a `BrightnessArg::Percent`, which
/// `brightness_arg` leaves to its caller.
#[derive(Debug, Clone, Copy, PartialEq, Eq)]
pub enum BrightnessError {
    /// The text before `%` is not a number.
    InvalidPercentage,
    /// A percentage outside `0..=100`.
    PercentageOutOfRange,
    /// Neither a percentage nor an unsigned 32-bit integer.
    InvalidNumber,
    /// An integer above 255.
    NumberOutOfRange(u32),
}

/// A brightness argument once its form is known: an absolute value, or a
/// percentage whose number is still text. The number of a percentage is a
/// decimal floating-point literal, read and rounded by the caller.
pub enum BrightnessArg {
    /// An absolute brightness, `0..=255`.
    Absolute(u8),
    /// A percentage: the text before the `%`, trimmed.
    Percent(String),
}

/// The ASCII bytes of a run of characters (see `ascii_byte`).
pub open spec fn ascii_seq(s: Seq<char>) -> Seq<u8> {
    s.map_values(|c: char| ascii_byte(c))
}

/// The number text of a percentage argument: once trimmed, the argument
/// ends in `%`, and the text before it, trimmed again, is the number.
/// `None` when the argument is no percentage.
pub open spec fn spec_percent_text(s: Seq<char>) -> Option<Seq<char>> {
    let t = spec_trim(s);
    if t.len() > 0 && t.last() == '%' {
        Some(spec_trim(t.drop_last()))
    } else {
        None
    }
}

/// An absolute brightness argument: once trimmed, an unsigned 32-bit
/// integer (an optional `+`, then decimal digits) that must not exceed 255.
pub open spec fn spec_absolute_brightness(s: Seq<char>) -> Result<u8, BrightnessError> {
    match spec_from_str_radix(ascii_seq(spec_trim(s)), 10, u32::MAX as nat) {
        None => Err(BrightnessError::InvalidNumber),
        Some(v) => if v > 255 {
            Err(BrightnessError::NumberOutOfRange(v as u32))
        } else {
            Ok(v as u8)
        },
    }
}

/// Read a brightness argument: a percentage such as `50%` when it ends in
/// `%` (surrounding whitespace and whitespace before the `%` ignored),
/// otherwise an absolute `0..=255`.
pub fn brightness_arg(s: &str) -> (res: Result<BrightnessArg, BrightnessError>)
    ensures
        match spec_percent_text(s@) {
            Some(p) => res matches Ok(BrightnessArg::Percent(q)) && q@ == p,
            None => match spec_absolute_brightness(s@) {
                Ok(v) => res matches Ok(BrightnessArg::Absolute(w)) && w == v,
                Err(e) => res matches Err(f) && f == e,
            },
        },
{
    let v = str_chars(s);
    let (a, z) = trim_range(&v, 0, v.len());
    assert(v@.subrange(0, v@.len() as int) =~= s@);
    let ghost t = spec_trim(s@);
    if z > a && v[z - 1] == '%' {
        let (a2, z2) = trim_range(&v, a, z - 1);
        assert(v@.subrange(a as int, z - 1) =~= t.drop_last());
        let text = s.substring_char(a2, z2).to_owned();
        Ok(BrightnessArg::Percent(text))
    } else {
        let bytes = ascii_bytes(&v, a, z);
        assert(bytes@.subrange(0, bytes@.len() as int) =~= bytes@);
        match parse_radix(&bytes, 0, bytes.len(), 10, 4294967295) {
            None => Err(BrightnessError::InvalidNumber),
            Some(n) => {
                if n > 255 {
                    Err(BrightnessError::NumberOutOfRange(n as u32))
                } else {
                    Ok(BrightnessArg::Absolute(n as u8))
                }
            },
        }
    }
}

} // verus!
