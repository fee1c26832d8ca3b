//! The command-line commands as plain values, and the decisions made on
//! them before any hardware is touched: input validation, the logical frame
//! a command applies, how the device is found, and the hex arguments of
//! the command line.
use vstd::prelude::*;
use vstd::string::StringSliceAdditionalSpecFns;
use vstd::utf8::{
    decode_utf8, encode_utf8, encode_utf8_decode_utf8, encode_utf8_valid_utf8,
    is_char_boundary_iff_not_is_continuation_byte,
};

use crate::layout::{
    hex_color_from, parse_hex_color, spec_parse_hex_color, spec_resolve_key, ColorError, Layout,
    LayoutError,
};
use crate::protocol::{direction_type, MAX_EFFECT_COLORS};
use crate::state::Frame;
use crate::text::{
    find_byte, lemma_first_index_of, parse_radix, spec_first_index_of, spec_from_str_radix,
    spec_strip_all_prefix, strip_all_prefix,
};

verus! {

/// Onboard effect modes of the `effect` command.
#[derive(Clone, Copy, Debug, PartialEq, Eq, Structural)]
pub enum EffectMode {
    Breathe,
    Colorshift,
    Wave,
    Off,
}

/// Wave propagation direction of an effect.
#[derive(Clone, Copy, Debug, PartialEq, Eq, Structural)]
pub enum Direction {
    H,
    V,
    Radial,
}

/// The firmware's `direction_type` byte for a direction.
pub open spec fn spec_direction_byte(d: Direction) -> u8 {
    match d {
        Direction::H => direction_type::HORIZONTAL,
        Direction::V => direction_type::VERTICAL,
        Direction::Radial => direction_type::RADIAL,
    }
}

impl Direction {
    /// The firmware's `direction_type` byte for this direction.
    pub fn to_device(self) -> (res: u8)
        ensures
            res == spec_direction_byte(self),
    {
        match self {
            Direction::H => direction_type::HORIZONTAL,
            Direction::V => direction_type::VERTICAL,
            Direction::Radial => direction_type::RADIAL,
        }
    }
}

/// A command of the command line, with its arguments as given.
pub enum Command {
    /// Print the per-model device table.
    Models,
    /// Set all keys to one color.
    All { color: String },
    /// Turn all keys off.
    Off,
    /// Set individual keys: `NAME=RRGGBB` pairs.
    Key { pairs: Vec<String> },
    /// Keypress-trail reactive effect on every key.
    Reactive { base: String, hit: String, fade: u16 },
    /// Select the active layout (`0..=3`).
    Layout { id: u8 },
    /// Read or set the software brightness.
    Brightness { value: Option<String> },
    /// Run the desktop backlight bridge daemon.
    Daemon { max_steps: u32 },
    /// Read back device id, UID and firmware CRC.
    Info,
    /// Send a vendor GET command: hex command byte, then hex parameters.
    Query { bytes: Vec<String> },
    /// Load defaults, then set all keys live to a color.
    Recover { color: String },
    /// Send an arbitrary vendor command: hex command byte, then parameters.
    Raw { bytes: Vec<String> },
    /// Onboard effect programming.
    Effect {
        mode: EffectMode,
        colors: Vec<String>,
        speed: u16,
        dir: Option<Direction>,
        slot: u8,
        positions: Vec<u8>,
    },
    /// Write the flash-persisted default color.
    Persist { color: String, i_understand_flash_risk: bool },
}

/// Why a command's arguments were rejected.
#[derive(Debug, Clone, Copy, PartialEq, Eq)]
pub enum CommandError {
    /// A key argument without `=` (`NAME=RRGGBB` is expected).
    MissingEquals,
    /// A key name that does not resolve.
    Layout(LayoutError),
    /// A color that does not parse.
    Color(ColorError),
    /// An effect other than `off` without any color.
    EffectNeedsColor,
    /// More effect colors than the 14 the device takes (the count given).
    TooManyColors(usize),
    /// A `--positions` list whose length (first) differs from the color
    /// count (second).
    PositionCountMismatch(usize, usize),
    /// A keyframe position above 100.
    PositionOutOfRange(u8),
    /// A device id without `:` (`VID:PID` is expected).
    MissingColon,
    /// A vendor id that is not a hex `u16`.
    InvalidVid,
    /// A product id that is not a hex `u16`.
    InvalidPid,
    /// A token that is not a hex byte.
    InvalidHexByte,
}

/// An RGB array as a tuple.
pub open spec fn rgb_of(a: [u8; 3]) -> (u8, u8, u8) {
    (a@[0], a@[1], a@[2])
}

/// An `(r, g, b)` tuple as an array.
pub fn rgb_arr(c: (u8, u8, u8)) -> (res: [u8; 3])
    ensures
        rgb_of(res) == c,
{
    [c.0, c.1, c.2]
}

/// An RGB array as an `(r, g, b)` tuple.
pub fn rgb_tuple(a: [u8; 3]) -> (res: (u8, u8, u8))
    ensures
        res == rgb_of(a),
{
    (a[0], a[1], a[2])
}

/// A color argument (its UTF-8 bytes) parsed, with the error of a command.
pub open spec fn spec_color_arg(b: Seq<u8>) -> Result<(u8, u8, u8), CommandError> {
    match spec_parse_hex_color(b) {
        Ok(c) => Ok(c),
        Err(e) => Err(CommandError::Color(e)),
    }
}

/// Parse a color argument into an RGB array.
fn color_arg(s: &String) -> (res: Result<[u8; 3], CommandError>)
    ensures
        match spec_color_arg(encode_utf8(s@)) {
            Ok(c) => res is Ok && rgb_of(res->Ok_0) == c,
            Err(e) => res == Err::<[u8; 3], CommandError>(e),
        },
{
    match parse_hex_color(s.as_str()) {
        Ok(c) => Ok(rgb_arr(c)),
        Err(e) => Err(CommandError::Color(e)),
    }
}

/// A `NAME=RRGGBB` argument (its bytes) split at its first `=`.
pub open spec fn spec_split_pair(b: Seq<u8>) -> Option<(Seq<u8>, Seq<u8>)> {
    let k = spec_first_index_of(b, 61u8);
    if k < b.len() {
        Some((b.take(k), b.skip(k + 1)))
    } else {
        None
    }
}

/// A key argument resolved to its HID usage code and color: the name
/// through `resolve_key` in `keymap`, then the color.
pub open spec fn spec_key_pair(layout: &Layout, keymap: Seq<char>, pair: Seq<u8>) -> Result<
    (u8, (u8, u8, u8)),
    CommandError,
> {
    match spec_split_pair(pair) {
        None => Err(CommandError::MissingEquals),
        Some((name, col)) => match spec_resolve_key(layout, keymap, decode_utf8(name), name) {
            Err(e) => Err(CommandError::Layout(e)),
            Ok(hid) => match spec_color_arg(col) {
                Err(e) => Err(e),
                Ok(c) => Ok((hid, c)),
            },
        },
    }
}

/// Resolve one `NAME=RRGGBB` key argument.
fn key_pair(layout: &Layout, keymap: &str, pair: &String) -> (res: Result<(u8, [u8; 3]), CommandError>)
    ensures
        match spec_key_pair(layout, keymap@, encode_utf8(pair@)) {
            Ok((hid, c)) => res is Ok && res->Ok_0.0 == hid && rgb_of(res->Ok_0.1) == c,
            Err(e) => res == Err::<(u8, [u8; 3]), CommandError>(e),
        },
{
    let s = pair.as_str();
    let b = s.as_bytes();
    let k = find_byte(b, 0, b.len(), 61);
    assert(b@.subrange(0, b@.len() as int) =~= b@);
    proof {
        lemma_first_index_of(b@, 61u8);
    }
    if k == b.len() {
        return Err(CommandError::MissingEquals);
    }
    proof {
        encode_utf8_valid_utf8(s@);
        is_char_boundary_iff_not_is_continuation_byte(b@, k as int);
    }
    let (name, _) = s.split_at(k);
    proof {
        assert(name.spec_bytes() =~= b@.take(k as int));
        encode_utf8_decode_utf8(name@);
    }
    let hid = match layout.resolve_key(keymap, name) {
        Ok(h) => h,
        Err(e) => {
            return Err(CommandError::Layout(e));
        },
    };
    match hex_color_from(b, k + 1) {
        Ok(c) => Ok((hid, rgb_arr(c))),
        Err(e) => Err(CommandError::Color(e)),
    }
}

/// The UTF-8 bytes of each string.
pub open spec fn strings_bytes(v: Seq<String>) -> Seq<Seq<u8>> {
    v.map_values(|s: String| encode_utf8(s@))
}

/// Resolved key pairs as `(hid, (r, g, b))`.
pub open spec fn pairs_view(v: Seq<(u8, [u8; 3])>) -> Seq<(u8, (u8, u8, u8))> {
    v.map_values(|p: (u8, [u8; 3])| (p.0, rgb_of(p.1)))
}

/// RGB arrays as tuples.
pub open spec fn colors_view(v: Seq<[u8; 3]>) -> Seq<(u8, u8, u8)> {
    v.map_values(|a: [u8; 3]| rgb_of(a))
}

/// Key arguments resolved in order; the first failure is the error.
pub open spec fn spec_key_pairs(layout: &Layout, keymap: Seq<char>, pairs: Seq<Seq<u8>>) -> Result<
    Seq<(u8, (u8, u8, u8))>,
    CommandError,
>
    decreases pairs.len(),
{
    if pairs.len() == 0 {
        Ok(Seq::empty())
    } else {
        match spec_key_pairs(layout, keymap, pairs.drop_last()) {
            Err(e) => Err(e),
            Ok(prev) => match spec_key_pair(layout, keymap, pairs.last()) {
                Err(e) => Err(e),
                Ok(p) => Ok(prev.push(p)),
            },
        }
    }
}

/// Color arguments parsed in order; the first failure is the error.
pub open spec fn spec_colors(cs: Seq<Seq<u8>>) -> Result<Seq<(u8, u8, u8)>, CommandError>
    decreases cs.len(),
{
    if cs.len() == 0 {
        Ok(Seq::empty())
    } else {
        match spec_colors(cs.drop_last()) {
            Err(e) => Err(e),
            Ok(prev) => match spec_color_arg(cs.last()) {
                Err(e) => Err(e),
                Ok(c) => Ok(prev.push(c)),
            },
        }
    }
}

/// Resolve key arguments in order.
fn key_pairs(layout: &Layout, keymap: &str, pairs: &Vec<String>) -> (res: Result<
    Vec<(u8, [u8; 3])>,
    CommandError,
>)
    ensures
        match spec_key_pairs(layout, keymap@, strings_bytes(pairs@)) {
            Ok(ps) => res is Ok && pairs_view(res->Ok_0@) == ps,
            Err(e) => res == Err::<Vec<(u8, [u8; 3])>, CommandError>(e),
        },
{
    let ghost all = strings_bytes(pairs@);
    let mut out: Vec<(u8, [u8; 3])> = Vec::new();
    let mut i: usize = 0;
    assert(all.take(0) =~= Seq::<Seq<u8>>::empty());
    assert(pairs_view(out@) =~= Seq::<(u8, (u8, u8, u8))>::empty());
    while i < pairs.len()
        invariant
            i <= pairs@.len(),
            all == strings_bytes(pairs@),
            spec_key_pairs(layout, keymap@, all.take(i as int)) == Ok::<
                Seq<(u8, (u8, u8, u8))>,
                CommandError,
            >(pairs_view(out@)),
        decreases pairs@.len() - i,
    {
        assert(all.take(i + 1).drop_last() =~= all.take(i as int));
        assert(all.take(i + 1).last() == all[i as int]);
        assert(all[i as int] == encode_utf8(pairs@[i as int]@));
        let p = match key_pair(layout, keymap, &pairs[i]) {
            Ok(p) => p,
            Err(e) => {
                proof {
                    lemma_key_pairs_err_prefix(layout, keymap@, all, i as int + 1);
                    assert(all.take(all.len() as int) =~= all);
                }
                return Err(e);
            },
        };
        let ghost before = out@;
        out.push(p);
        proof {
            assert(pairs_view(out@) =~= pairs_view(before).push((p.0, rgb_of(p.1))));
            assert(spec_key_pairs(layout, keymap@, all.take(i + 1)) == Ok::<
                Seq<(u8, (u8, u8, u8))>,
                CommandError,
            >(pairs_view(before).push((p.0, rgb_of(p.1)))));
        }
        i = i + 1;
    }
    assert(all.take(pairs@.len() as int) =~= all);
    Ok(out)
}

/// Once a prefix of the key arguments fails, every longer prefix fails the
/// same way.
proof fn lemma_key_pairs_err_prefix(layout: &Layout, keymap: Seq<char>, all: Seq<Seq<u8>>, i: int)
    requires
        0 <= i <= all.len(),
        spec_key_pairs(layout, keymap, all.take(i)) is Err,
    ensures
        spec_key_pairs(layout, keymap, all) == spec_key_pairs(layout, keymap, all.take(i)),
    decreases all.len() - i,
{
    if i == all.len() {
        assert(all.take(i) =~= all);
    } else {
        assert(all.take(i + 1).drop_last() =~= all.take(i));
        lemma_key_pairs_err_prefix(layout, keymap, all, i + 1);
    }
}

/// Once a prefix of the color arguments fails, every longer prefix fails
/// the same way.
proof fn lemma_colors_err_prefix(all: Seq<Seq<u8>>, i: int)
    requires
        0 <= i <= all.len(),
        spec_colors(all.take(i)) is Err,
    ensures
        spec_colors(all) == spec_colors(all.take(i)),
    decreases all.len() - i,
{
    if i == all.len() {
        assert(all.take(i) =~= all);
    } else {
        assert(all.take(i + 1).drop_last() =~= all.take(i));
        lemma_colors_err_prefix(all, i + 1);
    }
}

/// Parsed colors are as many as the arguments.
proof fn lemma_colors_len(cs: Seq<Seq<u8>>)
    requires
        spec_colors(cs) is Ok,
    ensures
        spec_colors(cs)->Ok_0.len() == cs.len(),
    decreases cs.len(),
{
    if cs.len() > 0 {
        lemma_colors_len(cs.drop_last());
    }
}

/// Parse color arguments in order.
fn color_args(colors: &Vec<String>) -> (res: Result<Vec<[u8; 3]>, CommandError>)
    ensures
        match spec_colors(strings_bytes(colors@)) {
            Ok(cs) => res is Ok && colors_view(res->Ok_0@) == cs,
            Err(e) => res == Err::<Vec<[u8; 3]>, CommandError>(e),
        },
{
    let ghost all = strings_bytes(colors@);
    let mut out: Vec<[u8; 3]> = Vec::new();
    let mut i: usize = 0;
    assert(all.take(0) =~= Seq::<Seq<u8>>::empty());
    assert(colors_view(out@) =~= Seq::<(u8, u8, u8)>::empty());
    while i < colors.len()
        invariant
            i <= colors@.len(),
            all == strings_bytes(colors@),
            spec_colors(all.take(i as int)) == Ok::<Seq<(u8, u8, u8)>, CommandError>(
                colors_view(out@),
            ),
        decreases colors@.len() - i,
    {
        assert(all.take(i + 1).drop_last() =~= all.take(i as int));
        assert(all.take(i + 1).last() == all[i as int]);
        assert(all[i as int] == encode_utf8(colors@[i as int]@));
        let c = match color_arg(&colors[i]) {
            Ok(c) => c,
            Err(e) => {
                proof {
                    lemma_colors_err_prefix(all, i as int + 1);
                }
                return Err(e);
            },
        };
        let ghost before = out@;
        out.push(c);
        proof {
            assert(colors_view(out@) =~= colors_view(before).push(rgb_of(c)));
            assert(spec_colors(all.take(i + 1)) == Ok::<Seq<(u8, u8, u8)>, CommandError>(
                colors_view(before).push(rgb_of(c)),
            ));
        }
        i = i + 1;
    }
    assert(all.take(colors@.len() as int) =~= all);
    Ok(out)
}

/// Evenly spaced keyframe positions for `n` colors: `i * 100 / n`.
pub open spec fn spec_default_positions(n: nat) -> Seq<u8> {
    Seq::new(n, |i: int| (i * 100 / (n as int)) as u8)
}

/// Evenly spaced keyframe positions for `n` colors, starting at 0.
pub fn default_positions(n: usize) -> (res: Vec<u8>)
    ensures
        res@ == spec_default_positions(n as nat),
{
    let mut out: Vec<u8> = Vec::new();
    let mut i: usize = 0;
    while i < n
        invariant
            i <= n,
            out@ =~= spec_default_positions(n as nat).take(i as int),
        decreases n - i,
    {
        let wide: u128 = i as u128 * 100;
        assert(wide == i * 100);
        assert(i * 100 / (n as int) < 100) by (nonlinear_arith)
            requires
                i < n,
        ;
        out.push((wide / (n as u128)) as u8);
        i = i + 1;
    }
    out
}

/// The command applies a logical frame (`all`, `off`, `key`, `reactive`
/// or `effect`).
pub open spec fn is_frame_command(c: &Command) -> bool {
    ||| c is All
    ||| c is Off
    ||| c is Key
    ||| c is Reactive
    ||| c is Effect
}

/// `res` is the frame command `c` gives: its colors parsed, its keys
/// resolved in `keymap`, an effect's positions defaulted when none are
/// given; or the first argument error. An `off` effect ignores its colors:
/// its frame holds none, whatever was given.
pub open spec fn is_command_frame(
    c: &Command,
    layout: &Layout,
    keymap: Seq<char>,
    res: Result<Frame, CommandError>,
) -> bool {
    match c {
        Command::All { color } => match spec_color_arg(encode_utf8(color@)) {
            Ok(rgb) => res matches Ok(Frame::All { color: a }) && rgb_of(a) == rgb,
            Err(e) => res == Err::<Frame, CommandError>(e),
        },
        Command::Off => res matches Ok(Frame::Off),
        Command::Key { pairs } => match spec_key_pairs(layout, keymap, strings_bytes(pairs@)) {
            Ok(ps) => res matches Ok(Frame::Keys { pairs: out }) && pairs_view(out@) == ps,
            Err(e) => res == Err::<Frame, CommandError>(e),
        },
        Command::Reactive { base, hit, fade } => match spec_color_arg(encode_utf8(base@)) {
            Err(e) => res == Err::<Frame, CommandError>(e),
            Ok(b) => match spec_color_arg(encode_utf8(hit@)) {
                Err(e) => res == Err::<Frame, CommandError>(e),
                Ok(h) => res matches Ok(Frame::Reactive { base: rb, hit: rh, fade: rf }) && rgb_of(
                    rb,
                ) == b && rgb_of(rh) == h && rf == *fade,
            },
        },
        Command::Effect { mode, colors, speed, dir, slot, positions } => if *mode
            == EffectMode::Off {
            res matches Ok(
                Frame::Effect {
                    mode: m,
                    colors: out,
                    speed: sp,
                    dir: d,
                    slot: sl,
                    positions: ps,
                },
            ) && m == EffectMode::Off && out@.len() == 0 && sp == *speed && d == *dir && sl
                == *slot && ps@ == positions@
        } else {
            match spec_colors(strings_bytes(colors@)) {
                Err(e) => res == Err::<Frame, CommandError>(e),
                Ok(cs) => res matches Ok(
                    Frame::Effect {
                        mode: m,
                        colors: out,
                        speed: sp,
                        dir: d,
                        slot: sl,
                        positions: ps,
                    },
                ) && m == *mode && colors_view(out@) == cs && sp == *speed && d == *dir && sl
                    == *slot && ps@ == (if positions@.len() == 0 {
                    spec_default_positions(cs.len())
                } else {
                    positions@
                }),
            }
        },
        _ => false,
    }
}

/// The logical frame, before any scaling, that an applying command sets:
/// raw colors and resolved HID usage codes, so that it can be applied
/// again at another brightness without the keymap.
pub fn command_to_frame(command: &Command, layout: &Layout, keymap: &str) -> (res: Result<
    Frame,
    CommandError,
>)
    requires
        is_frame_command(command),
    ensures
        is_command_frame(command, layout, keymap@, res),
{
    match command {
        Command::All { color } => {
            let c = color_arg(color)?;
            Ok(Frame::All { color: c })
        },
        Command::Off => Ok(Frame::Off),
        Command::Key { pairs } => {
            let out = key_pairs(layout, keymap, pairs)?;
            Ok(Frame::Keys { pairs: out })
        },
        Command::Reactive { base, hit, fade } => {
            let b = color_arg(base)?;
            let h = color_arg(hit)?;
            Ok(Frame::Reactive { base: b, hit: h, fade: *fade })
        },
        Command::Effect { mode, colors, speed, dir, slot, positions } => {
            if *mode == EffectMode::Off {
                let p = positions.clone();
                assert(p@ =~= positions@);
                return Ok(
                    Frame::Effect {
                        mode: EffectMode::Off,
                        colors: Vec::new(),
                        speed: *speed,
                        dir: *dir,
                        slot: *slot,
                        positions: p,
                    },
                );
            }
            let parsed = color_args(colors)?;
            proof {
                lemma_colors_len(strings_bytes(colors@));
            }
            let ps = if positions.len() == 0 {
                default_positions(parsed.len())
            } else {
                let p = positions.clone();
                assert(p@ =~= positions@);
                p
            };
            Ok(
                Frame::Effect {
                    mode: *mode,
                    colors: parsed,
                    speed: *speed,
                    dir: *dir,
                    slot: *slot,
                    positions: ps,
                },
            )
        },
        _ => {
            assert(false);
            Ok(Frame::Off)
        },
    }
}

/// The first keyframe position above 100, if any.
pub open spec fn first_position_over_100(ps: Seq<u8>) -> Option<u8>
    decreases ps.len(),
{
    if ps.len() == 0 {
        None
    } else if ps[0] > 100 {
        Some(ps[0])
    } else {
        first_position_over_100(ps.drop_first())
    }
}

/// Validation of an `effect` command: `off` takes anything; otherwise 1 to
/// 14 colors that parse and, if positions are given, one per color, each
/// at most 100.
pub open spec fn spec_validate_effect(mode: EffectMode, colors: Seq<Seq<u8>>, positions: Seq<u8>) -> Result<
    (),
    CommandError,
> {
    if mode == EffectMode::Off {
        Ok(())
    } else if colors.len() == 0 {
        Err(CommandError::EffectNeedsColor)
    } else if colors.len() > MAX_EFFECT_COLORS {
        Err(CommandError::TooManyColors(colors.len() as usize))
    } else {
        match spec_colors(colors) {
            Err(e) => Err(e),
            Ok(_) => if positions.len() == 0 {
                Ok(())
            } else if positions.len() != colors.len() {
                Err(CommandError::PositionCountMismatch(positions.len() as usize, colors.len() as usize))
            } else {
                match first_position_over_100(positions) {
                    Some(p) => Err(CommandError::PositionOutOfRange(p)),
                    None => Ok(()),
                }
            },
        }
    }
}

/// A parse result with its value dropped.
pub open spec fn unit_of<T>(r: Result<T, CommandError>) -> Result<(), CommandError> {
    match r {
        Ok(_) => Ok(()),
        Err(e) => Err(e),
    }
}

/// Validation of a command's arguments, before any hardware is touched:
/// colors parse, key names resolve, effect arguments are in range; the
/// first failure is the error.
pub open spec fn spec_validate(c: &Command, layout: &Layout, keymap: Seq<char>) -> Result<
    (),
    CommandError,
> {
    match c {
        Command::All { color } => unit_of(spec_color_arg(encode_utf8(color@))),
        Command::Recover { color } => unit_of(spec_color_arg(encode_utf8(color@))),
        Command::Persist { color, .. } => unit_of(spec_color_arg(encode_utf8(color@))),
        Command::Key { pairs } => unit_of(spec_key_pairs(layout, keymap, strings_bytes(pairs@))),
        Command::Reactive { base, hit, .. } => match spec_color_arg(encode_utf8(base@)) {
            Err(e) => Err(e),
            Ok(_) => unit_of(spec_color_arg(encode_utf8(hit@))),
        },
        Command::Effect { mode, colors, positions, .. } => spec_validate_effect(
            *mode,
            strings_bytes(colors@),
            positions@,
        ),
        _ => Ok(()),
    }
}

/// The first keyframe position above 100.
fn position_over_100(positions: &Vec<u8>) -> (res: Option<u8>)
    ensures
        res == first_position_over_100(positions@),
{
    let mut i: usize = 0;
    assert(positions@.skip(0) =~= positions@);
    while i < positions.len()
        invariant
            i <= positions@.len(),
            first_position_over_100(positions@) == first_position_over_100(
                positions@.skip(i as int),
            ),
        decreases positions@.len() - i,
    {
        assert(positions@.skip(i as int).drop_first() =~= positions@.skip(i + 1));
        if positions[i] > 100 {
            return Some(positions[i]);
        }
        i = i + 1;
    }
    None
}

/// Check a command's arguments before any hardware is touched, so that a
/// mistyped color or key name fails as a parse error.
pub fn validate_command(command: &Command, layout: &Layout, keymap: &str) -> (res: Result<
    (),
    CommandError,
>)
    ensures
        res == spec_validate(command, layout, keymap@),
{
    match command {
        Command::All { color } => {
            color_arg(color)?;
        },
        Command::Recover { color } => {
            color_arg(color)?;
        },
        Command::Persist { color, .. } => {
            color_arg(color)?;
        },
        Command::Key { pairs } => {
            key_pairs(layout, keymap, pairs)?;
        },
        Command::Reactive { base, hit, .. } => {
            color_arg(base)?;
            color_arg(hit)?;
        },
        Command::Effect { mode, colors, positions, .. } => {
            if *mode != EffectMode::Off {
                if colors.len() == 0 {
                    return Err(CommandError::EffectNeedsColor);
                }
                if colors.len() > MAX_EFFECT_COLORS {
                    return Err(CommandError::TooManyColors(colors.len()));
                }
                color_args(colors)?;
                proof {
                    lemma_colors_len(strings_bytes(colors@));
                }
                if positions.len() != 0 {
                    if positions.len() != colors.len() {
                        return Err(CommandError::PositionCountMismatch(positions.len(), colors.len()));
                    }
                    if let Some(p) = position_over_100(positions) {
                        return Err(CommandError::PositionOutOfRange(p));
                    }
                }
            }
        },
        _ => {},
    }
    Ok(())
}

/// A frame command that passed validation builds its frame without an
/// error: validation checks every argument the frame is built from.
pub proof fn law_validated_command_builds_frame(
    c: &Command,
    layout: &Layout,
    keymap: Seq<char>,
    res: Result<Frame, CommandError>,
)
    requires
        is_frame_command(c),
        spec_validate(c, layout, keymap) is Ok,
    ensures
        is_command_frame(c, layout, keymap, res) ==> res is Ok,
{
    match c {
        Command::Effect { mode, colors, positions, .. } => {
            if *mode != EffectMode::Off {
                assert(spec_colors(strings_bytes(colors@)) is Ok);
            }
        },
        _ => {},
    }
}

/// Default keyframe positions start at 0 (so they add no padding section),
/// rise strictly, and stay within `0..=100` (so validation accepts them),
/// for any color count an effect takes.
pub proof fn law_default_positions(n: nat)
    requires
        1 <= n <= MAX_EFFECT_COLORS,
    ensures
        spec_default_positions(n).len() == n,
        spec_default_positions(n)[0] == 0,
        forall|i: int, j: int|
            0 <= i < j < n ==> spec_default_positions(n)[i] < spec_default_positions(n)[j],
        first_position_over_100(spec_default_positions(n)) is None,
{
    let ps = spec_default_positions(n);
    assert forall|i: int, j: int| 0 <= i < j < n implies ps[i] < ps[j] by {
        assert(i * 100 / (n as int) < j * 100 / (n as int)) by (nonlinear_arith)
            requires
                0 <= i < j,
                1 <= n <= 14,
        ;
        assert(j * 100 / (n as int) < 100) by (nonlinear_arith)
            requires
                j < n,
                n >= 1,
        ;
    }
    assert forall|i: int| 0 <= i < n implies ps[i] <= 100 by {
        assert(i * 100 / (n as int) < 100) by (nonlinear_arith)
            requires
                0 <= i < n,
                n >= 1,
        ;
    }
    lemma_no_position_over_100(ps);
}

/// A position list with every entry at most 100 has none above 100.
proof fn lemma_no_position_over_100(ps: Seq<u8>)
    requires
        forall|i: int| 0 <= i < ps.len() ==> ps[i] <= 100,
    ensures
        first_position_over_100(ps) is None,
    decreases ps.len(),
{
    if ps.len() > 0 {
        assert(ps[0] <= 100);
        assert forall|i: int| 0 <= i < ps.drop_first().len() implies ps.drop_first()[i] <= 100 by {
            assert(ps.drop_first()[i] == ps[i + 1]);
        }
        lemma_no_position_over_100(ps.drop_first());
    }
}

/// A hex token with every leading `0x`, then every leading `0X`, removed.
pub open spec fn spec_strip_hex_prefix(b: Seq<u8>) -> Seq<u8> {
    spec_strip_all_prefix(spec_strip_all_prefix(b, 48u8, 120u8), 48u8, 88u8)
}

/// Start of bytes `start..end` of `b` once every leading `0x`, then every
/// leading `0X`, is removed.
fn strip_hex_prefix(b: &[u8], start: usize, end: usize) -> (res: usize)
    requires
        start <= end <= b@.len(),
    ensures
        start <= res <= end,
        b@.subrange(res as int, end as int) == spec_strip_hex_prefix(
            b@.subrange(start as int, end as int),
        ),
{
    let a = strip_all_prefix(b, start, end, 48, 120);
    strip_all_prefix(b, a, end, 48, 88)
}

/// A hex byte token, optionally `0x`/`0X`-prefixed.
pub open spec fn spec_hex_byte(b: Seq<u8>) -> Result<u8, CommandError> {
    match spec_from_str_radix(spec_strip_hex_prefix(b), 16, 255) {
        Some(v) => Ok(v as u8),
        None => Err(CommandError::InvalidHexByte),
    }
}

/// Parse a hex byte token such as `86` or `0x86`.
pub fn parse_hex_byte(tok: &str) -> (res: Result<u8, CommandError>)
    ensures
        res == spec_hex_byte(tok.spec_bytes()),
{
    let b = tok.as_bytes();
    assert(b@.subrange(0, b@.len() as int) =~= b@);
    let a = strip_hex_prefix(b, 0, b.len());
    match parse_radix(b, a, b.len(), 16, 255) {
        Some(v) => Ok(v as u8),
        None => Err(CommandError::InvalidHexByte),
    }
}

/// A `VID:PID` device id in hex, each half optionally `0x`/`0X`-prefixed,
/// split at the first `:`.
pub open spec fn spec_vid_pid(b: Seq<u8>) -> Result<(u16, u16), CommandError> {
    let k = spec_first_index_of(b, 58u8);
    if k >= b.len() {
        Err(CommandError::MissingColon)
    } else {
        match spec_from_str_radix(spec_strip_hex_prefix(b.take(k)), 16, 65535) {
            None => Err(CommandError::InvalidVid),
            Some(v) => match spec_from_str_radix(spec_strip_hex_prefix(b.skip(k + 1)), 16, 65535) {
                None => Err(CommandError::InvalidPid),
                Some(p) => Ok((v as u16, p as u16)),
            },
        }
    }
}

/// Parse a `VID:PID` device id in hex, e.g. `1038:113a`.
pub fn parse_vid_pid(s: &str) -> (res: Result<(u16, u16), CommandError>)
    ensures
        res == spec_vid_pid(s.spec_bytes()),
{
    let b = s.as_bytes();
    let n = b.len();
    assert(b@.subrange(0, n as int) =~= b@);
    let k = find_byte(b, 0, n, 58);
    proof {
        lemma_first_index_of(b@, 58u8);
    }
    if k == n {
        return Err(CommandError::MissingColon);
    }
    assert(b@.subrange(0, k as int) =~= b@.take(k as int));
    assert(b@.subrange(k + 1, n as int) =~= b@.skip(k + 1));
    let va = strip_hex_prefix(b, 0, k);
    let vid = match parse_radix(b, va, k, 16, 65535) {
        Some(v) => v as u16,
        None => {
            return Err(CommandError::InvalidVid);
        },
    };
    let pa = strip_hex_prefix(b, k + 1, n);
    let pid = match parse_radix(b, pa, n, 16, 65535) {
        Some(v) => v as u16,
        None => {
            return Err(CommandError::InvalidPid);
        },
    };
    Ok((vid, pid))
}

/// How the hidraw device is found.
#[derive(Debug, Clone, Copy, PartialEq, Eq)]
pub enum DeviceQuery {
    /// Use the given path; the model's `(vid, pid)` is the one `--id` gave,
    /// or, when `None`, is read back from the device's sysfs entry.
    Path(Option<(u16, u16)>),
    /// Search for a device with exactly this vendor and product id.
    Find(u16, u16),
    /// Search for a device of the MSI vendor id with any product id of the
    /// model table.
    FindKnown,
}

/// How to find the device: a given `--path` is used as is (with `--id`,
/// when given, naming its model); otherwise `--id` restricts the search to
/// that exact id; otherwise every MSI product id of the model table is
/// searched for. A malformed `--id` is the error.
pub fn device_query(path_given: bool, id: Option<&str>) -> (res: Result<DeviceQuery, CommandError>)
    ensures
        match id {
            None => res == Ok::<DeviceQuery, CommandError>(
                if path_given {
                    DeviceQuery::Path(None)
                } else {
                    DeviceQuery::FindKnown
                },
            ),
            Some(s) => match spec_vid_pid(s.spec_bytes()) {
                Err(e) => res == Err::<DeviceQuery, CommandError>(e),
                Ok((v, p)) => res == Ok::<DeviceQuery, CommandError>(
                    if path_given {
                        DeviceQuery::Path(Some((v, p)))
                    } else {
                        DeviceQuery::Find(v, p)
                    },
                ),
            },
        },
{
    match id {
        None => if path_given {
            Ok(DeviceQuery::Path(None))
        } else {
            Ok(DeviceQuery::FindKnown)
        },
        Some(s) => {
            let (v, p) = parse_vid_pid(s)?;
            if path_given {
                Ok(DeviceQuery::Path(Some((v, p))))
            } else {
                Ok(DeviceQuery::Find(v, p))
            }
        },
    }
}

/// The frame of a frame command carries the command's own arguments
/// unchanged: `all` gives an `all` frame, `off` the `off` frame, `key` a
/// keys frame; a reactive frame has the command's fade; an effect frame has
/// the command's mode, speed, direction and slot, and its positions when
/// any are given.
pub proof fn law_command_frame_keeps_arguments(
    c: &Command,
    layout: &Layout,
    keymap: Seq<char>,
    res: Result<Frame, CommandError>,
)
    requires
        is_command_frame(c, layout, keymap, res),
        res is Ok,
    ensures
        c is All ==> res->Ok_0 is All,
        c is Off ==> res->Ok_0 is Off,
        c is Key ==> res->Ok_0 is Keys,
        c matches Command::Reactive { fade, .. } ==> (res->Ok_0 matches Frame::Reactive {
            fade: f,
            ..
        } && f == fade),
        c matches Command::Effect { mode, speed, dir, slot, positions, .. } ==> (
        res->Ok_0 matches Frame::Effect { mode: m, speed: sp, dir: d, slot: sl, positions: ps, .. }
            && m == mode && sp == speed && d == dir && sl == slot && (positions@.len() > 0
            ==> ps@ == positions@)),
{
}

/// A reactive frame's base and hit colors are the colors an `all` command
/// gives for the same arguments: the base is the base argument's color
/// and the hit the hit argument's, never swapped or altered.
pub proof fn law_reactive_colors_are_their_arguments(
    c: &Command,
    base_all: &Command,
    hit_all: &Command,
    layout: &Layout,
    keymap: Seq<char>,
    res: Result<Frame, CommandError>,
    res_base: Result<Frame, CommandError>,
    res_hit: Result<Frame, CommandError>,
)
    requires
        c matches Command::Reactive { base, hit, .. } && (base_all matches Command::All { color }
            && color@ == base@) && (hit_all matches Command::All { color: hc } && hc@ == hit@),
        is_command_frame(c, layout, keymap, res),
        is_command_frame(base_all, layout, keymap, res_base),
        is_command_frame(hit_all, layout, keymap, res_hit),
        res is Ok,
    ensures
        res_base matches Ok(Frame::All { color: bc }) && res_hit matches Ok(
            Frame::All { color: hc },
        ) && res->Ok_0 matches Frame::Reactive { base: rb, hit: rh, .. } && rgb_of(rb) == rgb_of(
            bc,
        ) && rgb_of(rh) == rgb_of(hc),
{
}

/// Each color of an effect frame (other than `off`) is the color an `all`
/// command gives for the same argument, in the order given.
pub proof fn law_effect_colors_are_their_arguments(
    c: &Command,
    layout: &Layout,
    keymap: Seq<char>,
    res: Result<Frame, CommandError>,
    i: int,
)
    requires
        c matches Command::Effect { mode, colors, .. } && mode != EffectMode::Off && 0 <= i
            < colors@.len(),
        is_command_frame(c, layout, keymap, res),
        res is Ok,
    ensures
        c matches Command::Effect { colors, .. } && res->Ok_0 matches Frame::Effect {
            colors: out,
            ..
        } && out@.len() == colors@.len() && spec_color_arg(encode_utf8(colors@[i]@)) == Ok::<
            (u8, u8, u8),
            CommandError,
        >(rgb_of(out@[i])),
{
    match c {
        Command::Effect { colors, .. } => {
            let all = strings_bytes(colors@);
            lemma_colors_len(all);
            lemma_colors_ok_each(all, i);
        },
        _ => {},
    }
}

/// Every argument of a list of colors that parses parses on its own, to
/// the color at its place.
proof fn lemma_colors_ok_each(cs: Seq<Seq<u8>>, i: int)
    requires
        spec_colors(cs) is Ok,
        0 <= i < cs.len(),
    ensures
        spec_color_arg(cs[i]) == Ok::<(u8, u8, u8), CommandError>(spec_colors(cs)->Ok_0[i]),
    decreases cs.len(),
{
    lemma_colors_len(cs.drop_last());
    if i < cs.len() - 1 {
        lemma_colors_ok_each(cs.drop_last(), i);
    }
}

/// Every key argument of a list that resolves resolves on its own, to the
/// pair at its place.
proof fn lemma_key_pairs_ok_each(layout: &Layout, keymap: Seq<char>, ps: Seq<Seq<u8>>, i: int)
    requires
        spec_key_pairs(layout, keymap, ps) is Ok,
        0 <= i < ps.len(),
    ensures
        spec_key_pairs(layout, keymap, ps)->Ok_0.len() == ps.len(),
        spec_key_pair(layout, keymap, ps[i]) == Ok::<(u8, (u8, u8, u8)), CommandError>(
            spec_key_pairs(layout, keymap, ps)->Ok_0[i],
        ),
    decreases ps.len(),
{
    let prev = spec_key_pairs(layout, keymap, ps.drop_last());
    if ps.len() == 1 {
        assert(ps.drop_last().len() == 0);
        assert(prev == Ok::<Seq<(u8, (u8, u8, u8))>, CommandError>(Seq::empty()));
    } else {
        lemma_key_pairs_ok_each(layout, keymap, ps.drop_last(), if i < ps.len() - 1 {
            i
        } else {
            0
        });
    }
    if i < ps.len() - 1 {
        assert(ps.drop_last()[i] == ps[i]);
        lemma_key_pairs_ok_each(layout, keymap, ps.drop_last(), i);
    }
}

/// Each pair of a key frame comes from the key argument at its place,
/// split at its first `=`: the key code is what the text before it
/// resolves to in the keymap, and the color is the text after it parsed as
/// a hex color.
pub proof fn law_key_frame_pairs_are_their_arguments(
    c: &Command,
    layout: &Layout,
    keymap: Seq<char>,
    res: Result<Frame, CommandError>,
    i: int,
)
    requires
        c matches Command::Key { pairs } && 0 <= i < pairs@.len(),
        is_command_frame(c, layout, keymap, res),
        res is Ok,
    ensures
        c matches Command::Key { pairs } && res->Ok_0 matches Frame::Keys { pairs: out } && out@.len()
            == pairs@.len() && ({
            let b = encode_utf8(pairs@[i]@);
            exists|k: int|
                0 <= k < b.len() && b[k] == 61u8 && (forall|j: int| 0 <= j < k ==> b[j] != 61u8)
                    && spec_resolve_key(layout, keymap, decode_utf8(b.take(k)), b.take(k)) == Ok::<
                    u8,
                    LayoutError,
                >(out@[i].0) && spec_parse_hex_color(b.skip(k + 1)) == Ok::<
                    (u8, u8, u8),
                    ColorError,
                >(rgb_of(out@[i].1))
        }),
{
    match c {
        Command::Key { pairs } => {
            let all = strings_bytes(pairs@);
            lemma_key_pairs_ok_each(layout, keymap, all, i);
            let b = all[i];
            assert(b == encode_utf8(pairs@[i]@));
            lemma_first_index_of(b, 61u8);
            let k = spec_first_index_of(b, 61u8);
            let out = res->Ok_0->Keys_pairs;
            assert(pairs_view(out@)[i] == (out@[i].0, rgb_of(out@[i].1)));
            assert(b[k] == 61u8);
        },
        _ => {},
    }
}

} // verus!
