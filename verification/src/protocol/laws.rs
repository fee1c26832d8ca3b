//! Properties of the frame builders that span several definitions.
use vstd::prelude::*;

use super::effect::{
    br_final_pos, br_initial_pos, cs_final_pos, cs_initial_pos, device_program_defined,
    effect_num_sections, effect_program, effect_section, effect_section_speed, effect_sections,
    effect_needs_padding, effect_ticks, effect_total_ticks, spec_direction_scaling, spec_trailer, spec_color_byte, spec_next_section, spec_section_bytes,
    spec_effect_device_bytes, spec_position_byte, spec_ramp_speed, spec_scaled_uint8, trunc_div,
    LightingEffect, EFFECT_DEVICE_BYTES_LEN, EFFECT_SECTIONS, MAX_EFFECT_COLORS,
};
use super::{cmd, effect_type, spec_group_frame, spec_steady_elements, MAX_GROUP_ENTRIES};

verus! {

/// The hand-rolled steady group encoding: header bytes 1 and 3, then for
/// key `m` at `base = 5 + 12*m`: `R, G, B` at `base..base+3`, `0x2C, 0x01`
/// at `base+6..base+8`, `settings_mask = 1` at `base+9`, the key code at
/// `base+11`, zero everywhere else.
pub open spec fn spec_legacy_group_frame(hids: Seq<u8>, r: u8, g: u8, b: u8) -> Seq<u8> {
    Seq::new(
        525,
        |i: int|
            if i == 1 {
                cmd::SET_COLOR_GROUP
            } else if i == 3 {
                hids.len() as u8
            } else if 5 <= i < 5 + 12 * hids.len() {
                let k = (i - 5) % 12;
                if k == 0 {
                    r
                } else if k == 1 {
                    g
                } else if k == 2 {
                    b
                } else if k == 6 {
                    0x2Cu8
                } else if k == 7 {
                    1u8
                } else if k == 9 {
                    1u8
                } else if k == 11 {
                    hids[(i - 5) / 12]
                } else {
                    0u8
                }
            } else {
                0u8
            },
    )
}

/// A steady group report (`build_group_frame`) is byte-identical to the
/// hand-rolled legacy encoding, for every key list that fits one report and
/// every color.
pub proof fn law_steady_group_frame_is_legacy_encoding(hids: Seq<u8>, r: u8, g: u8, b: u8)
    requires
        hids.len() <= MAX_GROUP_ENTRIES,
    ensures
        spec_group_frame(spec_steady_elements(hids, r, g, b)) == spec_legacy_group_frame(
            hids,
            r,
            g,
            b,
        ),
{
    let es = spec_steady_elements(hids, r, g, b);
    let f = spec_group_frame(es);
    let l = spec_legacy_group_frame(hids, r, g, b);
    assert forall|i: int| 0 <= i < 525 implies f[i] == l[i] by {
        if 5 <= i < 5 + 12 * hids.len() {
            let m = (i - 5) / 12;
            assert(0 <= m < hids.len()) by (nonlinear_arith)
                requires
                    5 <= i < 5 + 12 * hids.len(),
                    m == (i - 5) / 12,
            ;
            assert(0x012Cu16 % 256 == 0x2C && 0x012Cu16 / 256 == 1);
        }
    }
    assert(f =~= l);
}

/// A delta and the reverse delta over the same tick count are two's
/// complement negations of each other: their sum is 0 modulo 256.
pub proof fn law_scaled_uint8_reverse_is_negation(initial: u8, final_: u8, speed: u16)
    requires
        speed > 0,
    ensures
        (spec_scaled_uint8(initial, final_, speed) as int + spec_scaled_uint8(
            final_,
            initial,
            speed,
        ) as int) % 256 == 0,
{
    let d = 16 * (final_ - initial);
    let q = trunc_div(d, speed as int);
    let q2 = trunc_div(-d, speed as int);
    assert(q2 == -q);
    assert(((q % 256) + ((-q) % 256)) % 256 == 0) by (nonlinear_arith);
}

proof fn lemma_sections_tail_zero(p: Seq<u8>, k: nat, breathe: bool)
    requires
        k <= EFFECT_SECTIONS,
    ensures
        effect_sections(p, k, breathe).len() == 8 * k,
        forall|j: int|
            8 * effect_num_sections(p, breathe) <= j < 8 * k ==> #[trigger] effect_sections(
                p,
                k,
                breathe,
            )[j] == 0u8,
    decreases k,
{
    if k > 0 {
        let km1 = (k - 1) as nat;
        lemma_sections_tail_zero(p, km1, breathe);
        let prev = effect_sections(p, km1, breathe);
        let sec = effect_section(p, km1 as int, breathe);
        assert(sec.1.len() == 8);
        let cur = effect_sections(p, k, breathe);
        assert(cur == prev + sec.1);
        assert forall|j: int|
            8 * effect_num_sections(p, breathe) <= j < 8 * k implies #[trigger] cur[j] == 0u8 by {
            if j >= 8 * km1 {
                assert(km1 >= effect_num_sections(p, breathe));
                assert(sec.1 =~= Seq::new(8, |i: int| 0u8));
            }
        }
    }
}

/// The section slots past the program's section count are zero padding:
/// with `n` sections (`n < 16`), bytes `8*n .. 128` of the device program
/// are all zero.
pub proof fn law_unused_sections_are_zero(p: Seq<u8>, breathe: bool)
    ensures
        forall|j: int|
            8 * effect_num_sections(p, breathe) <= j < 8 * EFFECT_SECTIONS ==> #[trigger] effect_program(
                p,
                breathe,
            )[j] == 0u8,
{
    lemma_sections_tail_zero(p, EFFECT_SECTIONS as nat, breathe);
}

/// A disabled (or unrecognized) effect type transforms into 151 zero bytes.
pub proof fn law_disabled_effect_program_is_zero(p: Seq<u8>)
    requires
        p[0] != effect_type::COLORSHIFT,
        p[0] != effect_type::BREATHE,
    ensures
        spec_effect_device_bytes(p).len() == EFFECT_DEVICE_BYTES_LEN,
        forall|j: int| 0 <= j < EFFECT_DEVICE_BYTES_LEN ==> #[trigger] spec_effect_device_bytes(p)[j] == 0u8,
{
}


/// A section spanning at most 100 percent never gets a tick count of zero:
/// it is at least 33 and never truncated.
proof fn lemma_ramp_speed_nonzero(ticks: u16, span: int)
    requires
        span <= 100,
    ensures
        spec_ramp_speed(ticks, span) != 0,
{
    let x = ticks * span;
    if span <= 0 {
        assert(x <= 0) by (nonlinear_arith)
            requires
                x == ticks * span,
                span <= 0,
                ticks >= 0,
        ;
        assert(trunc_div(x, 100) <= 0);
    } else {
        assert(x <= ticks * 100) by (nonlinear_arith)
            requires
                x == ticks * span,
                span <= 100,
                ticks >= 0,
        ;
        assert(trunc_div(x, 100) <= 65535);
    }
}

/// An effect with at least one color, at most 14 colors and 14
/// positions, and every keyframe position a percentage (at most 100)
/// always transforms into a device program: no section's tick count can
/// come out as zero, so nothing divides by it.
pub proof fn law_percent_positions_effect_transforms(e: LightingEffect)
    requires
        e.fits(),
        e.colors@.len() >= 1,
        forall|i: int| 0 <= i < e.positions@.len() ==> e.positions@[i] <= 100,
    ensures
        e.transformable(),
{
    let p = e.spec_to_bytes();
    assert forall|i: int| 0 <= i < MAX_EFFECT_COLORS implies #[trigger] spec_position_byte(p, i)
        <= 100 by {
        if i < e.positions@.len() {
            assert(p[55 + i] == e.positions@[i]);
        } else {
            assert(p[55 + i] == 0u8);
        }
    }
    let breathe = p[0] == effect_type::BREATHE;
    assert(p[12] == e.colors@.len());
    if p[0] == effect_type::COLORSHIFT || breathe {
        assert forall|s: int|
            0 <= s < EFFECT_SECTIONS && s < effect_num_sections(p, breathe) implies #[trigger] effect_section_speed(
            p,
            s,
            breathe,
        ) != 0 by {
            let n = effect_num_sections(p, breathe);
            let pad = spec_position_byte(p, 0) != 0;
            if breathe {
                let fp = br_final_pos(p, s, n, pad);
                let ip = br_initial_pos(p, s, pad);
                if s >= n - 2 {
                } else if pad {
                    if s == 0 {
                        assert(spec_position_byte(p, 0) <= 100);
                    } else {
                        assert(spec_position_byte(p, 1 + (s - 1) / 2) <= 100);
                    }
                } else {
                    assert(spec_position_byte(p, 1 + s / 2) <= 100);
                }
                assert(fp <= 100);
                assert(trunc_div(fp - ip, 2) <= 100);
                lemma_ramp_speed_nonzero(effect_ticks(p), trunc_div(fp - ip, 2));
            } else {
                let fp = cs_final_pos(p, s, n, pad);
                let ip = cs_initial_pos(p, s, pad);
                if s == n - 1 {
                } else if pad {
                    assert(spec_position_byte(p, s) <= 100);
                } else {
                    assert(spec_position_byte(p, s + 1) <= 100);
                }
                assert(fp <= 100);
                lemma_ramp_speed_nonzero(effect_ticks(p), fp - ip);
            }
        }
    }
    assert(device_program_defined(p));
}

/// The next color after color `c` of `n`, wrapping to the first.
pub open spec fn next_color(c: int, n: int) -> int {
    if c == n - 1 {
        0
    } else {
        c + 1
    }
}

/// The padding section, when there is one, comes first.
pub open spec fn padding_sections(p: Seq<u8>) -> int {
    if effect_needs_padding(p) {
        1
    } else {
        0
    }
}

/// A colorshift program has one section per color, after the padding
/// section: section `c` (counted after the padding) ramps every channel
/// from color `c` to the next color, the last back to the first, and
/// points at the section after it, the last back to the first.
pub proof fn law_colorshift_section_per_color(p: Seq<u8>, c: int)
    requires
        0 <= c < p[12],
    ensures
        effect_num_sections(p, false) == p[12] + padding_sections(p),
        ({
            let s = c + padding_sections(p);
            let nx = next_color(c, p[12] as int);
            let sec = effect_section(p, s, false);
            sec.1 == spec_section_bytes(
                spec_scaled_uint8(spec_color_byte(p, c, 0), spec_color_byte(p, nx, 0), sec.0),
                spec_scaled_uint8(spec_color_byte(p, c, 1), spec_color_byte(p, nx, 1), sec.0),
                spec_scaled_uint8(spec_color_byte(p, c, 2), spec_color_byte(p, nx, 2), sec.0),
                sec.0,
                spec_next_section(s, effect_num_sections(p, false)),
            )
        }),
{
}

/// A breathe program has two sections per color, after the padding
/// section: for color `c`, section `2c` (counted after the padding) fades
/// it out to black, and section `2c + 1` fades in from black to the next
/// color, the last back to the first.
pub proof fn law_breathe_two_sections_per_color(p: Seq<u8>, c: int)
    requires
        0 <= c < p[12],
    ensures
        effect_num_sections(p, true) == 2 * p[12] + padding_sections(p),
        ({
            let s = 2 * c + padding_sections(p);
            let sec = effect_section(p, s, true);
            sec.1 == spec_section_bytes(
                spec_scaled_uint8(spec_color_byte(p, c, 0), 0, sec.0),
                spec_scaled_uint8(spec_color_byte(p, c, 1), 0, sec.0),
                spec_scaled_uint8(spec_color_byte(p, c, 2), 0, sec.0),
                sec.0,
                spec_next_section(s, effect_num_sections(p, true)),
            )
        }),
        ({
            let s = 2 * c + 1 + padding_sections(p);
            let nx = next_color(c, p[12] as int);
            let sec = effect_section(p, s, true);
            sec.1 == spec_section_bytes(
                spec_scaled_uint8(0, spec_color_byte(p, nx, 0), sec.0),
                spec_scaled_uint8(0, spec_color_byte(p, nx, 1), sec.0),
                spec_scaled_uint8(0, spec_color_byte(p, nx, 2), sec.0),
                sec.0,
                spec_next_section(s, effect_num_sections(p, true)),
            )
        }),
{
    let pad = effect_needs_padding(p);
    if pad {
        assert((2 * c + 1) % 2 == 1);
        assert((2 * c + 2) % 2 == 0);
        assert((2 * c + 1 - 1) / 2 == c);
        assert((2 * c + 2 - 1) / 2 + 1 == c + 1);
    } else {
        assert((2 * c) % 2 == 0);
        assert((2 * c + 1) % 2 == 1);
        assert((2 * c) / 2 == c);
        assert((2 * c + 1) / 2 + 1 == c + 1);
    }
}

/// A direction drives the x axis when it is horizontal (`0`) or radial
/// (`2`), and the y axis when it is vertical (`1`) or radial; an axis it
/// drives gets the scaling `[1, 0]`, any other axis `[0, 0]`. An effect
/// without a direction (`has_direction != 1`) drives neither.
pub proof fn law_direction_scaling_axes(has_direction: u8, direction_type: u8)
    ensures
        spec_direction_scaling(has_direction, direction_type).0 == (if has_direction == 1 && (
        direction_type == 0 || direction_type == 2) {
            seq![1u8, 0u8]
        } else {
            seq![0u8, 0u8]
        }),
        spec_direction_scaling(has_direction, direction_type).1 == (if has_direction == 1 && (
        direction_type == 1 || direction_type == 2) {
            seq![1u8, 0u8]
        } else {
            seq![0u8, 0u8]
        }),
{
}

/// In the uploaded device program of a colorshift or breathe payload,
/// bytes 140..144 are the x and y scaling: byte 140 is 1 exactly when the
/// effect has a direction (byte 1 is 1) that is horizontal or radial, byte
/// 142 is 1 exactly when it has one that is vertical or radial, and bytes
/// 141 and 143 are 0. A radial wave drives both axes.
pub proof fn law_device_program_direction_bytes(p: Seq<u8>)
    requires
        p[0] == effect_type::COLORSHIFT || p[0] == effect_type::BREATHE,
    ensures
        spec_effect_device_bytes(p)[140] == (if p[1] == 1 && (p[2] == 0 || p[2] == 2) {
            1u8
        } else {
            0u8
        }),
        spec_effect_device_bytes(p)[141] == 0u8,
        spec_effect_device_bytes(p)[142] == (if p[1] == 1 && (p[2] == 1 || p[2] == 2) {
            1u8
        } else {
            0u8
        }),
        spec_effect_device_bytes(p)[143] == 0u8,
{
    let breathe = p[0] == effect_type::BREATHE;
    lemma_sections_tail_zero(p, EFFECT_SECTIONS as nat, breathe);
    let secs = effect_sections(p, EFFECT_SECTIONS as nat, breathe);
    let t = spec_trailer(
        p,
        effect_num_sections(p, breathe),
        effect_total_ticks(p, EFFECT_SECTIONS as nat, breathe),
    );
    let prog = effect_program(p, breathe);
    assert(prog == secs + t);
    assert(secs.len() == 128);
    law_direction_scaling_axes(p[1], p[2]);
    let (xs, ys) = spec_direction_scaling(p[1], p[2]);
    assert(prog[140] == t[12] && t[12] == xs[0]);
    assert(prog[141] == t[13] && t[13] == xs[1]);
    assert(prog[142] == t[14] && t[14] == ys[0]);
    assert(prog[143] == t[15] && t[15] == ys[1]);
}

} // verus!
