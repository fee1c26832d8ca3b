//! The `lighting_effect` host struct (69 bytes), the section-by-section
//! keyframe/ramp transform into the 151-byte device effect program the
//! firmware consumes, and the `0x0B` effect-upload feature report.
use vstd::prelude::*;

use super::{
    direction_type, effect_type, le_hi, le_lo, u16_le_bytes, vec_to_array, FEATURE_REPORT_LEN,
};

verus! {

/// Length of the `lighting_effect` host struct: 4 flag/direction bytes,
/// 4 `u16` fields, `num_colors`, 14 RGB colors and 14 positions.
pub const LIGHTING_EFFECT_LEN: usize = 69;

/// Max colors (and positions) a `lighting_effect` can carry.
pub const MAX_EFFECT_COLORS: usize = 14;

/// Length of the transformed device effect program: 16 sections of 8
/// bytes followed by a 23-byte trailer.
pub const EFFECT_DEVICE_BYTES_LEN: usize = 151;

/// Highest onboard effect program slot (14 slots, `0..=13`).
pub const MAX_EFFECT_SLOT: u8 = 13;

/// Number of sections in a device effect program.
pub const EFFECT_SECTIONS: usize = 16;

/// Offset of the color table in the host struct.
pub const EFFECT_COLORS_BASE: usize = 13;

/// Offset of the position table in the host struct (right after the
/// 14-slot color table).
pub const EFFECT_POSITIONS_BASE: usize = 55;

/// `1` for `true`, `0` for `false`.
pub open spec fn bool_byte(b: bool) -> u8 {
    if b {
        1u8
    } else {
        0u8
    }
}

/// Channel `k` (0 = R, 1 = G, 2 = B) of an RGB tuple.
pub open spec fn rgb_channel(c: (u8, u8, u8), k: int) -> u8 {
    if k == 0 {
        c.0
    } else if k == 1 {
        c.1
    } else {
        c.2
    }
}

/// The 69-byte `lighting_effect` payload of an effect with these fields,
/// byte by byte.
pub open spec fn spec_effect_payload(
    effect_type: u8,
    has_direction: bool,
    direction_type: u8,
    direction_inverted: bool,
    focal_x: u16,
    focal_y: u16,
    speed: u16,
    scale: u16,
    colors: Seq<(u8, u8, u8)>,
    positions: Seq<u8>,
) -> Seq<u8> {
    Seq::new(
        LIGHTING_EFFECT_LEN as nat,
        |i: int|
            if i == 0 {
                effect_type
            } else if i == 1 {
                bool_byte(has_direction)
            } else if i == 2 {
                direction_type
            } else if i == 3 {
                bool_byte(direction_inverted)
            } else if i == 4 {
                le_lo(focal_x)
            } else if i == 5 {
                le_hi(focal_x)
            } else if i == 6 {
                le_lo(focal_y)
            } else if i == 7 {
                le_hi(focal_y)
            } else if i == 8 {
                le_lo(speed)
            } else if i == 9 {
                le_hi(speed)
            } else if i == 10 {
                le_lo(scale)
            } else if i == 11 {
                le_hi(scale)
            } else if i == 12 {
                colors.len() as u8
            } else if 13 <= i < 13 + 3 * colors.len() {
                rgb_channel(colors[(i - 13) / 3], (i - 13) % 3)
            } else if 55 <= i < 55 + positions.len() {
                positions[i - 55]
            } else {
                0u8
            },
    )
}

/// Host-side `lighting_effect` struct (69 bytes on the wire):
///
/// ```text
/// type(1) has_direction(1) direction_type(1) direction_inverted(1)
/// focal_x(u16) focal_y(u16) speed(u16) scale(u16)
/// num_colors(1) colors[14](3B each) positions[14](1B each, 0..100)
/// ```
#[derive(Debug, Clone)]
pub struct LightingEffect {
    pub effect_type: u8,
    pub has_direction: bool,
    pub direction_type: u8,
    pub direction_inverted: bool,
    pub focal_x: u16,
    pub focal_y: u16,
    pub speed: u16,
    pub scale: u16,
    pub colors: Vec<(u8, u8, u8)>,
    pub positions: Vec<u8>,
}

impl LightingEffect {
    /// The color and position tables fit the 14-slot host struct.
    pub open spec fn fits(&self) -> bool {
        &&& self.colors@.len() <= MAX_EFFECT_COLORS
        &&& self.positions@.len() <= MAX_EFFECT_COLORS
    }

    /// The 69-byte `lighting_effect` payload of this effect.
    pub open spec fn spec_to_bytes(&self) -> Seq<u8> {
        spec_effect_payload(
            self.effect_type,
            self.has_direction,
            self.direction_type,
            self.direction_inverted,
            self.focal_x,
            self.focal_y,
            self.speed,
            self.scale,
            self.colors@,
            self.positions@,
        )
    }

    /// Serialize to the raw 69-byte `lighting_effect` payload (at most 14
    /// colors and 14 positions fit).
    pub fn to_bytes(&self) -> (res: [u8; LIGHTING_EFFECT_LEN])
        requires
            self.fits(),
        ensures
            res@ == self.spec_to_bytes(),
    {
        let ghost spec = self.spec_to_bytes();
        let mut buf = [0u8; LIGHTING_EFFECT_LEN];
        buf[0] = self.effect_type;
        buf[1] = if self.has_direction {
            1
        } else {
            0
        };
        buf[2] = self.direction_type;
        buf[3] = if self.direction_inverted {
            1
        } else {
            0
        };
        let (lo, hi) = u16_le_bytes(self.focal_x);
        buf[4] = lo;
        buf[5] = hi;
        let (lo, hi) = u16_le_bytes(self.focal_y);
        buf[6] = lo;
        buf[7] = hi;
        let (lo, hi) = u16_le_bytes(self.speed);
        buf[8] = lo;
        buf[9] = hi;
        let (lo, hi) = u16_le_bytes(self.scale);
        buf[10] = lo;
        buf[11] = hi;
        buf[12] = self.colors.len() as u8;
        let nc = self.colors.len();
        let mut i: usize = 0;
        while i < nc
            invariant
                nc == self.colors@.len(),
                nc <= MAX_EFFECT_COLORS,
                i <= nc,
                spec == self.spec_to_bytes(),
                buf@.len() == LIGHTING_EFFECT_LEN,
                forall|j: int| 0 <= j < 13 + 3 * i ==> buf@[j] == spec[j],
                forall|j: int| 13 + 3 * i <= j < LIGHTING_EFFECT_LEN ==> buf@[j] == 0u8,
            decreases nc - i,
        {
            let base = 13 + i * 3;
            let (r, g, b) = self.colors[i];
            proof {
                lemma_div3(base as int, i as int);
                lemma_div3(base + 1, i as int);
                lemma_div3(base + 2, i as int);
            }
            buf[base] = r;
            buf[base + 1] = g;
            buf[base + 2] = b;
            i = i + 1;
        }
        let np = self.positions.len();
        let mut i: usize = 0;
        while i < np
            invariant
                np == self.positions@.len(),
                np <= MAX_EFFECT_COLORS,
                nc == self.colors@.len(),
                nc <= MAX_EFFECT_COLORS,
                i <= np,
                spec == self.spec_to_bytes(),
                buf@.len() == LIGHTING_EFFECT_LEN,
                forall|j: int| 0 <= j < 55 + i ==> buf@[j] == spec[j],
                forall|j: int| 55 + i <= j < LIGHTING_EFFECT_LEN ==> buf@[j] == 0u8,
            decreases np - i,
        {
            buf[EFFECT_POSITIONS_BASE + i] = self.positions[i];
            i = i + 1;
        }
        assert(buf@ =~= spec);
        buf
    }
}

proof fn lemma_div3(j: int, i: int)
    requires
        0 <= i,
        13 + 3 * i <= j < 13 + 3 * i + 3,
    ensures
        (j - 13) / 3 == i,
        (j - 13) % 3 == j - 13 - 3 * i,
{
    assert((j - 13) / 3 == i && (j - 13) % 3 == j - 13 - 3 * i) by (nonlinear_arith)
        requires
            0 <= i,
            3 * i <= j - 13 < 3 * i + 3,
    ;
}

// ---------------------------------------------------------------------
// Device effect program: the section ramp transform.
// ---------------------------------------------------------------------
/// Rust's signed integer division, which truncates toward zero.
pub open spec fn trunc_div(a: int, b: int) -> int {
    if a >= 0 {
        a / b
    } else {
        -((-a) / b)
    }
}

/// The per-tick delta from `initial` to `final_` over `speed` ticks, scaled
/// by 16 (truncating division) and encoded as a two's-complement byte.
pub open spec fn spec_scaled_uint8(initial: u8, final_: u8, speed: u16) -> u8 {
    let q = trunc_div(16 * (final_ - initial), speed as int);
    (q % 256) as u8
}

/// The per-tick delta from `initial` to `final_` over `speed` ticks, scaled
/// by 16 and encoded as a two's-complement byte (`-1` becomes `255`).
pub fn scaled_uint8(initial: u8, final_: u8, speed: u16) -> (res: u8)
    requires
        speed > 0,
    ensures
        res == spec_scaled_uint8(initial, final_, speed),
{
    if final_ >= initial {
        let q: u32 = (16 * (final_ - initial) as u32) / (speed as u32);
        (q % 256) as u8
    } else {
        let q: u32 = (16 * (initial - final_) as u32) / (speed as u32);
        let m: u32 = q % 256;
        proof {
            let d = 16 * (final_ - initial);
            assert(trunc_div(d, speed as int) == -(q as int));
            assert((-(q as int)) % 256 == if m == 0 {
                0
            } else {
                256 - m
            }) by (nonlinear_arith)
                requires
                    m == q % 256,
                    q >= 0,
            ;
        }
        if m == 0 {
            0
        } else {
            (256 - m) as u8
        }
    }
}

/// Byte `offset` (0 = R, 1 = G, 2 = B) of color `color_index` in a payload.
pub open spec fn spec_color_byte(payload: Seq<u8>, color_index: int, offset: int) -> u8 {
    payload[13 + color_index * 3 + offset]
}

/// Keyframe position `position_index` in a payload.
pub open spec fn spec_position_byte(payload: Seq<u8>, position_index: int) -> u8 {
    payload[55 + position_index]
}

/// Byte `offset` of color `color_index` of the host payload.
pub fn effect_color_byte(
    payload: &[u8; LIGHTING_EFFECT_LEN],
    color_index: usize,
    offset: usize,
) -> (res: u8)
    requires
        13 + color_index * 3 + offset < LIGHTING_EFFECT_LEN,
    ensures
        res == spec_color_byte(payload@, color_index as int, offset as int),
{
    payload[13 + color_index * 3 + offset]
}

/// Keyframe position `position_index` of the host payload.
pub fn effect_position_byte(payload: &[u8; LIGHTING_EFFECT_LEN], position_index: usize) -> (res:
    u8)
    requires
        55 + position_index < LIGHTING_EFFECT_LEN,
    ensures
        res == spec_position_byte(payload@, position_index as int),
{
    payload[55 + position_index]
}

/// The tick count of a section ramping across `span` percent of an
/// `initial_tick_total`-tick effect; never below 33 (the per-tick deltas
/// would leave the -127..127 range), keeping the low 16 bits.
pub open spec fn spec_ramp_speed(initial_tick_total: u16, span: int) -> u16 {
    let unscaled = trunc_div(initial_tick_total * span, 100);
    if unscaled < 33 {
        33u16
    } else {
        unscaled as u16
    }
}

fn ramp_speed(initial_tick_total: u16, initial_pos: u8, final_pos: u8, halve: bool) -> (res: u16)
    ensures
        res == spec_ramp_speed(
            initial_tick_total,
            if halve {
                trunc_div(final_pos - initial_pos, 2)
            } else {
                final_pos - initial_pos
            },
        ),
{
    let ghost span = if halve {
        trunc_div(final_pos - initial_pos, 2)
    } else {
        final_pos - initial_pos
    };
    if final_pos <= initial_pos {
        proof {
            assert(span <= 0);
            assert(initial_tick_total * span <= 0) by (nonlinear_arith)
                requires
                    span <= 0,
                    initial_tick_total >= 0,
            ;
        }
        33
    } else {
        let d: u64 = if halve {
            ((final_pos - initial_pos) / 2) as u64
        } else {
            (final_pos - initial_pos) as u64
        };
        assert(d == span);
        assert(initial_tick_total * d <= 65535 * 255) by (nonlinear_arith)
            requires
                initial_tick_total <= 65535,
                d <= 255,
        ;
        let unscaled: u64 = (initial_tick_total as u64 * d) / 100;
        if unscaled < 33 {
            33
        } else {
            unscaled as u16
        }
    }
}

/// The 8-byte encoding of one section: per-tick R/G/B deltas, a zero byte,
/// the section's tick count (`u16` LE), the next section's index, a zero.
pub open spec fn spec_section_bytes(dr: u8, dg: u8, db: u8, speed: u16, next: u8) -> Seq<u8> {
    seq![dr, dg, db, 0u8, le_lo(speed), le_hi(speed), next, 0u8]
}

/// One computed section: its tick count and its 8-byte encoding.
pub struct SectionInfo {
    pub speed: u16,
    pub bytes: [u8; 8],
}

/// The index of the section that follows `section_index` (wrapping to 0).
pub open spec fn spec_next_section(section_index: int, num_sections: int) -> u8 {
    if section_index == num_sections - 1 {
        0u8
    } else {
        (section_index + 1) as u8
    }
}

/// Colorshift: color index a section ramps from.
pub open spec fn cs_initial_color(s: int, pad: bool) -> int {
    if pad {
        if s == 0 {
            0
        } else {
            s - 1
        }
    } else {
        s
    }
}

/// Colorshift: color index a section ramps to (the last wraps to color 0).
pub open spec fn cs_final_color(s: int, n: int, pad: bool) -> int {
    if s == n - 1 {
        0
    } else if pad {
        s
    } else {
        s + 1
    }
}

/// Colorshift: keyframe position (percent) a section starts at.
pub open spec fn cs_initial_pos(p: Seq<u8>, s: int, pad: bool) -> u8 {
    if s == 0 {
        0u8
    } else if pad {
        spec_position_byte(p, s - 1)
    } else {
        spec_position_byte(p, s)
    }
}

/// Colorshift: keyframe position (percent) a section ends at.
pub open spec fn cs_final_pos(p: Seq<u8>, s: int, n: int, pad: bool) -> u8 {
    if s == n - 1 {
        100u8
    } else if pad {
        spec_position_byte(p, s)
    } else {
        spec_position_byte(p, s + 1)
    }
}

/// Colorshift: tick count of section `s` of `n`.
pub open spec fn cs_speed(p: Seq<u8>, s: int, n: int, ticks: u16, pad: bool) -> u16 {
    spec_ramp_speed(ticks, cs_final_pos(p, s, n, pad) - cs_initial_pos(p, s, pad))
}

/// Colorshift section `s` of `n`: its tick count and 8 bytes; sections at
/// or past `n` are all zero.
pub open spec fn spec_colorshift_section(
    p: Seq<u8>,
    s: int,
    n: int,
    ticks: u16,
    pad: bool,
) -> (u16, Seq<u8>) {
    if n == 0 || s >= n {
        (0u16, Seq::new(8, |i: int| 0u8))
    } else {
        let speed = cs_speed(p, s, n, ticks, pad);
        let ci = cs_initial_color(s, pad);
        let cf = cs_final_color(s, n, pad);
        let dr = spec_scaled_uint8(spec_color_byte(p, ci, 0), spec_color_byte(p, cf, 0), speed);
        let dg = spec_scaled_uint8(spec_color_byte(p, ci, 1), spec_color_byte(p, cf, 1), speed);
        let db = spec_scaled_uint8(spec_color_byte(p, ci, 2), spec_color_byte(p, cf, 2), speed);
        (speed, spec_section_bytes(dr, dg, db, speed, spec_next_section(s, n)))
    }
}

fn zero_section() -> (res: SectionInfo)
    ensures
        res.speed == 0,
        res.bytes@ == Seq::new(8, |i: int| 0u8),
{
    let res = SectionInfo { speed: 0, bytes: [0u8; 8] };
    assert(res.bytes@ =~= Seq::new(8, |i: int| 0u8));
    res
}

fn make_section(dr: u8, dg: u8, db: u8, speed: u16, next: u8) -> (res: SectionInfo)
    ensures
        res.speed == speed,
        res.bytes@ == spec_section_bytes(dr, dg, db, speed, next),
{
    let (lo, hi) = u16_le_bytes(speed);
    let res = SectionInfo { speed, bytes: [dr, dg, db, 0, lo, hi, next, 0] };
    assert(res.bytes@ =~= spec_section_bytes(dr, dg, db, speed, next));
    res
}

/// The per-channel deltas of a section ramping from `(initial, ...)` to
/// `(final, ...)` colors, for channels 0..3.
fn channel_deltas(
    payload: &[u8; LIGHTING_EFFECT_LEN],
    initial_color: usize,
    final_color: usize,
    speed: u16,
) -> (res: (u8, u8, u8))
    requires
        initial_color <= 13,
        final_color <= 13,
        speed > 0,
    ensures
        res.0 == spec_scaled_uint8(
            spec_color_byte(payload@, initial_color as int, 0),
            spec_color_byte(payload@, final_color as int, 0),
            speed,
        ),
        res.1 == spec_scaled_uint8(
            spec_color_byte(payload@, initial_color as int, 1),
            spec_color_byte(payload@, final_color as int, 1),
            speed,
        ),
        res.2 == spec_scaled_uint8(
            spec_color_byte(payload@, initial_color as int, 2),
            spec_color_byte(payload@, final_color as int, 2),
            speed,
        ),
{
    let dr = scaled_uint8(
        effect_color_byte(payload, initial_color, 0),
        effect_color_byte(payload, final_color, 0),
        speed,
    );
    let dg = scaled_uint8(
        effect_color_byte(payload, initial_color, 1),
        effect_color_byte(payload, final_color, 1),
        speed,
    );
    let db = scaled_uint8(
        effect_color_byte(payload, initial_color, 2),
        effect_color_byte(payload, final_color, 2),
        speed,
    );
    (dr, dg, db)
}

/// The keyframe positions a colorshift section reads lie in the payload:
/// section `s` of `n` reads the position it starts at (none for the first
/// section) and the one it ends at (none for the last), and positions run
/// `0..14`. Its color indices then lie in the payload too.
pub open spec fn cs_reads_in_range(s: int, n: int, pad: bool) -> bool {
    s < n ==> {
        &&& (s == 0 || (if pad {
            s - 1
        } else {
            s
        }) < MAX_EFFECT_COLORS)
        &&& (s == n - 1 || (if pad {
            s
        } else {
            s + 1
        }) < MAX_EFFECT_COLORS)
    }
}

/// Colorshift section `section_index` of `num_sections` (one per color,
/// plus the padding section when the first position is non-zero).
pub fn colorshift_section_info(
    payload: &[u8; LIGHTING_EFFECT_LEN],
    section_index: usize,
    num_sections: usize,
    initial_tick_total: u16,
    needs_padding_section: bool,
) -> (res: SectionInfo)
    requires
        cs_reads_in_range(section_index as int, num_sections as int, needs_padding_section),
        section_index < num_sections ==> cs_speed(
            payload@,
            section_index as int,
            num_sections as int,
            initial_tick_total,
            needs_padding_section,
        ) != 0,
    ensures
        res.speed == spec_colorshift_section(
            payload@,
            section_index as int,
            num_sections as int,
            initial_tick_total,
            needs_padding_section,
        ).0,
        res.bytes@ == spec_colorshift_section(
            payload@,
            section_index as int,
            num_sections as int,
            initial_tick_total,
            needs_padding_section,
        ).1,
{
    if num_sections == 0 || section_index >= num_sections {
        return zero_section();
    }
    let pad = needs_padding_section;
    let color_index_for_initial = if pad {
        if section_index == 0 {
            0
        } else {
            section_index - 1
        }
    } else {
        section_index
    };
    let color_index_for_final = if section_index == num_sections - 1 {
        0
    } else if pad {
        section_index
    } else {
        section_index + 1
    };
    let initial_position_percent: u8 = if section_index == 0 {
        0
    } else if pad {
        effect_position_byte(payload, section_index - 1)
    } else {
        effect_position_byte(payload, section_index)
    };
    let final_position_percent: u8 = if section_index == num_sections - 1 {
        100
    } else if pad {
        effect_position_byte(payload, section_index)
    } else {
        effect_position_byte(payload, section_index + 1)
    };
    let speed = ramp_speed(
        initial_tick_total,
        initial_position_percent,
        final_position_percent,
        false,
    );
    let (dr, dg, db) = channel_deltas(
        payload,
        color_index_for_initial,
        color_index_for_final,
        speed,
    );
    let next_index: u8 = if section_index == num_sections - 1 {
        0
    } else {
        (section_index + 1) as u8
    };
    make_section(dr, dg, db, speed, next_index)
}

/// Breathe: number of sections for `num_colors` colors (two per color, up
/// then down, plus the padding section).
pub open spec fn breathe_num_sections(num_colors: int, pad: bool) -> int {
    2 * num_colors + if pad {
        1int
    } else {
        0int
    }
}

/// Breathe: keyframe position (percent) a section starts at.
pub open spec fn br_initial_pos(p: Seq<u8>, s: int, pad: bool) -> u8 {
    if s == 0 {
        0u8
    } else if pad {
        spec_position_byte(p, (s - 1) / 2)
    } else {
        spec_position_byte(p, s / 2)
    }
}

/// Breathe: keyframe position (percent) a section ends at.
pub open spec fn br_final_pos(p: Seq<u8>, s: int, n: int, pad: bool) -> u8 {
    if s >= n - 2 {
        100u8
    } else if pad {
        if s == 0 {
            spec_position_byte(p, 0)
        } else {
            spec_position_byte(p, 1 + (s - 1) / 2)
        }
    } else {
        spec_position_byte(p, 1 + s / 2)
    }
}

/// Breathe: color index a section ramps from.
pub open spec fn br_initial_color(s: int, pad: bool) -> int {
    if s == 0 {
        0
    } else if pad {
        (s - 1) / 2
    } else {
        s / 2
    }
}

/// Breathe: color index a section ramps to.
pub open spec fn br_final_color(s: int, n: int, pad: bool) -> int {
    if s == n - 1 {
        0
    } else if pad {
        if s == 0 {
            0
        } else {
            (s - 1) / 2 + 1
        }
    } else {
        s / 2 + 1
    }
}

/// Breathe: does the section fade out from its color (rather than in)?
pub open spec fn br_is_mod2(s: int, pad: bool) -> bool {
    if pad {
        s % 2 == 1
    } else {
        s % 2 == 0
    }
}

/// Breathe: the value channel `k` of a section ramps from.
pub open spec fn br_channel_initial(p: Seq<u8>, s: int, pad: bool, k: int) -> u8 {
    if br_is_mod2(s, pad) || (pad && s == 0) {
        spec_color_byte(p, br_initial_color(s, pad), k)
    } else {
        0u8
    }
}

/// Breathe: the value channel `k` of a section ramps to.
pub open spec fn br_channel_final(p: Seq<u8>, s: int, n: int, pad: bool, k: int) -> u8 {
    if br_is_mod2(s, pad) && !(pad && s == 0) {
        0u8
    } else {
        spec_color_byte(p, br_final_color(s, n, pad), k)
    }
}

/// Breathe: tick count of section `s` of `n` (half the position span).
pub open spec fn br_speed(p: Seq<u8>, s: int, n: int, ticks: u16, pad: bool) -> u16 {
    spec_ramp_speed(ticks, trunc_div(br_final_pos(p, s, n, pad) - br_initial_pos(p, s, pad), 2))
}

/// Breathe section `s` for `num_colors` colors: its tick count and 8
/// bytes; sections at or past the section count are all zero.
pub open spec fn spec_breathe_section(
    p: Seq<u8>,
    s: int,
    num_colors: int,
    ticks: u16,
    pad: bool,
) -> (u16, Seq<u8>) {
    let n = breathe_num_sections(num_colors, pad);
    if n == 0 || s >= n {
        (0u16, Seq::new(8, |i: int| 0u8))
    } else {
        let speed = br_speed(p, s, n, ticks, pad);
        let dr = spec_scaled_uint8(
            br_channel_initial(p, s, pad, 0),
            br_channel_final(p, s, n, pad, 0),
            speed,
        );
        let dg = spec_scaled_uint8(
            br_channel_initial(p, s, pad, 1),
            br_channel_final(p, s, n, pad, 1),
            speed,
        );
        let db = spec_scaled_uint8(
            br_channel_initial(p, s, pad, 2),
            br_channel_final(p, s, n, pad, 2),
            speed,
        );
        (speed, spec_section_bytes(dr, dg, db, speed, spec_next_section(s, n)))
    }
}

/// What a breathe section reads lies in the payload, and its section
/// count does not underflow: section `s` of the `n` sections for
/// `num_colors` colors needs `n >= 2` (it computes `n - 2`), reads the
/// position (and color) it starts from unless it is the first, the
/// position it ends at unless it is one of the last two, and the color it
/// ramps to unless it fades to black; positions and colors run `0..14`.
pub open spec fn br_reads_in_range(s: int, num_colors: int, pad: bool) -> bool {
    let n = breathe_num_sections(num_colors, pad);
    s < n ==> {
        &&& n >= 2
        &&& (s == 0 || br_initial_color(s, pad) < MAX_EFFECT_COLORS)
        &&& (s >= n - 2 || br_final_color(s, n, pad) < MAX_EFFECT_COLORS)
        &&& ((br_is_mod2(s, pad) && !(pad && s == 0)) || br_final_color(s, n, pad)
            < MAX_EFFECT_COLORS)
    }
}

/// Breathe section `section_index` for `num_colors` colors (a fade-out and
/// a fade-in section per color, plus the padding section when the first
/// position is non-zero).
pub fn breathe_section_info(
    payload: &[u8; LIGHTING_EFFECT_LEN],
    section_index: usize,
    num_colors: usize,
    initial_tick_total: u16,
    needs_padding_section: bool,
) -> (res: SectionInfo)
    requires
        breathe_num_sections(num_colors as int, needs_padding_section) <= usize::MAX,
        br_reads_in_range(section_index as int, num_colors as int, needs_padding_section),
        section_index < breathe_num_sections(num_colors as int, needs_padding_section) ==> br_speed(
            payload@,
            section_index as int,
            breathe_num_sections(num_colors as int, needs_padding_section),
            initial_tick_total,
            needs_padding_section,
        ) != 0,
    ensures
        res.speed == spec_breathe_section(
            payload@,
            section_index as int,
            num_colors as int,
            initial_tick_total,
            needs_padding_section,
        ).0,
        res.bytes@ == spec_breathe_section(
            payload@,
            section_index as int,
            num_colors as int,
            initial_tick_total,
            needs_padding_section,
        ).1,
{
    let pad = needs_padding_section;
    let num_sections = 2 * num_colors + if pad {
        1
    } else {
        0
    };
    if num_sections == 0 || section_index >= num_sections {
        return zero_section();
    }
    let s = section_index;
    let initial_position_percent: u8 = if s == 0 {
        0
    } else if pad {
        effect_position_byte(payload, (s - 1) / 2)
    } else {
        effect_position_byte(payload, s / 2)
    };
    let final_position_percent: u8 = if s >= num_sections - 2 {
        100
    } else if pad {
        if s == 0 {
            effect_position_byte(payload, 0)
        } else {
            effect_position_byte(payload, 1 + (s - 1) / 2)
        }
    } else {
        effect_position_byte(payload, 1 + s / 2)
    };
    let speed = ramp_speed(initial_tick_total, initial_position_percent, final_position_percent, true);
    let color_index_for_initial = if s == 0 {
        0
    } else if pad {
        (s - 1) / 2
    } else {
        s / 2
    };
    let color_index_for_final = if s == num_sections - 1 {
        0
    } else if pad {
        if s == 0 {
            0
        } else {
            (s - 1) / 2 + 1
        }
    } else {
        s / 2 + 1
    };
    let is_mod2 = if pad {
        s % 2 == 1
    } else {
        s % 2 == 0
    };
    let is_padding_section = pad && s == 0;
    let from_color = is_mod2 || is_padding_section;
    let to_black = is_mod2 && !is_padding_section;
    let ir = if from_color {
        effect_color_byte(payload, color_index_for_initial, 0)
    } else {
        0
    };
    let ig = if from_color {
        effect_color_byte(payload, color_index_for_initial, 1)
    } else {
        0
    };
    let ib = if from_color {
        effect_color_byte(payload, color_index_for_initial, 2)
    } else {
        0
    };
    let fr = if to_black {
        0
    } else {
        effect_color_byte(payload, color_index_for_final, 0)
    };
    let fg = if to_black {
        0
    } else {
        effect_color_byte(payload, color_index_for_final, 1)
    };
    let fb = if to_black {
        0
    } else {
        effect_color_byte(payload, color_index_for_final, 2)
    };
    let dr = scaled_uint8(ir, fr, speed);
    let dg = scaled_uint8(ig, fg, speed);
    let db = scaled_uint8(ib, fb, speed);
    let next_index: u8 = if s == num_sections - 1 {
        0
    } else {
        (s + 1) as u8
    };
    make_section(dr, dg, db, speed, next_index)
}


/// The `(x, y)` scaling byte pairs of a direction: only meaningful when
/// `has_direction == 1`; horizontal drives x only, vertical y only, radial
/// both.
pub open spec fn spec_direction_scaling(has_direction: u8, direction_type: u8) -> (Seq<u8>, Seq<u8>) {
    if has_direction != 1 {
        (seq![0u8, 0u8], seq![0u8, 0u8])
    } else if direction_type == direction_type::HORIZONTAL {
        (seq![1u8, 0u8], seq![0u8, 0u8])
    } else if direction_type == direction_type::VERTICAL {
        (seq![0u8, 0u8], seq![1u8, 0u8])
    } else if direction_type == direction_type::RADIAL {
        (seq![1u8, 0u8], seq![1u8, 0u8])
    } else {
        (seq![0u8, 0u8], seq![0u8, 0u8])
    }
}

/// The x/y scaling bytes of a direction (see `spec_direction_scaling`).
pub fn direction_scaling_bytes(has_direction: u8, direction_type: u8) -> (res: ([u8; 2], [u8; 2]))
    ensures
        res.0@ == spec_direction_scaling(has_direction, direction_type).0,
        res.1@ == spec_direction_scaling(has_direction, direction_type).1,
{
    let res: ([u8; 2], [u8; 2]) = if has_direction != 1 {
        ([0, 0], [0, 0])
    } else if direction_type == direction_type::HORIZONTAL {
        ([1, 0], [0, 0])
    } else if direction_type == direction_type::VERTICAL {
        ([0, 0], [1, 0])
    } else if direction_type == direction_type::RADIAL {
        ([1, 0], [1, 0])
    } else {
        ([0, 0], [0, 0])
    };
    assert(res.0@ =~= spec_direction_scaling(has_direction, direction_type).0);
    assert(res.1@ =~= spec_direction_scaling(has_direction, direction_type).1);
    res
}

/// The 23-byte trailer after the 16 sections: 16 times the first color's
/// R, G, B (`u16` LE each), `[255, 0]`, the focal bytes, the x/y scaling
/// bytes, the scale bytes, the section count and the low 16 bits of the
/// total tick count (`u16` LE each), and the direction-inverted flag.
pub open spec fn spec_trailer(p: Seq<u8>, num_sections: int, total_ticks: int) -> Seq<u8> {
    let init_r = (spec_color_byte(p, 0, 0) * 16) as u16;
    let init_g = (spec_color_byte(p, 0, 1) * 16) as u16;
    let init_b = (spec_color_byte(p, 0, 2) * 16) as u16;
    let (xs, ys) = spec_direction_scaling(p[1], p[2]);
    let ns = num_sections as u16;
    let tt = total_ticks as u16;
    seq![
        le_lo(init_r),
        le_hi(init_r),
        le_lo(init_g),
        le_hi(init_g),
        le_lo(init_b),
        le_hi(init_b),
        255u8,
        0u8,
        p[4],
        p[5],
        p[6],
        p[7],
        xs[0],
        xs[1],
        ys[0],
        ys[1],
        p[10],
        p[11],
        le_lo(ns),
        le_hi(ns),
        le_lo(tt),
        le_hi(tt),
        p[3],
    ]
}

/// Assemble the 23-byte trailer shared by both effect programs.
pub fn effect_bytes_trailer(
    payload: &[u8; LIGHTING_EFFECT_LEN],
    num_sections: usize,
    total_ticks: u32,
) -> (res: [u8; 23])
    ensures
        res@ == spec_trailer(payload@, num_sections as int, total_ticks as int),
{
    let (x_scaling, y_scaling) = direction_scaling_bytes(payload[1], payload[2]);
    let (r_lo, r_hi) = u16_le_bytes((effect_color_byte(payload, 0, 0) as u16) * 16);
    let (g_lo, g_hi) = u16_le_bytes((effect_color_byte(payload, 0, 1) as u16) * 16);
    let (b_lo, b_hi) = u16_le_bytes((effect_color_byte(payload, 0, 2) as u16) * 16);
    let (n_lo, n_hi) = u16_le_bytes(num_sections as u16);
    let (t_lo, t_hi) = u16_le_bytes(total_ticks as u16);
    let res = [
        r_lo,
        r_hi,
        g_lo,
        g_hi,
        b_lo,
        b_hi,
        255,
        0,
        payload[4],
        payload[5],
        payload[6],
        payload[7],
        x_scaling[0],
        x_scaling[1],
        y_scaling[0],
        y_scaling[1],
        payload[10],
        payload[11],
        n_lo,
        n_hi,
        t_lo,
        t_hi,
        payload[3],
    ];
    assert(res@ =~= spec_trailer(payload@, num_sections as int, total_ticks as int));
    res
}

/// The effect's tick total (`speed`, `u16` LE at bytes 8..10).
pub open spec fn effect_ticks(p: Seq<u8>) -> u16 {
    (p[8] + 256 * p[9]) as u16
}

/// A non-zero first keyframe position adds a padding section.
pub open spec fn effect_needs_padding(p: Seq<u8>) -> bool {
    spec_position_byte(p, 0) != 0
}

/// Number of sections of the colorshift (`breathe == false`) or breathe
/// program of payload `p`.
pub open spec fn effect_num_sections(p: Seq<u8>, breathe: bool) -> int {
    if breathe {
        breathe_num_sections(p[12] as int, effect_needs_padding(p))
    } else {
        p[12] + if effect_needs_padding(p) {
            1int
        } else {
            0int
        }
    }
}

/// Section `s` of the colorshift or breathe program of payload `p`.
pub open spec fn effect_section(p: Seq<u8>, s: int, breathe: bool) -> (u16, Seq<u8>) {
    if breathe {
        spec_breathe_section(p, s, p[12] as int, effect_ticks(p), effect_needs_padding(p))
    } else {
        spec_colorshift_section(
            p,
            s,
            effect_num_sections(p, false),
            effect_ticks(p),
            effect_needs_padding(p),
        )
    }
}

/// Tick count section `s` computes (before sections past the count are
/// zeroed).
pub open spec fn effect_section_speed(p: Seq<u8>, s: int, breathe: bool) -> u16 {
    if breathe {
        br_speed(
            p,
            s,
            effect_num_sections(p, true),
            effect_ticks(p),
            effect_needs_padding(p),
        )
    } else {
        cs_speed(p, s, effect_num_sections(p, false), effect_ticks(p), effect_needs_padding(p))
    }
}

/// The bytes of the first `k` sections.
pub open spec fn effect_sections(p: Seq<u8>, k: nat, breathe: bool) -> Seq<u8>
    decreases k,
{
    if k == 0 {
        Seq::empty()
    } else {
        effect_sections(p, (k - 1) as nat, breathe) + effect_section(p, k - 1, breathe).1
    }
}

/// The summed tick counts of the first `k` sections.
pub open spec fn effect_total_ticks(p: Seq<u8>, k: nat, breathe: bool) -> int
    decreases k,
{
    if k == 0 {
        0
    } else {
        effect_total_ticks(p, (k - 1) as nat, breathe) + effect_section(p, k - 1, breathe).0
    }
}

/// The 151-byte colorshift or breathe device program of payload `p`.
pub open spec fn effect_program(p: Seq<u8>, breathe: bool) -> Seq<u8> {
    effect_sections(p, EFFECT_SECTIONS as nat, breathe) + spec_trailer(
        p,
        effect_num_sections(p, breathe),
        effect_total_ticks(p, EFFECT_SECTIONS as nat, breathe),
    )
}

/// The device effect program for host payload `p`: the colorshift or the
/// breathe program, and 151 zero bytes for any other effect type.
pub open spec fn spec_effect_device_bytes(p: Seq<u8>) -> Seq<u8> {
    if p[0] == effect_type::COLORSHIFT {
        effect_program(p, false)
    } else if p[0] == effect_type::BREATHE {
        effect_program(p, true)
    } else {
        Seq::new(EFFECT_DEVICE_BYTES_LEN as nat, |i: int| 0u8)
    }
}

/// No section the program computes (the first 16, those within the
/// section count) has a tick count that truncates to zero: the per-tick
/// deltas divide by it.
pub open spec fn effect_speeds_nonzero(p: Seq<u8>, breathe: bool) -> bool {
    forall|s: int|
        0 <= s < EFFECT_SECTIONS && s < effect_num_sections(p, breathe)
            ==> #[trigger] effect_section_speed(p, s, breathe) != 0
}

/// The colorshift transform of payload `p` runs without a panic: at most
/// 14 colors (a 15th section would read keyframe positions past the
/// payload) and no zero-tick section.
pub open spec fn colorshift_defined(p: Seq<u8>) -> bool {
    &&& p[12] <= MAX_EFFECT_COLORS
    &&& effect_speeds_nonzero(p, false)
}

/// The breathe transform of payload `p` runs without a panic: not both no
/// colors and a padding section (the section count would underflow), and
/// no zero-tick section. Its 16 sections read only the first 9 colors and
/// positions, whatever the color count byte says.
pub open spec fn breathe_defined(p: Seq<u8>) -> bool {
    &&& !(p[12] == 0 && effect_needs_padding(p))
    &&& effect_speeds_nonzero(p, true)
}

/// The transform of payload `p` runs without a panic: the colorshift or
/// breathe transform, as its type byte selects, is defined (see
/// `colorshift_defined`, `breathe_defined`); other types transform to
/// zeros.
pub open spec fn device_program_defined(p: Seq<u8>) -> bool {
    &&& p[0] == effect_type::COLORSHIFT ==> colorshift_defined(p)
    &&& p[0] == effect_type::BREATHE ==> breathe_defined(p)
}

/// Append `bytes` to `out`.
fn push_all(out: &mut Vec<u8>, bytes: &[u8])
    ensures
        final(out)@ == old(out)@ + bytes@,
{
    let mut i: usize = 0;
    while i < bytes.len()
        invariant
            i <= bytes@.len(),
            out@ == old(out)@ + bytes@.take(i as int),
        decreases bytes@.len() - i,
    {
        out.push(bytes[i]);
        i = i + 1;
        assert(out@ =~= old(out)@ + bytes@.take(i as int));
    }
    assert(bytes@.take(bytes@.len() as int) =~= bytes@);
}

fn effect_program_bytes(payload: &[u8; LIGHTING_EFFECT_LEN], breathe: bool) -> (res: [u8;
    EFFECT_DEVICE_BYTES_LEN])
    requires
        if breathe {
            breathe_defined(payload@)
        } else {
            colorshift_defined(payload@)
        },
    ensures
        res@ == effect_program(payload@, breathe),
{
    let ghost p = payload@;
    let speed: u16 = payload[8] as u16 + (payload[9] as u16) * 256;
    let num_colors = payload[12] as usize;
    let pad = effect_position_byte(payload, 0) != 0;
    let num_sections: usize = if breathe {
        2 * num_colors + if pad {
            1
        } else {
            0
        }
    } else {
        num_colors + if pad {
            1
        } else {
            0
        }
    };
    assert(speed == effect_ticks(p));
    assert(num_sections == effect_num_sections(p, breathe));
    let mut out: Vec<u8> = Vec::new();
    let mut total_ticks: u32 = 0;
    let mut i: usize = 0;
    while i < EFFECT_SECTIONS
        invariant
            p == payload@,
            i <= EFFECT_SECTIONS,
            if breathe {
                breathe_defined(p)
            } else {
                colorshift_defined(p)
            },
            speed == effect_ticks(p),
            num_colors == p[12],
            pad == effect_needs_padding(p),
            num_sections == effect_num_sections(p, breathe),
            out@ == effect_sections(p, i as nat, breathe),
            out@.len() == 8 * i,
            total_ticks == effect_total_ticks(p, i as nat, breathe),
            total_ticks <= 65535 * i,
        decreases EFFECT_SECTIONS - i,
    {
        assert(effect_speeds_nonzero(p, breathe));
        assert(i < num_sections ==> effect_section_speed(p, i as int, breathe) != 0);
        let info = if breathe {
            breathe_section_info(payload, i, num_colors, speed, pad)
        } else {
            colorshift_section_info(payload, i, num_sections, speed, pad)
        };
        push_all(&mut out, &info.bytes);
        total_ticks = total_ticks + info.speed as u32;
        i = i + 1;
    }
    let trailer = effect_bytes_trailer(payload, num_sections, total_ticks);
    push_all(&mut out, &trailer);
    vec_to_array::<EFFECT_DEVICE_BYTES_LEN>(&out)
}

/// The colorshift device program of a host payload: one ramp section per
/// color (plus the padding section), then the trailer.
fn colorshift_effect_bytes(payload: &[u8; LIGHTING_EFFECT_LEN]) -> (res: [u8;
    EFFECT_DEVICE_BYTES_LEN])
    requires
        colorshift_defined(payload@),
    ensures
        res@ == effect_program(payload@, false),
{
    effect_program_bytes(payload, false)
}

/// The breathe device program of a host payload: a fade-in and a fade-out
/// section per color (plus the padding section), then the trailer.
fn breathe_effect_bytes(payload: &[u8; LIGHTING_EFFECT_LEN]) -> (res: [u8;
    EFFECT_DEVICE_BYTES_LEN])
    requires
        breathe_defined(payload@),
    ensures
        res@ == effect_program(payload@, true),
{
    effect_program_bytes(payload, true)
}

/// Tick count of colorshift section `s` of `n`.
fn cs_section_speed(
    payload: &[u8; LIGHTING_EFFECT_LEN],
    s: usize,
    n: usize,
    ticks: u16,
    pad: bool,
) -> (res: u16)
    requires
        s < n,
        n <= if pad {
            15usize
        } else {
            14usize
        },
    ensures
        res == cs_speed(payload@, s as int, n as int, ticks, pad),
{
    let ip: u8 = if s == 0 {
        0
    } else if pad {
        effect_position_byte(payload, s - 1)
    } else {
        effect_position_byte(payload, s)
    };
    let fp: u8 = if s == n - 1 {
        100
    } else if pad {
        effect_position_byte(payload, s)
    } else {
        effect_position_byte(payload, s + 1)
    };
    ramp_speed(ticks, ip, fp, false)
}

/// Tick count of breathe section `s` of `n`.
fn br_section_speed(
    payload: &[u8; LIGHTING_EFFECT_LEN],
    s: usize,
    n: usize,
    ticks: u16,
    pad: bool,
) -> (res: u16)
    requires
        s < n,
        s < EFFECT_SECTIONS,
    ensures
        res == br_speed(payload@, s as int, n as int, ticks, pad),
{
    let ip: u8 = if s == 0 {
        0
    } else if pad {
        effect_position_byte(payload, (s - 1) / 2)
    } else {
        effect_position_byte(payload, s / 2)
    };
    let fp: u8 = if s + 2 >= n {
        100
    } else if pad {
        if s == 0 {
            effect_position_byte(payload, 0)
        } else {
            effect_position_byte(payload, 1 + (s - 1) / 2)
        }
    } else {
        effect_position_byte(payload, 1 + s / 2)
    };
    ramp_speed(ticks, ip, fp, true)
}

impl LightingEffect {
    /// The effect can be transformed into a device program without a panic
    /// (see `device_program_defined`).
    pub open spec fn transformable(&self) -> bool {
        self.fits() && device_program_defined(self.spec_to_bytes())
    }

    /// Whether the effect can be transformed into a device program (see
    /// `transformable`); the transform panics on the others.
    pub fn is_transformable(&self) -> (res: bool)
        ensures
            res == self.transformable(),
    {
        if self.colors.len() > MAX_EFFECT_COLORS || self.positions.len() > MAX_EFFECT_COLORS {
            return false;
        }
        let payload = self.to_bytes();
        let ghost p = payload@;
        let t = payload[0];
        if t != effect_type::COLORSHIFT && t != effect_type::BREATHE {
            return true;
        }
        let breathe = t == effect_type::BREATHE;
        let nc = payload[12] as usize;
        let pad = effect_position_byte(&payload, 0) != 0;
        if breathe && nc == 0 && pad {
            return false;
        }
        let n: usize = if breathe {
            2 * nc + if pad {
                1
            } else {
                0
            }
        } else {
            nc + if pad {
                1
            } else {
                0
            }
        };
        let ticks: u16 = payload[8] as u16 + (payload[9] as u16) * 256;
        assert(ticks == effect_ticks(p));
        assert(n == effect_num_sections(p, breathe));
        let mut s: usize = 0;
        while s < EFFECT_SECTIONS && s < n
            invariant
                p == payload@,
                p == self.spec_to_bytes(),
                self.fits(),
                p[0] == t,
                breathe == (t == effect_type::BREATHE),
                t == effect_type::COLORSHIFT || t == effect_type::BREATHE,
                nc == p[12],
                nc <= MAX_EFFECT_COLORS,
                pad == effect_needs_padding(p),
                n == effect_num_sections(p, breathe),
                ticks == effect_ticks(p),
                s <= EFFECT_SECTIONS,
                forall|j: int|
                    0 <= j < s && j < n ==> #[trigger] effect_section_speed(p, j, breathe) != 0,
            decreases EFFECT_SECTIONS - s,
        {
            let sp = if breathe {
                br_section_speed(&payload, s, n, ticks, pad)
            } else {
                cs_section_speed(&payload, s, n, ticks, pad)
            };
            assert(sp == effect_section_speed(p, s as int, breathe));
            if sp == 0 {
                return false;
            }
            s = s + 1;
        }
        true
    }

    /// The transformed 151-byte device effect program the firmware consumes
    /// on `0x0B`, derived from this struct's 69-byte `to_bytes` encoding:
    /// the colorshift or breathe program, 151 zero bytes for a disabled (or
    /// unrecognized) effect type.
    pub fn to_device_bytes(&self) -> (res: [u8; EFFECT_DEVICE_BYTES_LEN])
        requires
            self.transformable(),
        ensures
            res@ == spec_effect_device_bytes(self.spec_to_bytes()),
    {
        let payload = self.to_bytes();
        if payload[0] == effect_type::COLORSHIFT {
            colorshift_effect_bytes(&payload)
        } else if payload[0] == effect_type::BREATHE {
            breathe_effect_bytes(&payload)
        } else {
            let res = [0u8; EFFECT_DEVICE_BYTES_LEN];
            assert(res@ =~= Seq::new(EFFECT_DEVICE_BYTES_LEN as nat, |i: int| 0u8));
            res
        }
    }
}

/// The `0x0B` effect-upload feature report: the 7-byte header
/// `[0x00, 0x0C, 0x00, 0x0B, 0x00, effect_index, 0x00]`, the 151-byte device
/// program, zero padding to 525 bytes.
pub open spec fn spec_effect_upload_frame(effect_index: u8, device_bytes: Seq<u8>) -> Seq<u8> {
    Seq::new(
        FEATURE_REPORT_LEN as nat,
        |i: int|
            if i == 1 {
                0x0Cu8
            } else if i == 3 {
                0x0Bu8
            } else if i == 5 {
                effect_index
            } else if 7 <= i < 7 + EFFECT_DEVICE_BYTES_LEN {
                device_bytes[i - 7]
            } else {
                0u8
            },
    )
}

/// Build the `0x0B` effect-upload feature report for slot `effect_index`
/// (`0..=MAX_EFFECT_SLOT`).
pub fn build_effect_upload_frame(effect_index: u8, effect: &LightingEffect) -> (res: [u8;
    FEATURE_REPORT_LEN])
    requires
        effect_index <= MAX_EFFECT_SLOT,
        effect.transformable(),
    ensures
        res@ == spec_effect_upload_frame(
            effect_index,
            spec_effect_device_bytes(effect.spec_to_bytes()),
        ),
{
    let mut buf = [0u8; FEATURE_REPORT_LEN];
    buf[0] = 0x00;
    buf[1] = 0x0C;
    buf[2] = 0x00;
    buf[3] = 0x0B;
    buf[4] = 0x00;
    buf[5] = effect_index;
    buf[6] = 0x00;
    let device_bytes = effect.to_device_bytes();
    let ghost spec = spec_effect_upload_frame(effect_index, device_bytes@);
    let mut i: usize = 0;
    while i < EFFECT_DEVICE_BYTES_LEN
        invariant
            i <= EFFECT_DEVICE_BYTES_LEN,
            device_bytes@.len() == EFFECT_DEVICE_BYTES_LEN,
            spec == spec_effect_upload_frame(effect_index, device_bytes@),
            buf@.len() == FEATURE_REPORT_LEN,
            forall|j: int| 0 <= j < 7 + i ==> buf@[j] == spec[j],
            forall|j: int| 7 + i <= j < FEATURE_REPORT_LEN ==> buf@[j] == 0u8,
        decreases EFFECT_DEVICE_BYTES_LEN - i,
    {
        buf[7 + i] = device_bytes[i];
        i = i + 1;
    }
    assert(buf@ =~= spec);
    buf
}

} // verus!
