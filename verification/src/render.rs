//! Rendering a logical frame into the reports that carry it, once its
//! colors have been scaled: one group report per non-empty region group,
//! free-form reports of at most 130 keys, and the effect program with the
//! key assignments that point every key at it.
use vstd::prelude::*;

use crate::command::{
    is_command_frame, Command, colors_view, default_positions, rgb_of, rgb_tuple, spec_default_positions, spec_direction_byte,
    CommandError,
    Direction, EffectMode,
};
use crate::layout::{spec_groups_from, Layout};
use crate::protocol::effect::{
    device_program_defined, spec_effect_device_bytes, spec_effect_payload, spec_effect_upload_frame,
};
use crate::protocol::{build_effect_upload_frame, MAX_EFFECT_COLORS, MAX_EFFECT_SLOT};
use crate::state::Frame;
use crate::protocol::{
    cmd, spec_commit, build_free_frame, build_group_frame, build_group_frame_elements, build_group_frame_reactive,
    direction_type, effect_type, settings_mask, spec_free_frame, spec_group_frame,
    spec_reactive_elements, spec_steady_elements, KeyColor, KeyElement, LightingEffect,
    FEATURE_REPORT_LEN, MAX_FREE_ENTRIES, MAX_GROUP_ENTRIES,
};

verus! {

/// The HID lists of the groups.
pub open spec fn groups_view(gs: Seq<Vec<u8>>) -> Seq<Seq<u8>> {
    gs.map_values(|g: Vec<u8>| g@)
}

/// The bytes of each report.
pub open spec fn reports_view(rs: Seq<[u8; FEATURE_REPORT_LEN]>) -> Seq<Seq<u8>> {
    rs.map_values(|r: [u8; FEATURE_REPORT_LEN]| r@)
}

/// Every group fits one group report.
pub open spec fn groups_fit(gs: Seq<Seq<u8>>) -> bool {
    forall|i: int| 0 <= i < gs.len() ==> #[trigger] gs[i].len() <= MAX_GROUP_ENTRIES
}

/// One group report per non-empty group, in order, carrying the elements
/// `elements` gives for its HID list.
pub open spec fn spec_group_reports(
    gs: Seq<Seq<u8>>,
    elements: spec_fn(Seq<u8>) -> Seq<KeyElement>,
) -> Seq<Seq<u8>>
    decreases gs.len(),
{
    if gs.len() == 0 {
        Seq::empty()
    } else {
        let prev = spec_group_reports(gs.drop_last(), elements);
        if gs.last().len() == 0 {
            prev
        } else {
            prev.push(spec_group_frame(elements(gs.last())))
        }
    }
}

/// The group reports that set every key of the groups to the steady color
/// `(r, g, b)`, empty groups skipped.
pub fn solid_frames(groups: &[Vec<u8>], r: u8, g: u8, b: u8) -> (res: Vec<[u8; FEATURE_REPORT_LEN]>)
    requires
        groups_fit(groups_view(groups@)),
    ensures
        reports_view(res@) == spec_group_reports(
            groups_view(groups@),
            |hids: Seq<u8>| spec_steady_elements(hids, r, g, b),
        ),
{
    let ghost gs = groups_view(groups@);
    let ghost f = |hids: Seq<u8>| spec_steady_elements(hids, r, g, b);
    let mut out: Vec<[u8; FEATURE_REPORT_LEN]> = Vec::new();
    let mut i: usize = 0;
    assert(gs.take(0) =~= Seq::<Seq<u8>>::empty());
    assert(reports_view(out@) =~= Seq::<Seq<u8>>::empty());
    while i < groups.len()
        invariant
            i <= groups@.len(),
            gs == groups_view(groups@),
            groups_fit(gs),
            f == (|hids: Seq<u8>| spec_steady_elements(hids, r, g, b)),
            reports_view(out@) == spec_group_reports(gs.take(i as int), f),
        decreases groups@.len() - i,
    {
        assert(gs.take(i + 1).drop_last() =~= gs.take(i as int));
        assert(gs.take(i + 1).last() == groups@[i as int]@);
        assert(gs[i as int].len() <= MAX_GROUP_ENTRIES);
        if groups[i].len() != 0 {
            let frame = build_group_frame(groups[i].as_slice(), r, g, b);
            let ghost before = out@;
            out.push(frame);
            assert(reports_view(out@) =~= reports_view(before).push(frame@));
        }
        i = i + 1;
    }
    assert(gs.take(groups@.len() as int) =~= gs);
    out
}

/// The group reports that give every key of the groups the reactive
/// effect: rest at `base`, flash to `hit`, fade back over `fade_ms`;
/// empty groups skipped.
pub fn reactive_frames(
    groups: &[Vec<u8>],
    base: (u8, u8, u8),
    hit: (u8, u8, u8),
    fade_ms: u16,
) -> (res: Vec<[u8; FEATURE_REPORT_LEN]>)
    requires
        groups_fit(groups_view(groups@)),
    ensures
        reports_view(res@) == spec_group_reports(
            groups_view(groups@),
            |hids: Seq<u8>| spec_reactive_elements(hids, base, hit, fade_ms),
        ),
{
    let ghost gs = groups_view(groups@);
    let ghost f = |hids: Seq<u8>| spec_reactive_elements(hids, base, hit, fade_ms);
    let mut out: Vec<[u8; FEATURE_REPORT_LEN]> = Vec::new();
    let mut i: usize = 0;
    assert(gs.take(0) =~= Seq::<Seq<u8>>::empty());
    assert(reports_view(out@) =~= Seq::<Seq<u8>>::empty());
    while i < groups.len()
        invariant
            i <= groups@.len(),
            gs == groups_view(groups@),
            groups_fit(gs),
            f == (|hids: Seq<u8>| spec_reactive_elements(hids, base, hit, fade_ms)),
            reports_view(out@) == spec_group_reports(gs.take(i as int), f),
        decreases groups@.len() - i,
    {
        assert(gs.take(i + 1).drop_last() =~= gs.take(i as int));
        assert(gs.take(i + 1).last() == groups@[i as int]@);
        assert(gs[i as int].len() <= MAX_GROUP_ENTRIES);
        if groups[i].len() != 0 {
            let frame = build_group_frame_reactive(groups[i].as_slice(), base, hit, fade_ms);
            let ghost before = out@;
            out.push(frame);
            assert(reports_view(out@) =~= reports_view(before).push(frame@));
        }
        i = i + 1;
    }
    assert(gs.take(groups@.len() as int) =~= gs);
    out
}

/// The key element that points key `hid` at effect slot `slot`, resting at
/// `first` (`settings_mask = EFFECT`).
pub open spec fn spec_effect_element(hid: u8, first: (u8, u8, u8), slot: u8) -> KeyElement {
    KeyElement {
        init: [first.0, first.1, first.2],
        react: [0, 0, 0],
        react_time_ms: 0,
        effect_index: slot,
        settings_mask: settings_mask::EFFECT,
        lockmask: 0,
        hid,
    }
}

/// The effect elements for each of `hids`, in order.
pub open spec fn spec_effect_elements(hids: Seq<u8>, first: (u8, u8, u8), slot: u8) -> Seq<
    KeyElement,
> {
    Seq::new(hids.len(), |i: int| spec_effect_element(hids[i], first, slot))
}

/// The group reports that point every key of the groups at effect slot
/// `slot`, resting at the effect's first color; empty groups skipped.
pub fn effect_assign_frames(groups: &[Vec<u8>], first: (u8, u8, u8), slot: u8) -> (res: Vec<
    [u8; FEATURE_REPORT_LEN],
>)
    requires
        groups_fit(groups_view(groups@)),
    ensures
        reports_view(res@) == spec_group_reports(
            groups_view(groups@),
            |hids: Seq<u8>| spec_effect_elements(hids, first, slot),
        ),
{
    let ghost gs = groups_view(groups@);
    let ghost f = |hids: Seq<u8>| spec_effect_elements(hids, first, slot);
    let mut out: Vec<[u8; FEATURE_REPORT_LEN]> = Vec::new();
    let mut i: usize = 0;
    assert(gs.take(0) =~= Seq::<Seq<u8>>::empty());
    assert(reports_view(out@) =~= Seq::<Seq<u8>>::empty());
    while i < groups.len()
        invariant
            i <= groups@.len(),
            gs == groups_view(groups@),
            groups_fit(gs),
            f == (|hids: Seq<u8>| spec_effect_elements(hids, first, slot)),
            reports_view(out@) == spec_group_reports(gs.take(i as int), f),
        decreases groups@.len() - i,
    {
        assert(gs.take(i + 1).drop_last() =~= gs.take(i as int));
        assert(gs.take(i + 1).last() == groups@[i as int]@);
        assert(gs[i as int].len() <= MAX_GROUP_ENTRIES);
        let group = &groups[i];
        if group.len() != 0 {
            let mut elements: Vec<KeyElement> = Vec::new();
            let mut j: usize = 0;
            while j < group.len()
                invariant
                    j <= group@.len(),
                    elements@ =~= spec_effect_elements(group@, first, slot).take(j as int),
                decreases group@.len() - j,
            {
                elements.push(
                    KeyElement {
                        init: [first.0, first.1, first.2],
                        react: [0, 0, 0],
                        react_time_ms: 0,
                        effect_index: slot,
                        settings_mask: settings_mask::EFFECT,
                        lockmask: 0,
                        hid: group[j],
                    },
                );
                j = j + 1;
            }
            assert(elements@ =~= spec_effect_elements(group@, first, slot));
            let frame = build_group_frame_elements(elements.as_slice());
            let ghost before = out@;
            out.push(frame);
            assert(reports_view(out@) =~= reports_view(before).push(frame@));
        }
        i = i + 1;
    }
    assert(gs.take(groups@.len() as int) =~= gs);
    out
}

/// Number of free-form reports `n` entries take: `ceil(n / 130)`, 130
/// being `MAX_FREE_ENTRIES`.
pub open spec fn free_report_count(n: nat) -> nat {
    ((n + 129) / 130) as nat
}

/// The free-form reports carrying `entries` in chunks of 130 (the last
/// chunk holding the rest).
pub open spec fn spec_free_reports(entries: Seq<KeyColor>) -> Seq<Seq<u8>> {
    Seq::new(
        free_report_count(entries.len()),
        |k: int|
            spec_free_frame(
                entries.subrange(
                    MAX_FREE_ENTRIES * k,
                    if MAX_FREE_ENTRIES * k + MAX_FREE_ENTRIES <= entries.len() {
                        MAX_FREE_ENTRIES * k + MAX_FREE_ENTRIES
                    } else {
                        entries.len() as int
                    },
                ),
            ),
    )
}

/// The free-form (`0x0C`) reports that set each entry's key to its color,
/// at most 130 entries per report.
pub fn free_frames(entries: &[KeyColor]) -> (res: Vec<[u8; FEATURE_REPORT_LEN]>)
    ensures
        reports_view(res@) == spec_free_reports(entries@),
{
    let n = entries.len();
    assert(n / 130 < usize::MAX) by (nonlinear_arith)
        requires
            n <= usize::MAX,
    ;
    let count: usize = n / MAX_FREE_ENTRIES + if n % MAX_FREE_ENTRIES != 0 {
        1
    } else {
        0
    };
    assert(count == free_report_count(n as nat)) by (nonlinear_arith)
        requires
            count == n / 130 + if n % 130 != 0 {
                1int
            } else {
                0int
            },
    ;
    let mut out: Vec<[u8; FEATURE_REPORT_LEN]> = Vec::new();
    let mut k: usize = 0;
    while k < count
        invariant
            n == entries@.len(),
            count == free_report_count(n as nat),
            k <= count,
            reports_view(out@) =~= spec_free_reports(entries@).take(k as int),
        decreases count - k,
    {
        assert(130 * k < n) by (nonlinear_arith)
            requires
                k < count,
                count == (n + 129) / 130,
        ;
        let start = MAX_FREE_ENTRIES * k;
        let end: usize = if n - start >= MAX_FREE_ENTRIES {
            start + MAX_FREE_ENTRIES
        } else {
            n
        };
        let chunk = slice_range(entries, start, end);
        let frame = build_free_frame(chunk.as_slice());
        let ghost before = out@;
        out.push(frame);
        assert(reports_view(out@) =~= reports_view(before).push(frame@));
        k = k + 1;
    }
    out
}

/// Entries `start..end` of `entries`.
fn slice_range(entries: &[KeyColor], start: usize, end: usize) -> (res: Vec<KeyColor>)
    requires
        start <= end <= entries@.len(),
    ensures
        res@ == entries@.subrange(start as int, end as int),
{
    let mut out: Vec<KeyColor> = Vec::new();
    let mut i: usize = start;
    while i < end
        invariant
            start <= i <= end <= entries@.len(),
            out@ =~= entries@.subrange(start as int, i as int),
        decreases end - i,
    {
        out.push(entries[i]);
        i = i + 1;
    }
    out
}

/// The effect type, whether a direction is set, and the direction byte of
/// an effect mode other than `off`: `wave` is colorshift with its direction
/// always set; horizontal when no direction is given.
pub open spec fn spec_effect_kind(mode: EffectMode, dir: Option<Direction>) -> (u8, bool, u8) {
    let db = match dir {
        Some(d) => spec_direction_byte(d),
        None => direction_type::HORIZONTAL,
    };
    match mode {
        EffectMode::Breathe => (effect_type::BREATHE, dir is Some, db),
        EffectMode::Colorshift => (effect_type::COLORSHIFT, dir is Some, db),
        _ => (effect_type::COLORSHIFT, true, db),
    }
}

/// The host effect that an `effect` frame uploads, from its colors (already
/// scaled): the mode's effect type and direction, the frame's speed, no
/// focal point, scale or inversion, and the frame's positions, evenly
/// spaced when it has none. An effect without colors is refused.
pub fn plan_effect(
    mode: EffectMode,
    colors: Vec<(u8, u8, u8)>,
    speed: u16,
    dir: Option<Direction>,
    positions: &Vec<u8>,
) -> (res: Result<LightingEffect, CommandError>)
    requires
        mode != EffectMode::Off,
    ensures
        colors@.len() == 0 ==> res == Err::<LightingEffect, CommandError>(
            CommandError::EffectNeedsColor,
        ),
        colors@.len() > 0 ==> (res matches Ok(e) && (e.effect_type, e.has_direction, e.direction_type)
            == spec_effect_kind(mode, dir) && !e.direction_inverted && e.focal_x == 0 && e.focal_y
            == 0 && e.speed == speed && e.scale == 0 && e.colors@ == colors@ && e.positions@ == (
        if positions@.len() == 0 {
            spec_default_positions(colors@.len())
        } else {
            positions@
        })),
{
    if colors.len() == 0 {
        return Err(CommandError::EffectNeedsColor);
    }
    let ps = if positions.len() == 0 {
        default_positions(colors.len())
    } else {
        let p = positions.clone();
        assert(p@ =~= positions@);
        p
    };
    let db = match dir {
        Some(d) => d.to_device(),
        None => direction_type::HORIZONTAL,
    };
    let (et, has_dir) = match mode {
        EffectMode::Breathe => (effect_type::BREATHE, dir.is_some()),
        EffectMode::Colorshift => (effect_type::COLORSHIFT, dir.is_some()),
        _ => (effect_type::COLORSHIFT, true),
    };
    Ok(
        LightingEffect {
            effect_type: et,
            has_direction: has_dir,
            direction_type: db,
            direction_inverted: false,
            focal_x: 0,
            focal_y: 0,
            speed,
            scale: 0,
            colors,
            positions: ps,
        },
    )
}

/// Positions of an effect frame: as stored, or evenly spaced for its colors
/// when none are stored.
pub open spec fn spec_frame_positions(num_colors: nat, positions: Seq<u8>) -> Seq<u8> {
    if positions.len() == 0 {
        spec_default_positions(num_colors)
    } else {
        positions
    }
}

/// The host payload of the effect an effect frame uploads (see
/// `plan_effect`).
pub open spec fn spec_frame_effect_payload(
    mode: EffectMode,
    colors: Seq<(u8, u8, u8)>,
    speed: u16,
    dir: Option<Direction>,
    positions: Seq<u8>,
) -> Seq<u8> {
    let k = spec_effect_kind(mode, dir);
    spec_effect_payload(
        k.0,
        k.1,
        k.2,
        false,
        0,
        0,
        speed,
        0,
        colors,
        spec_frame_positions(colors.len(), positions),
    )
}

/// The free-form entries of a keys frame.
pub open spec fn key_colors(pairs: Seq<(u8, [u8; 3])>) -> Seq<KeyColor> {
    pairs.map_values(
        |p: (u8, [u8; 3])| KeyColor { hid: p.0, r: p.1@[0], g: p.1@[1], b: p.1@[2] },
    )
}

/// A frame can be rendered without a panic: every region group it is
/// rendered onto fits one report, and an effect it uploads has a slot in
/// range, fits the host struct and transforms into a device program.
pub open spec fn frame_renders(frame: &Frame, layout: &Layout) -> bool {
    match spec_groups_from(layout.region_groups@, 0) {
        Err(_) => true,
        Ok(gs) => match frame {
            Frame::Keys { .. } => true,
            Frame::Effect { mode, colors, speed, dir, slot, positions } => if *mode
                == EffectMode::Off {
                groups_fit(gs)
            } else if colors@.len() == 0 {
                true
            } else {
                &&& *slot <= MAX_EFFECT_SLOT
                &&& colors@.len() <= MAX_EFFECT_COLORS
                &&& spec_frame_positions(colors@.len(), positions@).len() <= MAX_EFFECT_COLORS
                &&& device_program_defined(
                    spec_frame_effect_payload(*mode, colors_view(colors@), *speed, *dir, positions@),
                )
                &&& groups_fit(gs)
            },
            _ => groups_fit(gs),
        },
    }
}

/// `res` holds the reports that apply `frame` (colors already scaled), in
/// sending order, a commit report to follow them: a keys frame as
/// free-form reports; any other frame onto the layout's six region groups
/// (their error first) as steady (`all`, `off`, an `off` effect in black),
/// reactive, or effect reports: the upload of the effect program, then the
/// key assignments resting at its first color. An effect other than `off`
/// without colors is refused.
pub open spec fn is_frame_reports(
    frame: &Frame,
    layout: &Layout,
    res: Result<Vec<[u8; FEATURE_REPORT_LEN]>, CommandError>,
) -> bool {
    match frame {
        Frame::Keys { pairs } => res matches Ok(v) && reports_view(v@) == spec_free_reports(
            key_colors(pairs@),
        ),
        _ => match spec_groups_from(layout.region_groups@, 0) {
            Err(e) => res == Err::<Vec<[u8; FEATURE_REPORT_LEN]>, CommandError>(
                CommandError::Layout(e),
            ),
            Ok(gs) => match frame {
                Frame::All { color } => res matches Ok(v) && reports_view(v@) == spec_group_reports(
                    gs,
                    |h: Seq<u8>| spec_steady_elements(h, color@[0], color@[1], color@[2]),
                ),
                Frame::Reactive { base, hit, fade } => res matches Ok(v) && reports_view(v@)
                    == spec_group_reports(
                    gs,
                    |h: Seq<u8>| spec_reactive_elements(h, rgb_of(*base), rgb_of(*hit), *fade),
                ),
                Frame::Effect { mode, colors, speed, dir, slot, positions } => if *mode
                    == EffectMode::Off {
                    res matches Ok(v) && reports_view(v@) == spec_group_reports(
                        gs,
                        |h: Seq<u8>| spec_steady_elements(h, 0, 0, 0),
                    )
                } else if colors@.len() == 0 {
                    res == Err::<Vec<[u8; FEATURE_REPORT_LEN]>, CommandError>(
                        CommandError::EffectNeedsColor,
                    )
                } else {
                    res matches Ok(v) && reports_view(v@) == seq![
                        spec_effect_upload_frame(
                            *slot,
                            spec_effect_device_bytes(
                                spec_frame_effect_payload(
                                    *mode,
                                    colors_view(colors@),
                                    *speed,
                                    *dir,
                                    positions@,
                                ),
                            ),
                        ),
                    ] + spec_group_reports(
                        gs,
                        |h: Seq<u8>| spec_effect_elements(h, rgb_of(colors@[0]), *slot),
                    )
                },
                _ => res matches Ok(v) && reports_view(v@) == spec_group_reports(
                    gs,
                    |h: Seq<u8>| spec_steady_elements(h, 0, 0, 0),
                ),
            },
        },
    }
}

/// RGB arrays as tuples, in order.
fn color_tuples(colors: &Vec<[u8; 3]>) -> (res: Vec<(u8, u8, u8)>)
    ensures
        res@ == colors_view(colors@),
{
    let mut out: Vec<(u8, u8, u8)> = Vec::new();
    let mut i: usize = 0;
    while i < colors.len()
        invariant
            i <= colors@.len(),
            out@ =~= colors_view(colors@).take(i as int),
        decreases colors@.len() - i,
    {
        out.push(rgb_tuple(colors[i]));
        i = i + 1;
    }
    out
}

/// The free-form entries of a keys frame.
fn key_entries(pairs: &Vec<(u8, [u8; 3])>) -> (res: Vec<KeyColor>)
    ensures
        res@ == key_colors(pairs@),
{
    let mut out: Vec<KeyColor> = Vec::new();
    let mut i: usize = 0;
    while i < pairs.len()
        invariant
            i <= pairs@.len(),
            out@ =~= key_colors(pairs@).take(i as int),
        decreases pairs@.len() - i,
    {
        let (hid, c) = pairs[i];
        out.push(KeyColor::new(hid, c[0], c[1], c[2]));
        i = i + 1;
    }
    out
}

/// The reports of an effect frame other than `off` with colors: the upload
/// of its effect program, then the key assignments.
fn effect_reports(
    groups: &[Vec<u8>],
    mode: EffectMode,
    colors: &Vec<[u8; 3]>,
    speed: u16,
    dir: Option<Direction>,
    slot: u8,
    positions: &Vec<u8>,
) -> (res: Vec<[u8; FEATURE_REPORT_LEN]>)
    requires
        mode != EffectMode::Off,
        colors@.len() > 0,
        slot <= MAX_EFFECT_SLOT,
        colors@.len() <= MAX_EFFECT_COLORS,
        spec_frame_positions(colors@.len(), positions@).len() <= MAX_EFFECT_COLORS,
        device_program_defined(
            spec_frame_effect_payload(mode, colors_view(colors@), speed, dir, positions@),
        ),
        groups_fit(groups_view(groups@)),
    ensures
        reports_view(res@) == seq![
            spec_effect_upload_frame(
                slot,
                spec_effect_device_bytes(
                    spec_frame_effect_payload(mode, colors_view(colors@), speed, dir, positions@),
                ),
            ),
        ] + spec_group_reports(
            groups_view(groups@),
            |h: Seq<u8>| spec_effect_elements(h, rgb_of(colors@[0]), slot),
        ),
{
    let tuples = color_tuples(colors);
    let effect = match plan_effect(mode, tuples, speed, dir, positions) {
        Ok(e) => e,
        Err(_) => {
            assert(false);
            return Vec::new();
        },
    };
    assert(effect.spec_to_bytes() =~= spec_frame_effect_payload(
        mode,
        colors_view(colors@),
        speed,
        dir,
        positions@,
    ));
    let upload = build_effect_upload_frame(slot, &effect);
    let first = rgb_tuple(colors[0]);
    let assign = effect_assign_frames(groups, first, slot);
    let mut out: Vec<[u8; FEATURE_REPORT_LEN]> = Vec::new();
    out.push(upload);
    let mut i: usize = 0;
    while i < assign.len()
        invariant
            i <= assign@.len(),
            reports_view(out@) =~= seq![upload@] + reports_view(assign@).take(i as int),
        decreases assign@.len() - i,
    {
        let ghost before = out@;
        out.push(assign[i]);
        assert(reports_view(out@) =~= reports_view(before).push(assign@[i as int]@));
        assert(reports_view(assign@).take(i + 1) =~= reports_view(assign@).take(i as int).push(
            assign@[i as int]@,
        ));
        i = i + 1;
    }
    assert(reports_view(assign@).take(assign@.len() as int) =~= reports_view(assign@));
    out
}

/// The reports that apply a frame whose colors are already scaled (see
/// `is_frame_reports`); a commit report is sent after them.
pub fn frame_reports(frame: &Frame, layout: &Layout) -> (res: Result<
    Vec<[u8; FEATURE_REPORT_LEN]>,
    CommandError,
>)
    requires
        frame_renders(frame, layout),
    ensures
        is_frame_reports(frame, layout, res),
{
    if let Frame::Keys { pairs } = frame {
        let entries = key_entries(pairs);
        return Ok(free_frames(entries.as_slice()));
    }
    let groups = match layout.groups() {
        Ok(g) => g,
        Err(e) => {
            return Err(CommandError::Layout(e));
        },
    };
    let ghost gs = spec_groups_from(layout.region_groups@, 0)->Ok_0;
    assert(groups_view(groups@) =~= gs);
    let gslice: &[Vec<u8>] = &groups;
    assert(gslice@ == groups@);
    match frame {
        Frame::All { color } => Ok(solid_frames(gslice, color[0], color[1], color[2])),
        Frame::Reactive { base, hit, fade } => Ok(
            reactive_frames(gslice, rgb_tuple(*base), rgb_tuple(*hit), *fade),
        ),
        Frame::Effect { mode, colors, speed, dir, slot, positions } => {
            if *mode == EffectMode::Off {
                return Ok(solid_frames(gslice, 0, 0, 0));
            }
            if colors.len() == 0 {
                return Err(CommandError::EffectNeedsColor);
            }
            Ok(effect_reports(gslice, *mode, colors, *speed, *dir, *slot, positions))
        },
        _ => Ok(solid_frames(gslice, 0, 0, 0)),
    }
}

/// Whether every group fits one group report.
fn all_groups_fit(groups: &[Vec<u8>]) -> (res: bool)
    ensures
        res == groups_fit(groups_view(groups@)),
{
    let mut i: usize = 0;
    while i < groups.len()
        invariant
            i <= groups@.len(),
            forall|j: int| 0 <= j < i ==> #[trigger] groups@[j]@.len() <= MAX_GROUP_ENTRIES,
        decreases groups@.len() - i,
    {
        if groups[i].len() > MAX_GROUP_ENTRIES {
            assert(groups_view(groups@)[i as int].len() > MAX_GROUP_ENTRIES);
            return false;
        }
        i = i + 1;
    }
    assert forall|j: int| 0 <= j < groups_view(groups@).len() implies #[trigger] groups_view(
        groups@,
    )[j].len() <= MAX_GROUP_ENTRIES by {
        assert(groups@[j]@.len() <= MAX_GROUP_ENTRIES);
    }
    true
}

/// Whether `frame_reports` can render the frame without a panic (see
/// `frame_renders`).
pub fn frame_renders_ok(frame: &Frame, layout: &Layout) -> (res: bool)
    ensures
        res == frame_renders(frame, layout),
{
    let groups = match layout.groups() {
        Ok(g) => g,
        Err(_) => {
            return true;
        },
    };
    let ghost gs = spec_groups_from(layout.region_groups@, 0)->Ok_0;
    assert(groups_view(groups@) =~= gs);
    let gslice: &[Vec<u8>] = &groups;
    assert(gslice@ == groups@);
    let fit = all_groups_fit(gslice);
    match frame {
        Frame::Keys { .. } => true,
        Frame::Effect { mode, colors, speed, dir, slot, positions } => {
            if *mode == EffectMode::Off {
                return fit;
            }
            if colors.len() == 0 {
                return true;
            }
            let num_positions = if positions.len() == 0 {
                colors.len()
            } else {
                positions.len()
            };
            if *slot > MAX_EFFECT_SLOT || colors.len() > MAX_EFFECT_COLORS || num_positions
                > MAX_EFFECT_COLORS {
                return false;
            }
            let tuples = color_tuples(colors);
            let effect = match plan_effect(*mode, tuples, *speed, *dir, positions) {
                Ok(e) => e,
                Err(_) => {
                    return false;
                },
            };
            assert(effect.spec_to_bytes() =~= spec_frame_effect_payload(
                *mode,
                colors_view(colors@),
                *speed,
                *dir,
                positions@,
            ));
            effect.is_transformable() && fit
        },
        _ => fit,
    }
}

/// `off` renders exactly as `all` in black: the same steady reports.
pub proof fn law_off_renders_as_black(
    layout: &Layout,
    black: [u8; 3],
    res: Result<Vec<[u8; FEATURE_REPORT_LEN]>, CommandError>,
)
    requires
        black@ == seq![0u8, 0u8, 0u8],
    ensures
        is_frame_reports(&Frame::Off, layout, res) == is_frame_reports(
            &(Frame::All { color: black }),
            layout,
            res,
        ),
        frame_renders(&Frame::Off, layout) == frame_renders(&(Frame::All { color: black }), layout),
{
    let f = |h: Seq<u8>| spec_steady_elements(h, black@[0], black@[1], black@[2]);
    let g = |h: Seq<u8>| spec_steady_elements(h, 0, 0, 0);
    assert(f =~= g);
}

/// An `off` effect renders exactly as `off`: every key black and steady,
/// whatever its other arguments.
pub proof fn law_effect_off_renders_as_off(
    layout: &Layout,
    frame: &Frame,
    res: Result<Vec<[u8; FEATURE_REPORT_LEN]>, CommandError>,
)
    requires
        frame matches Frame::Effect { mode, .. } && mode == EffectMode::Off,
    ensures
        is_frame_reports(frame, layout, res) == is_frame_reports(&Frame::Off, layout, res),
        frame_renders(frame, layout) == frame_renders(&Frame::Off, layout),
{
}

/// Every group report is a `SET_COLOR_GROUP` report.
proof fn lemma_group_reports_command(
    gs: Seq<Seq<u8>>,
    elements: spec_fn(Seq<u8>) -> Seq<KeyElement>,
)
    ensures
        forall|i: int|
            0 <= i < spec_group_reports(gs, elements).len() ==> (#[trigger] spec_group_reports(
                gs,
                elements,
            )[i])[1] == cmd::SET_COLOR_GROUP,
    decreases gs.len(),
{
    if gs.len() > 0 {
        lemma_group_reports_command(gs.drop_last(), elements);
        let prev = spec_group_reports(gs.drop_last(), elements);
        let last = spec_group_frame(elements(gs.last()));
        assert(last[1] == cmd::SET_COLOR_GROUP);
        assert forall|i: int| 0 <= i < prev.push(last).len() implies (#[trigger] prev.push(
            last,
        )[i])[1] == cmd::SET_COLOR_GROUP by {
            if i < prev.len() {
                assert(prev.push(last)[i] == prev[i]);
            }
        }
    }
}

/// Applying a frame writes the LEDs' RAM buffer only: no report that
/// renders a frame, nor the commit that follows them, is the flash-save
/// command. Each is a group, free-form or effect-upload report, and the
/// commit is the show command.
pub proof fn law_frame_reports_are_ram_only(
    frame: &Frame,
    layout: &Layout,
    res: Result<Vec<[u8; FEATURE_REPORT_LEN]>, CommandError>,
)
    requires
        is_frame_reports(frame, layout, res),
        res is Ok,
    ensures
        forall|i: int|
            0 <= i < res->Ok_0@.len() ==> (#[trigger] reports_view(res->Ok_0@)[i])[1]
                != cmd::SAVE_FLASH,
        spec_commit()[1] == cmd::SHOW,
        cmd::SHOW != cmd::SAVE_FLASH,
{
    let rs = reports_view(res->Ok_0@);
    match frame {
        Frame::Keys { pairs } => {
            assert forall|i: int| 0 <= i < rs.len() implies (#[trigger] rs[i])[1]
                != cmd::SAVE_FLASH by {
                assert(rs[i][1] == cmd::SET_COLOR_FREE);
            }
        },
        _ => {
            let gs = spec_groups_from(layout.region_groups@, 0)->Ok_0;
            match frame {
                Frame::All { color } => {
                    lemma_group_reports_command(
                        gs,
                        |h: Seq<u8>| spec_steady_elements(h, color@[0], color@[1], color@[2]),
                    );
                },
                Frame::Reactive { base, hit, fade } => {
                    lemma_group_reports_command(
                        gs,
                        |h: Seq<u8>| spec_reactive_elements(h, rgb_of(*base), rgb_of(*hit), *fade),
                    );
                },
                Frame::Effect { mode, colors, speed, dir, slot, positions } => {
                    if *mode == EffectMode::Off {
                        lemma_group_reports_command(gs, |h: Seq<u8>| spec_steady_elements(h, 0, 0, 0));
                    } else {
                        let f = |h: Seq<u8>| spec_effect_elements(h, rgb_of(colors@[0]), *slot);
                        lemma_group_reports_command(gs, f);
                        let up = spec_effect_upload_frame(
                            *slot,
                            spec_effect_device_bytes(
                                spec_frame_effect_payload(
                                    *mode,
                                    colors_view(colors@),
                                    *speed,
                                    *dir,
                                    positions@,
                                ),
                            ),
                        );
                        assert(up[1] == 0x0Cu8);
                        assert forall|i: int| 0 <= i < rs.len() implies (#[trigger] rs[i])[1]
                            != cmd::SAVE_FLASH by {
                            if i > 0 {
                                assert(rs[i] == spec_group_reports(gs, f)[i - 1]);
                            }
                        }
                    }
                },
                _ => {
                    lemma_group_reports_command(gs, |h: Seq<u8>| spec_steady_elements(h, 0, 0, 0));
                },
            }
        },
    }
}

/// `effect off` ignores its colors: whatever colors (and other arguments)
/// it is given, its frame holds no colors and renders exactly as `off`.
pub proof fn law_effect_off_ignores_colors(
    c: &Command,
    layout: &Layout,
    keymap: Seq<char>,
    frame: Result<Frame, CommandError>,
    res: Result<Vec<[u8; FEATURE_REPORT_LEN]>, CommandError>,
)
    requires
        c matches Command::Effect { mode, .. } && mode == EffectMode::Off,
        is_command_frame(c, layout, keymap, frame),
    ensures
        frame matches Ok(Frame::Effect { mode, colors, .. }) && mode == EffectMode::Off
            && colors@.len() == 0,
        is_frame_reports(&frame->Ok_0, layout, res) == is_frame_reports(&Frame::Off, layout, res),
{
}

/// The direction byte of an effect: horizontal `0`, vertical `1`, radial
/// `2`; horizontal when no direction is given.
pub open spec fn direction_code(dir: Option<Direction>) -> u8 {
    match dir {
        Some(Direction::V) => 1u8,
        Some(Direction::Radial) => 2u8,
        _ => 0u8,
    }
}

/// An effect frame uploads the type its mode names (breathe `2`;
/// colorshift and wave `1`), a direction exactly when it is a wave or one
/// is given, and the given direction's byte (`direction_code`): a vertical
/// wave runs vertically, a radial one radially. These are bytes 0, 1 and 2
/// of the payload, and the effect `plan_effect` gives carries them; bytes
/// 8 and 9 are the speed (little-endian) and byte 12 the color count.
pub proof fn law_effect_kind_follows_mode_and_direction(
    mode: EffectMode,
    dir: Option<Direction>,
    colors: Seq<(u8, u8, u8)>,
    speed: u16,
    positions: Seq<u8>,
)
    requires
        mode != EffectMode::Off,
    ensures
        spec_effect_kind(mode, dir).0 == (if mode == EffectMode::Breathe {
            2u8
        } else {
            1u8
        }),
        spec_effect_kind(mode, dir).1 == (mode == EffectMode::Wave || dir is Some),
        spec_effect_kind(mode, dir).2 == direction_code(dir),
        spec_frame_effect_payload(mode, colors, speed, dir, positions)[0] == (if mode
            == EffectMode::Breathe {
            2u8
        } else {
            1u8
        }),
        spec_frame_effect_payload(mode, colors, speed, dir, positions)[1] == (if mode
            == EffectMode::Wave || dir is Some {
            1u8
        } else {
            0u8
        }),
        spec_frame_effect_payload(mode, colors, speed, dir, positions)[2] == direction_code(dir),
        spec_frame_effect_payload(mode, colors, speed, dir, positions)[8] == speed % 256,
        spec_frame_effect_payload(mode, colors, speed, dir, positions)[9] == speed / 256,
        colors.len() <= MAX_EFFECT_COLORS ==> spec_frame_effect_payload(
            mode,
            colors,
            speed,
            dir,
            positions,
        )[12] == colors.len(),
{
}

/// The group report of each non-empty group is among the group reports.
proof fn lemma_group_reports_contain(
    gs: Seq<Seq<u8>>,
    elements: spec_fn(Seq<u8>) -> Seq<KeyElement>,
    g: int,
)
    requires
        0 <= g < gs.len(),
        gs[g].len() > 0,
    ensures
        exists|j: int|
            0 <= j < spec_group_reports(gs, elements).len() && #[trigger] spec_group_reports(
                gs,
                elements,
            )[j] == spec_group_frame(elements(gs[g])),
    decreases gs.len(),
{
    let prev = spec_group_reports(gs.drop_last(), elements);
    let last = spec_group_frame(elements(gs.last()));
    if g == gs.len() - 1 {
        assert(spec_group_reports(gs, elements) == prev.push(last));
        assert(spec_group_reports(gs, elements)[prev.len() as int] == last);
    } else {
        assert(gs.drop_last()[g] == gs[g]);
        lemma_group_reports_contain(gs.drop_last(), elements, g);
        let j = choose|j: int| 0 <= j < prev.len() && #[trigger] prev[j] == spec_group_frame(
            elements(gs[g]),
        );
        if gs.last().len() == 0 {
            assert(spec_group_reports(gs, elements)[j] == prev[j]);
        } else {
            assert(spec_group_reports(gs, elements)[j] == prev.push(last)[j]);
        }
    }
}

/// Byte `k` of element `m` of a group report is at `5 + 12 * m + k`.
proof fn lemma_group_frame_element(es: Seq<KeyElement>, m: int, k: int)
    requires
        0 <= m < es.len(),
        es.len() <= MAX_GROUP_ENTRIES,
        0 <= k < 12,
    ensures
        spec_group_frame(es)[5 + 12 * m + k] == es[m].spec_bytes()[k],
{
    assert((12 * m + k) / 12 == m && (12 * m + k) % 12 == k) by (nonlinear_arith)
        requires
            0 <= k < 12,
            0 <= m,
    ;
    assert(5 + 12 * m + k < 5 + 12 * es.len()) by (nonlinear_arith)
        requires
            m < es.len(),
            k < 12,
    ;
    assert(5 + 12 * es.len() <= 525) by (nonlinear_arith)
        requires
            es.len() <= 43,
    ;
}

/// `all` reaches every key of every region group: for each key of a
/// group (that fits one report), some group report it sends sets that key
/// steadily to the color: byte `5 + 12m + 11` is the key's code, bytes
/// `5 + 12m .. 5 + 12m + 3` the color and byte `5 + 12m + 9` the steady
/// settings mask `1`, for the key's place `m`.
pub proof fn law_all_frame_reaches_every_key(
    frame: &Frame,
    layout: &Layout,
    res: Result<Vec<[u8; FEATURE_REPORT_LEN]>, CommandError>,
    g: int,
    m: int,
)
    requires
        frame is All,
        is_frame_reports(frame, layout, res),
        res is Ok,
        spec_groups_from(layout.region_groups@, 0) is Ok,
        0 <= g < spec_groups_from(layout.region_groups@, 0)->Ok_0.len(),
        0 <= m < spec_groups_from(layout.region_groups@, 0)->Ok_0[g].len(),
        spec_groups_from(layout.region_groups@, 0)->Ok_0[g].len() <= MAX_GROUP_ENTRIES,
    ensures
        exists|j: int|
            0 <= j < res->Ok_0@.len() && {
                let r = #[trigger] reports_view(res->Ok_0@)[j];
                &&& r[1] == cmd::SET_COLOR_GROUP
                &&& r[5 + 12 * m + 11] == spec_groups_from(layout.region_groups@, 0)->Ok_0[g][m]
                &&& r[5 + 12 * m] == frame->All_color@[0]
                &&& r[5 + 12 * m + 1] == frame->All_color@[1]
                &&& r[5 + 12 * m + 2] == frame->All_color@[2]
                &&& r[5 + 12 * m + 9] == 1u8
            },
{
    let gs = spec_groups_from(layout.region_groups@, 0)->Ok_0;
    let c = frame->All_color;
    let f = |h: Seq<u8>| spec_steady_elements(h, c@[0], c@[1], c@[2]);
    let rs = reports_view(res->Ok_0@);
    assert(rs == spec_group_reports(gs, f));
    lemma_group_reports_contain(gs, f, g);
    lemma_group_reports_command(gs, f);
    let j = choose|j: int| 0 <= j < rs.len() && #[trigger] rs[j] == spec_group_frame(f(gs[g]));
    let es = f(gs[g]);
    lemma_group_frame_element(es, m, 11);
    lemma_group_frame_element(es, m, 0);
    lemma_group_frame_element(es, m, 1);
    lemma_group_frame_element(es, m, 2);
    lemma_group_frame_element(es, m, 9);
    assert(rs[j][1] == cmd::SET_COLOR_GROUP);
}

/// `reactive` reaches every key of every region group: for each key of a
/// group (that fits one report), some group report it sends sets that key
/// to rest at the base color, flash the hit color and fade back over the
/// command's fade: at the key's place `m`, bytes `5 + 12m .. +3` are the
/// base, `+3 .. +6` the hit, `+6, +7` the fade in milliseconds
/// (little-endian), `+9` the reactive settings mask `8` and `+11` the
/// key's code.
pub proof fn law_reactive_frame_reaches_every_key(
    frame: &Frame,
    layout: &Layout,
    res: Result<Vec<[u8; FEATURE_REPORT_LEN]>, CommandError>,
    g: int,
    m: int,
)
    requires
        frame is Reactive,
        is_frame_reports(frame, layout, res),
        res is Ok,
        spec_groups_from(layout.region_groups@, 0) is Ok,
        0 <= g < spec_groups_from(layout.region_groups@, 0)->Ok_0.len(),
        0 <= m < spec_groups_from(layout.region_groups@, 0)->Ok_0[g].len(),
        spec_groups_from(layout.region_groups@, 0)->Ok_0[g].len() <= MAX_GROUP_ENTRIES,
    ensures
        exists|j: int|
            0 <= j < res->Ok_0@.len() && {
                let r = #[trigger] reports_view(res->Ok_0@)[j];
                &&& r[1] == cmd::SET_COLOR_GROUP
                &&& r[5 + 12 * m + 11] == spec_groups_from(layout.region_groups@, 0)->Ok_0[g][m]
                &&& r[5 + 12 * m] == frame->Reactive_base@[0]
                &&& r[5 + 12 * m + 1] == frame->Reactive_base@[1]
                &&& r[5 + 12 * m + 2] == frame->Reactive_base@[2]
                &&& r[5 + 12 * m + 3] == frame->Reactive_hit@[0]
                &&& r[5 + 12 * m + 4] == frame->Reactive_hit@[1]
                &&& r[5 + 12 * m + 5] == frame->Reactive_hit@[2]
                &&& r[5 + 12 * m + 6] == frame->Reactive_fade % 256
                &&& r[5 + 12 * m + 7] == frame->Reactive_fade / 256
                &&& r[5 + 12 * m + 9] == 8u8
            },
{
    let gs = spec_groups_from(layout.region_groups@, 0)->Ok_0;
    let b = frame->Reactive_base;
    let h = frame->Reactive_hit;
    let fd = frame->Reactive_fade;
    let f = |hs: Seq<u8>| spec_reactive_elements(hs, rgb_of(b), rgb_of(h), fd);
    let rs = reports_view(res->Ok_0@);
    assert(rs == spec_group_reports(gs, f));
    lemma_group_reports_contain(gs, f, g);
    lemma_group_reports_command(gs, f);
    let j = choose|j: int| 0 <= j < rs.len() && #[trigger] rs[j] == spec_group_frame(f(gs[g]));
    let es = f(gs[g]);
    lemma_group_frame_element(es, m, 0);
    lemma_group_frame_element(es, m, 1);
    lemma_group_frame_element(es, m, 2);
    lemma_group_frame_element(es, m, 3);
    lemma_group_frame_element(es, m, 4);
    lemma_group_frame_element(es, m, 5);
    lemma_group_frame_element(es, m, 6);
    lemma_group_frame_element(es, m, 7);
    lemma_group_frame_element(es, m, 9);
    lemma_group_frame_element(es, m, 11);
    assert(rs[j][1] == cmd::SET_COLOR_GROUP);
}

/// An effect frame (other than `off`, with colors) first uploads the effect
/// program to its slot (report 0: bytes 1 and 3 are `0x0C`, `0x0B`, byte 5
/// the slot), then reaches every key of every region group: for each key
/// of a group (that fits one report), a later group report points that key
/// at the slot (byte `5 + 12m + 8`), with the effect settings mask `0`
/// (byte `+9`), resting at the first color (bytes `+0 .. +3`), byte `+11`
/// being the key's code.
pub proof fn law_effect_frame_reaches_every_key(
    frame: &Frame,
    layout: &Layout,
    res: Result<Vec<[u8; FEATURE_REPORT_LEN]>, CommandError>,
    g: int,
    m: int,
)
    requires
        frame matches Frame::Effect { mode, colors, .. } && mode != EffectMode::Off
            && colors@.len() > 0,
        is_frame_reports(frame, layout, res),
        res is Ok,
        spec_groups_from(layout.region_groups@, 0) is Ok,
        0 <= g < spec_groups_from(layout.region_groups@, 0)->Ok_0.len(),
        0 <= m < spec_groups_from(layout.region_groups@, 0)->Ok_0[g].len(),
        spec_groups_from(layout.region_groups@, 0)->Ok_0[g].len() <= MAX_GROUP_ENTRIES,
    ensures
        res->Ok_0@.len() > 0,
        reports_view(res->Ok_0@)[0][1] == 0x0Cu8,
        reports_view(res->Ok_0@)[0][3] == 0x0Bu8,
        reports_view(res->Ok_0@)[0][5] == frame->Effect_slot,
        exists|j: int|
            0 < j < res->Ok_0@.len() && {
                let r = #[trigger] reports_view(res->Ok_0@)[j];
                &&& r[1] == cmd::SET_COLOR_GROUP
                &&& r[5 + 12 * m + 11] == spec_groups_from(layout.region_groups@, 0)->Ok_0[g][m]
                &&& r[5 + 12 * m] == frame->Effect_colors@[0]@[0]
                &&& r[5 + 12 * m + 1] == frame->Effect_colors@[0]@[1]
                &&& r[5 + 12 * m + 2] == frame->Effect_colors@[0]@[2]
                &&& r[5 + 12 * m + 8] == frame->Effect_slot
                &&& r[5 + 12 * m + 9] == 0u8
            },
{
    let gs = spec_groups_from(layout.region_groups@, 0)->Ok_0;
    let first = rgb_of(frame->Effect_colors@[0]);
    let slot = frame->Effect_slot;
    let f = |hs: Seq<u8>| spec_effect_elements(hs, first, slot);
    let rs = reports_view(res->Ok_0@);
    let grs = spec_group_reports(gs, f);
    let up = rs[0];
    assert(rs == seq![up] + grs);
    lemma_group_reports_contain(gs, f, g);
    lemma_group_reports_command(gs, f);
    let j = choose|j: int| 0 <= j < grs.len() && #[trigger] grs[j] == spec_group_frame(f(gs[g]));
    assert(rs[j + 1] == grs[j]);
    let es = f(gs[g]);
    lemma_group_frame_element(es, m, 0);
    lemma_group_frame_element(es, m, 1);
    lemma_group_frame_element(es, m, 2);
    lemma_group_frame_element(es, m, 8);
    lemma_group_frame_element(es, m, 9);
    lemma_group_frame_element(es, m, 11);
    assert(grs[j][1] == cmd::SET_COLOR_GROUP);
}

/// A keys frame reaches each of its keys: key pair `i` is entry `i % 130`
/// of free-form report `i / 130` (byte 1 is `0x0C`), the four bytes at
/// `5 + 4 * (i % 130)` being its code and its red, green and blue, so no
/// pair is dropped, moved or recolored.
pub proof fn law_keys_frame_reaches_every_key(
    frame: &Frame,
    layout: &Layout,
    res: Result<Vec<[u8; FEATURE_REPORT_LEN]>, CommandError>,
    i: int,
)
    requires
        frame matches Frame::Keys { pairs } && 0 <= i < pairs@.len(),
        is_frame_reports(frame, layout, res),
    ensures
        res is Ok,
        i / 130 < res->Ok_0@.len(),
        ({
            let r = reports_view(res->Ok_0@)[i / 130];
            let p = frame->Keys_pairs@[i];
            &&& r[1] == 0x0Cu8
            &&& r[5 + 4 * (i % 130)] == p.0
            &&& r[5 + 4 * (i % 130) + 1] == p.1@[0]
            &&& r[5 + 4 * (i % 130) + 2] == p.1@[1]
            &&& r[5 + 4 * (i % 130) + 3] == p.1@[2]
        }),
{
    let pairs = frame->Keys_pairs;
    let es = key_colors(pairs@);
    let n = es.len();
    let k = i / 130;
    let q = i % 130;
    assert(i == 130 * k + q && 0 <= q < 130) by (nonlinear_arith)
        requires
            k == i / 130,
            q == i % 130,
            i >= 0,
    ;
    assert(k < free_report_count(n)) by (nonlinear_arith)
        requires
            k == i / 130,
            i < n,
            0 <= i,
    ;
    let end = if 130 * k + 130 <= n {
        130 * k + 130
    } else {
        n as int
    };
    let chunk = es.subrange(130 * k, end);
    assert(chunk[q] == es[i]);
    let rs = reports_view(res->Ok_0@);
    assert(rs == spec_free_reports(es));
    assert(rs.len() == res->Ok_0@.len());
    assert(rs.len() == free_report_count(n));
    assert(rs[k] == spec_free_frame(chunk));
    let base = 5 + 4 * q;
    assert((4 * q) / 4 == q && (4 * q) % 4 == 0) by (nonlinear_arith)
        requires
            0 <= q,
    ;
    assert((4 * q + 1) / 4 == q && (4 * q + 1) % 4 == 1) by (nonlinear_arith)
        requires
            0 <= q,
    ;
    assert((4 * q + 2) / 4 == q && (4 * q + 2) % 4 == 2) by (nonlinear_arith)
        requires
            0 <= q,
    ;
    assert((4 * q + 3) / 4 == q && (4 * q + 3) % 4 == 3) by (nonlinear_arith)
        requires
            0 <= q,
    ;
    assert(base + 3 < 5 + 4 * chunk.len());
    assert(base + 3 < 525);
    assert(rs[k][base] == chunk[(base - 5) / 4].spec_bytes()[(base - 5) % 4]);
    assert(rs[k][base + 1] == chunk[(base + 1 - 5) / 4].spec_bytes()[(base + 1 - 5) % 4]);
    assert(rs[k][base + 2] == chunk[(base + 2 - 5) / 4].spec_bytes()[(base + 2 - 5) % 4]);
    assert(rs[k][base + 3] == chunk[(base + 3 - 5) / 4].spec_bytes()[(base + 3 - 5) % 4]);
}

} // verus!
