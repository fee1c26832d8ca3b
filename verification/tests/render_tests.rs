use msi_klc::layout::{Layout, LayoutError, RegionGroup};
use msi_klc::protocol::{
    build_effect_upload_frame, build_free_frame, build_group_frame, build_group_frame_elements,
    build_group_frame_reactive, direction_type, effect_type, settings_mask, KeyColor, KeyElement,
    MAX_FREE_ENTRIES,
};
use msi_klc::render::{
    effect_assign_frames, frame_renders_ok, frame_reports, free_frames, plan_effect,
    reactive_frames, solid_frames,
};
use msi_klc::command::{command_to_frame, Command, CommandError};
use msi_klc::state::Frame;
use msi_klc::{Direction, EffectMode};

fn groups_layout(groups: [&[u32]; 6]) -> Layout {
    let names = [
        "Group1_Offset",
        "Group2_Offset",
        "Group3_Offset",
        "Group4_Offset",
        "Group5_Offset",
        "Group6_Offset",
    ];
    Layout::new(
        vec![],
        names
            .iter()
            .zip(groups.iter())
            .map(|(n, g)| RegionGroup { name: n.to_string(), hids: g.to_vec() })
            .collect(),
    )
    .unwrap()
}

fn sample() -> Layout {
    groups_layout([&[4, 5], &[], &[6], &[], &[], &[7]])
}

#[test]
fn solid_frames_skip_empty_groups() {
    let groups = vec![vec![4u8, 5], vec![], vec![6]];
    let frames = solid_frames(&groups, 1, 2, 3);
    assert_eq!(frames.len(), 2);
    assert_eq!(frames[0], build_group_frame(&[4, 5], 1, 2, 3));
    assert_eq!(frames[1], build_group_frame(&[6], 1, 2, 3));
}

#[test]
fn reactive_frames_per_group() {
    let groups = vec![vec![], vec![9u8]];
    let frames = reactive_frames(&groups, (1, 2, 3), (4, 5, 6), 7);
    assert_eq!(frames, vec![build_group_frame_reactive(&[9], (1, 2, 3), (4, 5, 6), 7)]);
}

#[test]
fn effect_assignment_points_keys_at_the_slot() {
    let groups = vec![vec![4u8]];
    let frames = effect_assign_frames(&groups, (10, 20, 30), 3);
    let e = KeyElement {
        init: [10, 20, 30],
        react: [0, 0, 0],
        react_time_ms: 0,
        effect_index: 3,
        settings_mask: settings_mask::EFFECT,
        lockmask: 0,
        hid: 4,
    };
    assert_eq!(frames, vec![build_group_frame_elements(&[e])]);
}

#[test]
fn free_frames_chunk_by_130() {
    let entries: Vec<KeyColor> = (0..300u32).map(|i| KeyColor::new(i as u8, 1, 1, 1)).collect();
    let frames = free_frames(&entries);
    assert_eq!(frames.len(), 3);
    assert_eq!(frames[0], build_free_frame(&entries[0..MAX_FREE_ENTRIES]));
    assert_eq!(frames[1], build_free_frame(&entries[130..260]));
    assert_eq!(frames[2], build_free_frame(&entries[260..300]));
    assert!(free_frames(&[]).is_empty());
    assert_eq!(free_frames(&entries[0..130]).len(), 1);
}

#[test]
fn plan_effect_kinds() {
    let e = plan_effect(EffectMode::Wave, vec![(1, 2, 3)], 50, None, &vec![]).unwrap();
    assert_eq!(e.effect_type, effect_type::COLORSHIFT);
    assert!(e.has_direction);
    assert_eq!(e.direction_type, direction_type::HORIZONTAL);
    assert_eq!(e.positions, vec![0]);
    assert_eq!(e.speed, 50);
    let b = plan_effect(EffectMode::Breathe, vec![(1, 2, 3), (4, 5, 6)], 9, Some(Direction::Radial), &vec![5, 60])
        .unwrap();
    assert_eq!(b.effect_type, effect_type::BREATHE);
    assert!(b.has_direction);
    assert_eq!(b.direction_type, direction_type::RADIAL);
    assert_eq!(b.positions, vec![5, 60]);
    let c = plan_effect(EffectMode::Colorshift, vec![(1, 2, 3)], 9, None, &vec![]).unwrap();
    assert!(!c.has_direction);
    assert!(matches!(
        plan_effect(EffectMode::Breathe, vec![], 1, None, &vec![]),
        Err(CommandError::EffectNeedsColor)
    ));
}

#[test]
fn frame_reports_for_each_frame() {
    let l = sample();
    let g = l.groups().unwrap();
    let all = frame_reports(&Frame::All { color: [1, 2, 3] }, &l).unwrap();
    assert_eq!(all, solid_frames(&g, 1, 2, 3));
    let off = frame_reports(&Frame::Off, &l).unwrap();
    assert_eq!(off, solid_frames(&g, 0, 0, 0));
    let keys = frame_reports(&Frame::Keys { pairs: vec![(4, [9, 8, 7])] }, &l).unwrap();
    assert_eq!(keys, vec![build_free_frame(&[KeyColor::new(4, 9, 8, 7)])]);
    let reactive =
        frame_reports(&Frame::Reactive { base: [1, 1, 1], hit: [2, 2, 2], fade: 3 }, &l).unwrap();
    assert_eq!(reactive, reactive_frames(&g, (1, 1, 1), (2, 2, 2), 3));
}

#[test]
fn effect_off_renders_like_off() {
    let l = sample();
    let off_effect = Frame::Effect {
        mode: EffectMode::Off,
        colors: vec![],
        speed: 1,
        dir: None,
        slot: 200,
        positions: vec![],
    };
    assert_eq!(frame_reports(&off_effect, &l), frame_reports(&Frame::Off, &l));
    assert_eq!(frame_reports(&Frame::Off, &l), frame_reports(&Frame::All { color: [0, 0, 0] }, &l));
}

#[test]
fn effect_frame_uploads_then_assigns() {
    let l = sample();
    let g = l.groups().unwrap();
    let frame = Frame::Effect {
        mode: EffectMode::Breathe,
        colors: vec![[255, 0, 0]],
        speed: 100,
        dir: None,
        slot: 4,
        positions: vec![],
    };
    assert!(frame_renders_ok(&frame, &l));
    let reports = frame_reports(&frame, &l).unwrap();
    let effect = plan_effect(EffectMode::Breathe, vec![(255, 0, 0)], 100, None, &vec![]).unwrap();
    let mut expected = vec![build_effect_upload_frame(4, &effect)];
    expected.extend(effect_assign_frames(&g, (255, 0, 0), 4));
    assert_eq!(reports, expected);
    let empty = Frame::Effect {
        mode: EffectMode::Wave,
        colors: vec![],
        speed: 100,
        dir: None,
        slot: 4,
        positions: vec![],
    };
    assert_eq!(frame_reports(&empty, &l), Err(CommandError::EffectNeedsColor));
}

#[test]
fn frame_rendering_checks() {
    let l = sample();
    let bad_slot = Frame::Effect {
        mode: EffectMode::Colorshift,
        colors: vec![[1, 2, 3]],
        speed: 100,
        dir: None,
        slot: 14,
        positions: vec![],
    };
    assert!(!frame_renders_ok(&bad_slot, &l));
    let hids: Vec<u32> = (0..44).collect();
    let big = groups_layout([&hids, &[], &[], &[], &[], &[]]);
    assert!(!frame_renders_ok(&Frame::Off, &big));
    assert!(frame_renders_ok(&Frame::Keys { pairs: vec![] }, &big));
    let missing = Layout::new(vec![], vec![]).unwrap();
    assert!(frame_renders_ok(&Frame::Off, &missing));
    assert_eq!(
        frame_reports(&Frame::Off, &missing),
        Err(CommandError::Layout(LayoutError::MissingGroup(1)))
    );
}

#[test]
fn effect_off_command_renders_as_off_whatever_its_colors() {
    let l = sample();
    let c = Command::Effect {
        mode: EffectMode::Off,
        colors: vec!["zz".to_string(), "not a color".to_string()],
        speed: 100,
        dir: None,
        slot: 0,
        positions: vec![],
    };
    let f = command_to_frame(&c, &l, "GE73Keys").unwrap();
    assert_eq!(frame_reports(&f, &l), frame_reports(&Frame::Off, &l));
    assert!(frame_reports(&f, &l).unwrap().iter().all(|r| r[1] != 0x09));
}
