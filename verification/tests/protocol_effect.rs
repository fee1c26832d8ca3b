use msi_klc::protocol::effect::{
    breathe_section_info, colorshift_section_info, direction_scaling_bytes, effect_bytes_trailer,
    effect_color_byte, effect_position_byte,
};
use msi_klc::protocol::{
    build_effect_upload_frame, direction_type, effect_type, scaled_uint8, LightingEffect,
    EFFECT_DEVICE_BYTES_LEN, FEATURE_REPORT_LEN, LIGHTING_EFFECT_LEN,
};

fn effect(kind: u8, colors: Vec<(u8, u8, u8)>, positions: Vec<u8>) -> LightingEffect {
    LightingEffect {
        effect_type: kind,
        has_direction: false,
        direction_type: direction_type::HORIZONTAL,
        direction_inverted: false,
        focal_x: 0,
        focal_y: 0,
        speed: 100,
        scale: 0,
        colors,
        positions,
    }
}

#[test]
fn lighting_effect_to_bytes_field_offsets() {
    let effect = LightingEffect {
        effect_type: effect_type::BREATHE,
        has_direction: true,
        direction_type: direction_type::RADIAL,
        direction_inverted: true,
        focal_x: 0x1234,
        focal_y: 0x5678,
        speed: 0x00AA,
        scale: 0x00BB,
        colors: vec![(1, 2, 3), (4, 5, 6)],
        positions: vec![0, 50],
    };
    let b = effect.to_bytes();
    assert_eq!(b.len(), LIGHTING_EFFECT_LEN);
    assert_eq!(b[0], effect_type::BREATHE);
    assert_eq!(b[1], 1);
    assert_eq!(b[2], direction_type::RADIAL);
    assert_eq!(b[3], 1);
    assert_eq!(&b[4..6], &0x1234u16.to_le_bytes());
    assert_eq!(&b[6..8], &0x5678u16.to_le_bytes());
    assert_eq!(&b[8..10], &0x00AAu16.to_le_bytes());
    assert_eq!(&b[10..12], &0x00BBu16.to_le_bytes());
    assert_eq!(b[12], 2);
    assert_eq!(&b[13..16], &[1, 2, 3]);
    assert_eq!(&b[16..19], &[4, 5, 6]);
    assert_eq!(b[55], 0);
    assert_eq!(b[56], 50);
}

#[test]
fn scaled_uint8_vectors() {
    assert_eq!(scaled_uint8(0, 255, 255), 16);
    assert_eq!(scaled_uint8(0, 0, 33), 0);
    assert_eq!(scaled_uint8(0, 255, 50), 81);
    assert_eq!(scaled_uint8(255, 0, 50), 175);
}

#[test]
fn scaled_uint8_truncates_toward_zero_both_ways() {
    // 16 * 10 / 33 = 4.84 -> 4; the reverse is -4 -> 252.
    assert_eq!(scaled_uint8(0, 10, 33), 4);
    assert_eq!(scaled_uint8(10, 0, 33), 252);
}

#[test]
fn effect_disabled_type_yields_zeroed_device_bytes() {
    let e = effect(effect_type::DISABLED, vec![(255, 0, 0)], vec![]);
    let bytes = e.to_device_bytes();
    assert_eq!(bytes.len(), EFFECT_DEVICE_BYTES_LEN);
    assert!(bytes.iter().all(|&b| b == 0));
}

#[test]
fn breathe_single_color_device_bytes_match_hand_computation() {
    let e = effect(effect_type::BREATHE, vec![(255, 0, 0)], vec![0]);
    let bytes = e.to_device_bytes();
    assert_eq!(bytes.len(), EFFECT_DEVICE_BYTES_LEN);
    assert_eq!(&bytes[0..8], &[175, 0, 0, 0, 50, 0, 1, 0]);
    assert_eq!(&bytes[8..16], &[81, 0, 0, 0, 50, 0, 0, 0]);
    assert!(bytes[16..128].iter().all(|&b| b == 0));
    assert_eq!(&bytes[128..130], &(16u16 * 255).to_le_bytes());
    assert_eq!(&bytes[130..132], &0u16.to_le_bytes());
    assert_eq!(&bytes[132..134], &0u16.to_le_bytes());
    assert_eq!(&bytes[134..136], &[255, 0]);
    assert_eq!(&bytes[136..140], &[0, 0, 0, 0]);
    assert_eq!(&bytes[140..142], &[0, 0]);
    assert_eq!(&bytes[142..144], &[0, 0]);
    assert_eq!(&bytes[144..146], &[0, 0]);
    assert_eq!(&bytes[146..148], &2u16.to_le_bytes());
    assert_eq!(&bytes[148..150], &100u16.to_le_bytes());
    assert_eq!(bytes[150], 0);
}

#[test]
fn colorshift_two_color_device_bytes_match_hand_computation() {
    let e = effect(effect_type::COLORSHIFT, vec![(255, 0, 0), (0, 255, 0)], vec![0, 50]);
    let bytes = e.to_device_bytes();
    assert_eq!(&bytes[0..8], &[175, 81, 0, 0, 50, 0, 1, 0]);
    assert_eq!(&bytes[8..16], &[81, 175, 0, 0, 50, 0, 0, 0]);
    assert!(bytes[16..128].iter().all(|&b| b == 0));
    assert_eq!(&bytes[128..130], &(16u16 * 255).to_le_bytes());
    assert_eq!(&bytes[130..132], &0u16.to_le_bytes());
    assert_eq!(&bytes[132..134], &0u16.to_le_bytes());
    assert_eq!(&bytes[134..136], &[255, 0]);
    assert_eq!(&bytes[146..148], &2u16.to_le_bytes());
    assert_eq!(&bytes[148..150], &100u16.to_le_bytes());
}

#[test]
fn colorshift_with_padding_section_starts_at_color_zero() {
    // First position 20 adds a padding section: 3 sections for 2 colors.
    let e = effect(effect_type::COLORSHIFT, vec![(255, 0, 0), (0, 255, 0)], vec![20, 60]);
    let bytes = e.to_device_bytes();
    // Padding section: color 0 -> color 0 over 0..20% of 100 ticks = 20 -> 33.
    assert_eq!(&bytes[0..8], &[0, 0, 0, 0, 33, 0, 1, 0]);
    // Section 1: color 0 -> color 1 over 20..60% = 40 ticks.
    assert_eq!(&bytes[8..16], &[154, 102, 0, 0, 40, 0, 2, 0]);
    // Section 2 (last): color 1 -> color 0 over 60..100% = 40 ticks.
    assert_eq!(&bytes[16..24], &[102, 154, 0, 0, 40, 0, 0, 0]);
    assert_eq!(&bytes[146..148], &3u16.to_le_bytes());
    assert_eq!(&bytes[148..150], &113u16.to_le_bytes());
}

#[test]
fn effect_upload_frame_header_and_length() {
    let e = LightingEffect {
        effect_type: effect_type::COLORSHIFT,
        has_direction: true,
        direction_type: direction_type::RADIAL,
        direction_inverted: true,
        focal_x: 0,
        focal_y: 0,
        speed: 100,
        scale: 0,
        colors: vec![(255, 0, 0), (0, 255, 0)],
        positions: vec![0, 50],
    };
    let f = build_effect_upload_frame(7, &e);
    assert_eq!(f.len(), FEATURE_REPORT_LEN);
    assert_eq!(&f[0..7], &[0x00, 0x0C, 0x00, 0x0B, 0x00, 7, 0x00]);
    assert_eq!(&f[7..7 + EFFECT_DEVICE_BYTES_LEN], &e.to_device_bytes());
    assert!(f[7 + EFFECT_DEVICE_BYTES_LEN..].iter().all(|&b| b == 0));
}

#[test]
fn direction_scaling_depends_on_direction() {
    assert_eq!(direction_scaling_bytes(0, direction_type::HORIZONTAL), ([0, 0], [0, 0]));
    let (x, y) = direction_scaling_bytes(1, direction_type::HORIZONTAL);
    assert_eq!(y, [0, 0]);
    assert_ne!(x, [0, 0]);
    let (x, y) = direction_scaling_bytes(1, direction_type::VERTICAL);
    assert_eq!(x, [0, 0]);
    assert_ne!(y, [0, 0]);
}

#[test]
fn trailer_carries_counts_and_first_color() {
    let e = effect(effect_type::COLORSHIFT, vec![(1, 2, 3)], vec![0]);
    let payload = e.to_bytes();
    let t = effect_bytes_trailer(&payload, 5, 0x1_0203);
    assert_eq!(&t[0..6], &[16, 0, 32, 0, 48, 0]);
    assert_eq!(&t[18..20], &[5, 0]);
    assert_eq!(&t[20..22], &[0x03, 0x02]);
    assert_eq!(effect_color_byte(&payload, 0, 2), 3);
    assert_eq!(effect_position_byte(&payload, 0), 0);
}

#[test]
fn section_infos_past_the_count_are_zero() {
    let e = effect(effect_type::BREATHE, vec![(255, 0, 0)], vec![0]);
    let payload = e.to_bytes();
    let s = breathe_section_info(&payload, 5, 1, 100, false);
    assert_eq!(s.speed, 0);
    assert_eq!(s.bytes, [0; 8]);
    let c = colorshift_section_info(&payload, 3, 1, 100, false);
    assert_eq!(c.speed, 0);
    assert_eq!(c.bytes, [0; 8]);
}

#[test]
fn transformability_is_checked_exactly() {
    let good = effect(effect_type::BREATHE, vec![(1, 2, 3)], vec![0]);
    assert!(good.is_transformable());
    // Breathe with no colors but a padding section cannot be transformed.
    let bad = effect(effect_type::BREATHE, vec![], vec![10]);
    assert!(!bad.is_transformable());
    // Section 0 spans 0 -> 200 percent of 32768 ticks: 65536 ticks, whose
    // low 16 bits are zero.
    let mut zero = effect(effect_type::COLORSHIFT, vec![(1, 2, 3), (4, 5, 6)], vec![0, 200]);
    zero.speed = 32768;
    assert!(!zero.is_transformable());
    let too_many = effect(effect_type::COLORSHIFT, vec![(0, 0, 0); 15], vec![]);
    assert!(!too_many.is_transformable());
}

#[test]
fn percent_positions_always_transform() {
    for kind in [effect_type::COLORSHIFT, effect_type::BREATHE] {
        let mut e = effect(kind, vec![(9, 9, 9); 14], (0..14).map(|i| 100 - i).collect());
        e.speed = u16::MAX;
        assert!(e.is_transformable());
        let bytes = e.to_device_bytes();
        assert_eq!(bytes.len(), EFFECT_DEVICE_BYTES_LEN);
    }
}

#[test]
fn breathe_sections_fade_out_then_in() {
    let e = effect(effect_type::BREATHE, vec![(255, 0, 0), (0, 255, 0)], vec![0, 50]);
    let payload = e.to_bytes();
    // Section 0 fades color 0 out to black; section 1 fades in to color 1.
    let out = breathe_section_info(&payload, 0, 2, 100, false);
    assert_eq!(out.speed, 33);
    assert_eq!(out.bytes, [133, 0, 0, 0, 33, 0, 1, 0]);
    let inn = breathe_section_info(&payload, 1, 2, 100, false);
    assert_eq!(inn.bytes, [0, 123, 0, 0, 33, 0, 2, 0]);
    // Any color count the early sections can read is taken.
    assert_eq!(breathe_section_info(&payload, 0, 20, 100, false).bytes, out.bytes);
}

#[test]
fn colorshift_last_section_of_fifteen_ramps_back_to_the_first_color() {
    let e = effect(effect_type::COLORSHIFT, vec![(255, 0, 0)], vec![0]);
    let payload = e.to_bytes();
    // Fourteen colors plus the padding section: the last starts at
    // position 13 (here 0) and wraps to color 0.
    let s = colorshift_section_info(&payload, 14, 15, 100, true);
    assert_eq!(s.speed, 100);
    assert_eq!(s.bytes, [40, 0, 0, 0, 100, 0, 0, 0]);
}
