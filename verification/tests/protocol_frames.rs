use msi_klc::protocol::{
    build_commit, build_free_frame, build_group_frame, build_group_frame_elements,
    build_group_frame_reactive, build_layout_select, build_load_default, build_save_flash,
    build_set_all_live, build_set_default_color, build_vendor, cmd, settings_mask, KeyColor,
    KeyElement, FEATURE_REPORT_LEN, LAYOUT_REPORT_LEN, MAX_FREE_ENTRIES, MAX_GROUP_ENTRIES,
    OUTPUT_REPORT_LEN,
};

#[test]
fn group_frame_is_525_bytes() {
    let f = build_group_frame(&[41, 43, 53], 0x11, 0x22, 0x33);
    assert_eq!(f.len(), FEATURE_REPORT_LEN);
}

#[test]
fn group_frame_header_and_entries() {
    let hids = [41u8, 43, 53];
    let f = build_group_frame(&hids, 0x10, 0x20, 0x30);
    assert_eq!(f[0], 0x00);
    assert_eq!(f[1], cmd::SET_COLOR_GROUP);
    assert_eq!(f[3], hids.len() as u8);
    for (m, &hid) in hids.iter().enumerate() {
        let base = 5 + 12 * m;
        assert_eq!(f[base], 0x10);
        assert_eq!(f[base + 1], 0x20);
        assert_eq!(f[base + 2], 0x30);
        assert_eq!(f[base + 3], 0);
        assert_eq!(f[base + 4], 0);
        assert_eq!(f[base + 5], 0);
        assert_eq!(f[base + 6], 0x2C);
        assert_eq!(f[base + 7], 1);
        assert_eq!(f[base + 8], 0);
        assert_eq!(f[base + 9], 1);
        assert_eq!(f[base + 10], 0);
        assert_eq!(f[base + 11], hid);
    }
}

#[test]
fn group_frame_all_black_zeroes_rgb_but_keeps_footer() {
    let f = build_group_frame(&[7], 0, 0, 0);
    assert_eq!(&f[5..17], &[0, 0, 0, 0, 0, 0, 0x2C, 1, 0, 1, 0, 7]);
}

fn legacy_group_frame(hids: &[u8], r: u8, g: u8, b: u8) -> [u8; FEATURE_REPORT_LEN] {
    let mut buf = [0u8; FEATURE_REPORT_LEN];
    buf[1] = cmd::SET_COLOR_GROUP;
    buf[3] = hids.len() as u8;
    for (m, &hid) in hids.iter().enumerate() {
        let base = 5 + 12 * m;
        buf[base] = r;
        buf[base + 1] = g;
        buf[base + 2] = b;
        buf[base + 6] = 0x2C;
        buf[base + 7] = 1;
        buf[base + 9] = 1;
        buf[base + 11] = hid;
    }
    buf
}

#[test]
fn all_key_off_byte_identical_to_legacy_encoding() {
    let hids = [41u8, 43, 53, 7];
    for &(r, g, b) in &[(0xFFu8, 0x00u8, 0x00u8), (0, 0, 0), (0x11, 0x22, 0x33)] {
        assert_eq!(
            build_group_frame(&hids, r, g, b),
            legacy_group_frame(&hids, r, g, b),
            "new KeyElement-based encoding must be byte-identical to the legacy one"
        );
    }
}

#[test]
fn steady_group_frame_matches_legacy_encoding_for_a_full_group() {
    let hids: Vec<u8> = (0..MAX_GROUP_ENTRIES as u8).map(|x| x.wrapping_mul(5)).collect();
    assert_eq!(build_group_frame(&hids, 1, 2, 3), legacy_group_frame(&hids, 1, 2, 3));
}

#[test]
fn reactive_group_frame_sets_reactive_mask_and_le_fade_time() {
    let hids = [41u8, 43];
    let base = (0x10, 0x20, 0x30);
    let hit = (0xAA, 0xBB, 0xCC);
    let fade_ms: u16 = 0x0142;
    let f = build_group_frame_reactive(&hids, base, hit, fade_ms);
    assert_eq!(f[1], cmd::SET_COLOR_GROUP);
    assert_eq!(f[3], hids.len() as u8);
    for (m, &hid) in hids.iter().enumerate() {
        let base_off = 5 + 12 * m;
        assert_eq!(&f[base_off..base_off + 3], &[0x10, 0x20, 0x30]);
        assert_eq!(&f[base_off + 3..base_off + 6], &[0xAA, 0xBB, 0xCC]);
        assert_eq!(f[base_off + 6], 0x42);
        assert_eq!(f[base_off + 7], 0x01);
        assert_eq!(f[base_off + 8], 0);
        assert_eq!(f[base_off + 9], settings_mask::REACTIVE);
        assert_eq!(f[base_off + 10], 0);
        assert_eq!(f[base_off + 11], hid);
    }
}

#[test]
fn free_frame_is_525_bytes_and_packs_entries() {
    let entries = [KeyColor::new(4, 255, 0, 0), KeyColor::new(5, 0, 255, 0)];
    let f = build_free_frame(&entries);
    assert_eq!(f.len(), FEATURE_REPORT_LEN);
    assert_eq!(f[1], cmd::SET_COLOR_FREE);
    assert_eq!(f[3], 2);
    assert_eq!(&f[5..9], &[4, 255, 0, 0]);
    assert_eq!(&f[9..13], &[5, 0, 255, 0]);
}

#[test]
fn free_frame_holds_a_full_report_of_entries() {
    let entries: Vec<KeyColor> =
        (0..MAX_FREE_ENTRIES).map(|i| KeyColor::new(i as u8, 1, 2, 3)).collect();
    let f = build_free_frame(&entries);
    assert_eq!(f[3], MAX_FREE_ENTRIES as u8);
    let last = 5 + 4 * (MAX_FREE_ENTRIES - 1);
    assert_eq!(&f[last..last + 4], &[(MAX_FREE_ENTRIES - 1) as u8, 1, 2, 3]);
}

#[test]
fn commit_frame_matches_reference() {
    let f = build_commit();
    assert_eq!(f.len(), OUTPUT_REPORT_LEN);
    assert_eq!(&f[0..4], &[0x00, 0x0D, 0x00, 0x02]);
    assert!(f[4..].iter().all(|&b| b == 0));
}

#[test]
fn vendor_frame_is_unpadded() {
    let f = build_vendor(0x86, &[]);
    assert_eq!(f, vec![0x00, 0x86]);
    let f2 = build_set_all_live(0xAA, 0xBB, 0xCC);
    assert_eq!(f2, vec![0x00, 0x50, 0x00, 0xAA, 0xBB, 0xCC]);
    let f3 = build_set_default_color(1, 2, 3);
    assert_eq!(f3, vec![0x00, 0x51, 0x00, 1, 2, 3]);
    assert_eq!(build_load_default(), vec![0x00, 0x40]);
    assert_eq!(build_save_flash(), vec![0x00, 0x09]);
}

#[test]
fn vendor_frame_carries_its_params() {
    assert_eq!(build_vendor(0x22, &[1, 2, 3]), vec![0x00, 0x22, 1, 2, 3]);
}

#[test]
fn layout_select_frame_bytes() {
    let f = build_layout_select(2);
    assert_eq!(f.len(), LAYOUT_REPORT_LEN);
    assert_eq!(&f[0..6], &[0x00, 0x0B, 0x00, cmd::SET_MODE, 0x00, 2]);
    assert!(f[6..].iter().all(|&b| b == 0));
}

#[test]
fn key_element_bytes_follow_the_wire_layout() {
    let e = KeyElement {
        init: [1, 2, 3],
        react: [4, 5, 6],
        react_time_ms: 0x0708,
        effect_index: 9,
        settings_mask: 10,
        lockmask: 11,
        hid: 12,
    };
    assert_eq!(e.to_bytes(), [1, 2, 3, 4, 5, 6, 0x08, 0x07, 9, 10, 11, 12]);
    let f = build_group_frame_elements(&[e]);
    assert_eq!(&f[5..17], &e.to_bytes());
    assert_eq!(f[3], 1);
}

#[test]
fn steady_and_reactive_elements() {
    let s = KeyElement::steady(7, 1, 2, 3);
    assert_eq!(s.init, [1, 2, 3]);
    assert_eq!(s.react_time_ms, 0x012C);
    assert_eq!(s.settings_mask, settings_mask::STEADY);
    let r = KeyElement::reactive(7, (1, 2, 3), (4, 5, 6), 300);
    assert_eq!(r.react, [4, 5, 6]);
    assert_eq!(r.settings_mask, settings_mask::REACTIVE);
    assert_eq!(r.react_time_ms, 300);
}
