use msi_klc::layout::{
    hid_to_u8, parse_hex_color, parse_hid_literal, ColorError, KeyCode, Keymap, Layout,
    LayoutError, RegionGroup,
};

fn keymap(name: &str, keys: &[(&str, u32)]) -> Keymap {
    Keymap {
        name: name.to_string(),
        keys: keys.iter().map(|&(n, h)| KeyCode { name: n.to_string(), hid: h }).collect(),
    }
}

fn group(name: &str, hids: &[u32]) -> RegionGroup {
    RegionGroup { name: name.to_string(), hids: hids.to_vec() }
}

fn sample_layout() -> Layout {
    Layout::new(
        vec![
            keymap("GE73Keys", &[("CLK_A", 4), ("CLK_B", 5), ("CLK_Big", 300)]),
            keymap("Other", &[("CLK_A", 9)]),
        ],
        vec![
            group("Group1_Offset", &[4, 5]),
            group("Group2_Offset", &[6]),
            group("Group3_Offset", &[]),
            group("Group4_Offset", &[7, 8, 9]),
            group("Group5_Offset", &[10]),
            group("Group6_Offset", &[11]),
        ],
    )
    .unwrap()
}

#[test]
fn parses_hex_colors() {
    assert_eq!(parse_hex_color("FF00AA").unwrap(), (0xFF, 0x00, 0xAA));
    assert_eq!(parse_hex_color("#00ff00").unwrap(), (0, 0xFF, 0));
    assert!(parse_hex_color("nope").is_err());
}

#[test]
fn hex_color_errors_name_the_failing_part() {
    assert_eq!(parse_hex_color("12345"), Err(ColorError::WrongLength));
    assert_eq!(parse_hex_color("##123456"), Err(ColorError::WrongLength));
    assert_eq!(parse_hex_color("zz0000"), Err(ColorError::InvalidRed));
    assert_eq!(parse_hex_color("00zz00"), Err(ColorError::InvalidGreen));
    assert_eq!(parse_hex_color("0000zz"), Err(ColorError::InvalidBlue));
    assert_eq!(parse_hex_color("+f+f+f"), Err(ColorError::InvalidRed));
    assert_eq!(parse_hex_color("ff+f00"), Err(ColorError::InvalidGreen));
    assert_eq!(parse_hex_color("ffff-0"), Err(ColorError::InvalidBlue));
    assert_eq!(parse_hex_color(" fffff"), Err(ColorError::InvalidRed));
    // Six bytes, one of them inside a two-byte character: an error, no panic.
    assert_eq!(parse_hex_color("a\u{e9}123"), Err(ColorError::InvalidRed));
    assert_eq!(parse_hex_color("#abcd\u{e9}"), Err(ColorError::InvalidBlue));
    assert_eq!(parse_hex_color("\u{e9}\u{e9}\u{e9}"), Err(ColorError::InvalidRed));
}

#[test]
fn hash_prefix_is_optional() {
    assert_eq!(parse_hex_color("#0a0B0c"), parse_hex_color("0a0B0c"));
}

#[test]
fn resolves_symbolic_and_literal_keys() {
    let l = sample_layout();
    assert_eq!(l.resolve_key("GE73Keys", "CLK_A").unwrap(), 4);
    assert_eq!(l.resolve_key("GE73Keys", "41").unwrap(), 41);
    assert_eq!(l.resolve_key("GE73Keys", "0x29").unwrap(), 41);
    assert!(l.resolve_key("GE73Keys", "CLK_Nonexistent").is_err());
}

#[test]
fn resolve_key_errors() {
    let l = sample_layout();
    assert_eq!(l.resolve_key("Missing", "CLK_A"), Err(LayoutError::UnknownKeymap));
    assert_eq!(l.resolve_key("GE73Keys", "CLK_Z"), Err(LayoutError::UnknownKey));
    assert_eq!(l.resolve_key("GE73Keys", "CLK_Big"), Err(LayoutError::HidOutOfRange(300)));
    assert_eq!(l.resolve_key("Other", "CLK_A"), Ok(9));
    // A literal resolves whatever the keymap, even an unknown one.
    assert_eq!(l.resolve_key("Missing", "0X2a"), Ok(42));
}

#[test]
fn hid_literals() {
    assert_eq!(parse_hid_literal("41"), Some(41));
    assert_eq!(parse_hid_literal("0x29"), Some(41));
    assert_eq!(parse_hid_literal("0xff"), Some(255));
    assert_eq!(parse_hid_literal("256"), None);
    assert_eq!(parse_hid_literal("+4"), None);
    assert_eq!(parse_hid_literal("0x"), None);
    assert_eq!(parse_hid_literal(""), None);
    assert_eq!(hid_to_u8(255), Ok(255));
    assert_eq!(hid_to_u8(256), Err(LayoutError::HidOutOfRange(256)));
}

#[test]
fn groups_come_in_offset_order() {
    let l = sample_layout();
    let g = l.groups().unwrap();
    assert_eq!(g[0], vec![4, 5]);
    assert_eq!(g[2], Vec::<u8>::new());
    assert_eq!(g[3], vec![7, 8, 9]);
    assert_eq!(g[5], vec![11]);
}

#[test]
fn groups_report_missing_and_out_of_range() {
    let missing = Layout::new(vec![], vec![group("Group1_Offset", &[1])]).unwrap();
    assert_eq!(missing.groups(), Err(LayoutError::MissingGroup(2)));
    let mut bad = sample_layout();
    bad.region_groups[4].hids.push(999);
    assert_eq!(bad.groups(), Err(LayoutError::HidOutOfRange(999)));
}

#[test]
fn keymap_names_in_order() {
    let l = sample_layout();
    assert_eq!(l.keymap_names(), vec!["GE73Keys", "Other"]);
}

#[test]
fn hex_colors_take_exactly_six_hex_digits() {
    assert_eq!(parse_hex_color("0a1B2c"), Ok((0x0a, 0x1b, 0x2c)));
    assert_eq!(parse_hex_color("#FFFFFF"), Ok((255, 255, 255)));
    assert_eq!(parse_hex_color("#000000"), Ok((0, 0, 0)));
    assert_eq!(parse_hex_color("g00000"), Err(ColorError::InvalidRed));
    assert_eq!(parse_hex_color("1234567"), Err(ColorError::WrongLength));
    assert_eq!(parse_hex_color(""), Err(ColorError::WrongLength));
    assert_eq!(parse_hex_color("#"), Err(ColorError::WrongLength));
}

#[test]
fn layouts_refuse_repeated_names() {
    let twice = Layout::new(vec![keymap("K", &[]), keymap("K", &[])], vec![]);
    assert!(twice.is_none());
    let keys_twice = Layout::new(vec![keymap("K", &[("CLK_A", 4), ("CLK_A", 5)])], vec![]);
    assert!(keys_twice.is_none());
    let groups_twice =
        Layout::new(vec![], vec![group("Group1_Offset", &[1]), group("Group1_Offset", &[2])]);
    assert!(groups_twice.is_none());
    let fine = Layout::new(vec![keymap("K", &[("CLK_A", 4)]), keymap("L", &[("CLK_A", 5)])], vec![]);
    assert!(fine.is_some());
}

#[test]
fn unique_names_resolve_wherever_they_stand() {
    let l = Layout::new(
        vec![
            keymap("First", &[("CLK_A", 1)]),
            keymap("Second", &[("CLK_B", 2), ("CLK_C", 3)]),
        ],
        vec![],
    )
    .unwrap();
    assert_eq!(l.resolve_key("Second", "CLK_C"), Ok(3));
    assert_eq!(l.resolve_key("First", "CLK_A"), Ok(1));
}
