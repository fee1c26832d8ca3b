use msi_klc::device::{hid_id_matches, parse_hid_id, VID_MSI};

#[test]
fn parses_hid_id_uevent_line() {
    let uevent = "DRIVER=hid-generic\nHID_ID=0003:00001038:0000113A\nHID_NAME=foo\n";
    assert_eq!(parse_hid_id(uevent), Some((0x1038, 0x113a)));
}

#[test]
fn missing_hid_id_returns_none() {
    assert_eq!(parse_hid_id("DRIVER=hid-generic\n"), None);
}

#[test]
fn hid_id_needs_three_fields_of_hex() {
    assert_eq!(parse_hid_id("HID_ID=0003:00001038\n"), None);
    assert_eq!(parse_hid_id("HID_ID=0003:0000XYZ8:0000113A"), None);
    assert_eq!(parse_hid_id("HID_ID=0003:00001038:0000113A"), Some((0x1038, 0x113a)));
}

#[test]
fn device_matching_by_vid_and_pids() {
    assert_eq!(VID_MSI, 0x1038);
    assert!(hid_id_matches(0x1038, 0x113a, 0x1038, Some(&[0x1122, 0x113a])));
    assert!(!hid_id_matches(0x1038, 0x113a, 0x1038, Some(&[0x1122])));
    assert!(hid_id_matches(0x1038, 0x0001, 0x1038, None));
    assert!(!hid_id_matches(0x1039, 0x113a, 0x1038, None));
}
