use msi_klc::reply::{
    device_id_from_reply, fw_crc_from_reply, hexdump, mode_brightness_from_reply, uid_hex,
};

#[test]
fn hexdump_pads_and_separates() {
    assert_eq!(hexdump(&[0x00, 0x0d, 0xff]), "00 0d ff");
    assert_eq!(hexdump(&[]), "");
    assert_eq!(hexdump(&[0xa5]), "a5");
}

#[test]
fn uid_skips_the_report_id() {
    assert_eq!(uid_hex(&[0x80, 0x01, 0xab]), "01ab");
    assert_eq!(uid_hex(&[0x80]), "");
    assert_eq!(uid_hex(&[]), "");
}

#[test]
fn reply_decoders() {
    assert_eq!(device_id_from_reply(&[0x10, 0x12, 0x34, 0x99]), Some(0x1234));
    assert_eq!(device_id_from_reply(&[0x10, 0x12]), None);
    assert_eq!(fw_crc_from_reply(&[0x15, 0x78, 0x56, 0x34, 0x12]), Some(0x1234_5678));
    assert_eq!(fw_crc_from_reply(&[0x15, 0x78, 0x56, 0x34]), None);
    assert_eq!(mode_brightness_from_reply(&[0x86, 2, 200]), Some((2, 200)));
    assert_eq!(mode_brightness_from_reply(&[0x86, 2]), None);
}
