use msi_klc::models::{
    find_model, msi_pids, name_order, parse_coord_hid, parse_usb_id, CoordHidError, UsbIdError,
};

#[test]
fn usb_ids() {
    assert_eq!(parse_usb_id("1038:113a"), Ok((0x1038, 0x113a)));
    assert_eq!(parse_usb_id("1038113a"), Err(UsbIdError::MissingColon));
    assert_eq!(parse_usb_id("0x1038:113a"), Err(UsbIdError::InvalidVid));
    assert_eq!(parse_usb_id("1038:1g3a"), Err(UsbIdError::InvalidPid));
}

#[test]
fn msi_pids_in_table_order() {
    let ids = [(0x1038, 0x113a), (0x1234, 0x0001), (0x1038, 0x1122)];
    assert_eq!(msi_pids(&ids), vec![0x113a, 0x1122]);
    assert!(msi_pids(&[]).is_empty());
}

#[test]
fn find_model_by_exact_id() {
    let ids = [(0x1038, 0x113a), (0x1234, 0x113a), (0x1038, 0x113a)];
    assert_eq!(find_model(&ids, 0x1038, 0x113a), Some(0));
    assert_eq!(find_model(&ids, 0x1234, 0x113a), Some(1));
    assert_eq!(find_model(&ids, 0x1038, 0xffff), None);
}

#[test]
fn coordinate_hids() {
    assert_eq!(parse_coord_hid("41"), Ok(41));
    assert_eq!(parse_coord_hid("+7"), Ok(7));
    assert_eq!(parse_coord_hid("300"), Err(CoordHidError::OutOfRange(300)));
    assert_eq!(parse_coord_hid("x1"), Err(CoordHidError::NotNumeric));
    assert_eq!(parse_coord_hid("-1"), Err(CoordHidError::NotNumeric));
}

fn names(v: &[&str]) -> Vec<String> {
    v.iter().map(|s| s.to_string()).collect()
}

#[test]
fn models_order_by_name() {
    assert_eq!(name_order(&names(&["GS66", "GE73", "GT76"])), vec![1, 0, 2]);
    assert_eq!(name_order(&names(&[])), Vec::<usize>::new());
    // Byte order: upper case before lower case, a prefix before its extensions.
    assert_eq!(name_order(&names(&["b", "B", "ab", "a"])), vec![1, 3, 2, 0]);
    // Equal names keep their order.
    assert_eq!(name_order(&names(&["x", "a", "x", "a"])), vec![1, 3, 0, 2]);
    // The same order as sorting the strings.
    let v = names(&["\u{e9}t\u{e9}", "ete", "\u{10000}", "zz", ""]);
    let mut sorted = v.clone();
    sorted.sort();
    let ordered: Vec<String> = name_order(&v).into_iter().map(|i| v[i].clone()).collect();
    assert_eq!(ordered, sorted);
}
