use msi_klc::daemon::{
    daemon_step, uleds_brightness, uleds_user_dev, DaemonAction, UledsRead, LED_MAX_NAME_SIZE,
};

#[test]
fn uleds_values_are_clamped() {
    assert_eq!(uleds_brightness(-5), 0);
    assert_eq!(uleds_brightness(128), 128);
    assert_eq!(uleds_brightness(1000), 255);
}

#[test]
fn daemon_decisions() {
    assert_eq!(daemon_step(UledsRead::Value(300)), DaemonAction::Apply(255));
    assert_eq!(daemon_step(UledsRead::Value(7)), DaemonAction::Apply(7));
    assert_eq!(daemon_step(UledsRead::Eof), DaemonAction::Exit);
    assert_eq!(daemon_step(UledsRead::Short(2)), DaemonAction::Continue);
    assert_eq!(daemon_step(UledsRead::Interrupted { terminate: true }), DaemonAction::Exit);
    assert_eq!(daemon_step(UledsRead::Interrupted { terminate: false }), DaemonAction::Continue);
    assert_eq!(daemon_step(UledsRead::Failed), DaemonAction::Fail);
}

#[test]
fn uleds_record_layout() {
    let rec = uleds_user_dev(b"msiklc::kbd_backlight", 255u32.to_le_bytes()).unwrap();
    assert_eq!(&rec[..21], b"msiklc::kbd_backlight");
    assert!(rec[21..64].iter().all(|&b| b == 0));
    assert_eq!(&rec[64..], &[255, 0, 0, 0]);
    assert!(uleds_user_dev(&[b'a'; LED_MAX_NAME_SIZE], [0; 4]).is_none());
    assert!(uleds_user_dev(&[b'a'; LED_MAX_NAME_SIZE - 1], [0; 4]).is_some());
}
