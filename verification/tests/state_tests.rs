use msi_klc::state::{brightness_arg, BrightnessArg, BrightnessError, Frame, State, DEFAULT_BRIGHTNESS};

fn absolute(s: &str) -> Result<u8, BrightnessError> {
    match brightness_arg(s) {
        Ok(BrightnessArg::Absolute(v)) => Ok(v),
        Ok(BrightnessArg::Percent(p)) => panic!("unexpected percentage {p:?}"),
        Err(e) => Err(e),
    }
}

fn percent_text(s: &str) -> String {
    match brightness_arg(s) {
        Ok(BrightnessArg::Percent(p)) => p,
        Ok(BrightnessArg::Absolute(v)) => panic!("unexpected absolute {v}"),
        Err(e) => panic!("unexpected error {e:?}"),
    }
}

#[test]
fn absolute_brightness_values() {
    assert_eq!(absolute("0"), Ok(0));
    assert_eq!(absolute("128"), Ok(128));
    assert_eq!(absolute("255"), Ok(255));
    assert_eq!(absolute("  +7 "), Ok(7));
    assert_eq!(absolute("0007"), Ok(7));
}

#[test]
fn absolute_brightness_errors_by_kind() {
    assert_eq!(absolute("256"), Err(BrightnessError::NumberOutOfRange(256)));
    assert_eq!(absolute("4294967295"), Err(BrightnessError::NumberOutOfRange(4294967295)));
    assert_eq!(absolute("4294967296"), Err(BrightnessError::InvalidNumber));
    assert_eq!(absolute("-1"), Err(BrightnessError::InvalidNumber));
    assert_eq!(absolute("nope"), Err(BrightnessError::InvalidNumber));
    assert_eq!(absolute(""), Err(BrightnessError::InvalidNumber));
    assert_eq!(absolute("+"), Err(BrightnessError::InvalidNumber));
    assert_eq!(absolute("1 2"), Err(BrightnessError::InvalidNumber));
    assert_eq!(absolute("inf"), Err(BrightnessError::InvalidNumber));
}

#[test]
fn percentages_keep_their_number_text() {
    assert_eq!(percent_text("50%"), "50");
    assert_eq!(percent_text("\t50 %\n"), "50");
    assert_eq!(percent_text(" 0.5 % "), "0.5");
    assert_eq!(percent_text("101%"), "101");
    assert_eq!(percent_text("%"), "");
    assert_eq!(percent_text("abc%"), "abc");
    assert_eq!(percent_text("1e2%"), "1e2");
    assert_eq!(percent_text("50%%"), "50%");
}

#[test]
fn state_default_is_full_brightness_no_frame() {
    let d = State::default();
    assert_eq!(d.brightness, 255);
    assert_eq!(d.frame, None);
}

#[test]
fn default_brightness_constant() {
    assert_eq!(DEFAULT_BRIGHTNESS, 255);
    let s = State { brightness: 10, frame: Some(Frame::Off) };
    assert_eq!(s.clone(), s);
}
