use msi_klc::command::{
    command_to_frame, default_positions, device_query, parse_hex_byte, parse_vid_pid, rgb_arr,
    rgb_tuple, validate_command, Command, CommandError, DeviceQuery,
};
use msi_klc::layout::{ColorError, KeyCode, Keymap, Layout, LayoutError};
use msi_klc::state::Frame;
use msi_klc::{Direction, EffectMode};

fn layout() -> Layout {
    Layout::new(
        vec![Keymap {
            name: "GE73Keys".to_string(),
            keys: vec![
                KeyCode { name: "CLK_A".to_string(), hid: 4 },
                KeyCode { name: "CLK_Esc".to_string(), hid: 41 },
            ],
        }],
        vec![],
    )
    .unwrap()
}

fn strings(v: &[&str]) -> Vec<String> {
    v.iter().map(|s| s.to_string()).collect()
}

fn effect(mode: EffectMode, colors: &[&str], positions: Vec<u8>) -> Command {
    Command::Effect {
        mode,
        colors: strings(colors),
        speed: 100,
        dir: Some(Direction::V),
        slot: 2,
        positions,
    }
}

#[test]
fn all_and_off_frames() {
    let l = layout();
    let all = Command::All { color: "#102030".to_string() };
    assert_eq!(command_to_frame(&all, &l, "GE73Keys"), Ok(Frame::All { color: [0x10, 0x20, 0x30] }));
    assert_eq!(command_to_frame(&Command::Off, &l, "GE73Keys"), Ok(Frame::Off));
    let bad = Command::All { color: "10203".to_string() };
    assert_eq!(
        command_to_frame(&bad, &l, "GE73Keys"),
        Err(CommandError::Color(ColorError::WrongLength))
    );
}

#[test]
fn key_frame_resolves_names_and_literals_in_order() {
    let l = layout();
    let c = Command::Key { pairs: strings(&["CLK_A=FF0000", "0x29=00ff00", "7=0000FF"]) };
    assert_eq!(
        command_to_frame(&c, &l, "GE73Keys"),
        Ok(Frame::Keys { pairs: vec![(4, [255, 0, 0]), (41, [0, 255, 0]), (7, [0, 0, 255])] })
    );
}

#[test]
fn key_frame_first_error_wins() {
    let l = layout();
    let missing = Command::Key { pairs: strings(&["CLK_A=FF0000", "CLK_A"]) };
    assert_eq!(command_to_frame(&missing, &l, "GE73Keys"), Err(CommandError::MissingEquals));
    let unknown = Command::Key { pairs: strings(&["CLK_Q=FF0000", "x"]) };
    assert_eq!(
        command_to_frame(&unknown, &l, "GE73Keys"),
        Err(CommandError::Layout(LayoutError::UnknownKey))
    );
    let keymap = Command::Key { pairs: strings(&["CLK_A=FF0000"]) };
    assert_eq!(
        command_to_frame(&keymap, &l, "Nope"),
        Err(CommandError::Layout(LayoutError::UnknownKeymap))
    );
    let color = Command::Key { pairs: strings(&["CLK_A=FFG000"]) };
    assert_eq!(
        command_to_frame(&color, &l, "GE73Keys"),
        Err(CommandError::Color(ColorError::InvalidGreen))
    );
    // The split is at the first '=': the color keeps the rest.
    let two = Command::Key { pairs: strings(&["CLK_A==FF00FF"]) };
    assert_eq!(
        command_to_frame(&two, &l, "GE73Keys"),
        Err(CommandError::Color(ColorError::WrongLength))
    );
}

#[test]
fn reactive_frame() {
    let l = layout();
    let c = Command::Reactive { base: "010203".to_string(), hit: "#0A0B0C".to_string(), fade: 300 };
    assert_eq!(
        command_to_frame(&c, &l, "k"),
        Ok(Frame::Reactive { base: [1, 2, 3], hit: [10, 11, 12], fade: 300 })
    );
    let bad = Command::Reactive { base: "010203".to_string(), hit: "xx".to_string(), fade: 1 };
    assert_eq!(command_to_frame(&bad, &l, "k"), Err(CommandError::Color(ColorError::WrongLength)));
}

#[test]
fn effect_frame_defaults_positions_evenly() {
    let l = layout();
    let c = effect(EffectMode::Breathe, &["FF0000", "00FF00", "0000FF"], vec![]);
    assert_eq!(
        command_to_frame(&c, &l, "k"),
        Ok(Frame::Effect {
            mode: EffectMode::Breathe,
            colors: vec![[255, 0, 0], [0, 255, 0], [0, 0, 255]],
            speed: 100,
            dir: Some(Direction::V),
            slot: 2,
            positions: vec![0, 33, 66],
        })
    );
    let given = effect(EffectMode::Wave, &["FF0000"], vec![10]);
    match command_to_frame(&given, &l, "k") {
        Ok(Frame::Effect { positions, .. }) => assert_eq!(positions, vec![10]),
        other => panic!("unexpected {other:?}"),
    }
}

#[test]
fn effect_off_frame_ignores_its_colors() {
    let l = layout();
    let c = effect(EffectMode::Off, &["ZZZZZZ", "zz"], vec![]);
    assert_eq!(validate_command(&c, &l, "k"), Ok(()));
    assert_eq!(
        command_to_frame(&c, &l, "k"),
        Ok(Frame::Effect {
            mode: EffectMode::Off,
            colors: vec![],
            speed: 100,
            dir: Some(Direction::V),
            slot: 2,
            positions: vec![],
        })
    );
    let with_positions = effect(EffectMode::Off, &["FF0000"], vec![5, 200]);
    match command_to_frame(&with_positions, &l, "k") {
        Ok(Frame::Effect { mode, colors, positions, .. }) => {
            assert_eq!(mode, EffectMode::Off);
            assert!(colors.is_empty());
            assert_eq!(positions, vec![5, 200]);
        }
        other => panic!("unexpected {other:?}"),
    }
}

#[test]
fn validation_of_effect_arguments() {
    let l = layout();
    assert_eq!(
        validate_command(&effect(EffectMode::Breathe, &[], vec![]), &l, "k"),
        Err(CommandError::EffectNeedsColor)
    );
    let fifteen = vec!["FFFFFF"; 15];
    assert_eq!(
        validate_command(&effect(EffectMode::Colorshift, &fifteen, vec![]), &l, "k"),
        Err(CommandError::TooManyColors(15))
    );
    assert_eq!(
        validate_command(&effect(EffectMode::Wave, &["FFFFFF", "000000"], vec![0]), &l, "k"),
        Err(CommandError::PositionCountMismatch(1, 2))
    );
    assert_eq!(
        validate_command(&effect(EffectMode::Wave, &["FFFFFF", "000000"], vec![0, 101]), &l, "k"),
        Err(CommandError::PositionOutOfRange(101))
    );
    assert_eq!(
        validate_command(&effect(EffectMode::Wave, &["FFFFFF", "00000g"], vec![]), &l, "k"),
        Err(CommandError::Color(ColorError::InvalidBlue))
    );
    assert_eq!(
        validate_command(&effect(EffectMode::Wave, &["FFFFFF", "000000"], vec![0, 100]), &l, "k"),
        Ok(())
    );
}

#[test]
fn validation_of_other_commands() {
    let l = layout();
    assert_eq!(validate_command(&Command::Models, &l, "k"), Ok(()));
    assert_eq!(validate_command(&Command::Info, &l, "k"), Ok(()));
    assert_eq!(
        validate_command(&Command::Recover { color: "FFFFFF".to_string() }, &l, "k"),
        Ok(())
    );
    assert_eq!(
        validate_command(
            &Command::Persist { color: "FFFFF".to_string(), i_understand_flash_risk: true },
            &l,
            "k"
        ),
        Err(CommandError::Color(ColorError::WrongLength))
    );
    assert_eq!(
        validate_command(&Command::Key { pairs: strings(&["CLK_A=010203"]) }, &l, "GE73Keys"),
        Ok(())
    );
    assert_eq!(
        validate_command(&Command::Key { pairs: strings(&["CLK_A"]) }, &l, "GE73Keys"),
        Err(CommandError::MissingEquals)
    );
    assert_eq!(
        validate_command(&Command::Query { bytes: strings(&["zz"]) }, &l, "k"),
        Ok(())
    );
}

#[test]
fn validated_frame_commands_build_their_frames() {
    let l = layout();
    let cmds = vec![
        Command::All { color: "123456".to_string() },
        Command::Off,
        Command::Key { pairs: strings(&["CLK_Esc=ABCDEF"]) },
        Command::Reactive { base: "000000".to_string(), hit: "FFFFFF".to_string(), fade: 5 },
        effect(EffectMode::Colorshift, &["FF0000", "00FF00"], vec![]),
        effect(EffectMode::Off, &["not a color"], vec![]),
    ];
    for c in &cmds {
        assert_eq!(validate_command(c, &l, "GE73Keys"), Ok(()));
        assert!(command_to_frame(c, &l, "GE73Keys").is_ok());
    }
}

#[test]
fn non_ascii_colors_are_errors() {
    let l = layout();
    // Six bytes, but byte 2 is inside the 'é': not a hex digit.
    let bad = Command::All { color: "a\u{e9}123".to_string() };
    assert_eq!(
        command_to_frame(&bad, &l, "k"),
        Err(CommandError::Color(ColorError::InvalidRed))
    );
    assert_eq!(validate_command(&bad, &l, "k"), Err(CommandError::Color(ColorError::InvalidRed)));
    let late = Command::All { color: "ab1\u{e9}2".to_string() };
    assert_eq!(
        command_to_frame(&late, &l, "k"),
        Err(CommandError::Color(ColorError::InvalidGreen))
    );
    let key = Command::Key { pairs: strings(&["CLK_A=abcd\u{e9}"]) };
    assert_eq!(
        command_to_frame(&key, &l, "GE73Keys"),
        Err(CommandError::Color(ColorError::InvalidBlue))
    );
    // A key that fails to resolve is the error before its color.
    let unknown = Command::Key { pairs: strings(&["CLK_Q=a\u{e9}123"]) };
    assert_eq!(
        command_to_frame(&unknown, &l, "GE73Keys"),
        Err(CommandError::Layout(LayoutError::UnknownKey))
    );
}

#[test]
fn default_positions_are_even() {
    assert_eq!(default_positions(0), Vec::<u8>::new());
    assert_eq!(default_positions(1), vec![0]);
    assert_eq!(default_positions(4), vec![0, 25, 50, 75]);
    assert_eq!(default_positions(14)[13], 92);
}

#[test]
fn rgb_conversions() {
    assert_eq!(rgb_arr((1, 2, 3)), [1, 2, 3]);
    assert_eq!(rgb_tuple([4, 5, 6]), (4, 5, 6));
}

#[test]
fn direction_bytes() {
    assert_eq!(Direction::H.to_device(), 0);
    assert_eq!(Direction::V.to_device(), 1);
    assert_eq!(Direction::Radial.to_device(), 2);
}

#[test]
fn vid_pid_parsing() {
    assert_eq!(parse_vid_pid("1038:113a"), Ok((0x1038, 0x113a)));
    assert_eq!(parse_vid_pid("0x1038:0X113A"), Ok((0x1038, 0x113a)));
    assert_eq!(parse_vid_pid("1038"), Err(CommandError::MissingColon));
    assert_eq!(parse_vid_pid("10385:113a"), Err(CommandError::InvalidVid));
    assert_eq!(parse_vid_pid("1038:"), Err(CommandError::InvalidPid));
    assert_eq!(parse_vid_pid("1038:1:2"), Err(CommandError::InvalidPid));
}

#[test]
fn hex_byte_parsing() {
    assert_eq!(parse_hex_byte("86"), Ok(0x86));
    assert_eq!(parse_hex_byte("0x0b"), Ok(0x0b));
    assert_eq!(parse_hex_byte("0X0x0b"), Err(CommandError::InvalidHexByte));
    assert_eq!(parse_hex_byte("0x0X0b"), Ok(0x0b));
    assert_eq!(parse_hex_byte("100"), Err(CommandError::InvalidHexByte));
    assert_eq!(parse_hex_byte(""), Err(CommandError::InvalidHexByte));
}

#[test]
fn device_query_decisions() {
    assert_eq!(device_query(true, None), Ok(DeviceQuery::Path(None)));
    assert_eq!(device_query(false, None), Ok(DeviceQuery::FindKnown));
    assert_eq!(device_query(true, Some("1038:113a")), Ok(DeviceQuery::Path(Some((0x1038, 0x113a)))));
    assert_eq!(device_query(false, Some("1038:113a")), Ok(DeviceQuery::Find(0x1038, 0x113a)));
    assert_eq!(device_query(false, Some("1038")), Err(CommandError::MissingColon));
}
