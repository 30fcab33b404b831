use crosshair::{length_texts, Color, CommandError, DisplaySize, Length, RuntimeState};

fn display() -> DisplaySize {
    DisplaySize::new(1920, 1080).unwrap()
}

fn lengths_of(line: &str) -> Vec<Option<Length>> {
    length_texts(line)
        .iter()
        .map(|text| text.parse::<f32>().ok().map(|value| Length::from_bits(value.to_bits())))
        .collect()
}

fn apply(state: &mut RuntimeState, line: &str) -> Result<String, CommandError> {
    state.apply(line, display(), &lengths_of(line))
}

fn number(length: Length) -> f32 {
    f32::from_bits(length.bits)
}

#[test]
fn defaults_are_centered_yellow_dot() {
    let state = RuntimeState::default();
    assert!(state.crosshair.visible);
    assert_eq!(state.crosshair.color, Color::yellow());
    assert!(state.crosshair.dot);
    assert_eq!(state.position(display()), Some((960, 540)));
}

#[test]
fn commands_update_state() {
    let mut state = RuntimeState::default();
    apply(&mut state, "cl_crosshairsize 8").unwrap();
    apply(&mut state, "cl_crosshaircolor #00ff80").unwrap();
    apply(&mut state, "cl_crosshairdot 0").unwrap();
    apply(&mut state, "crosshair_offset -30 0").unwrap();
    assert_eq!(number(state.crosshair.size), 8.0);
    assert_eq!(
        state.crosshair.color,
        Color {
            red: 0,
            green: 255,
            blue: 128
        }
    );
    assert!(!state.crosshair.dot);
    assert_eq!(state.position(display()), Some((930, 540)));
}

#[test]
fn invalid_commands_preserve_state() {
    let mut state = RuntimeState::default();
    let before = state.clone();
    assert!(apply(&mut state, "cl_crosshairsize -1").is_err());
    assert!(apply(&mut state, "crosshair_offset -961 0").is_err());
    assert_eq!(state, before);
}

#[test]
fn default_lengths_are_five_two_one_one() {
    let state = RuntimeState::default();
    assert_eq!(number(state.crosshair.size), 5.0);
    assert_eq!(number(state.crosshair.gap), 2.0);
    assert_eq!(number(state.crosshair.thickness), 1.0);
    assert_eq!(number(state.crosshair.outline_thickness), 1.0);
    assert_eq!(state.crosshair.alpha, 255);
    assert!(!state.crosshair.draw_outline);
    assert_eq!(state.display_index, 0);
}

#[test]
fn apply_answers_ok() {
    let mut state = RuntimeState::default();
    assert_eq!(apply(&mut state, "crosshair_hide"), Ok(String::from("ok")));
    assert!(!state.crosshair.visible);
}

#[test]
fn every_setting_command_sets_its_field() {
    let mut state = RuntimeState::default();
    apply(&mut state, "cl_crosshairgap 3.5").unwrap();
    apply(&mut state, "cl_crosshairthickness 2").unwrap();
    apply(&mut state, "cl_crosshair_outlinethickness 0.5").unwrap();
    apply(&mut state, "cl_crosshairalpha 128").unwrap();
    apply(&mut state, "cl_crosshair_drawoutline 1").unwrap();
    apply(&mut state, "cl_crosshairdot false").unwrap();
    apply(&mut state, "cl_crosshairdot true").unwrap();
    apply(&mut state, "cl_crosshaircolor Magenta").unwrap();
    apply(&mut state, "crosshair_offset 10 -20").unwrap();
    assert_eq!(number(state.crosshair.gap), 3.5);
    assert_eq!(number(state.crosshair.thickness), 2.0);
    assert_eq!(number(state.crosshair.outline_thickness), 0.5);
    assert_eq!(state.crosshair.alpha, 128);
    assert!(state.crosshair.draw_outline);
    assert!(state.crosshair.dot);
    assert_eq!(state.crosshair.color, Color { red: 255, green: 0, blue: 255 });
    assert_eq!((state.crosshair.offset_x, state.crosshair.offset_y), (10, -20));
}

#[test]
fn toggle_twice_restores_visibility() {
    let mut state = RuntimeState::default();
    let before = state.clone();
    apply(&mut state, "crosshair_toggle").unwrap();
    assert!(!state.crosshair.visible);
    apply(&mut state, "crosshair_toggle").unwrap();
    assert_eq!(state, before);
}

#[test]
fn show_hide_and_reset() {
    let mut state = RuntimeState::default();
    state.display_index = 3;
    apply(&mut state, "crosshair_hide").unwrap();
    apply(&mut state, "crosshair_hide").unwrap();
    assert!(!state.crosshair.visible);
    apply(&mut state, "crosshair_show").unwrap();
    assert!(state.crosshair.visible);
    apply(&mut state, "cl_crosshairsize 30").unwrap();
    apply(&mut state, "crosshair_offset 5 5").unwrap();
    apply(&mut state, "crosshair_reset").unwrap();
    let mut expected = RuntimeState::default();
    expected.display_index = 3;
    assert_eq!(state, expected);
}

#[test]
fn errors_name_what_is_wrong() {
    let mut state = RuntimeState::default();
    assert_eq!(apply(&mut state, "   "), Err(CommandError::Empty));
    assert_eq!(
        apply(&mut state, "cl_nothing 1"),
        Err(CommandError::UnknownCommand(String::from("cl_nothing")))
    );
    assert_eq!(
        apply(&mut state, "cl_crosshairsize"),
        Err(CommandError::MissingArgument("size"))
    );
    assert_eq!(
        apply(&mut state, "cl_crosshairsize 1 2"),
        Err(CommandError::WrongArgumentCount)
    );
    assert_eq!(
        apply(&mut state, "cl_crosshairsize abc 2"),
        Err(CommandError::InvalidValue("size"))
    );
    assert_eq!(
        apply(&mut state, "cl_crosshairgap inf"),
        Err(CommandError::InvalidValue("gap"))
    );
    assert_eq!(
        apply(&mut state, "cl_crosshairalpha 256"),
        Err(CommandError::InvalidValue("alpha"))
    );
    assert_eq!(
        apply(&mut state, "cl_crosshairdot 2"),
        Err(CommandError::InvalidValue("boolean"))
    );
    assert_eq!(
        apply(&mut state, "crosshair_offset x 1"),
        Err(CommandError::InvalidValue("x"))
    );
    assert_eq!(
        apply(&mut state, "crosshair_offset 1"),
        Err(CommandError::MissingArgument("y"))
    );
    assert_eq!(
        apply(&mut state, "crosshair_offset 1 y"),
        Err(CommandError::InvalidValue("y"))
    );
    assert_eq!(
        apply(&mut state, "crosshair_offset 960 0"),
        Err(CommandError::OffsetOutsideDisplay)
    );
    assert_eq!(
        apply(&mut state, "crosshair_show now"),
        Err(CommandError::WrongArgumentCount)
    );
    assert_eq!(
        apply(&mut state, "cl_crosshaircolor #12345g"),
        Err(CommandError::InvalidValue("color"))
    );
    assert_eq!(state, RuntimeState::default());
}

#[test]
fn error_messages() {
    assert_eq!(CommandError::Empty.message(), "command is empty");
    assert_eq!(
        CommandError::UnknownCommand(String::from("foo")).message(),
        "unknown command: foo"
    );
    assert_eq!(
        CommandError::MissingArgument("x").message(),
        "missing argument: x"
    );
    assert_eq!(CommandError::WrongArgumentCount.message(), "wrong argument count");
    assert_eq!(
        CommandError::InvalidValue("alpha").message(),
        "invalid value: alpha"
    );
    assert_eq!(
        CommandError::InvalidDisplay.message(),
        "display dimensions must be non-zero"
    );
    assert_eq!(
        CommandError::OffsetOutsideDisplay.message(),
        "offset places the crosshair outside the display"
    );
}

#[test]
fn words_split_at_any_white_space() {
    let mut state = RuntimeState::default();
    apply(&mut state, "\tcl_crosshairalpha\u{3000} 7 \n").unwrap();
    assert_eq!(state.crosshair.alpha, 7);
    apply(&mut state, "crosshair_offset\u{a0}+4 -0").unwrap();
    assert_eq!((state.crosshair.offset_x, state.crosshair.offset_y), (4, 0));
}

#[test]
fn integers_read_as_from_str_reads_them() {
    let mut state = RuntimeState::default();
    apply(&mut state, "cl_crosshairalpha 0007").unwrap();
    assert_eq!(state.crosshair.alpha, 7);
    assert!(apply(&mut state, "cl_crosshairalpha -0").is_err());
    assert!(apply(&mut state, "cl_crosshairalpha +").is_err());
    apply(&mut state, "cl_crosshairalpha +9").unwrap();
    assert_eq!(state.crosshair.alpha, 9);
    assert!(apply(&mut state, "crosshair_offset 2147483648 0").is_err());
    assert!(apply(&mut state, "crosshair_offset 2147483647 0").is_err());
}

#[test]
fn named_and_hex_colors() {
    let mut state = RuntimeState::default();
    for (name, color) in [
        ("black", Color { red: 0, green: 0, blue: 0 }),
        ("BLUE", Color { red: 0, green: 0, blue: 255 }),
        ("Cyan", Color { red: 0, green: 255, blue: 255 }),
        ("green", Color { red: 0, green: 255, blue: 0 }),
        ("red", Color { red: 255, green: 0, blue: 0 }),
        ("white", Color { red: 255, green: 255, blue: 255 }),
        ("yellow", Color { red: 255, green: 255, blue: 0 }),
        ("AbCdEf", Color { red: 0xab, green: 0xcd, blue: 0xef }),
        ("#0a0B0c", Color { red: 10, green: 11, blue: 12 }),
    ] {
        apply(&mut state, &format!("cl_crosshaircolor {name}")).unwrap();
        assert_eq!(state.crosshair.color, color, "{name}");
    }
    assert!(apply(&mut state, "cl_crosshaircolor ##000000").is_err());
    assert!(apply(&mut state, "cl_crosshaircolor #00000").is_err());
    assert!(apply(&mut state, "cl_crosshaircolor orange").is_err());
}

#[test]
fn negative_zero_size_is_accepted() {
    let mut state = RuntimeState::default();
    apply(&mut state, "cl_crosshairsize -0").unwrap();
    assert_eq!(number(state.crosshair.size), 0.0);
    assert!(apply(&mut state, "cl_crosshairsize NaN").is_err());
    assert!(apply(&mut state, "cl_crosshairthickness -0.5").is_err());
}

#[test]
fn status_describes_the_state() {
    let mut state = RuntimeState::default();
    apply(&mut state, "cl_crosshaircolor #0a00ff").unwrap();
    apply(&mut state, "crosshair_offset -30 2").unwrap();
    let texts = crosshair::LengthTexts {
        size: format!("{}", number(state.crosshair.size)),
        gap: format!("{}", number(state.crosshair.gap)),
        thickness: format!("{}", number(state.crosshair.thickness)),
        outline_thickness: format!("{}", number(state.crosshair.outline_thickness)),
    };
    assert_eq!(
        state.status(display(), &texts),
        "visible=true display=0 position=Some((930, 542)) size=5 gap=2 thickness=1 color=#0a00ff alpha=255 dot=true outline=false outline_thickness=1"
    );
    state.crosshair.offset_x = 5000;
    assert!(state.status(display(), &texts).contains("position=None"));
}

#[test]
fn length_texts_name_the_length_words() {
    assert_eq!(length_texts("cl_crosshairgap  -1.5"), vec![String::from("-1.5")]);
    assert_eq!(length_texts("cl_crosshairalpha 3"), Vec::<String>::new());
    assert_eq!(length_texts("cl_crosshairsize"), Vec::<String>::new());
    assert_eq!(
        length_texts("cl_crosshairsize 2; cl_crosshairalpha 3;cl_crosshairthickness x y;;"),
        vec![String::from("2"), String::from("x")]
    );
}

#[test]
fn semicolons_separate_commands() {
    let mut state = RuntimeState::default();
    apply(
        &mut state,
        "cl_crosshairsize 3; cl_crosshairgap -1;cl_crosshairthickness 0.5 ; crosshair_hide;",
    )
    .unwrap();
    assert_eq!(number(state.crosshair.size), 3.0);
    assert_eq!(number(state.crosshair.gap), -1.0);
    assert_eq!(number(state.crosshair.thickness), 0.5);
    assert!(!state.crosshair.visible);
    assert_eq!(apply(&mut state, ";"), Err(CommandError::Empty));
    assert_eq!(apply(&mut state, " ; ;"), Err(CommandError::Empty));
    apply(&mut state, ";;crosshair_show;;").unwrap();
    assert!(state.crosshair.visible);
}

#[test]
fn a_refused_command_refuses_the_whole_line() {
    let mut state = RuntimeState::default();
    let before = state.clone();
    assert_eq!(
        apply(&mut state, "cl_crosshairsize 9; cl_crosshairalpha 300; crosshair_hide"),
        Err(CommandError::InvalidValue("alpha"))
    );
    assert_eq!(
        apply(&mut state, "crosshair_hide; cl_crosshairstyle 4"),
        Err(CommandError::UnknownCommand(String::from("cl_crosshairstyle")))
    );
    assert_eq!(
        apply(&mut state, "crosshair_offset 10 10; crosshair_offset 2000 0"),
        Err(CommandError::OffsetOutsideDisplay)
    );
    assert_eq!(state, before);
}

#[test]
fn later_commands_see_earlier_ones() {
    let mut state = RuntimeState::default();
    apply(&mut state, "crosshair_toggle; crosshair_toggle; crosshair_toggle").unwrap();
    assert!(!state.crosshair.visible);
    apply(&mut state, "cl_crosshairsize 7; crosshair_reset").unwrap();
    assert_eq!(state, RuntimeState::default());
}

#[test]
fn color_channels_are_set_one_by_one() {
    let mut state = RuntimeState::default();
    apply(&mut state, "cl_crosshaircolor_r 10").unwrap();
    assert_eq!(state.crosshair.color, Color { red: 10, green: 255, blue: 0 });
    apply(&mut state, "cl_crosshaircolor_g 20; cl_crosshaircolor_b 30").unwrap();
    assert_eq!(state.crosshair.color, Color { red: 10, green: 20, blue: 30 });
    assert_eq!(
        apply(&mut state, "cl_crosshaircolor_b 256"),
        Err(CommandError::InvalidValue("blue"))
    );
    assert_eq!(
        apply(&mut state, "cl_crosshaircolor_g"),
        Err(CommandError::MissingArgument("green"))
    );
    assert_eq!(
        apply(&mut state, "cl_crosshaircolor_r -1"),
        Err(CommandError::InvalidValue("red"))
    );
    assert_eq!(
        apply(&mut state, "cl_crosshaircolor_r 1 2"),
        Err(CommandError::WrongArgumentCount)
    );
}

#[test]
fn booleans_take_numbers_and_words() {
    let mut state = RuntimeState::default();
    apply(&mut state, "cl_crosshairdot false; cl_crosshair_drawoutline true").unwrap();
    assert!(!state.crosshair.dot);
    assert!(state.crosshair.draw_outline);
    apply(&mut state, "cl_crosshairdot 1; cl_crosshair_drawoutline 0").unwrap();
    assert!(state.crosshair.dot);
    assert!(!state.crosshair.draw_outline);
    assert_eq!(
        apply(&mut state, "cl_crosshairdot True"),
        Err(CommandError::InvalidValue("boolean"))
    );
}

#[test]
fn only_the_gap_may_be_negative() {
    let mut state = RuntimeState::default();
    apply(&mut state, "cl_crosshairgap -3.25").unwrap();
    assert_eq!(number(state.crosshair.gap), -3.25);
    assert_eq!(
        apply(&mut state, "cl_crosshairsize -1"),
        Err(CommandError::InvalidValue("size"))
    );
    assert_eq!(
        apply(&mut state, "cl_crosshair_outlinethickness -1"),
        Err(CommandError::InvalidValue("outline_thickness"))
    );
    assert_eq!(
        apply(&mut state, "cl_crosshairgap -inf"),
        Err(CommandError::InvalidValue("gap"))
    );
}

#[test]
fn missing_length_readings_count_as_unreadable() {
    let mut state = RuntimeState::default();
    assert_eq!(
        state.apply("cl_crosshairsize 4", display(), &Vec::new()),
        Err(CommandError::InvalidValue("size"))
    );
    assert_eq!(state, RuntimeState::default());
}

#[test]
fn a_joined_line_applies_as_its_parts_in_turn() {
    let first = "cl_crosshairsize 3; crosshair_offset 5 5";
    let second = "cl_crosshairgap -1; crosshair_toggle";
    let mut joined = RuntimeState::default();
    apply(&mut joined, &format!("{first};{second}")).unwrap();
    let mut in_turn = RuntimeState::default();
    apply(&mut in_turn, first).unwrap();
    apply(&mut in_turn, second).unwrap();
    assert_eq!(joined, in_turn);
    assert_eq!(
        length_texts(&format!("{first};{second}")),
        [length_texts(first), length_texts(second)].concat()
    );
}
