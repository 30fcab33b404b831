use crosshair::{AppConfig, Color, Length, LengthTexts, RuntimeState};

fn read(text: &str) -> AppConfig {
    let lengths: Vec<Option<Length>> = AppConfig::length_texts(text)
        .iter()
        .map(|value| value.parse::<f32>().ok().map(|v| Length::from_bits(v.to_bits())))
        .collect();
    AppConfig::from_text(text, &lengths)
}

fn texts(state: &RuntimeState) -> LengthTexts {
    let write = |length: Length| format!("{}", f32::from_bits(length.bits));
    LengthTexts {
        size: write(state.crosshair.size),
        gap: write(state.crosshair.gap),
        thickness: write(state.crosshair.thickness),
        outline_thickness: write(state.crosshair.outline_thickness),
    }
}

fn length(value: f32) -> Length {
    Length::from_bits(value.to_bits())
}

#[test]
fn config_round_trips_current_state() {
    let mut state = RuntimeState::default();
    state.display_index = 2;
    state.crosshair.size = length(8.0);
    state.crosshair.offset_x = -30;
    state.crosshair.color = Color {
        red: 12,
        green: 34,
        blue: 56,
    };
    state.crosshair.visible = false;

    let text = AppConfig {
        state: state.clone(),
    }
    .text(&texts(&state));
    assert_eq!(read(&text).state, state);
}

#[test]
fn invalid_config_values_keep_defaults() {
    let config = read("size=-1\nalpha=999\ndot=maybe\noffset_x=nope\n");
    assert_eq!(config.state, RuntimeState::default());
}

#[test]
fn active_profile_round_trips_only_valid_names() {
    assert_eq!(
        AppConfig::active_profile("active_profile=Competitive\n"),
        Some(String::from("Competitive"))
    );
    assert_eq!(AppConfig::active_profile("active_profile=../config\n"), None);
}

#[test]
fn config_text_lists_every_field() {
    let state = RuntimeState::default();
    let text = AppConfig { state }.text(&texts(&state));
    assert_eq!(
        text,
        "size=5\ngap=2\nthickness=1\noutline_thickness=1\nred=255\ngreen=255\nblue=0\nalpha=255\ndot=1\ndraw_outline=0\nvisible=1\noffset_x=0\noffset_y=0\ndisplay_index=0\n"
    );
}

#[test]
fn saved_text_names_the_active_profile() {
    let mut state = RuntimeState::default();
    state.crosshair.gap = length(-3.25);
    state.crosshair.offset_y = i32::MIN;
    state.display_index = usize::MAX;
    let config = AppConfig { state };
    let text = config.saved_text(&texts(&state), Some("Competitive-2"));
    assert!(text.ends_with("active_profile=Competitive-2\n"));
    assert_eq!(AppConfig::active_profile(&text), Some(String::from("Competitive-2")));
    assert_eq!(read(&text).state, state);
    assert_eq!(config.saved_text(&texts(&state), None), config.text(&texts(&state)));
}

#[test]
fn later_lines_win_and_bad_lines_are_skipped() {
    let config = read("alpha=10\nnonsense\nalpha=20\r\nalpha=x\nunknown=5\ngap=-4.5\ngap=inf\nsize=3\nsize=-3\ndisplay_index=7\n");
    assert_eq!(config.state.crosshair.alpha, 20);
    assert_eq!(f32::from_bits(config.state.crosshair.gap.bits), -4.5);
    assert_eq!(f32::from_bits(config.state.crosshair.size.bits), 3.0);
    assert_eq!(config.state.display_index, 7);
}

#[test]
fn first_valid_active_profile_is_taken() {
    assert_eq!(
        AppConfig::active_profile("active_profile=a b\nactive_profile=\nactive_profile=ok_1\nactive_profile=late\n"),
        Some(String::from("ok_1"))
    );
    assert_eq!(AppConfig::active_profile("size=1\n"), None);
    assert_eq!(AppConfig::active_profile("active_profile=x\r\n"), Some(String::from("x")));
}

#[test]
fn length_texts_in_order() {
    assert_eq!(
        AppConfig::length_texts("gap=1\nred=3\nsize=abc\noutline_thickness=2\nthickness\n"),
        vec![String::from("1"), String::from("abc"), String::from("2")]
    );
}

#[test]
fn config_default_is_runtime_default() {
    assert_eq!(AppConfig::default().state, RuntimeState::default());
}
