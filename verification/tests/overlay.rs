use crosshair::{
    frame_action, refresh_displays, select_output, CrosshairState, DisplaySize, FrameAction,
    Length, OverlayRequest, RuntimeState,
};

#[test]
fn refresh_without_displays_selects_the_first() {
    let mut state = RuntimeState::default();
    state.display_index = 4;
    let mut last = None;
    let refresh = refresh_displays(&mut state, &vec![], &mut last);
    assert_eq!(state.display_index, 0);
    assert_eq!(refresh.message, Some(String::from("No usable display found")));
    assert!(!refresh.save);
    assert_eq!(last, None);
}

#[test]
fn refresh_switches_from_a_missing_display() {
    let mut state = RuntimeState::default();
    state.display_index = 2;
    let size = DisplaySize::new(800, 600).unwrap();
    let mut last = Some(size);
    let refresh = refresh_displays(&mut state, &vec![size], &mut last);
    assert_eq!(state.display_index, 0);
    assert_eq!(
        refresh.message,
        Some(String::from("Display 2 is unavailable; switched to display 0"))
    );
    assert!(refresh.save);
}

#[test]
fn refresh_resets_an_offset_off_a_new_display() {
    let mut state = RuntimeState::default();
    state.crosshair.offset_x = 500;
    let small = DisplaySize::new(800, 600).unwrap();
    let mut last = None;
    let refresh = refresh_displays(&mut state, &vec![small], &mut last);
    assert_eq!((state.crosshair.offset_x, state.crosshair.offset_y), (0, 0));
    assert_eq!(
        refresh.message,
        Some(String::from("Display changed; offset reset to (0, 0)"))
    );
    assert!(refresh.save);
    assert_eq!(last, Some(small));

    state.crosshair.offset_x = 500;
    let refresh = refresh_displays(&mut state, &vec![small], &mut last);
    assert_eq!(state.crosshair.offset_x, 500);
    assert_eq!(refresh.message, None);
    assert!(!refresh.save);
}

#[test]
fn overlay_request_counts_changes() {
    let mut request = OverlayRequest::new();
    assert_eq!(request.generation, 0);
    request.update(CrosshairState::default(), 0, None);
    assert_eq!(request.generation, 0);
    let mut crosshair = CrosshairState::default();
    crosshair.size = Length::from_bits(7.0f32.to_bits());
    request.update(crosshair, 0, None);
    assert_eq!(request.generation, 1);
    request.update(crosshair, 0, Some(String::from("DP-1")));
    assert_eq!(request.generation, 2);
    request.update(crosshair, 0, Some(String::from("DP-1")));
    assert_eq!(request.generation, 2);
    request.generation = u64::MAX;
    request.update(CrosshairState::default(), 1, None);
    assert_eq!(request.generation, 0);
    assert_eq!(request.display_index, 1);
}

#[test]
fn negative_zero_length_is_the_same_request() {
    let mut request = OverlayRequest::new();
    let mut crosshair = CrosshairState::default();
    crosshair.size = Length::from_bits(0.0f32.to_bits());
    request.update(crosshair, 0, None);
    assert_eq!(request.generation, 1);
    crosshair.size = Length::from_bits((-0.0f32).to_bits());
    request.update(crosshair, 0, None);
    assert_eq!(request.generation, 1);
}

#[test]
fn frame_actions() {
    let mut request = OverlayRequest::new();
    request.display_index = 1;
    request.generation = 5;
    assert_eq!(frame_action(&request, 0, 5), FrameAction::Recreate);
    assert_eq!(frame_action(&request, 1, 4), FrameAction::Draw);
    assert_eq!(frame_action(&request, 1, 5), FrameAction::Wait);
}

#[test]
fn outputs_by_name_then_index() {
    let names = vec![Some(String::from("HDMI-1")), None, Some(String::from("DP-2"))];
    assert_eq!(select_output(&names, Some("DP-2"), 0), Some(2));
    assert_eq!(select_output(&names, Some("DP-9"), 1), Some(1));
    assert_eq!(select_output(&names, None, 3), None);
    assert_eq!(select_output(&names, None, 0), Some(0));
}
