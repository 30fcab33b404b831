use crosshair::{CommandError, DisplaySize, OffsetLimits};

#[test]
fn odd_display_center_uses_floor() {
    let display = DisplaySize::new(3, 5).unwrap();
    assert_eq!(display.center(), (1, 2));
    assert_eq!(display.position(0, 0), Some((1, 2)));
}

#[test]
fn zero_sized_displays_are_refused() {
    assert_eq!(DisplaySize::new(0, 5), Err(CommandError::InvalidDisplay));
    assert_eq!(DisplaySize::new(5, 0), Err(CommandError::InvalidDisplay));
}

#[test]
fn offsets_inside_and_outside() {
    let display = DisplaySize::new(1920, 1080).unwrap();
    assert!(display.contains_offset(-960, -540));
    assert!(display.contains_offset(959, 539));
    assert!(!display.contains_offset(960, 0));
    assert!(!display.contains_offset(-961, 0));
    assert!(!display.contains_offset(i32::MAX, 0));
    assert_eq!(display.position(959, 539), Some((1919, 1079)));
    assert_eq!(display.position(0, 540), None);
}

#[test]
fn offset_limits_match_contains_offset() {
    let display = DisplaySize::new(1920, 1081).unwrap();
    let limits = display.offset_limits();
    assert_eq!(
        limits,
        OffsetLimits {
            min_x: -960,
            max_x: 959,
            min_y: -540,
            max_y: 540
        }
    );
    for (x, y) in [(-960, -540), (959, 540), (-961, 0), (960, 0), (0, 541), (0, -541)] {
        let inside = limits.min_x <= x && x <= limits.max_x && limits.min_y <= y && y <= limits.max_y;
        assert_eq!(display.contains_offset(x, y), inside);
    }
}

#[test]
fn huge_display_holds_no_position() {
    let display = DisplaySize::new(u32::MAX, 10).unwrap();
    assert!(!display.contains_offset(0, 0));
}
