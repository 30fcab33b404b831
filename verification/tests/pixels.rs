use crosshair::{layered, shm};

#[test]
fn layered_blend_rounds_to_nearest() {
    let mut pixel = [0u8, 0, 0, 0];
    layered::blend(&mut pixel, [255, 128, 0], 255);
    assert_eq!(pixel, [255, 128, 0, 255]);

    let mut pixel = [100u8, 200, 50, 128];
    layered::blend(&mut pixel, [0, 0, 0], 0);
    assert_eq!(pixel, [100, 200, 50, 128]);

    let mut pixel = [0u8, 255, 10, 0];
    layered::blend(&mut pixel, [255, 0, 10], 128);
    // (255*128 + 0*127 + 127) / 255 = 128; (0 + 255*127 + 127) / 255 = 127
    assert_eq!(pixel, [128, 127, 10, 128]);
}

#[test]
fn shm_blend_premultiplies() {
    let mut pixel = [0u8, 0, 0, 0, 9];
    shm::blend(&mut pixel, [255, 0, 0, 255]);
    assert_eq!(pixel, [0, 0, 255, 255, 9]);

    let mut pixel = [1u8, 2, 3, 4];
    shm::blend(&mut pixel, [255, 255, 255, 0]);
    assert_eq!(pixel, [1, 2, 3, 4]);

    let mut pixel = [255u8, 255, 255, 255];
    shm::blend(&mut pixel, [255, 255, 255, 128]);
    // 128 + (255*127 + 127) / 255 = 128 + 127 = 255
    assert_eq!(pixel, [255, 255, 255, 255]);

    let mut pixel = [0u8, 0, 0, 0];
    shm::blend(&mut pixel, [10, 20, 30, 128]);
    // premultiplied: (10*128+127)/255 = 5, (20*128+127)/255 = 10, (30*128+127)/255 = 15
    assert_eq!(pixel, [15, 10, 5, 128]);
}

#[test]
fn wide_strings_end_with_nul() {
    assert_eq!(crosshair::wide("Ab"), vec![65, 98, 0]);
    assert_eq!(crosshair::wide("\u{1F600}"), vec![0xD83D, 0xDE00, 0]);
    assert_eq!(crosshair::wide(""), vec![0]);
}

#[test]
fn window_origin_centers_on_the_crosshair() {
    let display = crosshair::DisplaySize::new(1920, 1080).unwrap();
    assert_eq!(
        layered::window_origin((100, -50), display, (-30, 5), 21, 21),
        (100 + 960 - 30 - 10, -50 + 540 + 5 - 10)
    );
    assert_eq!(
        layered::window_origin((i32::MAX, i32::MIN), display, (0, 0), 1, 1),
        (i32::MAX, i32::MIN + 540)
    );
    assert_eq!(layered::window_origin((0, 0), display, (0, 0), -3, 4), (961, 538));
}
