use minesweeper::camera::{CameraController, CameraRect, PanDirection};

/// The two bounds `n1/d1` and `n2/d2` are the same rational.
fn rat_eq(n1: i64, d1: i64, n2: i64, d2: i64) -> bool {
    (n1 as i128) * (d2 as i128) == (n2 as i128) * (d1 as i128)
}

fn rect_eq(a: &CameraRect, b: &CameraRect) -> bool {
    rat_eq(a.left_num, a.den, b.left_num, b.den)
        && rat_eq(a.right_num, a.den, b.right_num, b.den)
        && rat_eq(a.bottom_num, a.den, b.bottom_num, b.den)
        && rat_eq(a.top_num, a.den, b.top_num, b.den)
}

#[test]
fn initial_view_is_the_padded_unit_square() {
    let c = CameraController::new(800, 800);
    // [-0.2, 1.2] x [-0.2, 1.2]
    assert!(rat_eq(c.rect.left_num, c.rect.den, -1, 5));
    assert!(rat_eq(c.rect.right_num, c.rect.den, 6, 5));
    assert!(rat_eq(c.rect.bottom_num, c.rect.den, -1, 5));
    assert!(rat_eq(c.rect.top_num, c.rect.den, 6, 5));
}

#[test]
fn reset_restores_the_unit_square() {
    let mut c = CameraController::new(800, 800);
    assert!(c.zoom(true));
    c.reset();
    assert_eq!(c.rect.left_num, 0);
    assert_eq!(c.rect.right_num, 1);
    assert_eq!(c.rect.bottom_num, 0);
    assert_eq!(c.rect.top_num, 1);
    assert_eq!(c.rect.den, 1);
}

#[test]
fn resize_to_a_wider_window_preserves_the_center() {
    // the camera-resize scenario: (-0.2, 1.2, 1.2, -0.2), aspect goes up
    let mut c = CameraController::new(800, 800);
    let before = c.rect;
    assert!(c.resize(1600, 800));
    let after = c.rect;
    // left and right moved
    assert!(!rat_eq(after.left_num, after.den, before.left_num, before.den));
    assert!(!rat_eq(after.right_num, after.den, before.right_num, before.den));
    // but the center (left + right) / 2 stayed at exactly 0.5
    assert!(rat_eq(
        after.left_num + after.right_num,
        2 * after.den,
        before.left_num + before.right_num,
        2 * before.den,
    ));
    // and the world height was kept
    assert!(rat_eq(
        after.top_num - after.bottom_num,
        after.den,
        before.top_num - before.bottom_num,
        before.den,
    ));
    // the new width follows the new aspect ratio: width == 2 * height
    assert!(rat_eq(
        after.right_num - after.left_num,
        after.den,
        2 * (after.top_num - after.bottom_num),
        after.den,
    ));
}

#[test]
fn resize_to_a_narrower_window_keeps_the_width() {
    let mut c = CameraController::new(800, 800);
    let before = c.rect;
    assert!(c.resize(800, 1600));
    let after = c.rect;
    assert!(rat_eq(
        after.right_num - after.left_num,
        after.den,
        before.right_num - before.left_num,
        before.den,
    ));
    assert!(rat_eq(
        after.bottom_num + after.top_num,
        2 * after.den,
        before.bottom_num + before.top_num,
        2 * before.den,
    ));
}

#[test]
fn resize_ignores_zero_dimensions() {
    let mut c = CameraController::new(800, 800);
    let before = c.rect;
    assert!(!c.resize(0, 500));
    assert!(!c.resize(500, 0));
    assert_eq!(c.rect, before);
    assert_eq!(c.win_width, 800);
}

#[test]
fn zoom_in_scales_by_eleven_tenths_around_the_center() {
    let mut c = CameraController::new(800, 800);
    assert!(c.zoom(true));
    // [-0.2, 1.2] has center 0.5 and extent 1.4; one zoom gives [-0.27, 1.27]
    assert!(rat_eq(c.rect.left_num, c.rect.den, -27, 100));
    assert!(rat_eq(c.rect.right_num, c.rect.den, 127, 100));
}

#[test]
fn zoom_round_trip_returns_the_exact_bounds() {
    // the zoom-in-then-out scenario, three steps each way
    let mut c = CameraController::new(800, 800);
    let before = c.rect;
    for _ in 0..3 {
        assert!(c.zoom(true));
    }
    for _ in 0..3 {
        assert!(c.zoom(false));
    }
    assert!(rect_eq(&c.rect, &before));

    let mut c2 = CameraController::new(800, 800);
    for _ in 0..2 {
        assert!(c2.zoom(false));
    }
    for _ in 0..2 {
        assert!(c2.zoom(true));
    }
    assert!(rect_eq(&c2.rect, &before));
}

#[test]
fn pan_shifts_by_the_perpendicular_extent_per_second() {
    let mut c = CameraController::new(800, 800);
    c.reset();
    // one full second: the shift is exactly one vertical extent (1.0)
    assert!(c.pan(PanDirection::Right, 1_000_000_000));
    assert!(rat_eq(c.rect.left_num, c.rect.den, 1, 1));
    assert!(rat_eq(c.rect.right_num, c.rect.den, 2, 1));
    assert!(rat_eq(c.rect.bottom_num, c.rect.den, 0, 1));
    assert!(rat_eq(c.rect.top_num, c.rect.den, 1, 1));
    // and back
    assert!(c.pan(PanDirection::Left, 1_000_000_000));
    assert!(rat_eq(c.rect.left_num, c.rect.den, 0, 1));
    assert!(rat_eq(c.rect.right_num, c.rect.den, 1, 1));
}

#[test]
fn pan_up_uses_the_horizontal_extent() {
    let mut c = CameraController::new(800, 800);
    c.reset();
    assert!(c.pan(PanDirection::Up, 500_000_000));
    // half a second of a width-1 view: the vertical bounds rise by one half,
    // rounded down at the pan resolution of one millionth
    assert_eq!(c.rect.den, 1_000_001);
    assert_eq!(c.rect.bottom_num, 500_000);
    assert_eq!(c.rect.top_num, 1_500_001);
    assert!(rat_eq(c.rect.left_num, c.rect.den, 0, 1));
}
