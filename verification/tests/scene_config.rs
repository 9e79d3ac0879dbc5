use eidos::surface::far_floor_corner;
use eidos::{EidosError, Scene};

#[test]
fn scene_new_rejects_odd_dimensions() {
    // H.264 requires even dimensions — Scene::new must catch this before ffmpeg
    let result = Scene::new(641, 480, 30);
    assert!(result.is_err(), "odd width should return Err");

    let result = Scene::new(640, 481, 30);
    assert!(result.is_err(), "odd height should return Err");
}

#[test]
fn scene_new_rejects_zero_fps() {
    let result = Scene::new(640, 480, 0);
    assert!(result.is_err(), "fps=0 should return Err");
}

#[test]
fn scene_new_accepts_even_dimensions_and_keeps_them() {
    let scene = Scene::new(640, 480, 24).unwrap();
    assert_eq!(scene.width(), 640);
    assert_eq!(scene.height(), 480);
    assert_eq!(scene.fps(), 24);
}

#[test]
fn scene_new_reports_the_first_problem() {
    match Scene::new(641, 481, 0) {
        Err(EidosError::InvalidConfig(msg)) => assert_eq!(msg, "width must be an even number"),
        _ => panic!("expected InvalidConfig"),
    }
    match Scene::new(640, 481, 0) {
        Err(EidosError::InvalidConfig(msg)) => assert_eq!(msg, "height must be an even number"),
        _ => panic!("expected InvalidConfig"),
    }
    match Scene::new(640, 480, 0) {
        Err(EidosError::InvalidConfig(msg)) => assert_eq!(msg, "fps must be greater than zero"),
        _ => panic!("expected InvalidConfig"),
    }
}

#[test]
fn far_floor_corner_quadrant_0_90() {
    let (x, y) = far_floor_corner(45);
    assert_eq!(x, -1, "Q1 x should be -1; got {}", x);
    assert_eq!(y, -1, "Q1 y should be -1; got {}", y);
}

#[test]
fn far_floor_corner_quadrant_90_180() {
    let (x, y) = far_floor_corner(135);
    assert_eq!(x, 1, "Q2 x should be +1; got {}", x);
    assert_eq!(y, -1, "Q2 y should be -1; got {}", y);
}

#[test]
fn far_floor_corner_quadrant_180_270() {
    let (x, y) = far_floor_corner(225);
    assert_eq!(x, 1, "Q3 x should be +1; got {}", x);
    assert_eq!(y, 1, "Q3 y should be +1; got {}", y);
}

#[test]
fn far_floor_corner_quadrant_270_360() {
    let (x, y) = far_floor_corner(315);
    assert_eq!(x, -1, "Q4 x should be -1; got {}", x);
    assert_eq!(y, 1, "Q4 y should be +1; got {}", y);
}

#[test]
fn far_floor_corner_wraps_at_360() {
    let at_0 = far_floor_corner(0);
    let at_360 = far_floor_corner(360);
    assert_eq!(at_0, at_360, "far_floor_corner(360) should equal far_floor_corner(0)");
}

#[test]
fn far_floor_corner_negative_and_boundary_azimuths() {
    assert_eq!(far_floor_corner(-45), (-1, 1));
    assert_eq!(far_floor_corner(-360), (-1, -1));
    assert_eq!(far_floor_corner(89), (-1, -1));
    assert_eq!(far_floor_corner(90), (1, -1));
    assert_eq!(far_floor_corner(270), (-1, 1));
    assert_eq!(far_floor_corner(720 + 135), (1, -1));
    assert_eq!(far_floor_corner(i64::MIN), far_floor_corner(i64::MIN % 360 + 360));
}
