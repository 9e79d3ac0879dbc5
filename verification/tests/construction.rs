use eidos::dataviz::{check_confidence_band, check_data_curve, check_spline_fit};
use eidos::encode::{decimal_string, ffmpeg_args};
use eidos::grid::{grid_shape_matches, vertex_slot};
use eidos::EidosError;

fn config_message(r: Result<(), EidosError>) -> String {
    match r {
        Err(EidosError::InvalidConfig(msg)) => msg,
        other => panic!("expected a configuration error, got {:?}", other),
    }
}

#[test]
fn data_curve_needs_two_points() {
    assert_eq!(config_message(check_data_curve(0)), "DataCurve requires at least 2 data points");
    assert_eq!(config_message(check_data_curve(1)), "DataCurve requires at least 2 data points");
    assert!(check_data_curve(2).is_ok());
    assert!(check_data_curve(100).is_ok());
}

#[test]
fn spline_fit_needs_two_points() {
    assert_eq!(config_message(check_spline_fit(1)), "SplineFit requires at least 2 data points");
    assert!(check_spline_fit(2).is_ok());
}

#[test]
fn confidence_band_checks_upper_edge_first() {
    assert_eq!(
        config_message(check_confidence_band(1, 1)),
        "ConfidenceBand upper_points requires at least 2 points"
    );
    assert_eq!(
        config_message(check_confidence_band(3, 1)),
        "ConfidenceBand lower_points requires at least 2 points"
    );
    assert!(check_confidence_band(2, 2).is_ok());
}

#[test]
fn grid_shape_needs_one_entry_per_vertex() {
    assert!(grid_shape_matches(6, 2, 3));
    assert!(!grid_shape_matches(5, 2, 3));
    assert!(!grid_shape_matches(7, 2, 3));
    assert!(grid_shape_matches(0, 0, 5));
    assert!(!grid_shape_matches(0, usize::MAX, 2));
}

#[test]
fn vertex_slot_is_row_major() {
    assert_eq!(vertex_slot(0, 0, 2, 2), Some(0));
    assert_eq!(vertex_slot(0, 1, 2, 2), Some(1));
    assert_eq!(vertex_slot(1, 0, 2, 2), Some(2));
    assert_eq!(vertex_slot(1, 1, 2, 2), Some(3));
    assert_eq!(vertex_slot(2, 3, 3, 4), Some(11));
}

#[test]
fn vertex_slot_rejects_positions_outside_the_grid() {
    // (0, 2) would land on the slot of (1, 0) in a 2x2 grid: it lies outside.
    assert_eq!(vertex_slot(0, 2, 2, 2), None);
    assert_eq!(vertex_slot(2, 0, 2, 2), None);
    assert_eq!(vertex_slot(usize::MAX, 1, 2, 2), None);
    assert_eq!(vertex_slot(0, 0, 0, 5), None);
}

#[test]
fn decimal_strings_match_to_string() {
    for n in [0u32, 7, 10, 99, 1080, 1920, 4294967295] {
        assert_eq!(decimal_string(n), n.to_string());
    }
}

#[test]
fn ffmpeg_is_started_for_raw_bgra_frames_on_stdin() {
    let args = ffmpeg_args(1920, 1080, 30, "out/clip.mp4");
    assert_eq!(
        args,
        vec![
            "-f", "rawvideo", "-pix_fmt", "bgra", "-s", "1920x1080", "-r", "30", "-i", "pipe:0",
            "-pix_fmt", "yuv420p", "-c:v", "libx264", "-y", "out/clip.mp4",
        ]
    );
}
