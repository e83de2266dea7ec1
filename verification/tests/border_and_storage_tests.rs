use nexfilm_engine::film_border::{
    analysis_source, median_i16, quad_on_image, strongest_local, twice_polygon_area,
};
use nexfilm_engine::geometry::gray_luma;
use nexfilm_engine::persistence::stored_schema_version;

#[test]
fn analysis_rows_sample_the_centre_of_their_span() {
    // 1050 source rows reduced to 210: each analysis row covers five.
    assert_eq!(analysis_source(0, 210, 1050), 2);
    assert_eq!(analysis_source(1, 210, 1050), 7);
    assert_eq!(analysis_source(209, 210, 1050), 1047);
    // Enlarging never leaves the image.
    assert_eq!(analysis_source(15, 16, 10), 9);
    assert_eq!(analysis_source(3, 16, 0), 0);
}

#[test]
fn quadrilateral_area_uses_the_shoelace_formula() {
    let rectangle = [[0, 0], [10, 0], [10, 5], [0, 5]];
    assert_eq!(twice_polygon_area(rectangle), 100);
    let reversed = [[0, 5], [10, 5], [10, 0], [0, 0]];
    assert_eq!(twice_polygon_area(reversed), 100);
    let extreme = [[i32::MIN, i32::MIN], [i32::MAX, i32::MIN], [i32::MAX, i32::MAX], [i32::MIN, i32::MAX]];
    assert_eq!(twice_polygon_area(extreme), 2 * (u32::MAX as u128) * (u32::MAX as u128));
}

#[test]
fn quad_corners_must_lie_on_the_image() {
    assert!(quad_on_image([[0, 0], [399, 0], [399, 259], [0, 259]], 400, 260));
    assert!(!quad_on_image([[0, 0], [400, 0], [399, 259], [0, 259]], 400, 260));
    assert!(!quad_on_image([[0, -1], [399, 0], [399, 259], [0, 259]], 400, 260));
}

#[test]
fn unreadable_calibration_levels_isolate_the_profile() {
    assert_eq!(stored_schema_version(2, true), 2);
    assert_eq!(stored_schema_version(-4, true), 0);
    assert_eq!(stored_schema_version(2, false), u32::MAX);
}

#[test]
fn gradient_median_is_the_middle_sample() {
    let mut odd = vec![9i16, -4, 7, 1, 3];
    assert_eq!(median_i16(&mut odd), 3);
    let mut sorted_odd = odd.clone();
    sorted_odd.sort();
    assert_eq!(sorted_odd, vec![-4, 1, 3, 7, 9]);
    // With an even count the upper of the two middle samples is taken.
    let mut even = vec![40i16, 10, 30, 20];
    assert_eq!(median_i16(&mut even), 30);
    let mut empty: Vec<i16> = Vec::new();
    assert_eq!(median_i16(&mut empty), 0);
}

#[test]
fn strongest_local_edge_keeps_the_last_peak_inside_the_window() {
    let line = [100i16, 5, -8, 12, 3, 12, -20, 100];
    // Window 1..=6 round 3: the outermost samples are never considered.
    assert_eq!(strongest_local(&line, 3, 10, 1), Some((5, 12)));
    // Opposite polarity looks for negative responses.
    assert_eq!(strongest_local(&line, 3, 10, -1), Some((6, 20)));
    // Narrow window.
    assert_eq!(strongest_local(&line, 2, 0, 1), Some((2, 0)));
    // A window that lies past the usable samples is empty.
    assert_eq!(strongest_local(&line, 20, 2, 1), None);
}

#[test]
fn auto_crop_grey_is_the_channel_mean_in_eight_bits() {
    let rgb = [0u16, 0, 0, 65535, 65535, 65535, 767, 0, 0, 300, 300, 168];
    assert_eq!(gray_luma(&rgb), vec![0, 255, 0, 1]);
    assert_eq!(gray_luma(&[]), Vec::<u8>::new());
}
