use nexfilm_engine::dng_writer::{
    cfa_dng_bytes, civil_from_days, exif_datetime, linear_dng_bytes, read_dng_color_tags,
    CfaDngRequest, LinearDngRequest, ILLUMINANT_D50, ILLUMINANT_D65,
};
use nexfilm_engine::raw_backend::CfaPattern;

#[test]
fn exif_timestamp_matches_known_values() {
    assert_eq!(exif_datetime(0), "1970:01:01 00:00:00");
    assert_eq!(exif_datetime(1_700_000_000), "2023:11:14 22:13:20");
    assert_eq!(exif_datetime(1_756_000_000), "2025:08:24 01:46:40");
}

#[test]
fn exif_timestamps_before_the_epoch_and_on_leap_days() {
    assert_eq!(exif_datetime(-1), "1969:12:31 23:59:59");
    assert_eq!(exif_datetime(951_782_400), "2000:02:29 00:00:00");
    assert_eq!(exif_datetime(-62_135_596_800), "0001:01:01 00:00:00");
    assert_eq!(exif_datetime(-62_167_219_200), "0000:01:01 00:00:00");
    assert_eq!(exif_datetime(-62_198_755_200), "-001:01:01 00:00:00");
    assert_eq!(exif_datetime(253_402_300_799), "9999:12:31 23:59:59");
    assert_eq!(exif_datetime(253_402_300_800), "10000:01:01 00:00:00");
}

#[test]
fn civil_dates_of_known_day_numbers() {
    assert_eq!(civil_from_days(0), (1970, 1, 1));
    assert_eq!(civil_from_days(-1), (1969, 12, 31));
    assert_eq!(civil_from_days(11_016), (2000, 2, 29));
    assert_eq!(civil_from_days(47_540), (2100, 2, 28));
    assert_eq!(civil_from_days(47_541), (2100, 3, 1));
    assert_eq!(civil_from_days(-719_468), (0, 3, 1));
}

fn request() -> CfaDngRequest {
    CfaDngRequest {
        width: 4,
        height: 2,
        samples: vec![1, 2, 3, 4, 5, 6, 7, 8],
        cfa: CfaPattern::Bayer { filters: 0x94949494 },
        active_area: [0, 0, 4, 2],
        orientation: 6,
        black_level: [5_120_000, 10_000],
        white_level: 16_383,
        xyz_to_camera: Some([
            [6700, 10000],
            [-2000, 10000],
            [300, 10000],
            [-4000, 10000],
            [12000, 10000],
            [1000, 10000],
            [200, 10000],
            [-1500, 10000],
            [8000, 10000],
        ]),
        calibration_illuminant: None,
        as_shot_neutral: Some([[5500, 10000], [10000, 10000], [7500, 10000]]),
        make: "NexFilm".to_string(),
        model: "Source Reader".to_string(),
        description: None,
        software: "NexFilm Engine test".to_string(),
        timestamp: "2026:09:18 10:00:00".to_string(),
    }
}

#[test]
fn the_written_cfa_dng_hands_its_colour_tags_back() {
    let bytes = cfa_dng_bytes(&request()).unwrap();
    let tags = read_dng_color_tags(&bytes).expect("the colour tags must be readable");
    assert_eq!(tags.calibration_illuminant, Some(ILLUMINANT_D65));
    let matrix = tags.xyz_to_camera.unwrap();
    assert_eq!(matrix.len(), 9);
    assert_eq!(matrix[0], (6700, 10000));
    assert_eq!(matrix[1], (-2000, 10000));
    assert_eq!(matrix[7], (-1500, 10000));
    assert_eq!(tags.as_shot_neutral.unwrap(), vec![(5500, 10000), (10000, 10000), (7500, 10000)]);
}

#[test]
fn colour_tags_are_absent_from_uncalibrated_or_broken_files() {
    let mut plain = request();
    plain.xyz_to_camera = None;
    plain.as_shot_neutral = None;
    let bytes = cfa_dng_bytes(&plain).unwrap();
    // An uncalibrated file still declares illuminant 0.
    let tags = read_dng_color_tags(&bytes).unwrap();
    assert_eq!(tags.calibration_illuminant, Some(0));
    assert!(tags.xyz_to_camera.is_none());
    assert_eq!(read_dng_color_tags(b"II*\0"), None);
    assert_eq!(read_dng_color_tags(b"XX*\0\x08\0\0\0"), None);
    let mut wrong_magic = bytes.clone();
    wrong_magic[2] = 43;
    assert_eq!(read_dng_color_tags(&wrong_magic), None);
}

#[test]
fn a_zero_denominator_makes_the_matrix_unreadable() {
    let mut zero = request();
    if let Some(matrix) = zero.xyz_to_camera.as_mut() {
        matrix[4] = [1, 0];
    }
    let bytes = cfa_dng_bytes(&zero).unwrap();
    assert_eq!(read_dng_color_tags(&bytes), None);
}

#[test]
fn big_endian_files_are_read_in_their_byte_order() {
    // A minimal big-endian TIFF with one CalibrationIlluminant1 entry.
    let mut bytes = vec![0x4d, 0x4d, 0, 42, 0, 0, 0, 8, 0, 1];
    bytes.extend_from_slice(&[0xc6, 0x5a, 0, 3, 0, 0, 0, 1, 0, 23, 0, 0]);
    bytes.extend_from_slice(&[0, 0, 0, 0]);
    let tags = read_dng_color_tags(&bytes).unwrap();
    assert_eq!(tags.calibration_illuminant, Some(23));
}

#[test]
fn the_written_linear_dng_hands_its_colour_tags_back() {
    let request = LinearDngRequest {
        width: 2,
        height: 1,
        rgb16: vec![1, 2, 3, 4, 5, 6],
        xyz_to_space: [
            [31_339, 10_000],
            [-16_169, 10_000],
            [-4_906, 10_000],
            [-9_788, 10_000],
            [19_161, 10_000],
            [334, 10_000],
            [719, 10_000],
            [-2_290, 10_000],
            [14_052, 10_000],
        ],
        icc_profile: None,
        camera_model: "NexFilm Linear sRGB".to_string(),
        description: Some("Roll 7".to_string()),
        software: "NexFilm Engine test".to_string(),
        timestamp: "2026:09:18 10:00:00".to_string(),
    };
    let bytes = linear_dng_bytes(&request).unwrap();
    let tags = read_dng_color_tags(&bytes).unwrap();
    assert_eq!(tags.calibration_illuminant, Some(ILLUMINANT_D50));
    let matrix = tags.xyz_to_camera.unwrap();
    assert_eq!(matrix[0], (31_339, 10_000));
    assert_eq!(matrix[1], (-16_169, 10_000));
    assert_eq!(matrix[8], (14_052, 10_000));
    assert_eq!(tags.as_shot_neutral.unwrap(), vec![(1, 1), (1, 1), (1, 1)]);
}
