use nexfilm_engine::dng_writer::{
    cfa_dng_bytes, linear_dng_bytes, tiff_orientation, unique_camera_model, CfaDngRequest,
    LinearDngRequest, Value, ILLUMINANT_D50, PHOTOMETRIC_CFA, PHOTOMETRIC_LINEAR_RAW, TYPE_ASCII,
    TYPE_RATIONAL, TYPE_SHORT, TYPE_SRATIONAL,
};
use nexfilm_engine::raw_backend::CfaPattern;

fn positive_rational(value: f32) -> [u32; 2] {
    [(f64::from(value) * 10_000.0).round().max(0.0) as u32, 10_000]
}

fn signed_rational(value: f64) -> [i32; 2] {
    [(value * 10_000.0).round().clamp(i32::MIN as f64, i32::MAX as f64) as i32, 10_000]
}

fn matrix(rows: [[f32; 3]; 3]) -> [[i32; 2]; 9] {
    let mut out = [[0, 1]; 9];
    for (index, value) in rows.iter().flatten().enumerate() {
        out[index] = signed_rational(f64::from(*value));
    }
    out
}

fn request(filters: u32, black: f32, white: f32) -> CfaDngRequest {
    let width = 36u32;
    let height = 26u32;
    let samples = (0..(width * height) as u16).map(|index| index * 7 + 3).collect();
    CfaDngRequest {
        width,
        height,
        samples,
        cfa: CfaPattern::Bayer { filters },
        active_area: [2, 1, width - 4, height - 2],
        orientation: 0,
        black_level: positive_rational(black),
        white_level: white.round() as u32,
        xyz_to_camera: None,
        calibration_illuminant: None,
        as_shot_neutral: None,
        make: String::new(),
        model: String::new(),
        description: None,
        software: "NexFilm Engine test".to_string(),
        timestamp: "2026:09:18 10:00:00".to_string(),
    }
}

/// Read one little-endian IFD back with a parser independent of the writer.
fn read_ifd(bytes: &[u8]) -> Vec<(u16, u16, u32, Vec<u8>)> {
    assert_eq!(&bytes[0..2], b"II");
    assert_eq!(u16::from_le_bytes([bytes[2], bytes[3]]), 42);
    let ifd_offset = u32::from_le_bytes(bytes[4..8].try_into().unwrap()) as usize;
    let count = u16::from_le_bytes([bytes[ifd_offset], bytes[ifd_offset + 1]]) as usize;
    let mut entries = Vec::new();
    for index in 0..count {
        let offset = ifd_offset + 2 + index * 12;
        let tag = u16::from_le_bytes([bytes[offset], bytes[offset + 1]]);
        let type_code = u16::from_le_bytes([bytes[offset + 2], bytes[offset + 3]]);
        let value_count = u32::from_le_bytes(bytes[offset + 4..offset + 8].try_into().unwrap());
        let unit = match type_code {
            1 | 2 | 6 | 7 => 1usize,
            3 | 8 => 2,
            4 | 9 | 11 => 4,
            5 | 10 | 12 => 8,
            other => panic!("unexpected TIFF type {other}"),
        };
        let payload_len = unit * value_count as usize;
        let payload = if payload_len <= 4 {
            bytes[offset + 8..offset + 8 + payload_len].to_vec()
        } else {
            let value_offset =
                u32::from_le_bytes(bytes[offset + 8..offset + 12].try_into().unwrap()) as usize;
            bytes[value_offset..value_offset + payload_len].to_vec()
        };
        entries.push((tag, type_code, value_count, payload));
    }
    entries
}

fn entry(entries: &[(u16, u16, u32, Vec<u8>)], tag: u16) -> &(u16, u16, u32, Vec<u8>) {
    entries
        .iter()
        .find(|entry| entry.0 == tag)
        .unwrap_or_else(|| panic!("tag {tag} is missing"))
}

#[test]
fn cfa_dng_declares_geometry_and_raw_samples() {
    // RGGB, as dcraw encodes it: R G / G B. The black levels 512, 513, 514, 515
    // average to 513 over the four CFA positions R, G, G, B.
    let filters = 0x94949494;
    let mut request = request(filters, 513.0, 16_383.0);
    request.xyz_to_camera = Some(matrix([[0.67, -0.2, 0.03], [-0.4, 1.2, 0.1], [0.02, -0.15, 0.8]]));
    request.as_shot_neutral =
        Some([positive_rational(0.5), positive_rational(1.0), positive_rational(0.8)]);
    request.make = "TestCam".to_string();
    request.model = "TestModel".to_string();
    request.description = Some("Film: Test Film".to_string());
    let bytes = cfa_dng_bytes(&request).unwrap();
    let entries = read_ifd(&bytes);

    assert_eq!(u32::from_le_bytes(entry(&entries, 256).3[..4].try_into().unwrap()), 36);
    assert_eq!(u32::from_le_bytes(entry(&entries, 257).3[..4].try_into().unwrap()), 26);
    assert_eq!(
        u16::from_le_bytes([entry(&entries, 262).3[0], entry(&entries, 262).3[1]]),
        PHOTOMETRIC_CFA
    );
    assert_eq!(entry(&entries, 33422).3, vec![0, 1, 1, 2]);
    assert_eq!(entry(&entries, 50706).3, vec![1, 4, 0, 0]);
    assert_eq!(
        entry(&entries, 270).3,
        b"Film: Test Film\0".to_vec(),
        "the roll note travels in ImageDescription"
    );
    assert_eq!(
        entry(&entries, 50829).3,
        [2u32.to_le_bytes(), 2u32.to_le_bytes(), 25u32.to_le_bytes(), 34u32.to_le_bytes()].concat()
    );
    assert_eq!(entry(&entries, 50710).3, vec![0, 1, 2], "CFA plane colours follow the Adobe convention");
    let black = entry(&entries, 50714);
    assert_eq!(black.2, 1);
    let values: Vec<f32> = black
        .3
        .chunks_exact(8)
        .map(|chunk| {
            let numerator = u32::from_le_bytes(chunk[..4].try_into().unwrap());
            let denominator = u32::from_le_bytes(chunk[4..8].try_into().unwrap());
            numerator as f32 / denominator.max(1) as f32
        })
        .collect();
    assert_eq!(values, vec![513.0]);
    let matrix = entry(&entries, 50721);
    assert_eq!(matrix.1, TYPE_SRATIONAL);
    assert_eq!(matrix.2, 9);
    let neutral = entry(&entries, 50728);
    assert_eq!(neutral.1, TYPE_RATIONAL);
    assert_eq!(neutral.2, 3);

    let strip_offset = u32::from_le_bytes(entry(&entries, 273).3[..4].try_into().unwrap()) as usize;
    let strip_count = u32::from_le_bytes(entry(&entries, 279).3[..4].try_into().unwrap()) as usize;
    assert_eq!(strip_count, request.samples.len() * 2);
    let strip = &bytes[strip_offset..strip_offset + strip_count];
    let decoded: Vec<u16> = strip
        .chunks_exact(2)
        .map(|chunk| u16::from_le_bytes([chunk[0], chunk[1]]))
        .collect();
    assert_eq!(decoded, request.samples);
}

#[test]
fn cfa_dng_rejects_non_bayer_mosaics() {
    let mut request = request(0x94949494, 0.0, 16_383.0);
    request.cfa = CfaPattern::XTrans;
    let error = cfa_dng_bytes(&request).unwrap_err();
    assert!(error.contains("Bayer"), "{error}");
}

#[test]
fn linear_dng_carries_linear_rgb_and_colour_metadata() {
    let width = 3u32;
    let height = 2u32;
    let rgb16: Vec<u16> = (0..(width * height * 3) as u16).map(|v| v * 11).collect();
    let identity = [1.0, 0.0, 0.0, 0.0, 1.0, 0.0, 0.0, 0.0, 1.0];
    let request = LinearDngRequest {
        width,
        height,
        rgb16: rgb16.clone(),
        xyz_to_space: identity.map(signed_rational),
        icc_profile: Some(vec![0xde, 0xad, 0xbe, 0xef]),
        camera_model: "NexFilm Linear sRGB".to_string(),
        description: None,
        software: "NexFilm Engine test".to_string(),
        timestamp: "2026:09:18 10:00:00".to_string(),
    };
    let bytes = linear_dng_bytes(&request).unwrap();
    let entries = read_ifd(&bytes);

    assert_eq!(
        u16::from_le_bytes([entry(&entries, 262).3[0], entry(&entries, 262).3[1]]),
        PHOTOMETRIC_LINEAR_RAW
    );
    assert_eq!(entry(&entries, 258).2, 3, "three 16-bit samples per pixel");
    assert_eq!(u16::from_le_bytes([entry(&entries, 277).3[0], entry(&entries, 277).3[1]]), 3);
    assert_eq!(
        u16::from_le_bytes([entry(&entries, 50778).3[0], entry(&entries, 50778).3[1]]),
        ILLUMINANT_D50
    );
    assert_eq!(entry(&entries, 34675).3, vec![0xde, 0xad, 0xbe, 0xef]);
    let strip_offset = u32::from_le_bytes(entry(&entries, 273).3[..4].try_into().unwrap()) as usize;
    let strip_count = u32::from_le_bytes(entry(&entries, 279).3[..4].try_into().unwrap()) as usize;
    assert_eq!(strip_count, rgb16.len() * 2);
    let decoded: Vec<u16> = bytes[strip_offset..strip_offset + strip_count]
        .chunks_exact(2)
        .map(|chunk| u16::from_le_bytes([chunk[0], chunk[1]]))
        .collect();
    assert_eq!(decoded, rgb16);
}

#[test]
fn orientation_table_inverts_libraws_parser() {
    for flip in 0..8u16 {
        let orientation = tiff_orientation(flip);
        let round_trip = "50132467".as_bytes()[(orientation & 7) as usize] - b'0';
        assert_eq!(u16::from(round_trip), flip, "flip {flip} must round trip");
    }
}

#[test]
fn tags_are_written_in_ascending_order_with_aligned_payloads() {
    let mut request = request(0xb4b4b4b4, 600.0, 16_300.0);
    request.description = Some("Roll 7".to_string());
    request.xyz_to_camera = Some(matrix([[0.5, 0.0, 0.0], [0.0, 0.5, 0.0], [0.0, 0.0, 0.5]]));
    let bytes = cfa_dng_bytes(&request).unwrap();
    let ifd = u32::from_le_bytes(bytes[4..8].try_into().unwrap()) as usize;
    assert_eq!(ifd, 8);
    let count = u16::from_le_bytes([bytes[8], bytes[9]]) as usize;
    let mut previous = 0u16;
    for index in 0..count {
        let offset = 10 + index * 12;
        let tag = u16::from_le_bytes([bytes[offset], bytes[offset + 1]]);
        assert!(tag > previous);
        previous = tag;
    }
    let entries = read_ifd(&bytes);
    assert_eq!(entries.len(), count);
    // Strip tags are added by the writer.
    assert_eq!(u32::from_le_bytes(entry(&entries, 278).3[..4].try_into().unwrap()), 26);
    let strip_offset = u32::from_le_bytes(entry(&entries, 273).3[..4].try_into().unwrap()) as usize;
    assert_eq!(strip_offset % 4, 0);
    assert_eq!(bytes.len(), strip_offset + request.samples.len() * 2);
    // The CFA cell is the plane of LibRaw's colour code at each of the four sites.
    assert_eq!(entry(&entries, 33422).3, vec![0, 1, 1, 2]);
    // Without a stated illuminant the matrix is declared for D65.
    assert_eq!(u16::from_le_bytes([entry(&entries, 50778).3[0], entry(&entries, 50778).3[1]]), 21);
}

#[test]
fn uncalibrated_mosaics_declare_no_illuminant() {
    let request = request(0x94949494, 512.0, 16_383.0);
    let entries = read_ifd(&cfa_dng_bytes(&request).unwrap());
    assert_eq!(u16::from_le_bytes([entry(&entries, 50778).3[0], entry(&entries, 50778).3[1]]), 0);
    assert!(entries.iter().all(|entry| entry.0 != 50721 && entry.0 != 270));
    let mut stated = self::request(0x94949494, 512.0, 16_383.0);
    stated.xyz_to_camera = Some(matrix([[1.0, 0.0, 0.0], [0.0, 1.0, 0.0], [0.0, 0.0, 1.0]]));
    stated.calibration_illuminant = Some(17);
    let entries = read_ifd(&cfa_dng_bytes(&stated).unwrap());
    assert_eq!(u16::from_le_bytes([entry(&entries, 50778).3[0], entry(&entries, 50778).3[1]]), 17);
}

#[test]
fn cfa_dng_reports_each_refusal() {
    let mut short = request(0x94949494, 512.0, 16_383.0);
    short.samples.pop();
    assert_eq!(
        cfa_dng_bytes(&short).unwrap_err(),
        "The RAW mosaic does not match its declared dimensions"
    );
    let mut outside = request(0x94949494, 512.0, 16_383.0);
    outside.active_area = [10, 0, 30, 26];
    assert_eq!(cfa_dng_bytes(&outside).unwrap_err(), "The RAW mosaic has an invalid active area");
    let mut empty = request(0x94949494, 512.0, 16_383.0);
    empty.active_area = [0, 0, 0, 26];
    assert_eq!(cfa_dng_bytes(&empty).unwrap_err(), "The RAW mosaic has an invalid active area");
    let mut sliver = request(0x94949494, 512.0, 16_383.0);
    sliver.active_area = [1, 0, 1, 26];
    assert_eq!(cfa_dng_bytes(&sliver).unwrap_err(), "The RAW active area is too small to export");
}

#[test]
fn linear_dng_rejects_a_mismatched_sample_count() {
    let request = LinearDngRequest {
        width: 2,
        height: 2,
        rgb16: vec![0; 11],
        xyz_to_space: [[1, 1]; 9],
        icc_profile: None,
        camera_model: String::new(),
        description: None,
        software: String::new(),
        timestamp: String::new(),
    };
    assert_eq!(
        linear_dng_bytes(&request).unwrap_err(),
        "The linear image does not match its declared dimensions"
    );
}

#[test]
fn unique_camera_model_joins_trims_and_limits() {
    assert_eq!(unique_camera_model(" Nikon ", " Z 8 "), "Nikon Z 8");
    assert_eq!(unique_camera_model("", ""), "NexFilm Scan");
    assert_eq!(unique_camera_model("  ", "Solo"), "Solo");
    let long = "x".repeat(80);
    assert_eq!(unique_camera_model(&long, "y").chars().count(), 63);
}

#[test]
fn stored_bytes_match_each_values_count() {
    let text = Value::Ascii("NexFilm".to_string());
    assert_eq!(text.type_code(), TYPE_ASCII);
    assert_eq!(text.count(), 8);
    assert_eq!(text.bytes().len(), 8);
    assert_eq!(*text.bytes().last().unwrap(), 0);
    let shorts = Value::Short(vec![1, 2, 3]);
    assert_eq!(shorts.type_code(), TYPE_SHORT);
    assert_eq!((shorts.count(), shorts.bytes().len()), (3, 6));
    let rationals = Value::Rational(vec![[1, 2], [3, 4]]);
    assert_eq!((rationals.count(), rationals.bytes().len()), (2, 16));
    assert_eq!(Value::SRational(vec![[-1, 2]]).bytes(), vec![0xff, 0xff, 0xff, 0xff, 2, 0, 0, 0]);
}
