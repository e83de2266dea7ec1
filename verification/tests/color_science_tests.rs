use nexfilm_engine::color_science::{
    build_icc_profile, canonical_output_space, canonical_working_space, identify_icc_profile,
    libraw_native_profile, libraw_output_color, parse_output_space, parse_working_space,
    profile_name, trim, working_profile, working_requires_aces_conversion, ColorSpaceId,
    IccColorimetry, WorkingSpaceId,
};

// Colorimetry of the profiles, computed the way the exporter computes it, so
// the assembled profiles carry realistic tags.

const D50: [f64; 2] = [0.3457, 0.3585];
const D60: [f64; 2] = [0.32168, 0.33767];
const D65: [f64; 2] = [0.3127, 0.3290];

#[derive(Clone, Copy)]
enum Transfer {
    Linear,
    SRgb,
    AdobeRgb,
    Rec2020,
    ProPhoto,
}

fn definition(id: ColorSpaceId) -> ([[f64; 2]; 3], [f64; 2], Transfer) {
    match id {
        ColorSpaceId::SRgb => ([[0.64, 0.33], [0.30, 0.60], [0.15, 0.06]], D65, Transfer::SRgb),
        ColorSpaceId::DisplayP3 => ([[0.68, 0.32], [0.265, 0.69], [0.15, 0.06]], D65, Transfer::SRgb),
        ColorSpaceId::AdobeRgb => ([[0.64, 0.33], [0.21, 0.71], [0.15, 0.06]], D65, Transfer::AdobeRgb),
        ColorSpaceId::Rec2020 => (
            [[0.708, 0.292], [0.170, 0.797], [0.131, 0.046]],
            D65,
            Transfer::Rec2020,
        ),
        ColorSpaceId::ProPhotoRgb => (
            [[0.7347, 0.2653], [0.1596, 0.8404], [0.0366, 0.0001]],
            D50,
            Transfer::ProPhoto,
        ),
        ColorSpaceId::ProPhotoRgbD65 => (
            [[0.7347, 0.2653], [0.1596, 0.8404], [0.0366, 0.0001]],
            D65,
            Transfer::Linear,
        ),
        ColorSpaceId::Aces2065 => (
            [[0.7347, 0.2653], [0.0, 1.0], [0.0001, -0.0770]],
            D60,
            Transfer::Linear,
        ),
        ColorSpaceId::AcesCg => ([[0.713, 0.293], [0.165, 0.830], [0.128, 0.044]], D60, Transfer::Linear),
    }
}

fn multiply(a: [f64; 9], b: [f64; 9]) -> [f64; 9] {
    let mut out = [0.0; 9];
    for row in 0..3 {
        for column in 0..3 {
            out[row * 3 + column] = (0..3).map(|k| a[row * 3 + k] * b[k * 3 + column]).sum();
        }
    }
    out
}

fn apply(m: [f64; 9], v: [f64; 3]) -> [f64; 3] {
    [
        m[0] * v[0] + m[1] * v[1] + m[2] * v[2],
        m[3] * v[0] + m[4] * v[1] + m[5] * v[2],
        m[6] * v[0] + m[7] * v[1] + m[8] * v[2],
    ]
}

fn inverse(m: [f64; 9]) -> [f64; 9] {
    let det = m[0] * (m[4] * m[8] - m[5] * m[7]) - m[1] * (m[3] * m[8] - m[5] * m[6])
        + m[2] * (m[3] * m[7] - m[4] * m[6]);
    [
        (m[4] * m[8] - m[5] * m[7]) / det,
        (m[2] * m[7] - m[1] * m[8]) / det,
        (m[1] * m[5] - m[2] * m[4]) / det,
        (m[5] * m[6] - m[3] * m[8]) / det,
        (m[0] * m[8] - m[2] * m[6]) / det,
        (m[2] * m[3] - m[0] * m[5]) / det,
        (m[3] * m[7] - m[4] * m[6]) / det,
        (m[1] * m[6] - m[0] * m[7]) / det,
        (m[0] * m[4] - m[1] * m[3]) / det,
    ]
}

fn white(w: [f64; 2]) -> [f64; 3] {
    [w[0] / w[1], 1.0, (1.0 - w[0] - w[1]) / w[1]]
}

fn native_to_xyz(primaries: [[f64; 2]; 3], w: [f64; 2]) -> [f64; 9] {
    let c = primaries.map(|[x, y]| [x / y, 1.0, (1.0 - x - y) / y]);
    let p = [c[0][0], c[1][0], c[2][0], c[0][1], c[1][1], c[2][1], c[0][2], c[1][2], c[2][2]];
    let s = apply(inverse(p), white(w));
    [
        p[0] * s[0], p[1] * s[1], p[2] * s[2], p[3] * s[0], p[4] * s[1], p[5] * s[2], p[6] * s[0],
        p[7] * s[1], p[8] * s[2],
    ]
}

fn bradford(source: [f64; 2], target: [f64; 2]) -> [f64; 9] {
    if (source[0] - target[0]).abs() < 1e-12 && (source[1] - target[1]).abs() < 1e-12 {
        return [1.0, 0.0, 0.0, 0.0, 1.0, 0.0, 0.0, 0.0, 1.0];
    }
    let b = [0.8951, 0.2664, -0.1614, -0.7502, 1.7135, 0.0367, 0.0389, -0.0685, 1.0296];
    let s = apply(b, white(source));
    let t = apply(b, white(target));
    let d = [t[0] / s[0], 0.0, 0.0, 0.0, t[1] / s[1], 0.0, 0.0, 0.0, t[2] / s[2]];
    multiply(
        multiply(
            [
                0.9869929, -0.1470543, 0.1599627, 0.4323053, 0.5183603, 0.0492912, -0.0085287,
                0.0400428, 0.9684867,
            ],
            d,
        ),
        b,
    )
}

fn decode(value: f64, transfer: Transfer) -> f64 {
    match transfer {
        Transfer::Linear => value,
        Transfer::SRgb => {
            if value <= 0.04045 {
                value / 12.92
            } else {
                ((value + 0.055) / 1.055).powf(2.4)
            }
        }
        Transfer::AdobeRgb => value.powf(563.0 / 256.0),
        Transfer::Rec2020 => {
            const ALPHA: f64 = 1.09929682680944;
            const BETA: f64 = 0.018053968510807;
            if value < 4.5 * BETA {
                value / 4.5
            } else {
                ((value + ALPHA - 1.0) / ALPHA).powf(1.0 / 0.45)
            }
        }
        Transfer::ProPhoto => {
            if value < 16.0 / 512.0 {
                value / 16.0
            } else {
                value.powf(1.8)
            }
        }
    }
}

fn s15(value: f64) -> i32 {
    (value * 65536.0).round() as i32
}

fn colorimetry(id: ColorSpaceId) -> IccColorimetry {
    let (primaries, w, transfer) = definition(id);
    let xyz = multiply(bradford(w, D50), native_to_xyz(primaries, w));
    let d50 = white(D50);
    let tone_curve = match transfer {
        Transfer::Linear => Vec::new(),
        _ => (0..4096u32)
            .map(|i| {
                let linear = decode(i as f64 / 4095.0, transfer).clamp(0.0, 1.0);
                (linear * 65535.0).round() as u16
            })
            .collect(),
    };
    IccColorimetry {
        white_point: [s15(d50[0]), s15(d50[1]), s15(d50[2])],
        red: [s15(xyz[0]), s15(xyz[3]), s15(xyz[6])],
        green: [s15(xyz[1]), s15(xyz[4]), s15(xyz[7])],
        blue: [s15(xyz[2]), s15(xyz[5]), s15(xyz[8])],
        tone_curve,
    }
}

fn profile_for(space: ColorSpaceId) -> Vec<u8> {
    build_icc_profile(space, &colorimetry(space))
}

#[test]
fn icc_profile_has_valid_header_and_size() {
    for space in [ColorSpaceId::SRgb, ColorSpaceId::DisplayP3, ColorSpaceId::ProPhotoRgb] {
        let profile = profile_for(space);
        assert_eq!(&profile[36..40], b"acsp");
        assert_eq!(
            u32::from_be_bytes(profile[8..12].try_into().unwrap()),
            0x02100000,
            "the v2 desc/TRC structures require an ICC v2 header"
        );
        assert_eq!(u32::from_be_bytes(profile[0..4].try_into().unwrap()) as usize, profile.len());
        assert_eq!(u32::from_be_bytes(profile[128..132].try_into().unwrap()), 9);
    }
}

#[test]
fn icc_description_uses_v2_desc_type_field_widths() {
    let profile = profile_for(ColorSpaceId::DisplayP3);
    let tag_count = u32::from_be_bytes(profile[128..132].try_into().unwrap()) as usize;
    let desc_entry = (0..tag_count)
        .map(|index| 132 + index * 12)
        .find(|offset| &profile[*offset..*offset + 4] == b"desc")
        .expect("ICC profile contains a description tag");
    let desc_offset =
        u32::from_be_bytes(profile[desc_entry + 4..desc_entry + 8].try_into().unwrap()) as usize;
    let desc = &profile[desc_offset..];
    assert_eq!(&desc[0..4], b"desc");
    let ascii_count = u32::from_be_bytes(desc[8..12].try_into().unwrap()) as usize;
    let mac_count_offset = 12 + ascii_count + 8;
    assert_eq!(
        u16::from_be_bytes(desc[mac_count_offset..mac_count_offset + 2].try_into().unwrap()),
        0
    );
    assert_eq!(desc[mac_count_offset + 2], 0);
}

#[test]
fn generated_profiles_are_identifiable_for_reimport() {
    for space in [
        ColorSpaceId::SRgb,
        ColorSpaceId::DisplayP3,
        ColorSpaceId::AdobeRgb,
        ColorSpaceId::Rec2020,
        ColorSpaceId::ProPhotoRgb,
        ColorSpaceId::Aces2065,
        ColorSpaceId::AcesCg,
    ] {
        let profile = profile_for(space);
        assert_eq!(identify_icc_profile(&profile), Some(space));
    }
}

#[test]
fn icc_tag_offsets_are_aligned_and_point_at_their_tags() {
    let profile = profile_for(ColorSpaceId::AdobeRgb);
    let expected: [&[u8; 4]; 9] =
        [b"desc", b"cprt", b"wtpt", b"rXYZ", b"gXYZ", b"bXYZ", b"rTRC", b"gTRC", b"bTRC"];
    let types: [&[u8; 4]; 9] =
        [b"desc", b"text", b"XYZ ", b"XYZ ", b"XYZ ", b"XYZ ", b"curv", b"curv", b"curv"];
    for index in 0..9 {
        let row = 132 + index * 12;
        assert_eq!(&profile[row..row + 4], expected[index]);
        let offset = u32::from_be_bytes(profile[row + 4..row + 8].try_into().unwrap()) as usize;
        let size = u32::from_be_bytes(profile[row + 8..row + 12].try_into().unwrap()) as usize;
        assert_eq!(offset % 4, 0);
        assert!(offset + size <= profile.len());
        assert_eq!(&profile[offset..offset + 4], types[index]);
    }
    // The first tag starts right after the table.
    assert_eq!(u32::from_be_bytes(profile[136..140].try_into().unwrap()), 240);
}

#[test]
fn icc_header_carries_the_d50_illuminant_and_creator() {
    let profile = profile_for(ColorSpaceId::SRgb);
    assert_eq!(&profile[4..8], b"nexf");
    assert_eq!(&profile[12..16], b"mntr");
    assert_eq!(&profile[16..20], b"RGB ");
    assert_eq!(&profile[20..24], b"XYZ ");
    assert_eq!(u32::from_be_bytes(profile[68..72].try_into().unwrap()), 63190);
    assert_eq!(u32::from_be_bytes(profile[72..76].try_into().unwrap()), 65536);
    assert_eq!(u32::from_be_bytes(profile[76..80].try_into().unwrap()), 54061);
    assert_eq!(&profile[80..84], b"NEXF");
}

#[test]
fn linear_profiles_carry_empty_tone_curves() {
    let profile = profile_for(ColorSpaceId::AcesCg);
    let row = 132 + 6 * 12;
    let offset = u32::from_be_bytes(profile[row + 4..row + 8].try_into().unwrap()) as usize;
    let size = u32::from_be_bytes(profile[row + 8..row + 12].try_into().unwrap());
    assert_eq!(size, 12);
    assert_eq!(u32::from_be_bytes(profile[offset + 8..offset + 12].try_into().unwrap()), 0);
}

#[test]
fn identification_needs_the_profile_signature() {
    let mut profile = profile_for(ColorSpaceId::SRgb);
    profile[36] = b'x';
    assert_eq!(identify_icc_profile(&profile), None);
    assert_eq!(identify_icc_profile(b"too short"), None);
}

#[test]
fn identification_ignores_case_and_nul_bytes() {
    let mut icc = vec![0u8; 40];
    icc[36..40].copy_from_slice(b"acsp");
    icc.extend_from_slice(b"P\0r\0o\0P\0h\0o\0t\0o");
    assert_eq!(identify_icc_profile(&icc), Some(ColorSpaceId::ProPhotoRgb));
    let mut aces = vec![0u8; 40];
    aces[36..40].copy_from_slice(b"acsp");
    aces.extend_from_slice(b"ACES AP0 linear");
    assert_eq!(identify_icc_profile(&aces), Some(ColorSpaceId::Aces2065));
}

#[test]
fn working_space_names_are_trimmed_and_case_insensitive() {
    assert_eq!(parse_working_space("  Linear-sRGB \n"), Some(WorkingSpaceId::LinearSRgb));
    assert_eq!(parse_working_space("P3"), Some(WorkingSpaceId::LinearDisplayP3));
    assert_eq!(parse_working_space("adobe-rgb-1998"), Some(WorkingSpaceId::LinearAdobeRgb));
    assert_eq!(parse_working_space("rec.2020"), Some(WorkingSpaceId::LinearRec2020));
    assert_eq!(parse_working_space("prophoto"), Some(WorkingSpaceId::LinearProPhotoRgb));
    assert_eq!(parse_working_space("ACES-AP0"), Some(WorkingSpaceId::LinearAces));
    assert_eq!(parse_working_space("acescg"), Some(WorkingSpaceId::LinearAcesCg));
    assert_eq!(parse_working_space("romm-rgb"), None);
    assert_eq!(parse_working_space(""), None);
}

#[test]
fn canonical_working_space_round_trips() {
    assert_eq!(canonical_working_space(" SRGB "), Some("linear-srgb"));
    assert_eq!(canonical_working_space("aces2065"), Some("linear-aces"));
    for value in ["srgb", "p3", "adobergb", "bt2020", "prophoto-rgb", "aces", "aces-ap1"] {
        let canonical = canonical_working_space(value).unwrap();
        assert_eq!(canonical_working_space(canonical), Some(canonical));
    }
    assert_eq!(canonical_working_space("nope"), None);
}

#[test]
fn output_space_names_and_canonical_forms() {
    assert_eq!(parse_output_space("S-RGB"), Some(ColorSpaceId::SRgb));
    assert_eq!(parse_output_space("romm-rgb"), Some(ColorSpaceId::ProPhotoRgb));
    assert_eq!(parse_output_space("aces-ap1"), Some(ColorSpaceId::AcesCg));
    assert_eq!(parse_output_space("aces"), Some(ColorSpaceId::Aces2065));
    assert_eq!(parse_output_space("linear-srgb"), None);
    assert_eq!(canonical_output_space("Display-P3"), Some("display-p3"));
    assert_eq!(canonical_output_space("adobergb"), Some("adobe-rgb"));
    for value in ["srgb", "p3", "adobe-rgb-1998", "rec2020", "prophoto", "acescg", "aces2065"] {
        let canonical = canonical_output_space(value).unwrap();
        assert_eq!(canonical_output_space(canonical), Some(canonical));
    }
}

#[test]
fn libraw_codes_follow_the_documented_values() {
    assert_eq!(libraw_output_color("linear-srgb"), Ok(1));
    assert_eq!(libraw_output_color("adobe-rgb"), Ok(2));
    assert_eq!(libraw_output_color("prophoto"), Ok(4));
    assert_eq!(libraw_output_color("aces"), Ok(6));
    assert_eq!(libraw_output_color("p3"), Ok(6));
    assert_eq!(
        libraw_output_color("cmyk"),
        Err("Unsupported RAW working color space: cmyk".to_string())
    );
    assert_eq!(libraw_native_profile(1), ColorSpaceId::SRgb);
    assert_eq!(libraw_native_profile(2), ColorSpaceId::AdobeRgb);
    assert_eq!(libraw_native_profile(4), ColorSpaceId::ProPhotoRgbD65);
    assert_eq!(libraw_native_profile(6), ColorSpaceId::Aces2065);
    assert_eq!(libraw_native_profile(5), ColorSpaceId::SRgb);
}

#[test]
fn aces_conversion_is_needed_only_without_a_native_matrix() {
    assert!(working_requires_aces_conversion("linear-display-p3"));
    assert!(working_requires_aces_conversion("bt2020"));
    assert!(working_requires_aces_conversion("acescg"));
    assert!(!working_requires_aces_conversion("aces"));
    assert!(!working_requires_aces_conversion("srgb"));
    assert!(!working_requires_aces_conversion("unknown"));
    assert_eq!(working_profile(WorkingSpaceId::LinearAces), ColorSpaceId::Aces2065);
    assert_eq!(working_profile(WorkingSpaceId::LinearProPhotoRgb), ColorSpaceId::ProPhotoRgb);
}

#[test]
fn profile_names_and_trimming() {
    assert_eq!(profile_name(ColorSpaceId::SRgb), "sRGB IEC 61966-2.1");
    assert_eq!(profile_name(ColorSpaceId::AcesCg), "ACEScg (AP1)");
    assert_eq!(trim("\u{3000} x y \t"), "x y");
    assert_eq!(trim("   "), "");
}

#[test]
fn a_profile_whose_curve_spells_a_name_tried_first_is_recognised_as_that_space() {
    // The curve samples 0x3230, 0x3230 read as the text "2020", which the
    // search tries before the sRGB name; every other sRGB profile reads back
    // as sRGB.
    let mut spelled = colorimetry(ColorSpaceId::SRgb);
    spelled.tone_curve = vec![0x3230, 0x3230];
    let profile = build_icc_profile(ColorSpaceId::SRgb, &spelled);
    assert_eq!(identify_icc_profile(&profile), Some(ColorSpaceId::Rec2020));
    let mut linear = colorimetry(ColorSpaceId::SRgb);
    linear.tone_curve = Vec::new();
    assert_eq!(identify_icc_profile(&build_icc_profile(ColorSpaceId::SRgb, &linear)), Some(ColorSpaceId::SRgb));
    // LibRaw's ProPhoto D65 carries the ProPhoto name.
    assert_eq!(
        identify_icc_profile(&build_icc_profile(ColorSpaceId::ProPhotoRgbD65, &colorimetry(ColorSpaceId::ProPhotoRgb))),
        Some(ColorSpaceId::ProPhotoRgb)
    );
}
