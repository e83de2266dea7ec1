use nexfilm_engine::app_state::{preferred_thumbnail, thumbnail_kind};
use nexfilm_engine::digest::sha256_hex;
use nexfilm_engine::raw_backend::{
    validate_reference_compatibility, CfaPattern, MetadataComparison, QualityFlag, ReferenceMetadata,
};
use nexfilm_engine::scanner_profile::{
    accept_local_profile, record_is_current, ScannerInputProfile, ScannerProfileConfidence,
    ScannerProfileRecord, ScannerProfileTarget,
};

const ONE: u32 = 0x3f80_0000;

fn profile() -> ScannerInputProfile {
    ScannerInputProfile {
        profile_id: String::new(),
        manufacturer: "Fixture".into(),
        model: "Scanner 1".into(),
        driver_software: "driver".into(),
        resolution: 4000,
        bit_depth: 16,
        positive_negative_mode: "negative".into(),
        infrared: false,
        multi_exposure: false,
        lamp_holder: "holder".into(),
        file_transfer_curve: "linear".into(),
        crop_geometry: "full".into(),
        input_encoding: "linear_rgb".into(),
        icc_digest: "digest".into(),
        config_digest: String::new(),
        profile_source: "local".into(),
        license: "internal".into(),
        verified: false,
        confidence: ScannerProfileConfidence::Estimated,
        target: ScannerProfileTarget::LinearRgb,
        compatible_film_class: "colour-negative".into(),
        matrix: [[ONE, 0, 0], [0, ONE, 0], [0, 0, ONE]],
        offset: [0; 3],
    }
}

#[test]
fn estimate_is_not_density() {
    assert_eq!(profile().capability_label(), "Scanner Input Estimate");
}

#[test]
fn unsupported_encoding_and_pcs_are_rejected() {
    let mut p = profile();
    p.input_encoding = "jpeg_srgb".into();
    assert_eq!(p.validate().unwrap_err(), "scanner_profile_input_encoding_unsupported");
    let mut p = profile();
    p.target = ScannerProfileTarget::Pcs;
    assert_eq!(p.validate().unwrap_err(), "scanner_profile_target_space_unsupported");
}

#[test]
fn invalid_verified_profile_is_rejected() {
    let mut p = profile();
    p.verified = true;
    assert!(p.validate().is_err());
}

#[test]
fn characterized_verified_profile_is_labelled_characterized() {
    let mut p = profile();
    p.verified = true;
    p.confidence = ScannerProfileConfidence::Characterized;
    assert!(p.validate().is_ok());
    assert_eq!(p.capability_label(), "Scanner Input Characterized");
}

#[test]
fn blank_fields_and_bad_transforms_are_named() {
    let mut p = profile();
    p.model = "   ".into();
    assert_eq!(p.validate().unwrap_err(), "scanner_profile_model_missing");
    let mut p = profile();
    p.bit_depth = 0;
    assert_eq!(p.validate().unwrap_err(), "scanner_profile_dimensions_invalid");
    let mut p = profile();
    p.offset[1] = f32::NAN.to_bits();
    assert_eq!(p.validate().unwrap_err(), "scanner_profile_transform_non_finite");
    let mut p = profile();
    p.input_encoding = "  LINEAR_RGB ".into();
    assert!(p.validate().is_ok());
}

#[test]
fn a_profile_bound_by_its_config_digest_is_accepted() {
    let canonical = b"{\"canonical\":true}".to_vec();
    let file = b"{\"whole\":\"file\"}".to_vec();
    let mut p = profile();
    p.config_digest = sha256_hex(&canonical);
    let (accepted, digest) = accept_local_profile(p.clone(), &canonical, &file).unwrap();
    assert_eq!(accepted.config_digest, p.config_digest);
    assert_eq!(accepted.icc_digest, "digest");
    assert_eq!(digest, sha256_hex(&file));

    let record = ScannerProfileRecord { profile: accepted, source_digest: digest, source_path: "scanner.json".into() };
    assert!(record_is_current(&record, Some(&file), &canonical));
    assert!(!record_is_current(&record, Some(b"{}"), &canonical));
    assert!(!record_is_current(&record, None, &canonical));
    assert!(!record_is_current(&record, Some(&file), b"changed"));
}

#[test]
fn a_digest_in_the_icc_field_becomes_an_unbound_icc() {
    let canonical = b"canonical".to_vec();
    let mut p = profile();
    p.icc_digest = sha256_hex(&canonical);
    let (accepted, _) = accept_local_profile(p, &canonical, b"file").unwrap();
    assert_eq!(accepted.icc_digest, "unbound");
    assert_eq!(accepted.config_digest, sha256_hex(&canonical));
}

#[test]
fn mismatched_digests_are_refused() {
    let mut p = profile();
    p.config_digest = "0000".into();
    assert_eq!(
        accept_local_profile(p, b"canonical", b"file").unwrap_err(),
        "scanner_profile_config_digest_mismatch"
    );
    assert_eq!(
        accept_local_profile(profile(), b"canonical", b"file").unwrap_err(),
        "scanner_profile_digest_mismatch"
    );
    let mut p = profile();
    p.target = ScannerProfileTarget::Pcs;
    assert_eq!(
        accept_local_profile(p, b"canonical", b"file").unwrap_err(),
        "scanner_profile_target_space_unsupported"
    );
}

fn metadata() -> ReferenceMetadata {
    ReferenceMetadata {
        cfa: CfaPattern::Bayer { filters: 0x94949494 },
        active_area: [0, 0, 4, 4],
        camera_id: "test|camera".to_string(),
    }
}

#[test]
fn reference_checks_cover_real_raw_exposure_iso_camera_and_geometry() {
    let sample = metadata();
    let mut reference = metadata();
    // ISO 100 against 200 and 0.01 s against 0.02 s both differ.
    reference.camera_id = "other|camera".to_string();
    reference.active_area = [0, 0, 3, 4];
    let flags = validate_reference_compatibility(
        &sample,
        &reference,
        MetadataComparison::Differs,
        MetadataComparison::Differs,
    )
    .unwrap_err();
    for expected in [
        QualityFlag::IsoMismatch,
        QualityFlag::ExposureMismatch,
        QualityFlag::CameraMismatch,
        QualityFlag::GeometryMismatch,
    ] {
        assert!(flags.contains(&expected), "missing {expected:?}");
    }
}

#[test]
fn a_matching_reference_raises_nothing_and_missing_metadata_is_flagged_once() {
    let sample = metadata();
    assert!(validate_reference_compatibility(&sample, &metadata(), MetadataComparison::Agrees, MetadataComparison::Agrees)
        .is_ok());
    let flags = validate_reference_compatibility(
        &sample,
        &metadata(),
        MetadataComparison::Missing,
        MetadataComparison::Missing,
    )
    .unwrap_err();
    assert_eq!(flags, vec![QualityFlag::MissingMetadata]);
    let mut xtrans = metadata();
    xtrans.cfa = CfaPattern::XTrans;
    let flags =
        validate_reference_compatibility(&sample, &xtrans, MetadataComparison::Agrees, MetadataComparison::Agrees)
            .unwrap_err();
    assert_eq!(flags, vec![QualityFlag::CfaMismatch]);
}

#[test]
fn the_rendered_thumbnail_wins_only_when_it_has_content() {
    let embedded = "embedded-data".to_string();
    let rendered = Some("rendered-data".to_string());
    assert_eq!(preferred_thumbnail(&embedded, &rendered), "rendered-data");
    assert_eq!(thumbnail_kind(&rendered), "rendered");
    let blank = Some(String::new());
    assert_eq!(preferred_thumbnail(&embedded, &blank), "embedded-data");
    assert_eq!(thumbnail_kind(&blank), "embedded");
    assert_eq!(preferred_thumbnail(&embedded, &None), "embedded-data");
    assert_eq!(thumbnail_kind(&None), "embedded");
}
