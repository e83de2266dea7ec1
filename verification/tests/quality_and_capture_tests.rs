use base64::Engine;
use nexfilm_engine::app_state::{
    capture_is_verified, capture_validation_error, CalibrationCapability,
    CalibrationPayloadIssuer, CalibrationQualityMaskArtifact, CalibrationQualityMaskSummary,
    CalibrationReferenceKind, CalibrationReferenceSummary, CalibrationValidationStatus,
    CaptureParameterFacts, CapturePayloadFacts, CALIBRATION_PROFILE_PAYLOAD_VERSION,
    CAPTURE_CORRECTION_ALGORITHM_VERSION, CAPTURE_DEMOSAIC_ALGORITHM_VERSION,
};
use nexfilm_engine::digest::{decode_base64, sha256_hex, to_hex};
use nexfilm_engine::persistence::session_payload_matches;
use nexfilm_engine::raw_backend::{QualityFlag, QualityFlags, QualityMask};
use sha2::Digest;

#[test]
fn quality_mask_counts_flags_and_valid_samples() {
    let mut mask = QualityMask::new(6);
    assert_eq!(mask.summary().valid_samples, 6);
    mask.invalidate(0, QualityFlag::NegativeSample);
    mask.invalidate(0, QualityFlag::SaturatedSample);
    mask.invalidate(2, QualityFlag::SaturatedReference);
    mask.invalidate(3, QualityFlag::CfaMismatch);
    mask.invalidate(3, QualityFlag::IsoMismatch);
    mask.invalidate(4, QualityFlag::BadPixel);
    mask.invalidate(99, QualityFlag::BadPixel);
    let summary = mask.summary();
    assert_eq!(summary.total_samples, 6);
    assert_eq!(summary.valid_samples, 2);
    assert_eq!(summary.negative_samples, 1);
    assert_eq!(summary.saturated_samples, 2);
    assert_eq!(summary.reference_mismatch, 2);
    assert_eq!(summary.bad_pixels, 1);
    assert_eq!(summary.invalid_denominator, 0);
    assert_eq!(
        mask.flags[0].flags(),
        vec![QualityFlag::NegativeSample, QualityFlag::SaturatedSample]
    );
    assert!(mask.flags[3].contains(&QualityFlag::CfaMismatch));
    assert!(!mask.flags[3].contains(&QualityFlag::BadPixel));
}

#[test]
fn flag_bits_follow_declaration_order() {
    let mut flags = QualityFlags::default();
    flags.insert(QualityFlag::DemosaicInsufficientNeighbors);
    assert_eq!(flags, QualityFlags(1 << 14));
    flags.insert(QualityFlag::InvalidDenominator);
    assert_eq!(flags.0, (1 << 14) | 1);
    assert_eq!(
        flags.flags(),
        vec![QualityFlag::InvalidDenominator, QualityFlag::DemosaicInsufficientNeighbors]
    );
}

#[test]
fn digests_are_lower_case_sha256_hex() {
    assert_eq!(
        sha256_hex(b"abc"),
        "ba7816bf8f01cfea414140de5dae2223b00361a396177a9cb410ff61f20015ad"
    );
    assert_eq!(to_hex(&[0x00, 0x0f, 0xa0, 0xff]), "000fa0ff");
    assert_eq!(decode_base64("aGVsbG8="), Some(b"hello".to_vec()));
    assert_eq!(decode_base64("not base64!"), None);
}

fn facts() -> CapturePayloadFacts {
    let json = br#"{"payload_version":2}"#.to_vec();
    let payload_digest = format!("{:x}", sha2::Sha256::digest(&json));
    let mask = vec![0b0000_0100u8, 0];
    let mask_digest = format!("{:x}", sha2::Sha256::digest(&mask));
    CapturePayloadFacts {
        payload_version: CALIBRATION_PROFILE_PAYLOAD_VERSION,
        issuer: CalibrationPayloadIssuer::BackendCalibrationSession,
        calibration_session_id: Some("session-1".to_string()),
        payload_digest,
        canonical_json: Some(json),
        hardware_fingerprint: "scanner-a".to_string(),
        raw_decode_version: Some(9),
        libraw_version: "0.21.2".to_string(),
        reference_frames: vec![
            CalibrationReferenceSummary {
                reference_id: "dark".to_string(),
                kind: CalibrationReferenceKind::DarkFrame,
                content_digest: "d1".to_string(),
                raw_metadata_digest: "m1".to_string(),
            },
            CalibrationReferenceSummary {
                reference_id: "open".to_string(),
                kind: CalibrationReferenceKind::OpenGate,
                content_digest: "d2".to_string(),
                raw_metadata_digest: "m2".to_string(),
            },
        ],
        capture_parameters: Some(CaptureParameterFacts {
            correction_algorithm: CAPTURE_CORRECTION_ALGORITHM_VERSION.to_string(),
            demosaic_algorithm: CAPTURE_DEMOSAIC_ALGORITHM_VERSION.to_string(),
            epsilon_matches: true,
            light_source_id: "led-panel".to_string(),
            geometry_fingerprint: "geometry".to_string(),
        }),
        quality_mask: Some(CalibrationQualityMaskSummary {
            total_samples: 12,
            valid_samples: 11,
            invalid_denominator: 1,
            negative_samples: 0,
            saturated_samples: 0,
            bad_pixels: 0,
            out_of_range: 0,
            bad_pixel_indices: vec![2],
            mask_artifact_digest: mask_digest,
        }),
        mask_artifact: Some(CalibrationQualityMaskArtifact {
            encoding: "invalid_bitset_le_v1".to_string(),
            sample_count: 12,
            data_base64: base64::engine::general_purpose::STANDARD.encode(&mask),
        }),
        valid_range_ok: Some(true),
        capabilities: vec![CalibrationCapability::CaptureCorrected],
        validation_status: Some(CalibrationValidationStatus::Passed),
    }
}

#[test]
fn a_complete_capture_payload_is_verified() {
    assert_eq!(capture_validation_error(&facts(), 9), None);
    assert!(capture_is_verified(&facts(), 9));
}

#[test]
fn each_capture_check_reports_its_own_reason() {
    let mut version = facts();
    version.payload_version = 1;
    assert_eq!(capture_validation_error(&version, 9), Some("capture_payload_version_unsupported"));

    let mut session = facts();
    session.calibration_session_id = Some(String::new());
    assert_eq!(capture_validation_error(&session, 9), Some("capture_payload_not_backend_issued"));

    let mut tampered = facts();
    tampered.canonical_json = Some(br#"{"payload_version":3}"#.to_vec());
    assert_eq!(capture_validation_error(&tampered, 9), Some("capture_payload_digest_mismatch"));

    let mut capability = facts();
    capability.capabilities = vec![CalibrationCapability::MeasuredDensity];
    assert_eq!(capture_validation_error(&capability, 9), Some("capture_capability_missing"));

    let mut failed = facts();
    failed.validation_status = Some(CalibrationValidationStatus::Failed);
    assert_eq!(capture_validation_error(&failed, 9), Some("capture_validation_not_passed"));

    let mut hardware = facts();
    hardware.hardware_fingerprint = "  ".to_string();
    assert_eq!(capture_validation_error(&hardware, 9), Some("capture_hardware_fingerprint_missing"));

    assert_eq!(capture_validation_error(&facts(), 10), Some("capture_raw_decode_version_mismatch"));

    let mut epsilon = facts();
    epsilon.capture_parameters.as_mut().unwrap().epsilon_matches = false;
    assert_eq!(capture_validation_error(&epsilon, 9), Some("capture_parameters_invalid"));

    let mut references = facts();
    references.reference_frames.pop();
    assert_eq!(capture_validation_error(&references, 9), Some("capture_reference_summary_incomplete"));

    let mut quality = facts();
    quality.quality_mask.as_mut().unwrap().bad_pixel_indices = vec![12];
    assert_eq!(capture_validation_error(&quality, 9), Some("capture_quality_mask_invalid"));

    let mut encoding = facts();
    encoding.mask_artifact.as_mut().unwrap().data_base64 = "%%%".to_string();
    assert_eq!(capture_validation_error(&encoding, 9), Some("capture_quality_mask_artifact_invalid"));

    let mut mask = facts();
    mask.mask_artifact.as_mut().unwrap().data_base64 =
        base64::engine::general_purpose::STANDARD.encode([0u8, 0]);
    assert_eq!(capture_validation_error(&mask, 9), Some("capture_quality_mask_digest_mismatch"));

    let mut range = facts();
    range.valid_range_ok = None;
    assert_eq!(capture_validation_error(&range, 9), Some("capture_valid_range_missing"));
    range.valid_range_ok = Some(false);
    assert_eq!(capture_validation_error(&range, 9), Some("capture_valid_range_invalid"));
}

#[test]
fn a_passed_session_vouches_only_for_its_own_verified_digest() {
    let session = facts();
    let digest = session.payload_digest.clone();
    assert!(session_payload_matches(&Some(session.clone()), &digest, 9));
    assert!(!session_payload_matches(&None, &digest, 9));
    assert!(!session_payload_matches(&Some(session.clone()), "0000", 9));
    // The same digest no longer vouches once the decoder changed.
    assert!(!session_payload_matches(&Some(session.clone()), &digest, 10));
    let mut tampered = session;
    tampered.canonical_json = Some(b"{}".to_vec());
    assert!(!session_payload_matches(&Some(tampered), &digest, 9));
}
