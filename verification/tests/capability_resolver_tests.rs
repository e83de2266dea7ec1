use nexfilm_engine::app_state::{
    DataDomain, DensityAnchor, DensityAnchorConfidence, DensityAnchorProvenance,
    DensityAnchorScope, DensityAnchorSource, DensityAnchors, PipelineStageStatus,
    ProcessingContract, DENSITY_ANCHOR_ALGORITHM_VERSION,
};
use nexfilm_engine::capability_resolver::{
    resolve_pipeline, PipelineImageKind, PipelineResolverInput, ResolverProfile,
};

fn anchor(domain: DataDomain, profile: Option<&ResolverProfile>) -> DensityAnchor {
    DensityAnchor {
        density: [0.1f32.to_bits(), 0.2f32.to_bits(), 0.3f32.to_bits()],
        source: DensityAnchorSource::SampledFilmBase,
        scope: DensityAnchorScope::Roll,
        confidence: DensityAnchorConfidence::UserSampled,
        reference_id: Some("reference.raw".to_string()),
        provenance: DensityAnchorProvenance {
            input_domain: domain,
            calibration_profile_id: profile.map(|profile| profile.profile_id.clone()),
            calibration_payload_digest: profile.map(|profile| profile.payload_digest.clone()),
            raw_decode_version: Some(9),
            algorithm_version: DENSITY_ANCHOR_ALGORITHM_VERSION.to_string(),
            legacy: false,
        },
    }
}

fn profile() -> ResolverProfile {
    ResolverProfile {
        profile_id: "profile-a".to_string(),
        payload_digest: "payload-a".to_string(),
        available: true,
        capture_validation_error: None,
        has_dark: true,
        has_open_gate: true,
        has_flat: false,
    }
}

fn input(profile: Option<ResolverProfile>) -> PipelineResolverInput {
    PipelineResolverInput {
        persisted_contract: ProcessingContract::SmartAutoProPhotoV11,
        roll_profile_id: profile.as_ref().map(|profile| profile.profile_id.clone()),
        profile,
        image_kind: PipelineImageKind::RawBayer,
        density_anchors: DensityAnchors::default(),
        raw_decode_version: 9,
        runtime_failure: None,
    }
}

#[test]
fn prophoto_anchor_never_enters_capture_corrected() {
    let profile = profile();
    let mut input = input(Some(profile.clone()));
    input.density_anchors.d_min_base = Some(anchor(DataDomain::ProPhotoEstimate, None));
    let result = resolve_pipeline(&input);
    assert_eq!(result.resolved_path, ProcessingContract::CaptureCorrectedV11);
    assert!(result.usable_density_anchors.d_min_base.is_none());
    assert!(result.rejected_anchor_reasons[0].contains("anchor_input_domain_mismatch"));
}

#[test]
fn same_profile_and_domain_anchor_is_usable() {
    let profile = profile();
    let mut input = input(Some(profile.clone()));
    input.density_anchors.d_min_base =
        Some(anchor(DataDomain::RelativeTransmissionRgb, Some(&profile)));
    let result = resolve_pipeline(&input);
    assert!(result.usable_density_anchors.d_min_base.is_some());
    assert!(result.rejected_anchor_reasons.is_empty());
}

#[test]
fn no_profile_missing_reference_and_xtrans_fall_back() {
    let no_profile = resolve_pipeline(&input(None));
    assert_eq!(no_profile.resolved_path, ProcessingContract::SmartAutoProPhotoV11);

    let mut missing = profile();
    missing.has_open_gate = false;
    let missing = resolve_pipeline(&input(Some(missing)));
    assert!(missing.processing_report.fallback_reasons[0].contains("open_gate_reference_missing"));

    let mut xtrans = input(Some(profile()));
    xtrans.image_kind = PipelineImageKind::RawXTrans;
    assert!(resolve_pipeline(&xtrans).processing_report.fallback_reasons[0]
        .contains("xtrans_not_supported"));
}

#[test]
fn flat_is_optional_and_reported_as_not_applied() {
    let result = resolve_pipeline(&input(Some(profile())));
    assert_eq!(result.resolved_path, ProcessingContract::CaptureCorrectedV11);
    assert_eq!(result.flat.status, PipelineStageStatus::Unavailable);
    assert_eq!(result.flat.detail, "optional_flat_not_available");
}

#[test]
fn runtime_failure_is_non_sticky_and_recovers() {
    let original = input(Some(profile()));
    let mut failed = original.clone();
    failed.runtime_failure = Some("temporary_decode_error".to_string());
    assert_ne!(resolve_pipeline(&failed).resolved_path, ProcessingContract::CaptureCorrectedV11);
    assert_eq!(resolve_pipeline(&original).resolved_path, ProcessingContract::CaptureCorrectedV11);
    assert_eq!(original.roll_profile_id.as_deref(), Some("profile-a"));
}

#[test]
fn payload_digest_failure_falls_back_and_recovery_restores_capture() {
    let valid = input(Some(profile()));
    let mut changed_profile = profile();
    changed_profile.capture_validation_error = Some("capture_payload_digest_mismatch".to_string());
    let changed = input(Some(changed_profile));

    let fallback = resolve_pipeline(&changed);
    assert_eq!(fallback.requested_path, ProcessingContract::CaptureCorrectedV11);
    assert_eq!(fallback.resolved_path, ProcessingContract::SmartAutoProPhotoV11);
    assert!(fallback.processing_report.fallback_reasons[0].contains("capture_payload_digest_mismatch"));
    assert_eq!(resolve_pipeline(&valid).resolved_path, ProcessingContract::CaptureCorrectedV11);
}

#[test]
fn legacy_contract_is_kept_as_requested() {
    let mut legacy = input(Some(profile()));
    legacy.persisted_contract = ProcessingContract::LegacyV1;
    let result = resolve_pipeline(&legacy);
    assert_eq!(result.requested_path, ProcessingContract::LegacyV1);
    assert_eq!(result.resolved_path, ProcessingContract::LegacyV1);
}

#[test]
fn an_anchor_from_another_profile_is_rejected() {
    let profile = profile();
    let mut other = profile.clone();
    other.profile_id = "profile-b".to_string();
    let mut input = input(Some(profile));
    input.density_anchors.d_min_base =
        Some(anchor(DataDomain::RelativeTransmissionRgb, Some(&other)));
    let result = resolve_pipeline(&input);
    assert_eq!(result.resolved_path, ProcessingContract::CaptureCorrectedV11);
    assert!(result.usable_density_anchors.d_min_base.is_none());
    assert_eq!(result.rejected_anchor_reasons.len(), 1);
}

#[test]
fn retained_records_never_become_active_endpoints() {
    let profile = profile();
    let mut input = input(Some(profile.clone()));
    // A usable record sits only among the retained ones; the active endpoint
    // is from another domain.
    input.density_anchors.retained_records =
        vec![anchor(DataDomain::RelativeTransmissionRgb, Some(&profile))];
    input.density_anchors.d_min_base = Some(anchor(DataDomain::ProPhotoEstimate, None));
    let result = resolve_pipeline(&input);
    assert_eq!(result.resolved_path, ProcessingContract::CaptureCorrectedV11);
    assert!(result.usable_density_anchors.d_min_base.is_none());
    assert!(result.usable_density_anchors.d_max_full_exposure.is_none());
    assert!(result.usable_density_anchors.retained_records.is_empty());
}
