use nexfilm_engine::calibration_fit::{
    fit_validation_error, plan_capture_separation, CalibrationMeasurementSet, CalibrationPatch,
    FitOptionChecks, FitPlan, ReferenceDomain, StoredFitFacts, FIT_PIPELINE_ORDER,
};
use nexfilm_engine::digest::sha256_hex;

fn patch(id: &str, validation: bool) -> CalibrationPatch {
    CalibrationPatch {
        patch_id: id.to_string(),
        reference_domain: ReferenceDomain::TransmissionRgb,
        validation,
        saturated: false,
        bad_pixel: false,
        outlier: false,
        values_finite: true,
        target_positive: true,
    }
}

fn measurements(patches: Vec<CalibrationPatch>) -> CalibrationMeasurementSet {
    CalibrationMeasurementSet {
        dark_frame: "dark".into(),
        open_frame: "open".into(),
        flat_frame: None,
        target_frame: "target".into(),
        patches,
        camera_model: "camera".into(),
        scanner_model: None,
        light_source: "light".into(),
        resolution: Some(4000),
        crop_geometry: "crop".into(),
        raw_decode_version: "9".into(),
        input_digest: "digest".into(),
        quality_mask_digest: "mask".into(),
    }
}

fn options(fit_offset: bool) -> FitOptionChecks {
    FitOptionChecks { condition_limit_valid: true, validation_limit_valid: true, fit_offset }
}

fn six_patches() -> Vec<CalibrationPatch> {
    let mut patches: Vec<CalibrationPatch> =
        ["a", "b", "c", "d"].iter().map(|id| patch(id, false)).collect();
    let mut saturated = patch("e", false);
    saturated.saturated = true;
    patches.insert(2, saturated);
    patches.push(patch("v", true));
    patches
}

#[test]
fn the_plan_splits_training_validation_and_rejected_patches() {
    let plan = plan_capture_separation(&measurements(six_patches()), options(false)).unwrap();
    assert_eq!(
        plan,
        FitPlan { training: vec![0, 1, 3, 4], validation: vec![5], rejected: 1, parameter_count: 3 }
    );
}

#[test]
fn an_offset_fit_needs_five_training_patches() {
    assert_eq!(
        plan_capture_separation(&measurements(six_patches()), options(true)).unwrap_err(),
        "fit_insufficient_training_patches|need=5|actual=4"
    );
}

#[test]
fn a_negative_target_is_set_aside_rather_than_refused() {
    let mut patches = six_patches();
    patches[0].target_positive = false;
    assert_eq!(
        plan_capture_separation(&measurements(patches), options(false)).unwrap_err(),
        "fit_insufficient_training_patches|need=4|actual=3"
    );
}

#[test]
fn incomplete_measurement_sets_name_the_missing_field() {
    let mut set = measurements(six_patches());
    set.dark_frame = " ".into();
    assert_eq!(set.validate().unwrap_err(), "measurement_dark_frame_missing");
    let mut set = measurements(six_patches());
    set.input_digest = String::new();
    assert_eq!(set.validate().unwrap_err(), "measurement_input_digest_missing");
    let mut set = measurements(six_patches());
    set.flat_frame = Some("  ".into());
    assert_eq!(set.validate().unwrap_err(), "measurement_flat_frame_invalid");
    let mut set = measurements(six_patches());
    set.quality_mask_digest = String::new();
    assert_eq!(set.validate().unwrap_err(), "measurement_quality_mask_digest_missing");
    assert_eq!(measurements(Vec::new()).validate().unwrap_err(), "measurement_patches_missing");
    let mut patches = six_patches();
    patches[3].patch_id = "\t".into();
    assert_eq!(measurements(patches).validate().unwrap_err(), "measurement_patch_id_missing");
    assert!(measurements(six_patches()).validate().is_ok());
}

#[test]
fn domains_and_limits_are_checked_before_fitting() {
    let mut checks = options(false);
    checks.condition_limit_valid = false;
    assert_eq!(
        plan_capture_separation(&measurements(six_patches()), checks).unwrap_err(),
        "fit_condition_limit_invalid"
    );
    let mut checks = options(false);
    checks.validation_limit_valid = false;
    assert_eq!(
        plan_capture_separation(&measurements(six_patches()), checks).unwrap_err(),
        "fit_validation_limit_invalid"
    );
    let mut mixed = six_patches();
    mixed[4].reference_domain = ReferenceDomain::DensityRgb;
    assert_eq!(
        plan_capture_separation(&measurements(mixed), options(false)).unwrap_err(),
        "fit_reference_domains_mixed"
    );
    // The saturated patch does not count towards mixing.
    let mut ignored = six_patches();
    ignored[2].reference_domain = ReferenceDomain::DensityRgb;
    assert!(plan_capture_separation(&measurements(ignored), options(false)).is_ok());
    let mut pcs = six_patches();
    for p in pcs.iter_mut() {
        p.reference_domain = ReferenceDomain::PcsXyzIccRgb;
    }
    assert_eq!(
        plan_capture_separation(&measurements(pcs), options(false)).unwrap_err(),
        "pcs_reference_is_not_density_calibration"
    );
    let mut native = six_patches();
    for p in native.iter_mut() {
        p.reference_domain = ReferenceDomain::CameraNativeTransmissionRgb;
    }
    assert_eq!(
        plan_capture_separation(&measurements(native), options(false)).unwrap_err(),
        "camera_native_reference_is_not_target_domain"
    );
}

#[test]
fn fits_need_valid_and_validation_patches() {
    let mut none_valid = six_patches();
    for p in none_valid.iter_mut() {
        p.outlier = true;
    }
    assert_eq!(
        plan_capture_separation(&measurements(none_valid), options(false)).unwrap_err(),
        "fit_no_valid_patches"
    );
    let mut no_validation = six_patches();
    no_validation.pop();
    assert_eq!(
        plan_capture_separation(&measurements(no_validation), options(false)).unwrap_err(),
        "fit_validation_patches_missing"
    );
}

#[test]
fn every_patch_is_trained_validated_or_set_aside_once() {
    let mut patches = six_patches();
    patches.push(patch("w", true));
    let mut outlier = patch("x", false);
    outlier.outlier = true;
    patches.push(outlier);
    let count = patches.len();
    let plan = plan_capture_separation(&measurements(patches), options(false)).unwrap();
    assert_eq!(plan.training.len() + plan.validation.len() + plan.rejected, count);
    assert_eq!(plan.validation, vec![5, 6]);
}

fn stored_fit(digest: &str) -> StoredFitFacts {
    StoredFitFacts {
        source_domain: ReferenceDomain::CameraNativeTransmissionRgb,
        target_domain: ReferenceDomain::TransmissionRgb,
        pipeline_order: FIT_PIPELINE_ORDER.to_string(),
        measurement_digest: digest.to_string(),
        coefficients_finite: true,
        rank: 3,
        condition_within_limit: true,
        training_patch_count: 4,
        validation_patch_count: 1,
        errors_within_limit: true,
        preserves_positive_unit_transmission: true,
    }
}

#[test]
fn a_stored_fit_is_checked_against_its_measurements_and_its_model() {
    let set = measurements(six_patches());
    let json = b"{\"measurements\":1}".to_vec();
    let digest = sha256_hex(&json);
    let fit = stored_fit(&digest);
    // No fit, nothing to check.
    assert_eq!(fit_validation_error(None, None, None), None);
    assert_eq!(fit_validation_error(Some(&fit), Some(&set), Some(&json)), None);
    assert_eq!(fit_validation_error(Some(&fit), None, Some(&json)), Some("capture_fit_measurements_missing"));
    // A digest of other bytes, or none at all, does not vouch for the measurements.
    assert_eq!(
        fit_validation_error(Some(&fit), Some(&set), Some(b"other")),
        Some("capture_fit_measurements_invalid")
    );
    assert_eq!(fit_validation_error(Some(&fit), Some(&set), None), Some("capture_fit_measurements_invalid"));
    let mut broken = measurements(six_patches());
    broken.dark_frame = " ".into();
    assert_eq!(
        fit_validation_error(Some(&fit), Some(&broken), Some(&json)),
        Some("capture_fit_measurements_invalid")
    );
    let mut low_rank = stored_fit(&digest);
    low_rank.rank = 2;
    assert_eq!(fit_validation_error(Some(&low_rank), Some(&set), Some(&json)), Some("capture_fit_model_invalid"));
    let mut reordered = stored_fit(&digest);
    reordered.pipeline_order = "capture_separation->capture_correction->log10".to_string();
    assert_eq!(fit_validation_error(Some(&reordered), Some(&set), Some(&json)), Some("capture_fit_model_invalid"));
    let mut unvalidated = stored_fit(&digest);
    unvalidated.validation_patch_count = 0;
    assert_eq!(fit_validation_error(Some(&unvalidated), Some(&set), Some(&json)), Some("capture_fit_model_invalid"));
}
