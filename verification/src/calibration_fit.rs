//! Measurement-backed Capture Separation fitting: which measurement sets are
//! complete, and which patches a fit trains and validates on.
//!
//! The least-squares solve itself is floating-point work done by the caller;
//! the checks on measured values (finite, positive) are evaluated by the
//! caller and recorded on each patch.
use vstd::prelude::*;
use crate::app_state::blank;
use crate::scanner_profile::first_blank_field;

verus! {

/// Smallest number of training patches any fit accepts.
pub const MIN_PATCHES: usize = 4;

#[derive(Debug, Clone, Copy, PartialEq, Eq, Structural)]
pub enum ReferenceDomain {
    CameraNativeTransmissionRgb,
    TransmissionRgb,
    DensityRgb,
    PcsXyzIccRgb,
}

#[derive(Debug, Clone, Copy, PartialEq, Eq, Structural)]
pub enum FitModelType {
    CaptureSeparation3x3,
}

/// One measured patch, as far as patch selection reads it.
#[derive(Debug, Clone)]
pub struct CalibrationPatch {
    pub patch_id: String,
    pub reference_domain: ReferenceDomain,
    pub validation: bool,
    pub saturated: bool,
    pub bad_pixel: bool,
    pub outlier: bool,
    /// Every capture transmission is finite and positive, every reference
    /// value finite, and the position (when recorded) finite.
    pub values_finite: bool,
    /// The reference, converted to transmission, is finite and positive in
    /// every channel (read only for transmission and density references).
    pub target_positive: bool,
}

/// A measurement set, as far as its completeness check and patch selection
/// read it.
#[derive(Debug, Clone)]
pub struct CalibrationMeasurementSet {
    pub dark_frame: String,
    pub open_frame: String,
    pub flat_frame: Option<String>,
    pub target_frame: String,
    pub patches: Vec<CalibrationPatch>,
    pub camera_model: String,
    pub scanner_model: Option<String>,
    pub light_source: String,
    pub resolution: Option<u32>,
    pub crop_geometry: String,
    pub raw_decode_version: String,
    pub input_digest: String,
    pub quality_mask_digest: String,
}

/// The descriptive fields a measurement set must fill, by name, in checking
/// order.
pub open spec fn required_measurement_fields(m: CalibrationMeasurementSet) -> Seq<(Seq<char>, Seq<char>)> {
    seq![
        ("dark_frame"@, m.dark_frame@),
        ("open_frame"@, m.open_frame@),
        ("target_frame"@, m.target_frame@),
        ("camera_model"@, m.camera_model@),
        ("light_source"@, m.light_source@),
        ("crop_geometry"@, m.crop_geometry@),
        ("raw_decode_version"@, m.raw_decode_version@),
        ("input_digest"@, m.input_digest@),
    ]
}

/// Some patch has a blank identifier.
pub open spec fn some_patch_id_blank(patches: Seq<CalibrationPatch>) -> bool {
    exists|i: int| 0 <= i < patches.len() && blank(#[trigger] patches[i].patch_id@)
}

/// Why a measurement set is incomplete, if it is, in checking order.
pub open spec fn measurement_refusal(m: CalibrationMeasurementSet) -> Option<Seq<char>> {
    match first_blank_field(required_measurement_fields(m)) {
        Some(name) => Some("measurement_"@ + name + "_missing"@),
        None => if m.flat_frame matches Some(flat) && blank(flat@) {
            Some("measurement_flat_frame_invalid"@)
        } else if blank(m.quality_mask_digest@) {
            Some("measurement_quality_mask_digest_missing"@)
        } else if m.patches@.len() == 0 {
            Some("measurement_patches_missing"@)
        } else if some_patch_id_blank(m.patches@) {
            Some("measurement_patch_id_missing"@)
        } else {
            None
        },
    }
}

fn check_field(name: &str, value: &str) -> (r: Option<String>)
    ensures
        match r {
            Some(m) => blank(value@) && m@ == "measurement_"@ + name@ + "_missing"@,
            None => !blank(value@),
        },
{
    if crate::app_state::is_blank(value) {
        let mut message = crate::text::joined("measurement_", name);
        message.append("_missing");
        Some(message)
    } else {
        None
    }
}

fn any_patch_id_blank(patches: &Vec<CalibrationPatch>) -> (r: bool)
    ensures
        r == some_patch_id_blank(patches@),
{
    let mut i: usize = 0;
    while i < patches.len()
        invariant
            i <= patches@.len(),
            forall|j: int| 0 <= j < i ==> !blank(#[trigger] patches@[j].patch_id@),
        decreases patches@.len() - i,
    {
        if crate::app_state::is_blank(patches[i].patch_id.as_str()) {
            assert(blank(patches@[i as int].patch_id@));
            return true;
        }
        i = i + 1;
    }
    false
}

impl CalibrationMeasurementSet {
    pub fn validate(&self) -> (r: Result<(), String>)
        ensures
            match measurement_refusal(*self) {
                Some(message) => r is Err && r->Err_0@ == message,
                None => r is Ok,
            },
    {
        let ghost fields = required_measurement_fields(*self);
        assert(fields.drop_first().drop_first().drop_first().drop_first().drop_first().drop_first().drop_first()
            .drop_first().len() == 0);
        reveal_with_fuel(first_blank_field, 9);
        match check_field("dark_frame", self.dark_frame.as_str()) {
            Some(m) => return Err(m),
            None => {},
        }
        match check_field("open_frame", self.open_frame.as_str()) {
            Some(m) => return Err(m),
            None => {},
        }
        match check_field("target_frame", self.target_frame.as_str()) {
            Some(m) => return Err(m),
            None => {},
        }
        match check_field("camera_model", self.camera_model.as_str()) {
            Some(m) => return Err(m),
            None => {},
        }
        match check_field("light_source", self.light_source.as_str()) {
            Some(m) => return Err(m),
            None => {},
        }
        match check_field("crop_geometry", self.crop_geometry.as_str()) {
            Some(m) => return Err(m),
            None => {},
        }
        match check_field("raw_decode_version", self.raw_decode_version.as_str()) {
            Some(m) => return Err(m),
            None => {},
        }
        match check_field("input_digest", self.input_digest.as_str()) {
            Some(m) => return Err(m),
            None => {},
        }
        match &self.flat_frame {
            Some(flat) => {
                if crate::app_state::is_blank(flat.as_str()) {
                    return Err(crate::text::owned("measurement_flat_frame_invalid"));
                }
            },
            None => {},
        }
        if crate::app_state::is_blank(self.quality_mask_digest.as_str()) {
            return Err(crate::text::owned("measurement_quality_mask_digest_missing"));
        }
        if self.patches.len() == 0 {
            return Err(crate::text::owned("measurement_patches_missing"));
        }
        if any_patch_id_blank(&self.patches) {
            return Err(crate::text::owned("measurement_patch_id_missing"));
        }
        Ok(())
    }
}

// ---------------------------------------------------------------------------
// Patch selection
// ---------------------------------------------------------------------------

/// A patch that may enter the fit at all.
pub open spec fn valid_patch(p: CalibrationPatch) -> bool {
    !p.saturated && !p.bad_pixel && !p.outlier && p.values_finite
}

/// A valid patch whose target transmission is usable.
pub open spec fn kept_patch(p: CalibrationPatch) -> bool {
    valid_patch(p) && p.target_positive
}

/// Indices, in order, of the first `n` patches that the fit trains on.
pub open spec fn training_upto(ps: Seq<CalibrationPatch>, n: int) -> Seq<usize>
    decreases n,
{
    if n <= 0 {
        Seq::empty()
    } else {
        let earlier = training_upto(ps, n - 1);
        if kept_patch(ps[n - 1]) && !ps[n - 1].validation {
            earlier.push((n - 1) as usize)
        } else {
            earlier
        }
    }
}

/// Indices, in order, of the first `n` patches that the fit validates on.
pub open spec fn validation_upto(ps: Seq<CalibrationPatch>, n: int) -> Seq<usize>
    decreases n,
{
    if n <= 0 {
        Seq::empty()
    } else {
        let earlier = validation_upto(ps, n - 1);
        if kept_patch(ps[n - 1]) && ps[n - 1].validation {
            earlier.push((n - 1) as usize)
        } else {
            earlier
        }
    }
}

/// How many of the first `n` patches the fit sets aside.
pub open spec fn rejected_upto(ps: Seq<CalibrationPatch>, n: int) -> nat
    decreases n,
{
    if n <= 0 {
        0
    } else {
        rejected_upto(ps, n - 1) + if kept_patch(ps[n - 1]) { 0nat } else { 1nat }
    }
}

/// The reference domain of the first valid patch at or after `i`.
pub open spec fn first_valid_domain_from(ps: Seq<CalibrationPatch>, i: int) -> Option<ReferenceDomain>
    decreases ps.len() - i,
{
    if i < 0 || i >= ps.len() {
        None
    } else if valid_patch(ps[i]) {
        Some(ps[i].reference_domain)
    } else {
        first_valid_domain_from(ps, i + 1)
    }
}

/// Some valid patch is referenced to a domain other than `domain`.
pub open spec fn domains_mixed(ps: Seq<CalibrationPatch>, domain: ReferenceDomain) -> bool {
    exists|i: int| 0 <= i < ps.len() && valid_patch(#[trigger] ps[i]) && ps[i].reference_domain != domain
}

/// Why references of `domain` cannot be turned into a target transmission.
pub open spec fn target_domain_refusal(domain: ReferenceDomain) -> Option<Seq<char>> {
    match domain {
        ReferenceDomain::CameraNativeTransmissionRgb => Some("camera_native_reference_is_not_target_domain"@),
        ReferenceDomain::PcsXyzIccRgb => Some("pcs_reference_is_not_density_calibration"@),
        _ => None,
    }
}

/// Parameters per output channel: three gains, and an offset when fitted.
pub open spec fn parameter_count(fit_offset: bool) -> nat {
    if fit_offset { 4 } else { 3 }
}

/// Training patches a fit needs: at least four, and one more than its
/// parameters.
pub open spec fn minimum_training_patches(fit_offset: bool) -> nat {
    if MIN_PATCHES >= parameter_count(fit_offset) + 1 {
        MIN_PATCHES as nat
    } else {
        parameter_count(fit_offset) + 1
    }
}

/// The options of a fit, with their numeric limits already checked by the
/// caller.
#[derive(Debug, Clone, Copy)]
pub struct FitOptionChecks {
    /// The condition-number limit is finite and above one.
    pub condition_limit_valid: bool,
    /// The validation error limit is finite and positive.
    pub validation_limit_valid: bool,
    pub fit_offset: bool,
}

/// The patches a fit runs on.
#[derive(Debug, Clone, PartialEq, Eq)]
pub struct FitPlan {
    pub training: Vec<usize>,
    pub validation: Vec<usize>,
    pub rejected: usize,
    pub parameter_count: usize,
}

/// Why a fit is refused before any arithmetic, if it is, in checking order.
pub open spec fn fit_refusal(m: CalibrationMeasurementSet, options: FitOptionChecks) -> Option<Seq<char>> {
    let ps = m.patches@;
    let n = ps.len() as int;
    let training = training_upto(ps, n).len();
    let minimum = minimum_training_patches(options.fit_offset);
    if measurement_refusal(m) is Some {
        measurement_refusal(m)
    } else if !options.condition_limit_valid {
        Some("fit_condition_limit_invalid"@)
    } else if !options.validation_limit_valid {
        Some("fit_validation_limit_invalid"@)
    } else {
        match first_valid_domain_from(ps, 0) {
            None => Some("fit_no_valid_patches"@),
            Some(domain) => if domains_mixed(ps, domain) {
                Some("fit_reference_domains_mixed"@)
            } else if target_domain_refusal(domain) is Some {
                target_domain_refusal(domain)
            } else if training < minimum {
                Some(
                    "fit_insufficient_training_patches|need="@ + crate::dng_writer::decimal(minimum)
                        + "|actual="@ + crate::dng_writer::decimal(training),
                )
            } else if validation_upto(ps, n).len() == 0 {
                Some("fit_validation_patches_missing"@)
            } else {
                None
            },
        }
    }
}

fn is_valid_patch(p: &CalibrationPatch) -> (r: bool)
    ensures
        r == valid_patch(*p),
{
    !p.saturated && !p.bad_pixel && !p.outlier && p.values_finite
}

/// The reference domain of the first valid patch.
fn first_valid_domain(ps: &Vec<CalibrationPatch>) -> (r: Option<ReferenceDomain>)
    ensures
        r == first_valid_domain_from(ps@, 0),
{
    let mut i: usize = 0;
    while i < ps.len()
        invariant
            i <= ps@.len(),
            first_valid_domain_from(ps@, 0) == first_valid_domain_from(ps@, i as int),
        decreases ps@.len() - i,
    {
        if is_valid_patch(&ps[i]) {
            return Some(ps[i].reference_domain);
        }
        i = i + 1;
    }
    None
}

fn any_other_domain(ps: &Vec<CalibrationPatch>, domain: ReferenceDomain) -> (r: bool)
    ensures
        r == domains_mixed(ps@, domain),
{
    let mut i: usize = 0;
    while i < ps.len()
        invariant
            i <= ps@.len(),
            forall|j: int| 0 <= j < i ==> !(valid_patch(#[trigger] ps@[j]) && ps@[j].reference_domain != domain),
        decreases ps@.len() - i,
    {
        if is_valid_patch(&ps[i]) && ps[i].reference_domain != domain {
            assert(valid_patch(ps@[i as int]) && ps@[i as int].reference_domain != domain);
            return true;
        }
        i = i + 1;
    }
    false
}

/// Decide which patches a Capture Separation fit trains on, which it
/// validates on and how many it sets aside, refusing the measurement set
/// exactly when `fit_refusal` says so.
pub fn plan_capture_separation(m: &CalibrationMeasurementSet, options: FitOptionChecks) -> (r: Result<FitPlan, String>)
    ensures
        match fit_refusal(*m, options) {
            Some(message) => r is Err && r->Err_0@ == message,
            None => r matches Ok(plan) && {
                &&& plan.training@ == training_upto(m.patches@, m.patches@.len() as int)
                &&& plan.validation@ == validation_upto(m.patches@, m.patches@.len() as int)
                &&& plan.rejected == rejected_upto(m.patches@, m.patches@.len() as int)
                &&& plan.parameter_count == parameter_count(options.fit_offset)
            },
        },
{
    match m.validate() {
        Err(message) => return Err(message),
        Ok(()) => {},
    }
    if !options.condition_limit_valid {
        return Err(crate::text::owned("fit_condition_limit_invalid"));
    }
    if !options.validation_limit_valid {
        return Err(crate::text::owned("fit_validation_limit_invalid"));
    }
    let ps = &m.patches;
    let domain = match first_valid_domain(ps) {
        None => return Err(crate::text::owned("fit_no_valid_patches")),
        Some(d) => d,
    };
    if any_other_domain(ps, domain) {
        return Err(crate::text::owned("fit_reference_domains_mixed"));
    }
    match domain {
        ReferenceDomain::CameraNativeTransmissionRgb => {
            return Err(crate::text::owned("camera_native_reference_is_not_target_domain"));
        },
        ReferenceDomain::PcsXyzIccRgb => {
            return Err(crate::text::owned("pcs_reference_is_not_density_calibration"));
        },
        _ => {},
    }
    let mut training: Vec<usize> = Vec::new();
    let mut validation: Vec<usize> = Vec::new();
    let mut rejected: usize = 0;
    let mut i: usize = 0;
    while i < ps.len()
        invariant
            i <= ps@.len(),
            training@ == training_upto(ps@, i as int),
            validation@ == validation_upto(ps@, i as int),
            rejected == rejected_upto(ps@, i as int),
            rejected <= i,
        decreases ps@.len() - i,
    {
        let p = &ps[i];
        if !(is_valid_patch(p) && p.target_positive) {
            rejected = rejected + 1;
        } else if p.validation {
            validation.push(i);
        } else {
            training.push(i);
        }
        i = i + 1;
    }
    let parameters: usize = if options.fit_offset { 4 } else { 3 };
    let minimum: usize = if MIN_PATCHES >= parameters + 1 { MIN_PATCHES } else { parameters + 1 };
    if training.len() < minimum {
        let mut message = crate::text::owned("fit_insufficient_training_patches|need=");
        crate::dng_writer::push_decimal(&mut message, minimum as u64);
        message.append("|actual=");
        crate::dng_writer::push_decimal(&mut message, training.len() as u64);
        return Err(message);
    }
    if validation.len() == 0 {
        return Err(crate::text::owned("fit_validation_patches_missing"));
    }
    Ok(FitPlan { training, validation, rejected, parameter_count: parameters })
}


/// Every patch of the first `n` is trained on, validated on, or set aside,
/// exactly one of the three; training and validation patches keep the
/// measurement set's order.
pub proof fn law_every_patch_is_placed_once(ps: Seq<CalibrationPatch>, n: int)
    requires
        0 <= n <= ps.len(),
        ps.len() <= usize::MAX,
    ensures
        training_upto(ps, n).len() + validation_upto(ps, n).len() + rejected_upto(ps, n) == n,
        forall|i: int| #![trigger training_upto(ps, n)[i]] 0 <= i < training_upto(ps, n).len() ==> {
            let k = training_upto(ps, n)[i] as int;
            &&& 0 <= k < n
            &&& kept_patch(ps[k])
            &&& !ps[k].validation
        },
        forall|i: int| #![trigger validation_upto(ps, n)[i]] 0 <= i < validation_upto(ps, n).len() ==> {
            let k = validation_upto(ps, n)[i] as int;
            &&& 0 <= k < n
            &&& kept_patch(ps[k])
            &&& ps[k].validation
        },
        forall|i: int, j: int| 0 <= i < j < training_upto(ps, n).len() ==> training_upto(ps, n)[i] < training_upto(ps, n)[j],
        forall|i: int, j: int| 0 <= i < j < validation_upto(ps, n).len() ==> validation_upto(ps, n)[i] < validation_upto(ps, n)[j],
    decreases n,
{
    if n > 0 {
        law_every_patch_is_placed_once(ps, n - 1);
    }
}

// ---------------------------------------------------------------------------
// Checking a stored fit
// ---------------------------------------------------------------------------

/// The pipeline order a stored fit must declare.
pub const FIT_PIPELINE_ORDER: &'static str = "capture_correction->capture_separation->log10";

/// What the check of a stored fit reads of its model. The checks on the
/// model's floating-point values are evaluated by the caller and recorded
/// here as their outcome.
#[derive(Debug, Clone)]
pub struct StoredFitFacts {
    pub source_domain: ReferenceDomain,
    pub target_domain: ReferenceDomain,
    pub pipeline_order: String,
    pub measurement_digest: String,
    /// Every matrix and offset coefficient is finite.
    pub coefficients_finite: bool,
    pub rank: usize,
    /// The condition number is finite and at most 1e5.
    pub condition_within_limit: bool,
    pub training_patch_count: usize,
    pub validation_patch_count: usize,
    /// The training, validation and per-channel errors are finite, and the
    /// validation error is at most 0.08.
    pub errors_within_limit: bool,
    /// The model keeps positive unit transmission positive.
    pub preserves_positive_unit_transmission: bool,
}

/// The fit model itself is unusable.
pub open spec fn stored_model_invalid(f: StoredFitFacts) -> bool {
    ||| f.source_domain != ReferenceDomain::CameraNativeTransmissionRgb
    ||| f.target_domain != ReferenceDomain::TransmissionRgb
    ||| f.pipeline_order@ != FIT_PIPELINE_ORDER@
    ||| blank(f.measurement_digest@)
    ||| !f.coefficients_finite
    ||| f.rank < 3
    ||| !f.condition_within_limit
    ||| f.training_patch_count < 4
    ||| f.validation_patch_count == 0
    ||| !f.errors_within_limit
    ||| !f.preserves_positive_unit_transmission
}

/// Why a payload's stored fit cannot be used, if it cannot: nothing when
/// there is no fit; then missing measurements; then measurements that do
/// not validate or whose digest (of `measurement_json`, their canonical
/// serialisation, when it could be made) is not the one the fit recorded;
/// then an unusable model.
pub open spec fn stored_fit_refusal(
    model: Option<StoredFitFacts>,
    measurements: Option<CalibrationMeasurementSet>,
    measurement_json: Option<Seq<u8>>,
) -> Option<&'static str> {
    match model {
        None => None,
        Some(f) => match measurements {
            None => Some("capture_fit_measurements_missing"),
            Some(m) => if measurement_refusal(m) is Some || (match measurement_json {
                Some(json) => crate::digest::hex_lower(crate::digest::sha256(json)) != f.measurement_digest@,
                None => true,
            }) {
                Some("capture_fit_measurements_invalid")
            } else if stored_model_invalid(f) {
                Some("capture_fit_model_invalid")
            } else {
                None
            },
        },
    }
}

fn model_invalid(f: &StoredFitFacts) -> (r: bool)
    ensures
        r == stored_model_invalid(*f),
{
    f.source_domain != ReferenceDomain::CameraNativeTransmissionRgb || f.target_domain
        != ReferenceDomain::TransmissionRgb || !crate::text::str_eq(f.pipeline_order.as_str(), FIT_PIPELINE_ORDER)
        || crate::app_state::is_blank(f.measurement_digest.as_str()) || !f.coefficients_finite || f.rank < 3
        || !f.condition_within_limit || f.training_patch_count < 4 || f.validation_patch_count == 0
        || !f.errors_within_limit || !f.preserves_positive_unit_transmission
}

/// Why a payload's stored fit cannot be used with its measurements, if it
/// cannot.
pub fn fit_validation_error(
    model: Option<&StoredFitFacts>,
    measurements: Option<&CalibrationMeasurementSet>,
    measurement_json: Option<&[u8]>,
) -> (r: Option<&'static str>)
    ensures
        r == stored_fit_refusal(
            match model {
                Some(f) => Some(*f),
                None => None,
            },
            match measurements {
                Some(m) => Some(*m),
                None => None,
            },
            match measurement_json {
                Some(j) => Some(j@),
                None => None,
            },
        ),
{
    let f = match model {
        Some(f) => f,
        None => return None,
    };
    let m = match measurements {
        Some(m) => m,
        None => return Some("capture_fit_measurements_missing"),
    };
    let digest_matches = match measurement_json {
        Some(json) => {
            let computed = crate::digest::sha256_hex(json);
            crate::text::str_eq(computed.as_str(), f.measurement_digest.as_str())
        },
        None => false,
    };
    if m.validate().is_err() || !digest_matches {
        return Some("capture_fit_measurements_invalid");
    }
    if model_invalid(f) {
        return Some("capture_fit_model_invalid");
    }
    None
}

} // verus!
