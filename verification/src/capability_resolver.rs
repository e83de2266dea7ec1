//! Capability resolution: which processing contract a frame can run under
//! right now, given its Roll binding, calibration Profile, source kind and
//! density anchors. Resolution never mutates stored bindings, so re-running
//! it with recovered inputs restores the Capture Corrected route.
use vstd::prelude::*;
use crate::app_state;
use crate::app_state::{
    DataDomain, DensityAnchor, DensityAnchors, PipelineProcessingReport, PipelineStageRecord,
    PipelineStageStatus, ProcessingContract, DENSITY_ANCHOR_ALGORITHM_VERSION,
};
use crate::text::{owned, joined, opt_string_is, str_eq};

verus! {

#[derive(Debug, Clone, Copy, PartialEq, Eq, Structural)]
pub enum PipelineImageKind {
    RawBayer,
    RawXTrans,
    DirectRgb,
    Missing,
    Unsupported,
}

#[derive(Debug, Clone, PartialEq, Eq)]
pub struct ResolverProfile {
    pub profile_id: String,
    pub payload_digest: String,
    pub available: bool,
    pub capture_validation_error: Option<String>,
    pub has_dark: bool,
    pub has_open_gate: bool,
    pub has_flat: bool,
}

#[derive(Debug, Clone, PartialEq, Eq)]
pub struct PipelineResolverInput {
    /// Legacy is a persisted compatibility request. Every other value is
    /// resolved from the current Roll binding.
    pub persisted_contract: ProcessingContract,
    pub roll_profile_id: Option<String>,
    pub profile: Option<ResolverProfile>,
    pub image_kind: PipelineImageKind,
    pub density_anchors: DensityAnchors,
    pub raw_decode_version: i64,
    /// Ephemeral failure from this invocation only; it causes one fallback but
    /// is never written back as the next request.
    pub runtime_failure: Option<String>,
}

#[derive(Debug, Clone, PartialEq, Eq)]
pub struct LayerCapability {
    pub layer: String,
    pub status: PipelineStageStatus,
    pub detail: String,
}

#[derive(Debug, Clone, PartialEq, Eq)]
pub struct PipelineResolution {
    pub requested_path: ProcessingContract,
    pub resolved_path: ProcessingContract,
    pub resolved_profile_id: Option<String>,
    pub resolved_payload_digest: Option<String>,
    pub capture: LayerCapability,
    pub density: LayerCapability,
    pub film: LayerCapability,
    pub flat: LayerCapability,
    pub usable_density_anchors: DensityAnchors,
    pub rejected_anchor_reasons: Vec<String>,
    pub processing_report: PipelineProcessingReport,
}

/// `c` reports `layer` with the given status and detail.
pub open spec fn layer_is(c: LayerCapability, layer: Seq<char>, status: PipelineStageStatus, detail: Seq<char>) -> bool {
    c.layer@ == layer && c.status == status && c.detail@ == detail
}

/// The strings of `v`, character by character, are those of `s`.
pub open spec fn strings_are(v: Seq<String>, s: Seq<Seq<char>>) -> bool {
    v.len() == s.len() && forall|i: int| 0 <= i < v.len() ==> #[trigger] v[i]@ == s[i]
}

/// An optional string holds exactly `s`.
pub open spec fn opt_is(o: Option<String>, s: Seq<char>) -> bool {
    o matches Some(v) && v@ == s
}

/// Why an anchor may not be used in `expected` for `profile`, if it may not.
pub open spec fn spec_anchor_mismatch(
    anchor: DensityAnchor,
    expected: DataDomain,
    profile: Option<ResolverProfile>,
    raw_decode_version: i64,
) -> Option<Seq<char>> {
    let p = anchor.provenance;
    if p.input_domain != expected {
        Some("anchor_input_domain_mismatch"@)
    } else if expected == DataDomain::RelativeTransmissionRgb {
        match profile {
            None => Some("anchor_profile_missing"@),
            Some(profile) => if !opt_is(p.calibration_profile_id, profile.profile_id@) {
                Some("anchor_profile_mismatch"@)
            } else if !opt_is(p.calibration_payload_digest, profile.payload_digest@) {
                Some("anchor_payload_mismatch"@)
            } else if p.raw_decode_version != Some(raw_decode_version) {
                Some("anchor_raw_decode_version_mismatch"@)
            } else if p.algorithm_version@ != DENSITY_ANCHOR_ALGORITHM_VERSION@ {
                Some("anchor_algorithm_version_mismatch"@)
            } else if p.legacy {
                Some("anchor_legacy_unverified"@)
            } else {
                None
            },
        }
    } else {
        None
    }
}

/// The anchor kept in a slot after filtering.
pub open spec fn spec_kept(
    slot: Option<DensityAnchor>,
    expected: DataDomain,
    profile: Option<ResolverProfile>,
    raw_decode_version: i64,
) -> Option<DensityAnchor> {
    match slot {
        Some(a) => if spec_anchor_mismatch(a, expected, profile, raw_decode_version) is None {
            Some(a)
        } else {
            None
        },
        None => None,
    }
}

/// The rejection reported for a slot after filtering, if any.
pub open spec fn spec_rejection(
    name: Seq<char>,
    slot: Option<DensityAnchor>,
    expected: DataDomain,
    profile: Option<ResolverProfile>,
    raw_decode_version: i64,
) -> Seq<Seq<char>> {
    match slot {
        Some(a) => match spec_anchor_mismatch(a, expected, profile, raw_decode_version) {
            Some(reason) => seq!["density_anchor_rejected|"@ + name + "|"@ + reason],
            None => Seq::empty(),
        },
        None => Seq::empty(),
    }
}

/// All rejections of a filtering pass, base first.
pub open spec fn spec_rejections(
    anchors: DensityAnchors,
    expected: DataDomain,
    profile: Option<ResolverProfile>,
    raw_decode_version: i64,
) -> Seq<Seq<char>> {
    spec_rejection("d_min_base"@, anchors.d_min_base, expected, profile, raw_decode_version)
        + spec_rejection("d_max_full_exposure"@, anchors.d_max_full_exposure, expected, profile,
        raw_decode_version)
}

/// `usable` holds exactly the anchors of `anchors` that may be used.
pub open spec fn is_filtered(
    usable: DensityAnchors,
    anchors: DensityAnchors,
    expected: DataDomain,
    profile: Option<ResolverProfile>,
    raw_decode_version: i64,
) -> bool {
    &&& usable.d_min_base == spec_kept(anchors.d_min_base, expected, profile, raw_decode_version)
    &&& usable.d_max_full_exposure == spec_kept(anchors.d_max_full_exposure, expected, profile,
        raw_decode_version)
    &&& usable.retained_records@.len() == 0
    &&& usable.highlight_fraction is None
}

fn capability(layer: &str, status: PipelineStageStatus, detail: &str) -> (c: LayerCapability)
    ensures
        layer_is(c, layer@, status, detail@),
{
    LayerCapability { layer: owned(layer), status, detail: owned(detail) }
}

fn anchor_mismatch(
    anchor: &DensityAnchor,
    expected_domain: DataDomain,
    profile: Option<&ResolverProfile>,
    raw_decode_version: i64,
) -> (reason: Option<&'static str>)
    ensures
        match reason {
            Some(r) => spec_anchor_mismatch(*anchor, expected_domain, match profile {
                Some(p) => Some(*p),
                None => None,
            }, raw_decode_version) == Some(r@),
            None => spec_anchor_mismatch(*anchor, expected_domain, match profile {
                Some(p) => Some(*p),
                None => None,
            }, raw_decode_version) is None,
        },
{
    let provenance = &anchor.provenance;
    if provenance.input_domain != expected_domain {
        return Some("anchor_input_domain_mismatch");
    }
    if expected_domain == DataDomain::RelativeTransmissionRgb {
        let profile = match profile {
            Some(profile) => profile,
            None => return Some("anchor_profile_missing"),
        };
        if !opt_string_is(&provenance.calibration_profile_id, profile.profile_id.as_str()) {
            return Some("anchor_profile_mismatch");
        }
        if !opt_string_is(&provenance.calibration_payload_digest, profile.payload_digest.as_str()) {
            return Some("anchor_payload_mismatch");
        }
        if provenance.raw_decode_version != Some(raw_decode_version) {
            return Some("anchor_raw_decode_version_mismatch");
        }
        if !str_eq(provenance.algorithm_version.as_str(), DENSITY_ANCHOR_ALGORITHM_VERSION) {
            return Some("anchor_algorithm_version_mismatch");
        }
        if provenance.legacy {
            return Some("anchor_legacy_unverified");
        }
    }
    None
}

/// The optional profile behind an optional reference, by value.
pub open spec fn profile_value(profile: Option<&ResolverProfile>) -> Option<ResolverProfile> {
    match profile {
        Some(p) => Some(*p),
        None => None,
    }
}

fn rejection_text(name: &str, reason: &str) -> (r: String)
    ensures
        r@ == "density_anchor_rejected|"@ + name@ + "|"@ + reason@,
{
    let mut out = owned("density_anchor_rejected|");
    out.append(name);
    out.append("|");
    out.append(reason);
    out
}

/// Keep the anchors that may be used in `expected_domain` for `profile` and
/// explain every anchor that was set aside.
fn filter_anchors(
    anchors: &DensityAnchors,
    expected_domain: DataDomain,
    profile: Option<&ResolverProfile>,
    raw_decode_version: i64,
) -> (result: (DensityAnchors, Vec<String>))
    ensures
        is_filtered(result.0, *anchors, expected_domain, profile_value(profile), raw_decode_version),
        strings_are(result.1@, spec_rejections(*anchors, expected_domain, profile_value(profile),
            raw_decode_version)),
{
    let ghost profile_v = profile_value(profile);
    let mut usable = DensityAnchors::default();
    let mut rejected: Vec<String> = Vec::new();
    match &anchors.d_min_base {
        Some(anchor) => match anchor_mismatch(anchor, expected_domain, profile, raw_decode_version) {
            Some(reason) => rejected.push(rejection_text("d_min_base", reason)),
            None => usable.d_min_base = Some(anchor.duplicate()),
        },
        None => {},
    }
    let ghost first = rejected@;
    assert(strings_are(first, spec_rejection("d_min_base"@, anchors.d_min_base, expected_domain,
        profile_v, raw_decode_version)));
    match &anchors.d_max_full_exposure {
        Some(anchor) => match anchor_mismatch(anchor, expected_domain, profile, raw_decode_version) {
            Some(reason) => rejected.push(rejection_text("d_max_full_exposure", reason)),
            None => usable.d_max_full_exposure = Some(anchor.duplicate()),
        },
        None => {},
    }
    proof {
        let a = spec_rejection("d_min_base"@, anchors.d_min_base, expected_domain, profile_v,
            raw_decode_version);
        let b = spec_rejection("d_max_full_exposure"@, anchors.d_max_full_exposure,
            expected_domain, profile_v, raw_decode_version);
        assert(rejected@ =~= first + rejected@.subrange(first.len() as int, rejected@.len() as int));
        assert forall|i: int| 0 <= i < rejected@.len() implies #[trigger] rejected@[i]@ == (a + b)[i] by {
            if i < a.len() {
                assert(rejected@[i] == first[i]);
            }
        }
    }
    (usable, rejected)
}

/// Append every string of `src` to `dst`.
fn append_strings(dst: &mut Vec<String>, src: &Vec<String>)
    ensures
        final(dst)@ == old(dst)@ + src@,
{
    let ghost start = dst@;
    let mut i: usize = 0;
    while i < src.len()
        invariant
            i <= src.len(),
            dst@ == start + src@.subrange(0, i as int),
        decreases src.len() - i,
    {
        dst.push(src[i].clone());
        i = i + 1;
        assert(dst@ =~= start + src@.subrange(0, i as int));
    }
    assert(src@.subrange(0, src.len() as int) =~= src@);
}

proof fn lemma_strings_are_concat(a: Seq<String>, b: Seq<String>, sa: Seq<Seq<char>>, sb: Seq<Seq<char>>)
    requires
        strings_are(a, sa),
        strings_are(b, sb),
    ensures
        strings_are(a + b, sa + sb),
{
    assert forall|i: int| 0 <= i < (a + b).len() implies #[trigger] (a + b)[i]@ == (sa + sb)[i] by {
        if i < a.len() {
            assert((a + b)[i] == a[i]);
        } else {
            assert((a + b)[i] == b[i - a.len()]);
        }
    }
}

/// The path a non-Legacy frame asks for: Capture Corrected when its Roll is
/// bound to a Profile, otherwise the ProPhoto contract of its anchors.
pub open spec fn spec_requested_path(input: PipelineResolverInput) -> ProcessingContract {
    if input.roll_profile_id is Some {
        ProcessingContract::CaptureCorrectedV11
    } else {
        app_state::spec_prophoto_contract(input.density_anchors)
    }
}

/// The supplied Profile, when it is the one the Roll is bound to.
pub open spec fn spec_matched_profile(input: PipelineResolverInput) -> Option<ResolverProfile> {
    match input.profile {
        Some(p) => if opt_is(input.roll_profile_id, p.profile_id@) { Some(p) } else { None },
        None => None,
    }
}

/// Why the Capture Corrected route cannot run for this input, if it cannot.
pub open spec fn spec_capture_blocker(input: PipelineResolverInput) -> Option<Seq<char>> {
    match spec_matched_profile(input) {
        None => Some("profile_missing"@),
        Some(p) => if !p.available {
            Some("profile_unavailable"@)
        } else if p.capture_validation_error is Some {
            Some("capture_payload_invalid|"@ + p.capture_validation_error.unwrap()@)
        } else if !p.has_dark || !p.has_open_gate {
            Some(if p.has_dark { "open_gate_reference_missing"@ } else { "dark_reference_missing"@ })
        } else {
            match input.image_kind {
                PipelineImageKind::RawBayer => match input.runtime_failure {
                    Some(f) => Some("capture_runtime_failure|"@ + f@),
                    None => None,
                },
                PipelineImageKind::RawXTrans => Some("xtrans_not_supported"@),
                PipelineImageKind::DirectRgb => Some("capture_requires_raw_bayer"@),
                PipelineImageKind::Missing => Some("source_missing"@),
                PipelineImageKind::Unsupported => Some("source_unsupported"@),
            }
        },
    }
}

/// Legacy requests pass through unchanged.
pub open spec fn is_legacy_resolution(r: PipelineResolution, input: PipelineResolverInput) -> bool {
    &&& r.requested_path == ProcessingContract::LegacyV1
    &&& r.resolved_path == ProcessingContract::LegacyV1
    &&& r.resolved_profile_id is None
    &&& r.resolved_payload_digest is None
    &&& layer_is(r.capture, "capture"@, PipelineStageStatus::Used, "legacy_v1"@)
    &&& layer_is(r.density, "density"@, PipelineStageStatus::Used, "legacy_status_m"@)
    &&& layer_is(r.film, "film"@, PipelineStageStatus::Default, "legacy_render"@)
    &&& layer_is(r.flat, "flat"@, PipelineStageStatus::Unavailable, "legacy_v1"@)
    &&& app_state::same_anchors(r.usable_density_anchors, input.density_anchors)
    &&& r.rejected_anchor_reasons@.len() == 0
    &&& app_state::is_empty_report(r.processing_report)
}

/// The ProPhoto anchors that survive filtering, and the reasons for the rest.
pub open spec fn has_prophoto_anchors(r: PipelineResolution, input: PipelineResolverInput) -> bool {
    let rejections = spec_rejections(input.density_anchors, DataDomain::ProPhotoEstimate, None,
        input.raw_decode_version);
    &&& is_filtered(r.usable_density_anchors, input.density_anchors, DataDomain::ProPhotoEstimate,
        None, input.raw_decode_version)
    &&& strings_are(r.rejected_anchor_reasons@, rejections)
    &&& r.resolved_path == app_state::spec_prophoto_contract(r.usable_density_anchors)
    &&& r.resolved_profile_id is None
    &&& r.resolved_payload_digest is None
    &&& layer_is(r.density, "density"@, PipelineStageStatus::Default, "relative_prophoto_estimate"@)
    &&& layer_is(r.film, "film"@, PipelineStageStatus::Default, "generic_positive_render"@)
    &&& app_state::smart_auto_fields(r.processing_report)
    &&& app_state::is_raw_decode_stage(r.processing_report.stages@[0])
}

/// A frame that never asked for Capture Corrected runs Smart Auto.
pub open spec fn is_smart_auto_resolution(r: PipelineResolution, input: PipelineResolverInput) -> bool {
    &&& has_prophoto_anchors(r, input)
    &&& layer_is(r.capture, "capture"@, PipelineStageStatus::Default, "smart_auto"@)
    &&& layer_is(r.flat, "flat"@, PipelineStageStatus::Unavailable, "not_applicable"@)
    &&& r.processing_report.stages@.len() == 1
    &&& strings_are(r.processing_report.fallback_reasons@, spec_rejections(input.density_anchors,
        DataDomain::ProPhotoEstimate, None, input.raw_decode_version))
}

/// A Capture Corrected request that cannot run falls back to Smart Auto and
/// says why, first among its fallback reasons.
pub open spec fn is_fallback_resolution(
    r: PipelineResolution,
    input: PipelineResolverInput,
    reason: Seq<char>,
) -> bool {
    &&& has_prophoto_anchors(r, input)
    &&& layer_is(r.capture, "capture"@, PipelineStageStatus::Unavailable, reason)
    &&& layer_is(r.flat, "flat"@, PipelineStageStatus::Unavailable, "not_used_in_smart_auto"@)
    &&& r.processing_report.stages@.len() == 2
    &&& app_state::stage_is(r.processing_report.stages@[1], "capture_capability"@, DataDomain::RawMosaic,
        DataDomain::ProPhotoEstimate, PipelineStageStatus::Unavailable, reason)
    &&& strings_are(r.processing_report.fallback_reasons@, seq![reason] + spec_rejections(
        input.density_anchors, DataDomain::ProPhotoEstimate, None, input.raw_decode_version))
}

/// The Capture Corrected route with Profile `p`.
pub open spec fn is_capture_resolution(
    r: PipelineResolution,
    input: PipelineResolverInput,
    p: ResolverProfile,
) -> bool {
    let rejections = spec_rejections(input.density_anchors, DataDomain::RelativeTransmissionRgb,
        Some(p), input.raw_decode_version);
    &&& r.resolved_path == ProcessingContract::CaptureCorrectedV11
    &&& opt_is(r.resolved_profile_id, p.profile_id@)
    &&& opt_is(r.resolved_payload_digest, p.payload_digest@)
    &&& layer_is(r.capture, "capture"@, PipelineStageStatus::Used, "dark_open_homogeneous_correction"@)
    &&& layer_is(r.density, "density"@, PipelineStageStatus::Default,
        "relative_transmission_no_measured_density"@)
    &&& layer_is(r.film, "film"@, PipelineStageStatus::Default, "generic_positive_render"@)
    &&& layer_is(r.flat, "flat"@,
        if p.has_flat { PipelineStageStatus::Default } else { PipelineStageStatus::Unavailable },
        if p.has_flat { "stored_not_applied_pending_independent_definition"@ }
        else { "optional_flat_not_available"@ })
    &&& is_filtered(r.usable_density_anchors, input.density_anchors,
        DataDomain::RelativeTransmissionRgb, Some(p), input.raw_decode_version)
    &&& strings_are(r.rejected_anchor_reasons@, rejections)
    &&& app_state::smart_auto_fields(r.processing_report)
    &&& app_state::is_capture_corrected_stages(r.processing_report.stages@, p.has_flat)
    &&& strings_are(r.processing_report.fallback_reasons@, rejections)
}

/// The full outcome of capability resolution for `input`.
pub open spec fn resolves_as(r: PipelineResolution, input: PipelineResolverInput) -> bool {
    if input.persisted_contract == ProcessingContract::LegacyV1 {
        is_legacy_resolution(r, input)
    } else {
        &&& r.requested_path == spec_requested_path(input)
        &&& if spec_requested_path(input) != ProcessingContract::CaptureCorrectedV11 {
            is_smart_auto_resolution(r, input)
        } else {
            match spec_capture_blocker(input) {
                Some(reason) => is_fallback_resolution(r, input, reason),
                None => is_capture_resolution(r, input, spec_matched_profile(input).unwrap()),
            }
        }
    }
}

fn fallback_resolution(
    input: &PipelineResolverInput,
    requested_path: ProcessingContract,
    reason: String,
) -> (r: PipelineResolution)
    ensures
        r.requested_path == requested_path,
        is_fallback_resolution(r, *input, reason@),
{
    let (anchors, rejected) = filter_anchors(
        &input.density_anchors,
        DataDomain::ProPhotoEstimate,
        None,
        input.raw_decode_version,
    );
    let resolved_path = anchors.prophoto_contract();
    let mut report = PipelineProcessingReport::smart_auto_fallback(reason.clone());
    append_strings(&mut report.fallback_reasons, &rejected);
    proof {
        lemma_strings_are_concat(seq![reason], rejected@, seq![reason@], spec_rejections(
            input.density_anchors, DataDomain::ProPhotoEstimate, None, input.raw_decode_version));
    }
    report.stages.push(PipelineStageRecord {
        stage: owned("capture_capability"),
        input_domain: DataDomain::RawMosaic,
        output_domain: DataDomain::ProPhotoEstimate,
        status: PipelineStageStatus::Unavailable,
        detail: reason.clone(),
    });
    PipelineResolution {
        requested_path,
        resolved_path,
        resolved_profile_id: None,
        resolved_payload_digest: None,
        capture: capability("capture", PipelineStageStatus::Unavailable, reason.as_str()),
        density: capability("density", PipelineStageStatus::Default, "relative_prophoto_estimate"),
        film: capability("film", PipelineStageStatus::Default, "generic_positive_render"),
        flat: capability("flat", PipelineStageStatus::Unavailable, "not_used_in_smart_auto"),
        usable_density_anchors: anchors,
        rejected_anchor_reasons: rejected,
        processing_report: report,
    }
}

/// Resolve the highest currently trustworthy path without mutating stored
/// Roll bindings or image state.
pub fn resolve_pipeline(input: &PipelineResolverInput) -> (r: PipelineResolution)
    ensures
        resolves_as(r, *input),
{
    if input.persisted_contract == ProcessingContract::LegacyV1 {
        return PipelineResolution {
            requested_path: ProcessingContract::LegacyV1,
            resolved_path: ProcessingContract::LegacyV1,
            resolved_profile_id: None,
            resolved_payload_digest: None,
            capture: capability("capture", PipelineStageStatus::Used, "legacy_v1"),
            density: capability("density", PipelineStageStatus::Used, "legacy_status_m"),
            film: capability("film", PipelineStageStatus::Default, "legacy_render"),
            flat: capability("flat", PipelineStageStatus::Unavailable, "legacy_v1"),
            usable_density_anchors: input.density_anchors.duplicate(),
            rejected_anchor_reasons: Vec::new(),
            processing_report: PipelineProcessingReport::default(),
        };
    }

    let requested_path = if input.roll_profile_id.is_some() {
        ProcessingContract::CaptureCorrectedV11
    } else {
        input.density_anchors.prophoto_contract()
    };
    if requested_path != ProcessingContract::CaptureCorrectedV11 {
        let (anchors, rejected) = filter_anchors(
            &input.density_anchors,
            DataDomain::ProPhotoEstimate,
            None,
            input.raw_decode_version,
        );
        let resolved_path = anchors.prophoto_contract();
        let mut report = PipelineProcessingReport::smart_auto();
        append_strings(&mut report.fallback_reasons, &rejected);
        assert(report.fallback_reasons@ =~= rejected@);
        return PipelineResolution {
            requested_path,
            resolved_path,
            resolved_profile_id: None,
            resolved_payload_digest: None,
            capture: capability("capture", PipelineStageStatus::Default, "smart_auto"),
            density: capability("density", PipelineStageStatus::Default, "relative_prophoto_estimate"),
            film: capability("film", PipelineStageStatus::Default, "generic_positive_render"),
            flat: capability("flat", PipelineStageStatus::Unavailable, "not_applicable"),
            usable_density_anchors: anchors,
            rejected_anchor_reasons: rejected,
            processing_report: report,
        };
    }

    let profile = match &input.profile {
        Some(profile) => if opt_string_is(&input.roll_profile_id, profile.profile_id.as_str()) {
            profile
        } else {
            return fallback_resolution(input, requested_path, owned("profile_missing"));
        },
        None => return fallback_resolution(input, requested_path, owned("profile_missing")),
    };
    if !profile.available {
        return fallback_resolution(input, requested_path, owned("profile_unavailable"));
    }
    match &profile.capture_validation_error {
        Some(reason) => {
            return fallback_resolution(
                input,
                requested_path,
                joined("capture_payload_invalid|", reason.as_str()),
            );
        },
        None => {},
    }
    if !profile.has_dark || !profile.has_open_gate {
        return fallback_resolution(
            input,
            requested_path,
            if profile.has_dark {
                owned("open_gate_reference_missing")
            } else {
                owned("dark_reference_missing")
            },
        );
    }
    match input.image_kind {
        PipelineImageKind::RawBayer => {},
        PipelineImageKind::RawXTrans => {
            return fallback_resolution(input, requested_path, owned("xtrans_not_supported"));
        },
        PipelineImageKind::DirectRgb => {
            return fallback_resolution(input, requested_path, owned("capture_requires_raw_bayer"));
        },
        PipelineImageKind::Missing => {
            return fallback_resolution(input, requested_path, owned("source_missing"));
        },
        PipelineImageKind::Unsupported => {
            return fallback_resolution(input, requested_path, owned("source_unsupported"));
        },
    }
    match &input.runtime_failure {
        Some(reason) => {
            return fallback_resolution(
                input,
                requested_path,
                joined("capture_runtime_failure|", reason.as_str()),
            );
        },
        None => {},
    }

    let (anchors, rejected) = filter_anchors(
        &input.density_anchors,
        DataDomain::RelativeTransmissionRgb,
        Some(profile),
        input.raw_decode_version,
    );
    let mut report = PipelineProcessingReport::capture_corrected(profile.has_flat);
    append_strings(&mut report.fallback_reasons, &rejected);
    assert(report.fallback_reasons@ =~= rejected@);
    PipelineResolution {
        requested_path,
        resolved_path: ProcessingContract::CaptureCorrectedV11,
        resolved_profile_id: Some(profile.profile_id.clone()),
        resolved_payload_digest: Some(profile.payload_digest.clone()),
        capture: capability("capture", PipelineStageStatus::Used, "dark_open_homogeneous_correction"),
        density: capability(
            "density",
            PipelineStageStatus::Default,
            "relative_transmission_no_measured_density",
        ),
        film: capability("film", PipelineStageStatus::Default, "generic_positive_render"),
        flat: capability(
            "flat",
            if profile.has_flat {
                PipelineStageStatus::Default
            } else {
                PipelineStageStatus::Unavailable
            },
            if profile.has_flat {
                "stored_not_applied_pending_independent_definition"
            } else {
                "optional_flat_not_available"
            },
        ),
        usable_density_anchors: anchors,
        rejected_anchor_reasons: rejected,
        processing_report: report,
    }
}

/// Every requirement of the Capture Corrected route holds for `input`.
pub open spec fn capture_requirements_hold(input: PipelineResolverInput) -> bool {
    &&& input.persisted_contract != ProcessingContract::LegacyV1
    &&& input.roll_profile_id is Some
    &&& spec_matched_profile(input) matches Some(p)
    &&& p.available
    &&& p.capture_validation_error is None
    &&& p.has_dark
    &&& p.has_open_gate
    &&& input.image_kind == PipelineImageKind::RawBayer
    &&& input.runtime_failure is None
}

/// An anchor fits the Capture Corrected route of Profile `p`.
pub open spec fn anchor_fits_capture(a: DensityAnchor, p: ResolverProfile, raw_decode_version: i64) -> bool {
    &&& a.provenance.input_domain == DataDomain::RelativeTransmissionRgb
    &&& opt_is(a.provenance.calibration_profile_id, p.profile_id@)
    &&& opt_is(a.provenance.calibration_payload_digest, p.payload_digest@)
    &&& a.provenance.raw_decode_version == Some(raw_decode_version)
    &&& a.provenance.algorithm_version@ == DENSITY_ANCHOR_ALGORITHM_VERSION@
    &&& !a.provenance.legacy
}

/// Capture Corrected is the resolved path exactly when every one of its
/// requirements holds: a bound, matching, available Profile with a valid
/// payload and both dark and open-gate references, a Bayer RAW source and no
/// failure in this invocation.
pub proof fn law_capture_resolution_requires_every_input(r: PipelineResolution, input: PipelineResolverInput)
    requires
        resolves_as(r, input),
    ensures
        (r.resolved_path == ProcessingContract::CaptureCorrectedV11) <==> capture_requirements_hold(input),
{
}

/// A ProPhoto-estimate anchor never enters the Capture Corrected route: every
/// anchor that route keeps belongs to the resolved Profile, its payload, the
/// current RAW decoder and the current anchor algorithm, and is not legacy.
pub proof fn law_capture_anchors_belong_to_the_profile(r: PipelineResolution, input: PipelineResolverInput)
    requires
        resolves_as(r, input),
        r.resolved_path == ProcessingContract::CaptureCorrectedV11,
    ensures
        spec_matched_profile(input) matches Some(p) && {
            &&& r.usable_density_anchors.d_min_base matches Some(a) ==> anchor_fits_capture(a, p,
                input.raw_decode_version)
            &&& r.usable_density_anchors.d_max_full_exposure matches Some(a) ==> anchor_fits_capture(
                a, p, input.raw_decode_version)
        },
{
}

/// Outside Legacy, a frame that does not resolve to Capture Corrected resolves
/// to one of the ProPhoto estimate contracts, and only anchors measured on a
/// ProPhoto estimate remain usable.
pub proof fn law_fallback_stays_on_prophoto_estimate(r: PipelineResolution, input: PipelineResolverInput)
    requires
        resolves_as(r, input),
        input.persisted_contract != ProcessingContract::LegacyV1,
        r.resolved_path != ProcessingContract::CaptureCorrectedV11,
    ensures
        r.resolved_path == ProcessingContract::SmartAutoProPhotoV11
            || r.resolved_path == ProcessingContract::RollBaseProPhotoV11
            || r.resolved_path == ProcessingContract::RollAnchoredProPhotoV11,
        r.usable_density_anchors.d_min_base matches Some(a) ==> a.provenance.input_domain
            == DataDomain::ProPhotoEstimate,
        r.usable_density_anchors.d_max_full_exposure matches Some(a) ==> a.provenance.input_domain
            == DataDomain::ProPhotoEstimate,
        r.resolved_profile_id is None,
{
}

/// Resolution never promotes a retained record back into an active endpoint:
/// outside Legacy, each usable endpoint is the frame's own endpoint of that
/// kind or absent, and the usable set retains no records.
pub proof fn law_retained_records_are_never_promoted(r: PipelineResolution, input: PipelineResolverInput)
    requires
        resolves_as(r, input),
        input.persisted_contract != ProcessingContract::LegacyV1,
    ensures
        r.usable_density_anchors.d_min_base matches Some(a) ==> input.density_anchors.d_min_base == Some(a),
        r.usable_density_anchors.d_max_full_exposure matches Some(a) ==> input.density_anchors.d_max_full_exposure
            == Some(a),
        r.usable_density_anchors.retained_records@.len() == 0,
{
}

/// A persisted Legacy request resolves to Legacy and keeps all its anchors.
pub proof fn law_legacy_passes_through(r: PipelineResolution, input: PipelineResolverInput)
    requires
        resolves_as(r, input),
        input.persisted_contract == ProcessingContract::LegacyV1,
    ensures
        r.requested_path == ProcessingContract::LegacyV1,
        r.resolved_path == ProcessingContract::LegacyV1,
        app_state::same_anchors(r.usable_density_anchors, input.density_anchors),
{
}

/// The requested path depends only on the persisted request, the Roll binding
/// and the anchors: a broken or missing Profile, a wrong source kind or a
/// runtime failure changes what is resolved, never what is requested.
pub proof fn law_requested_path_ignores_capture_health(
    r1: PipelineResolution,
    input1: PipelineResolverInput,
    r2: PipelineResolution,
    input2: PipelineResolverInput,
)
    requires
        resolves_as(r1, input1),
        resolves_as(r2, input2),
        input1.persisted_contract == input2.persisted_contract,
        input1.roll_profile_id is Some == input2.roll_profile_id is Some,
        input1.density_anchors == input2.density_anchors,
    ensures
        r1.requested_path == r2.requested_path,
{
}

/// A runtime failure is not sticky: it makes this invocation fall back and
/// reports the failure, while the same request without the failure resolves to
/// Capture Corrected again.
pub proof fn law_runtime_failure_is_not_sticky(
    failed: PipelineResolution,
    failed_input: PipelineResolverInput,
    recovered: PipelineResolution,
    recovered_input: PipelineResolverInput,
)
    requires
        resolves_as(failed, failed_input),
        resolves_as(recovered, recovered_input),
        recovered_input == (PipelineResolverInput { runtime_failure: None, ..failed_input }),
        failed_input.runtime_failure is Some,
        capture_requirements_hold(recovered_input),
    ensures
        failed.resolved_path != ProcessingContract::CaptureCorrectedV11,
        failed.requested_path == ProcessingContract::CaptureCorrectedV11,
        failed.processing_report.fallback_reasons@[0]@ == "capture_runtime_failure|"@
            + failed_input.runtime_failure.unwrap()@,
        recovered.resolved_path == ProcessingContract::CaptureCorrectedV11,
{
}

} // verus!
