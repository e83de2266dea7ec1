//! Shared domain records: data domains, processing contracts, calibration
//! bookkeeping and the per-frame pipeline state.
//!
//! Values that the original application keeps as `f32` are carried here as
//! their IEEE-754 single-precision bit patterns (`f32::to_bits`). Nothing in
//! this crate computes with them; they only travel with the records.
use vstd::prelude::*;
use crate::text::{owned, clone_opt_string, clone_strings};

verus! {

pub const MAX_PROXY_CACHE: usize = 2;
pub const CALIBRATION_PROFILE_SCHEMA_VERSION: u32 = 2;
pub const CALIBRATION_PROFILE_PAYLOAD_VERSION: u32 = 2;
pub const CAPTURE_CORRECTION_ALGORITHM_VERSION: &'static str = "cfa_dark_open_v2";
pub const CAPTURE_DEMOSAIC_ALGORITHM_VERSION: &'static str = "fixed_bilinear_bayer_oriented_v2";
pub const DENSITY_ANCHOR_ALGORITHM_VERSION: &'static str = "density_anchor_v2";

/// Rules the frame-wise display window is derived with. Bumped when a change
/// makes previously persisted endpoints wrong.
pub const DENSITY_WINDOW_RULE_VERSION: u32 = 3;

/// Payload version assumed for payloads that do not state one.
pub fn default_calibration_profile_payload_version() -> (v: u32)
    ensures
        v == CALIBRATION_PROFILE_PAYLOAD_VERSION,
{
    CALIBRATION_PROFILE_PAYLOAD_VERSION
}

#[derive(Debug, Clone, Copy, PartialEq, Eq, Structural)]
pub enum DataDomain {
    LegacyLinearSrgb,
    ProPhotoEstimate,
    RawMosaic,
    CorrectedCfa,
    CameraNativeTransmissionRgb,
    RelativeTransmissionRgb,
    Density,
    PositiveProPhotoRgb,
}

#[derive(Debug, Clone, Copy, PartialEq, Eq, Structural)]
pub enum CalibrationLevel {
    SmartAuto,
    CaptureCorrectedExperimental,
    CaptureCharacterized,
    DensityCalibrated,
    ScannerInputEstimate,
    ScannerInputCharacterized,
    Calibrated,
    Spectral,
}

impl Default for CalibrationLevel {
    fn default() -> (level: Self)
        ensures
            level == CalibrationLevel::SmartAuto,
    {
        CalibrationLevel::SmartAuto
    }
}

#[derive(Debug, Clone, Copy, PartialEq, Eq, Structural)]
pub enum CalibrationReferenceKind {
    /// Retained so a damaged or future reference row cannot prevent other
    /// Profiles from loading. The UI never creates this value.
    Unknown,
    DarkFrame,
    OpenGate,
    FlatField,
    TransmissionTarget,
    FilmBase,
    FullExposure,
    SpectralCapture,
}

#[derive(Debug, Clone, PartialEq, Eq)]
pub struct CalibrationReference {
    pub reference_id: String,
    pub kind: CalibrationReferenceKind,
    pub file_path: String,
    pub file_name: String,
    pub file_size: u64,
    pub modified_at: Option<i64>,
    pub added_at: i64,
}

#[derive(Debug, Clone, Copy, PartialEq, Eq, Structural)]
pub enum CalibrationCapability {
    CaptureCorrected,
    MeasuredDensity,
    SpectralCapture,
    FilmReconstruction,
}

#[derive(Debug, Clone, Copy, PartialEq, Eq, Structural)]
pub enum CalibrationValidationStatus {
    NotValidated,
    Passed,
    Failed,
}

impl Default for CalibrationValidationStatus {
    fn default() -> (status: Self)
        ensures
            status == CalibrationValidationStatus::NotValidated,
    {
        CalibrationValidationStatus::NotValidated
    }
}

#[derive(Debug, Clone, Copy, PartialEq, Eq, Structural)]
pub enum CalibrationPayloadIssuer {
    LegacyUnverified,
    BackendCalibrationSession,
}

impl Default for CalibrationPayloadIssuer {
    fn default() -> (issuer: Self)
        ensures
            issuer == CalibrationPayloadIssuer::LegacyUnverified,
    {
        CalibrationPayloadIssuer::LegacyUnverified
    }
}

#[derive(Debug, Clone, PartialEq, Eq)]
pub struct CalibrationReferenceSummary {
    pub reference_id: String,
    pub kind: CalibrationReferenceKind,
    /// Content digest produced by the calibration session.
    pub content_digest: String,
    pub raw_metadata_digest: String,
}

#[derive(Debug, Clone, Default, PartialEq, Eq)]
pub struct CalibrationQualityMaskSummary {
    pub total_samples: u64,
    pub valid_samples: u64,
    pub invalid_denominator: u64,
    pub negative_samples: u64,
    pub saturated_samples: u64,
    pub bad_pixels: u64,
    pub out_of_range: u64,
    /// CFA sample indices excluded by the verified Capture calibration.
    pub bad_pixel_indices: Vec<u32>,
    /// Digest of the mask artifact.
    pub mask_artifact_digest: String,
}

#[derive(Debug, Clone, PartialEq, Eq)]
pub struct CalibrationQualityMaskArtifact {
    pub encoding: String,
    pub sample_count: u64,
    pub data_base64: String,
}

#[derive(Debug, Clone, Default, PartialEq, Eq)]
pub struct CalibrationValidationReport {
    pub status: CalibrationValidationStatus,
    pub checked_at: Option<i64>,
    pub checks: Vec<String>,
    pub warnings: Vec<String>,
}

#[derive(Debug, Clone, Copy, PartialEq, Eq, Structural)]
pub enum CalibrationProfileAvailability {
    Available,
    NeedsAttention,
    Unsupported,
}

#[derive(Debug, Clone, Copy, PartialEq, Eq, Structural)]
pub enum RollCalibrationFormat {
    Film135,
    Film120,
    Loose,
    Other,
}

#[derive(Debug, Clone, Copy, PartialEq, Eq, Structural)]
pub enum RollFrameStatus {
    /// The frame geometry is set (serialized as `set`).
    IsSet,
    NotSet,
}

#[derive(Debug, Clone, Copy, PartialEq, Eq, Structural)]
pub enum RollBaseStatus {
    Sampled,
    Estimated,
}

#[derive(Debug, Clone, Copy, PartialEq, Eq, Structural)]
pub enum RollDmaxStatus {
    FullExposure,
    FilmProfile,
    Unknown,
}

#[derive(Debug, Clone, Copy, PartialEq, Eq, Structural)]
pub enum RollCalibrationMode {
    Configured,
    SmartAuto,
    Legacy,
}

#[derive(Debug, Clone, Copy, PartialEq, Eq, Structural)]
pub enum RollToneStatus {
    Preserve,
    FullTone,
    Mixed,
}

#[derive(Debug, Clone, PartialEq, Eq)]
pub struct RollCalibrationStatus {
    pub roll_id: String,
    pub format: RollCalibrationFormat,
    pub requested_profile_id: Option<String>,
    pub resolved_profile_id: Option<String>,
    pub profile_name: Option<String>,
    pub fallback_to_smart_auto: bool,
    pub frame: RollFrameStatus,
    pub base: RollBaseStatus,
    pub dmax: RollDmaxStatus,
    pub calibration: RollCalibrationMode,
    pub tone: RollToneStatus,
    pub warnings: Vec<String>,
}

#[derive(Debug, Clone, Copy, PartialEq, Eq, Structural)]
pub enum ProcessingContract {
    /// Exact v1.0.2 compatibility path: linear-sRGB transport, gamut
    /// compression, u16 proxy, and the historical density matrix.
    LegacyV1,
    /// v1.1 display estimate in linear ProPhoto RGB.
    SmartAutoProPhotoV11,
    /// v1.1 ProPhoto estimate with a roll-level film-base reference.
    RollBaseProPhotoV11,
    /// v1.1 ProPhoto estimate with roll-level film-base and full-exposure
    /// references.
    RollAnchoredProPhotoV11,
    /// Capture-domain dark/open correction followed by fixed demosaic and an
    /// identity transform to relative transmission.
    CaptureCorrectedV11,
}

impl Default for ProcessingContract {
    fn default() -> (contract: Self)
        ensures
            contract == ProcessingContract::LegacyV1,
    {
        ProcessingContract::LegacyV1
    }
}

/// The data domain a processing contract feeds into the density stage.
pub open spec fn spec_contract_input_domain(contract: ProcessingContract) -> DataDomain {
    match contract {
        ProcessingContract::LegacyV1 => DataDomain::LegacyLinearSrgb,
        ProcessingContract::CaptureCorrectedV11 => DataDomain::RelativeTransmissionRgb,
        _ => DataDomain::ProPhotoEstimate,
    }
}

/// The label the backend shows for a processing contract.
pub open spec fn spec_backend_label(contract: ProcessingContract) -> Seq<char> {
    match contract {
        ProcessingContract::LegacyV1 => "LegacyV1"@,
        ProcessingContract::CaptureCorrectedV11 => "Capture Corrected / Relative Transmission RGB (experimental)"@,
        _ => "Smart Auto / ProPhoto Estimate"@,
    }
}

impl ProcessingContract {
    pub fn input_domain(self) -> (domain: DataDomain)
        ensures
            domain == spec_contract_input_domain(self),
    {
        match self {
            ProcessingContract::LegacyV1 => DataDomain::LegacyLinearSrgb,
            ProcessingContract::CaptureCorrectedV11 => DataDomain::RelativeTransmissionRgb,
            ProcessingContract::SmartAutoProPhotoV11
            | ProcessingContract::RollBaseProPhotoV11
            | ProcessingContract::RollAnchoredProPhotoV11 => DataDomain::ProPhotoEstimate,
        }
    }

    pub fn backend_label(self) -> (label: &'static str)
        ensures
            label@ == spec_backend_label(self),
    {
        match self {
            ProcessingContract::LegacyV1 => "LegacyV1",
            ProcessingContract::CaptureCorrectedV11 => {
                "Capture Corrected / Relative Transmission RGB (experimental)"
            },
            ProcessingContract::SmartAutoProPhotoV11
            | ProcessingContract::RollBaseProPhotoV11
            | ProcessingContract::RollAnchoredProPhotoV11 => "Smart Auto / ProPhoto Estimate",
        }
    }
}

#[derive(Debug, Clone, Copy, PartialEq, Eq, Structural)]
pub enum PipelineStageStatus {
    Used,
    Default,
    Unavailable,
}

#[derive(Debug, Clone, PartialEq, Eq)]
pub struct PipelineStageRecord {
    pub stage: String,
    pub input_domain: DataDomain,
    pub output_domain: DataDomain,
    pub status: PipelineStageStatus,
    pub detail: String,
}

/// `record` is the stage `stage` from `input` to `output` with the given status
/// and detail.
pub open spec fn stage_is(
    record: PipelineStageRecord,
    stage: Seq<char>,
    input: DataDomain,
    output: DataDomain,
    status: PipelineStageStatus,
    detail: Seq<char>,
) -> bool {
    &&& record.stage@ == stage
    &&& record.input_domain == input
    &&& record.output_domain == output
    &&& record.status == status
    &&& record.detail@ == detail
}

impl PipelineStageRecord {
    /// A field-by-field copy.
    pub fn duplicate(&self) -> (r: Self)
        ensures
            r == *self,
    {
        PipelineStageRecord {
            stage: self.stage.clone(),
            input_domain: self.input_domain,
            output_domain: self.output_domain,
            status: self.status,
            detail: self.detail.clone(),
        }
    }
}

/// Working primaries the decoded pixels are expressed in.
#[derive(Debug, Clone, Copy, PartialEq, Eq, Structural)]
pub enum InputPrimaries {
    Srgb,
    DisplayP3,
    AdobeRgb1998,
    Rec2020,
    ProPhotoRgb,
    AcesCg,
    /// Three-channel camera data that has not been mapped to a known space.
    CameraNative,
    /// Scanner RGB described by the device identification or a bound Profile.
    ScannerDevice,
    Unknown,
}

/// Encoding curve of the decoded samples, before they are linearised.
#[derive(Debug, Clone, Copy, PartialEq, Eq, Structural)]
pub enum InputTransferCurve {
    Linear,
    Srgb,
    Gamma18,
    Gamma20,
    Gamma22,
    ScannerDevice,
    CameraRaw,
    Unknown,
}

/// Whether the samples are proportional to film transmission or already
/// rendered for display by the capture device.
#[derive(Debug, Clone, Copy, PartialEq, Eq, Structural)]
pub enum InputReference {
    LinearTransmission,
    DisplayReferred,
}

#[derive(Debug, Clone, Copy, PartialEq, Eq, Structural)]
pub enum InputDomainSource {
    EmbeddedIcc,
    ScannerInputProfile,
    ScannerContainerRecord,
    RawMetadata,
    DeviceIdentification,
    /// No declaration was available; the file was read as sRGB.
    FallbackSrgb,
}

#[derive(Debug, Clone, Copy, PartialEq, Eq, Structural)]
pub enum InputDomainConfidence {
    Verified,
    Declared,
    Estimated,
}

/// Explicit, per-frame record of the input domain.
#[derive(Debug, Clone, PartialEq, Eq)]
pub struct InputDomainRecord {
    pub primaries: InputPrimaries,
    pub transfer: InputTransferCurve,
    pub reference: InputReference,
    /// Black/white normalisation contract the samples were decoded with.
    pub normalization: String,
    pub source: InputDomainSource,
    pub confidence: InputDomainConfidence,
    /// True when the domain had to be assumed rather than read from the file.
    pub estimated: bool,
    pub detail: String,
}

/// The fallback input domain: sRGB, assumed rather than read.
pub open spec fn is_fallback_input_domain(r: InputDomainRecord) -> bool {
    &&& r.primaries == InputPrimaries::Srgb
    &&& r.transfer == InputTransferCurve::Srgb
    &&& r.reference == InputReference::DisplayReferred
    &&& r.normalization@ == "full_range_unit"@
    &&& r.source == InputDomainSource::FallbackSrgb
    &&& r.confidence == InputDomainConfidence::Estimated
    &&& r.estimated
    &&& r.detail@ == Seq::<char>::empty()
}

impl Default for InputDomainRecord {
    fn default() -> (r: Self)
        ensures
            is_fallback_input_domain(r),
    {
        InputDomainRecord {
            primaries: InputPrimaries::Srgb,
            transfer: InputTransferCurve::Srgb,
            reference: InputReference::DisplayReferred,
            normalization: owned("full_range_unit"),
            source: InputDomainSource::FallbackSrgb,
            confidence: InputDomainConfidence::Estimated,
            estimated: true,
            detail: String::new(),
        }
    }
}

/// The `Debug` spelling of a set of primaries.
pub open spec fn primaries_name(p: InputPrimaries) -> Seq<char> {
    match p {
        InputPrimaries::Srgb => "Srgb"@,
        InputPrimaries::DisplayP3 => "DisplayP3"@,
        InputPrimaries::AdobeRgb1998 => "AdobeRgb1998"@,
        InputPrimaries::Rec2020 => "Rec2020"@,
        InputPrimaries::ProPhotoRgb => "ProPhotoRgb"@,
        InputPrimaries::AcesCg => "AcesCg"@,
        InputPrimaries::CameraNative => "CameraNative"@,
        InputPrimaries::ScannerDevice => "ScannerDevice"@,
        InputPrimaries::Unknown => "Unknown"@,
    }
}

/// The `Debug` spelling of a transfer curve.
pub open spec fn transfer_name(t: InputTransferCurve) -> Seq<char> {
    match t {
        InputTransferCurve::Linear => "Linear"@,
        InputTransferCurve::Srgb => "Srgb"@,
        InputTransferCurve::Gamma18 => "Gamma18"@,
        InputTransferCurve::Gamma20 => "Gamma20"@,
        InputTransferCurve::Gamma22 => "Gamma22"@,
        InputTransferCurve::ScannerDevice => "ScannerDevice"@,
        InputTransferCurve::CameraRaw => "CameraRaw"@,
        InputTransferCurve::Unknown => "Unknown"@,
    }
}

/// The `Debug` spelling of an input reference.
pub open spec fn reference_name(r: InputReference) -> Seq<char> {
    match r {
        InputReference::LinearTransmission => "LinearTransmission"@,
        InputReference::DisplayReferred => "DisplayReferred"@,
    }
}

/// The `Debug` spelling of an input-domain source.
pub open spec fn source_name(s: InputDomainSource) -> Seq<char> {
    match s {
        InputDomainSource::EmbeddedIcc => "EmbeddedIcc"@,
        InputDomainSource::ScannerInputProfile => "ScannerInputProfile"@,
        InputDomainSource::ScannerContainerRecord => "ScannerContainerRecord"@,
        InputDomainSource::RawMetadata => "RawMetadata"@,
        InputDomainSource::DeviceIdentification => "DeviceIdentification"@,
        InputDomainSource::FallbackSrgb => "FallbackSrgb"@,
    }
}

fn primaries_str(p: InputPrimaries) -> (r: &'static str)
    ensures
        r@ == primaries_name(p),
{
    match p {
        InputPrimaries::Srgb => "Srgb",
        InputPrimaries::DisplayP3 => "DisplayP3",
        InputPrimaries::AdobeRgb1998 => "AdobeRgb1998",
        InputPrimaries::Rec2020 => "Rec2020",
        InputPrimaries::ProPhotoRgb => "ProPhotoRgb",
        InputPrimaries::AcesCg => "AcesCg",
        InputPrimaries::CameraNative => "CameraNative",
        InputPrimaries::ScannerDevice => "ScannerDevice",
        InputPrimaries::Unknown => "Unknown",
    }
}

fn transfer_str(t: InputTransferCurve) -> (r: &'static str)
    ensures
        r@ == transfer_name(t),
{
    match t {
        InputTransferCurve::Linear => "Linear",
        InputTransferCurve::Srgb => "Srgb",
        InputTransferCurve::Gamma18 => "Gamma18",
        InputTransferCurve::Gamma20 => "Gamma20",
        InputTransferCurve::Gamma22 => "Gamma22",
        InputTransferCurve::ScannerDevice => "ScannerDevice",
        InputTransferCurve::CameraRaw => "CameraRaw",
        InputTransferCurve::Unknown => "Unknown",
    }
}

fn reference_str(r: InputReference) -> (s: &'static str)
    ensures
        s@ == reference_name(r),
{
    match r {
        InputReference::LinearTransmission => "LinearTransmission",
        InputReference::DisplayReferred => "DisplayReferred",
    }
}

fn source_str(s: InputDomainSource) -> (r: &'static str)
    ensures
        r@ == source_name(s),
{
    match s {
        InputDomainSource::EmbeddedIcc => "EmbeddedIcc",
        InputDomainSource::ScannerInputProfile => "ScannerInputProfile",
        InputDomainSource::ScannerContainerRecord => "ScannerContainerRecord",
        InputDomainSource::RawMetadata => "RawMetadata",
        InputDomainSource::DeviceIdentification => "DeviceIdentification",
        InputDomainSource::FallbackSrgb => "FallbackSrgb",
    }
}

impl InputDomainRecord {
    /// `primaries/transfer/reference/source`, each in its `Debug` spelling.
    pub fn label(&self) -> (label: String)
        ensures
            label@ == primaries_name(self.primaries) + "/"@ + transfer_name(self.transfer) + "/"@
                + reference_name(self.reference) + "/"@ + source_name(self.source),
    {
        let mut out = owned(primaries_str(self.primaries));
        out.append("/");
        out.append(transfer_str(self.transfer));
        out.append("/");
        out.append(reference_str(self.reference));
        out.append("/");
        out.append(source_str(self.source));
        out
    }

    pub fn is_estimated(&self) -> (estimated: bool)
        ensures
            estimated == (self.estimated || self.confidence == InputDomainConfidence::Estimated),
    {
        self.estimated || self.confidence == InputDomainConfidence::Estimated
    }

    /// A field-by-field copy.
    pub fn duplicate(&self) -> (r: Self)
        ensures
            r == *self,
    {
        InputDomainRecord {
            primaries: self.primaries,
            transfer: self.transfer,
            reference: self.reference,
            normalization: self.normalization.clone(),
            source: self.source,
            confidence: self.confidence,
            estimated: self.estimated,
            detail: self.detail.clone(),
        }
    }
}

#[derive(Debug, Clone, PartialEq, Eq)]
pub struct PipelineProcessingReport {
    pub stages: Vec<PipelineStageRecord>,
    pub fallback_reasons: Vec<String>,
    pub base_source: String,
    pub base_confidence: String,
    pub excluded_open_light_pixels: usize,
    pub excluded_saturated_pixels: usize,
    pub excluded_invalid_pixels: usize,
    pub tone_mapping_mode: String,
    pub uses_physical_anchors: bool,
    pub analysis_data_domain: String,
    pub render_route: String,
    pub fallback_reason: String,
    /// Input-domain resolution for this frame's pixels.
    pub input_domain: InputDomainRecord,
    /// Version of the display-window rules this frame's endpoints were derived
    /// with; zero means older than any recorded rule.
    pub analysis_window_rule: u32,
}

/// The report a frame carries before anything was analysed.
pub open spec fn is_empty_report(r: PipelineProcessingReport) -> bool {
    &&& r.stages@.len() == 0
    &&& r.fallback_reasons@.len() == 0
    &&& r.base_source@ == Seq::<char>::empty()
    &&& r.base_confidence@ == Seq::<char>::empty()
    &&& r.excluded_open_light_pixels == 0
    &&& r.excluded_saturated_pixels == 0
    &&& r.excluded_invalid_pixels == 0
    &&& r.tone_mapping_mode@ == Seq::<char>::empty()
    &&& !r.uses_physical_anchors
    &&& r.analysis_data_domain@ == Seq::<char>::empty()
    &&& r.render_route@ == Seq::<char>::empty()
    &&& r.fallback_reason@ == Seq::<char>::empty()
    &&& is_fallback_input_domain(r.input_domain)
    &&& r.analysis_window_rule == 0
}

/// Every Smart Auto field of a report except its stages, fallback reasons and
/// base provenance.
pub open spec fn smart_auto_settings(r: PipelineProcessingReport) -> bool {
    &&& r.excluded_open_light_pixels == 0
    &&& r.excluded_saturated_pixels == 0
    &&& r.excluded_invalid_pixels == 0
    &&& r.tone_mapping_mode@ == "preserve_tone"@
    &&& r.analysis_data_domain@ == "linear_prophoto_estimate"@
    &&& r.render_route@ == "FilmAreaSmartAuto"@
    &&& r.fallback_reason@ == Seq::<char>::empty()
    &&& is_fallback_input_domain(r.input_domain)
    &&& r.analysis_window_rule == DENSITY_WINDOW_RULE_VERSION
}

/// Every Smart Auto field of a report except its stages and fallback reasons.
pub open spec fn smart_auto_fields(r: PipelineProcessingReport) -> bool {
    &&& smart_auto_settings(r)
    &&& r.base_source@ == "unresolved"@
    &&& r.base_confidence@ == "low"@
    &&& !r.uses_physical_anchors
}

/// The single stage of a Smart Auto decode.
pub open spec fn is_raw_decode_stage(s: PipelineStageRecord) -> bool {
    stage_is(
        s,
        "raw_decode"@,
        DataDomain::RawMosaic,
        DataDomain::ProPhotoEstimate,
        PipelineStageStatus::Used,
        "libraw_dcraw_process_camera_wb_to_prophoto_estimate"@,
    )
}

/// The report of a Smart Auto decode without fallback.
pub open spec fn is_smart_auto_report(r: PipelineProcessingReport) -> bool {
    &&& smart_auto_fields(r)
    &&& r.stages@.len() == 1
    &&& is_raw_decode_stage(r.stages@[0])
    &&& r.fallback_reasons@.len() == 0
}

/// The five stages of the Capture Corrected route.
pub open spec fn is_capture_corrected_stages(stages: Seq<PipelineStageRecord>, flat_used: bool) -> bool {
    &&& stages.len() == 5
    &&& stage_is(stages[0], "raw_unpack"@, DataDomain::RawMosaic, DataDomain::RawMosaic,
        PipelineStageStatus::Used, "libraw_unpack_without_dcraw_process"@)
    &&& stage_is(stages[1], "capture_correction"@, DataDomain::RawMosaic, DataDomain::CorrectedCfa,
        PipelineStageStatus::Used, CAPTURE_CORRECTION_ALGORITHM_VERSION@)
    &&& stage_is(stages[2], "fixed_demosaic"@, DataDomain::CorrectedCfa,
        DataDomain::CameraNativeTransmissionRgb, PipelineStageStatus::Used,
        CAPTURE_DEMOSAIC_ALGORITHM_VERSION@)
    &&& stage_is(stages[3], "capture_separation"@, DataDomain::CameraNativeTransmissionRgb,
        DataDomain::RelativeTransmissionRgb, PipelineStageStatus::Default,
        "identity_relative_transmission_no_density_claim"@)
    &&& stage_is(stages[4], "flat_field"@, DataDomain::CorrectedCfa, DataDomain::CorrectedCfa,
        if flat_used { PipelineStageStatus::Default } else { PipelineStageStatus::Unavailable },
        if flat_used { "stored_not_applied_pending_independent_definition"@ }
        else { "optional_flat_not_available"@ })
}

/// The report of the Capture Corrected route.
pub open spec fn is_capture_corrected_report(r: PipelineProcessingReport, flat_used: bool) -> bool {
    &&& smart_auto_fields(r)
    &&& is_capture_corrected_stages(r.stages@, flat_used)
    &&& r.fallback_reasons@.len() == 0
}

fn stage(
    name: &str,
    input_domain: DataDomain,
    output_domain: DataDomain,
    status: PipelineStageStatus,
    detail: &str,
) -> (r: PipelineStageRecord)
    ensures
        stage_is(r, name@, input_domain, output_domain, status, detail@),
{
    PipelineStageRecord {
        stage: owned(name),
        input_domain,
        output_domain,
        status,
        detail: owned(detail),
    }
}

impl Default for PipelineProcessingReport {
    fn default() -> (r: Self)
        ensures
            is_empty_report(r),
    {
        PipelineProcessingReport {
            stages: Vec::new(),
            fallback_reasons: Vec::new(),
            base_source: String::new(),
            base_confidence: String::new(),
            excluded_open_light_pixels: 0,
            excluded_saturated_pixels: 0,
            excluded_invalid_pixels: 0,
            tone_mapping_mode: String::new(),
            uses_physical_anchors: false,
            analysis_data_domain: String::new(),
            render_route: String::new(),
            fallback_reason: String::new(),
            input_domain: InputDomainRecord::default(),
            analysis_window_rule: 0,
        }
    }
}

impl PipelineProcessingReport {
    pub fn smart_auto() -> (r: Self)
        ensures
            is_smart_auto_report(r),
    {
        PipelineProcessingReport {
            stages: vec![
                stage(
                    "raw_decode",
                    DataDomain::RawMosaic,
                    DataDomain::ProPhotoEstimate,
                    PipelineStageStatus::Used,
                    "libraw_dcraw_process_camera_wb_to_prophoto_estimate",
                ),
            ],
            fallback_reasons: Vec::new(),
            base_source: owned("unresolved"),
            base_confidence: owned("low"),
            excluded_open_light_pixels: 0,
            excluded_saturated_pixels: 0,
            excluded_invalid_pixels: 0,
            tone_mapping_mode: owned("preserve_tone"),
            uses_physical_anchors: false,
            analysis_data_domain: owned("linear_prophoto_estimate"),
            render_route: owned("FilmAreaSmartAuto"),
            fallback_reason: String::new(),
            input_domain: InputDomainRecord::default(),
            analysis_window_rule: DENSITY_WINDOW_RULE_VERSION,
        }
    }

    pub fn capture_corrected(flat_used: bool) -> (r: Self)
        ensures
            is_capture_corrected_report(r, flat_used),
    {
        let mut report = PipelineProcessingReport::smart_auto();
        report.stages = vec![
            stage(
                "raw_unpack",
                DataDomain::RawMosaic,
                DataDomain::RawMosaic,
                PipelineStageStatus::Used,
                "libraw_unpack_without_dcraw_process",
            ),
            stage(
                "capture_correction",
                DataDomain::RawMosaic,
                DataDomain::CorrectedCfa,
                PipelineStageStatus::Used,
                CAPTURE_CORRECTION_ALGORITHM_VERSION,
            ),
            stage(
                "fixed_demosaic",
                DataDomain::CorrectedCfa,
                DataDomain::CameraNativeTransmissionRgb,
                PipelineStageStatus::Used,
                CAPTURE_DEMOSAIC_ALGORITHM_VERSION,
            ),
            stage(
                "capture_separation",
                DataDomain::CameraNativeTransmissionRgb,
                DataDomain::RelativeTransmissionRgb,
                PipelineStageStatus::Default,
                "identity_relative_transmission_no_density_claim",
            ),
            stage(
                "flat_field",
                DataDomain::CorrectedCfa,
                DataDomain::CorrectedCfa,
                if flat_used {
                    PipelineStageStatus::Default
                } else {
                    PipelineStageStatus::Unavailable
                },
                if flat_used {
                    "stored_not_applied_pending_independent_definition"
                } else {
                    "optional_flat_not_available"
                },
            ),
        ];
        report
    }

    pub fn smart_auto_fallback(reason: String) -> (r: Self)
        ensures
            smart_auto_fields(r),
            r.stages@.len() == 1,
            is_raw_decode_stage(r.stages@[0]),
            r.fallback_reasons@ == seq![reason],
    {
        let mut report = PipelineProcessingReport::smart_auto();
        report.fallback_reasons.push(reason);
        report
    }
}

#[derive(Debug, Clone, Copy, PartialEq, Eq, Structural)]
pub enum DensityAnchorSource {
    SampledFilmBase,
    SampledFullExposure,
    EstimatedFromContent,
    LegacyEstimate,
    MeasuredProfile,
}

#[derive(Debug, Clone, Copy, PartialEq, Eq, Structural)]
pub enum DensityAnchorScope {
    Frame,
    Roll,
    Profile,
}

#[derive(Debug, Clone, Copy, PartialEq, Eq, Structural)]
pub enum DensityAnchorConfidence {
    Estimated,
    UserSampled,
    Verified,
}

#[derive(Debug, Clone, PartialEq, Eq)]
pub struct DensityAnchorProvenance {
    pub input_domain: DataDomain,
    pub calibration_profile_id: Option<String>,
    pub calibration_payload_digest: Option<String>,
    pub raw_decode_version: Option<i64>,
    pub algorithm_version: String,
    pub legacy: bool,
}

/// Provenance of a record that predates provenance tracking.
pub open spec fn is_legacy_provenance(p: DensityAnchorProvenance) -> bool {
    &&& p.input_domain == DataDomain::ProPhotoEstimate
    &&& p.calibration_profile_id is None
    &&& p.calibration_payload_digest is None
    &&& p.raw_decode_version is None
    &&& p.algorithm_version@ == "legacy_unknown"@
    &&& p.legacy
}

impl Default for DensityAnchorProvenance {
    fn default() -> (p: Self)
        ensures
            is_legacy_provenance(p),
    {
        DensityAnchorProvenance {
            input_domain: DataDomain::ProPhotoEstimate,
            calibration_profile_id: None,
            calibration_payload_digest: None,
            raw_decode_version: None,
            algorithm_version: owned("legacy_unknown"),
            legacy: true,
        }
    }
}

impl DensityAnchorProvenance {
    /// A field-by-field copy.
    pub fn duplicate(&self) -> (r: Self)
        ensures
            r == *self,
    {
        DensityAnchorProvenance {
            input_domain: self.input_domain,
            calibration_profile_id: clone_opt_string(&self.calibration_profile_id),
            calibration_payload_digest: clone_opt_string(&self.calibration_payload_digest),
            raw_decode_version: self.raw_decode_version,
            algorithm_version: self.algorithm_version.clone(),
            legacy: self.legacy,
        }
    }
}

#[derive(Debug, Clone, PartialEq, Eq)]
pub struct DensityAnchor {
    /// Raw channel density before film-base subtraction (`f32` bit patterns).
    pub density: [u32; 3],
    pub source: DensityAnchorSource,
    pub scope: DensityAnchorScope,
    pub confidence: DensityAnchorConfidence,
    pub reference_id: Option<String>,
    pub provenance: DensityAnchorProvenance,
}

impl DensityAnchor {
    /// A field-by-field copy.
    pub fn duplicate(&self) -> (r: Self)
        ensures
            r == *self,
    {
        DensityAnchor {
            density: self.density,
            source: self.source,
            scope: self.scope,
            confidence: self.confidence,
            reference_id: clone_opt_string(&self.reference_id),
            provenance: self.provenance.duplicate(),
        }
    }
}

/// A copy of an optional anchor.
pub fn duplicate_anchor(a: &Option<DensityAnchor>) -> (r: Option<DensityAnchor>)
    ensures
        r == *a,
{
    match a {
        Some(anchor) => Some(anchor.duplicate()),
        None => None,
    }
}

#[derive(Debug, Clone, PartialEq, Eq)]
pub struct DensityAnchors {
    pub d_min_base: Option<DensityAnchor>,
    pub d_max_full_exposure: Option<DensityAnchor>,
    /// Replaced or domain-incompatible records retained for provenance and
    /// audit. Resolution never promotes these back into active endpoints.
    pub retained_records: Vec<DensityAnchor>,
    /// Fraction of the `base -> fully exposed leader` span that this Roll's
    /// photographs reach (`f32` bit pattern).
    pub highlight_fraction: Option<u32>,
}

/// Two sets of anchors hold the same records.
pub open spec fn same_anchors(a: DensityAnchors, b: DensityAnchors) -> bool {
    &&& a.d_min_base == b.d_min_base
    &&& a.d_max_full_exposure == b.d_max_full_exposure
    &&& a.retained_records@ == b.retained_records@
    &&& a.highlight_fraction == b.highlight_fraction
}

/// A set of anchors with no records.
pub open spec fn is_empty_anchors(a: DensityAnchors) -> bool {
    &&& a.d_min_base is None
    &&& a.d_max_full_exposure is None
    &&& a.retained_records@.len() == 0
    &&& a.highlight_fraction is None
}

/// The anchor, if any, is a roll-level record.
pub open spec fn is_roll_anchor(a: Option<DensityAnchor>) -> bool {
    a matches Some(anchor) && anchor.scope == DensityAnchorScope::Roll
}

/// The ProPhoto contract that a set of anchors supports.
pub open spec fn spec_prophoto_contract(a: DensityAnchors) -> ProcessingContract {
    if is_roll_anchor(a.d_min_base) && is_roll_anchor(a.d_max_full_exposure) {
        ProcessingContract::RollAnchoredProPhotoV11
    } else if is_roll_anchor(a.d_min_base) {
        ProcessingContract::RollBaseProPhotoV11
    } else {
        ProcessingContract::SmartAutoProPhotoV11
    }
}

/// The ProPhoto contract follows the roll-scope anchors: a roll base and a
/// roll full exposure anchor the roll fully, a roll base alone gives the
/// roll-base contract, and without a roll base the frame runs Smart Auto.
pub proof fn law_prophoto_contract_follows_roll_anchors(a: DensityAnchors)
    ensures
        (a.d_min_base matches Some(base) && base.scope == DensityAnchorScope::Roll) && (
        a.d_max_full_exposure matches Some(full) && full.scope == DensityAnchorScope::Roll)
            ==> spec_prophoto_contract(a) == ProcessingContract::RollAnchoredProPhotoV11,
        (a.d_min_base matches Some(base) && base.scope == DensityAnchorScope::Roll) && !(
        a.d_max_full_exposure matches Some(full) && full.scope == DensityAnchorScope::Roll)
            ==> spec_prophoto_contract(a) == ProcessingContract::RollBaseProPhotoV11,
        !(a.d_min_base matches Some(base) && base.scope == DensityAnchorScope::Roll)
            ==> spec_prophoto_contract(a) == ProcessingContract::SmartAutoProPhotoV11,
{
}

impl Default for DensityAnchors {
    fn default() -> (a: Self)
        ensures
            is_empty_anchors(a),
    {
        DensityAnchors {
            d_min_base: None,
            d_max_full_exposure: None,
            retained_records: Vec::new(),
            highlight_fraction: None,
        }
    }
}

impl DensityAnchors {
    pub fn has_base(&self) -> (r: bool)
        ensures
            r == self.d_min_base.is_some(),
    {
        self.d_min_base.is_some()
    }

    pub fn has_roll_base(&self) -> (r: bool)
        ensures
            r == is_roll_anchor(self.d_min_base),
    {
        match &self.d_min_base {
            Some(anchor) => anchor.scope == DensityAnchorScope::Roll,
            None => false,
        }
    }

    pub fn has_roll_full_exposure(&self) -> (r: bool)
        ensures
            r == is_roll_anchor(self.d_max_full_exposure),
    {
        match &self.d_max_full_exposure {
            Some(anchor) => anchor.scope == DensityAnchorScope::Roll,
            None => false,
        }
    }

    pub fn is_fully_anchored(&self) -> (r: bool)
        ensures
            r == (is_roll_anchor(self.d_min_base) && is_roll_anchor(self.d_max_full_exposure)),
    {
        self.has_roll_base() && self.has_roll_full_exposure()
    }

    pub fn prophoto_contract(&self) -> (contract: ProcessingContract)
        ensures
            contract == spec_prophoto_contract(*self),
    {
        if self.is_fully_anchored() {
            ProcessingContract::RollAnchoredProPhotoV11
        } else if self.has_roll_base() {
            ProcessingContract::RollBaseProPhotoV11
        } else {
            ProcessingContract::SmartAutoProPhotoV11
        }
    }

    /// A field-by-field copy.
    pub fn duplicate(&self) -> (r: Self)
        ensures
            same_anchors(r, *self),
    {
        let mut retained: Vec<DensityAnchor> = Vec::new();
        let mut i: usize = 0;
        while i < self.retained_records.len()
            invariant
                i <= self.retained_records.len(),
                retained@ == self.retained_records@.subrange(0, i as int),
            decreases self.retained_records.len() - i,
        {
            retained.push(self.retained_records[i].duplicate());
            i = i + 1;
        }
        assert(self.retained_records@.subrange(0, self.retained_records.len() as int)
            =~= self.retained_records@);
        DensityAnchors {
            d_min_base: duplicate_anchor(&self.d_min_base),
            d_max_full_exposure: duplicate_anchor(&self.d_max_full_exposure),
            retained_records: retained,
            highlight_fraction: self.highlight_fraction,
        }
    }
}

#[derive(Debug, Clone, Copy, PartialEq, Eq, Structural)]
pub enum ContentRangeScope {
    FilmArea,
    FullFrame,
}

#[derive(Debug, Clone, PartialEq, Eq)]
pub struct ContentRange {
    /// Per-channel lower density (`f32` bit patterns).
    pub low: [u32; 3],
    /// Per-channel upper density (`f32` bit patterns).
    pub high: [u32; 3],
    pub source_scope: ContentRangeScope,
    /// A stable algorithm identifier, not a user-facing label.
    pub percentile_method: String,
}

#[derive(Debug, Clone, Copy, PartialEq, Eq, Structural)]
pub enum RenderMode {
    PreserveTone,
    FullTone,
    /// Fixed roll-level mapping derived only from valid D-min/D-max anchors.
    RollAnchored,
}

impl Default for RenderMode {
    fn default() -> (mode: Self)
        ensures
            mode == RenderMode::PreserveTone,
    {
        RenderMode::PreserveTone
    }
}

/// Bit pattern of the `f32` value 0.0.
pub const F32_ZERO_BITS: u32 = 0x0000_0000;
/// Bit pattern of the `f32` value 0.1.
pub const F32_ONE_TENTH_BITS: u32 = 0x3dcc_cccd;
/// Bit pattern of the `f32` value 1.0.
pub const F32_ONE_BITS: u32 = 0x3f80_0000;
/// Bit pattern of the `f32` value 2.0.
pub const F32_TWO_BITS: u32 = 0x4000_0000;

/// Display mapping from density to the rendered positive. Every number is an
/// `f32` bit pattern.
#[derive(Debug, Clone, Copy, PartialEq, Eq)]
pub struct RenderMapping {
    pub mode: RenderMode,
    pub density_low: [u32; 3],
    pub density_high: [u32; 3],
    pub exposure: u32,
    pub gamma: u32,
    pub channel_offsets: [u32; 3],
}

/// The mapping used before anything was measured: densities 0.1 to 2.0,
/// neutral exposure and gamma 1.
pub open spec fn is_default_mapping(m: RenderMapping) -> bool {
    &&& m.mode == RenderMode::PreserveTone
    &&& m.density_low@ == seq![F32_ONE_TENTH_BITS, F32_ONE_TENTH_BITS, F32_ONE_TENTH_BITS]
    &&& m.density_high@ == seq![F32_TWO_BITS, F32_TWO_BITS, F32_TWO_BITS]
    &&& m.exposure == F32_ZERO_BITS
    &&& m.gamma == F32_ONE_BITS
    &&& m.channel_offsets@ == seq![F32_ZERO_BITS, F32_ZERO_BITS, F32_ZERO_BITS]
}

impl Default for RenderMapping {
    fn default() -> (m: Self)
        ensures
            is_default_mapping(m),
    {
        RenderMapping {
            mode: RenderMode::PreserveTone,
            density_low: [F32_ONE_TENTH_BITS, F32_ONE_TENTH_BITS, F32_ONE_TENTH_BITS],
            density_high: [F32_TWO_BITS, F32_TWO_BITS, F32_TWO_BITS],
            exposure: F32_ZERO_BITS,
            gamma: F32_ONE_BITS,
            channel_offsets: [F32_ZERO_BITS, F32_ZERO_BITS, F32_ZERO_BITS],
        }
    }
}

#[derive(Debug, Clone, PartialEq, Eq)]
pub struct PipelineState {
    pub contract: ProcessingContract,
    pub density_anchors: DensityAnchors,
    pub content_range: Option<ContentRange>,
    pub render_mapping: RenderMapping,
    pub processing_report: PipelineProcessingReport,
}

/// The roll film-base anchor was measured on a ProPhoto Estimate.
pub open spec fn base_is_prophoto_estimate(a: DensityAnchors) -> bool {
    a.d_min_base matches Some(anchor) && anchor.provenance.input_domain == DataDomain::ProPhotoEstimate
}

/// The state a frame resolves to from its Roll's density anchors alone.
pub open spec fn is_roll_anchor_state(s: PipelineState, anchors: DensityAnchors) -> bool {
    let roll_base = is_roll_anchor(anchors.d_min_base);
    let estimate = base_is_prophoto_estimate(anchors);
    let r = s.processing_report;
    &&& s.contract == spec_prophoto_contract(anchors)
    &&& s.density_anchors == anchors
    &&& s.content_range is None
    &&& is_default_mapping(s.render_mapping)
    &&& smart_auto_settings(r)
    &&& r.stages@.len() == 1
    &&& is_raw_decode_stage(r.stages@[0])
    &&& r.fallback_reasons@.len() == 0
    &&& r.base_source@ == (if !roll_base { "unresolved"@ } else if estimate {
        "roll_anchor_prophoto_estimate"@ } else { "roll_anchor_relative_transmission"@ })
    &&& r.base_confidence@ == (if !roll_base { "low"@ } else if estimate { "estimated"@ } else {
        "user_sampled"@ })
    &&& r.uses_physical_anchors == (roll_base && !estimate)
}

impl Default for PipelineState {
    fn default() -> (s: Self)
        ensures
            s.contract == ProcessingContract::LegacyV1,
            is_empty_anchors(s.density_anchors),
            s.content_range is None,
            is_default_mapping(s.render_mapping),
            is_empty_report(s.processing_report),
    {
        PipelineState {
            contract: ProcessingContract::LegacyV1,
            density_anchors: DensityAnchors::default(),
            content_range: None,
            render_mapping: RenderMapping::default(),
            processing_report: PipelineProcessingReport::default(),
        }
    }
}

impl PipelineState {
    pub fn smart_auto() -> (s: Self)
        ensures
            s.contract == ProcessingContract::SmartAutoProPhotoV11,
            is_empty_anchors(s.density_anchors),
            s.content_range is None,
            is_default_mapping(s.render_mapping),
            is_smart_auto_report(s.processing_report),
    {
        PipelineState {
            contract: ProcessingContract::SmartAutoProPhotoV11,
            density_anchors: DensityAnchors::default(),
            content_range: None,
            render_mapping: RenderMapping::default(),
            processing_report: PipelineProcessingReport::smart_auto(),
        }
    }

    pub fn from_roll_anchors(anchors: DensityAnchors) -> (s: Self)
        ensures
            is_roll_anchor_state(s, anchors),
    {
        let mut report = PipelineProcessingReport::smart_auto();
        let prophoto_estimate = match &anchors.d_min_base {
            Some(anchor) => anchor.provenance.input_domain == DataDomain::ProPhotoEstimate,
            None => false,
        };
        let roll_base = anchors.has_roll_base();
        report.base_source = if roll_base {
            if prophoto_estimate {
                owned("roll_anchor_prophoto_estimate")
            } else {
                owned("roll_anchor_relative_transmission")
            }
        } else {
            owned("unresolved")
        };
        report.base_confidence = if roll_base {
            if prophoto_estimate {
                owned("estimated")
            } else {
                owned("user_sampled")
            }
        } else {
            owned("low")
        };
        report.uses_physical_anchors = roll_base && !prophoto_estimate;
        let contract = anchors.prophoto_contract();
        PipelineState {
            contract,
            density_anchors: anchors,
            content_range: None,
            render_mapping: RenderMapping::default(),
            processing_report: report,
        }
    }

    pub fn capture_corrected(anchors: DensityAnchors, flat_used: bool) -> (s: Self)
        ensures
            s.contract == ProcessingContract::CaptureCorrectedV11,
            s.density_anchors == anchors,
            s.content_range is None,
            is_default_mapping(s.render_mapping),
            is_capture_corrected_report(s.processing_report, flat_used),
    {
        PipelineState {
            contract: ProcessingContract::CaptureCorrectedV11,
            density_anchors: anchors,
            content_range: None,
            render_mapping: RenderMapping::default(),
            processing_report: PipelineProcessingReport::capture_corrected(flat_used),
        }
    }
}

#[derive(Debug, Clone, Copy, PartialEq, Eq, Structural)]
pub enum FilmMode {
    Color,
    BW,
}

impl Default for FilmMode {
    fn default() -> (mode: Self)
        ensures
            mode == FilmMode::Color,
    {
        FilmMode::Color
    }
}

#[derive(Debug, Clone, PartialEq, Eq)]
pub struct RawDecodeParams {
    pub working_colorspace: String,
}

/// Working colour space assumed when a record does not state one.
pub fn default_working_colorspace() -> (space: String)
    ensures
        space@ == "linear-srgb"@,
{
    owned("linear-srgb")
}

impl Default for RawDecodeParams {
    fn default() -> (p: Self)
        ensures
            p.working_colorspace@ == "linear-srgb"@,
    {
        RawDecodeParams { working_colorspace: default_working_colorspace() }
    }
}

#[derive(Debug, Clone, Copy, PartialEq, Eq, Structural)]
pub struct BaseColor {
    pub base_r: u16,
    pub base_g: u16,
    pub base_b: u16,
}

/// The half-white placeholder a frame holds until its film base is measured.
pub open spec fn is_default_base_color(c: BaseColor) -> bool {
    c.base_r == 32768 && c.base_g == 32768 && c.base_b == 32768
}

impl Default for BaseColor {
    fn default() -> (c: Self)
        ensures
            is_default_base_color(c),
    {
        BaseColor { base_r: 32768, base_g: 32768, base_b: 32768 }
    }
}

#[derive(Debug, Clone, PartialEq, Eq)]
pub struct FilmstripItem {
    pub id: String,
    pub roll_id: String,
    pub file_path: String,
    /// Preferred thumbnail retained for compatibility with the current UI.
    pub thumbnail_base64: String,
    pub embedded_thumbnail_base64: String,
    pub rendered_thumbnail_base64: Option<String>,
    pub thumbnail_kind: String,
    pub base_analyzed: bool,
    pub state_available: bool,
    pub file_missing: bool,
}

// ---------------------------------------------------------------------------
// Capture payload verification
// ---------------------------------------------------------------------------

/// What the Capture checks read of a payload's capture parameters; the
/// floating-point epsilon is compared by the caller.
#[derive(Debug, Clone)]
pub struct CaptureParameterFacts {
    pub correction_algorithm: String,
    pub demosaic_algorithm: String,
    /// The recorded epsilon is finite and equals 1e-6 to within `f32::EPSILON`.
    pub epsilon_matches: bool,
    pub light_source_id: String,
    pub geometry_fingerprint: String,
}

/// What the Capture checks read of a calibration profile payload. Checks on
/// floating-point values are evaluated by the caller and recorded here as
/// their outcome; the payload's canonical serialisation is supplied as bytes.
#[derive(Debug, Clone)]
pub struct CapturePayloadFacts {
    pub payload_version: u32,
    pub issuer: CalibrationPayloadIssuer,
    pub calibration_session_id: Option<String>,
    pub payload_digest: String,
    /// The canonical serialisation of the payload with its digest cleared,
    /// when it could be serialised.
    pub canonical_json: Option<Vec<u8>>,
    pub hardware_fingerprint: String,
    pub raw_decode_version: Option<i64>,
    pub libraw_version: String,
    pub reference_frames: Vec<CalibrationReferenceSummary>,
    pub capture_parameters: Option<CaptureParameterFacts>,
    pub quality_mask: Option<CalibrationQualityMaskSummary>,
    pub mask_artifact: Option<CalibrationQualityMaskArtifact>,
    /// Whether the valid range is well formed (every bound finite, each
    /// minimum positive and below its maximum), when the payload has one.
    pub valid_range_ok: Option<bool>,
    pub capabilities: Vec<CalibrationCapability>,
    /// The status of the validation report, when the payload has one.
    pub validation_status: Option<CalibrationValidationStatus>,
}

/// A text that is empty once white space is trimmed.
pub open spec fn blank(s: Seq<char>) -> bool {
    crate::color_science::trimmed(s).len() == 0
}

pub(crate) fn is_blank(s: &str) -> (r: bool)
    ensures
        r == blank(s@),
{
    crate::text::is_empty_text(crate::color_science::trim(s))
}

/// The digest recorded for a byte string does not match it.
pub open spec fn digest_differs(data: Seq<u8>, digest: Seq<char>) -> bool {
    crate::digest::hex_lower(crate::digest::sha256(data)) != digest
}

/// The payload records a reference of `kind` with both of its digests.
pub open spec fn has_reference(frames: Seq<CalibrationReferenceSummary>, kind: CalibrationReferenceKind) -> bool {
    exists|i: int| 0 <= i < frames.len() && (#[trigger] frames[i]).kind == kind && !blank(
        frames[i].content_digest@,
    ) && !blank(frames[i].raw_metadata_digest@)
}

/// The quality mask summary is unusable.
pub open spec fn quality_invalid(q: CalibrationQualityMaskSummary) -> bool {
    q.total_samples == 0 || q.valid_samples == 0 || q.valid_samples > q.total_samples || blank(
        q.mask_artifact_digest@,
    ) || exists|i: int| 0 <= i < q.bad_pixel_indices@.len() && #[trigger] q.bad_pixel_indices@[i]
        >= q.total_samples
}

/// The capture parameters do not describe the current correction.
pub open spec fn parameters_invalid(p: CaptureParameterFacts) -> bool {
    p.correction_algorithm@ != CAPTURE_CORRECTION_ALGORITHM_VERSION@ || p.demosaic_algorithm@
        != CAPTURE_DEMOSAIC_ALGORITHM_VERSION@ || !p.epsilon_matches || blank(p.light_source_id@)
        || blank(p.geometry_fingerprint@)
}

/// The first reason the dark/open Capture payload cannot be used, checked in
/// the order the original checks run, or `None` when it is verified.
pub open spec fn capture_refusal(f: CapturePayloadFacts, current_raw_decode_version: i64) -> Option<&'static str> {
    if f.payload_version != CALIBRATION_PROFILE_PAYLOAD_VERSION {
        Some("capture_payload_version_unsupported")
    } else if f.issuer != CalibrationPayloadIssuer::BackendCalibrationSession || (match f.calibration_session_id {
        Some(id) => id@.len() == 0,
        None => true,
    }) || blank(f.payload_digest@) {
        Some("capture_payload_not_backend_issued")
    } else if (match f.canonical_json {
        Some(json) => digest_differs(json@, f.payload_digest@),
        None => true,
    }) {
        Some("capture_payload_digest_mismatch")
    } else if !f.capabilities@.contains(CalibrationCapability::CaptureCorrected) {
        Some("capture_capability_missing")
    } else if f.validation_status != Some(CalibrationValidationStatus::Passed) {
        Some("capture_validation_not_passed")
    } else if blank(f.hardware_fingerprint@) {
        Some("capture_hardware_fingerprint_missing")
    } else if blank(f.libraw_version@) {
        Some("capture_libraw_version_missing")
    } else if f.raw_decode_version != Some(current_raw_decode_version) {
        Some("capture_raw_decode_version_mismatch")
    } else if f.capture_parameters is None {
        Some("capture_parameters_missing")
    } else if parameters_invalid(f.capture_parameters->Some_0) {
        Some("capture_parameters_invalid")
    } else if !has_reference(f.reference_frames@, CalibrationReferenceKind::DarkFrame) || !has_reference(
        f.reference_frames@,
        CalibrationReferenceKind::OpenGate,
    ) {
        Some("capture_reference_summary_incomplete")
    } else if f.quality_mask is None {
        Some("capture_quality_mask_missing")
    } else if quality_invalid(f.quality_mask->Some_0) {
        Some("capture_quality_mask_invalid")
    } else if f.mask_artifact is None {
        Some("capture_quality_mask_artifact_missing")
    } else {
        let q = f.quality_mask->Some_0;
        let m = f.mask_artifact->Some_0;
        if m.encoding@ != "invalid_bitset_le_v1"@ || m.sample_count != q.total_samples || blank(
            m.data_base64@,
        ) {
            Some("capture_quality_mask_artifact_invalid")
        } else if crate::digest::base64_standard_decoded(m.data_base64@) is None {
            Some("capture_quality_mask_artifact_invalid")
        } else if ({
            let bytes = crate::digest::base64_standard_decoded(m.data_base64@)->Some_0;
            bytes.len() != (q.total_samples + 7) / 8 || digest_differs(bytes, q.mask_artifact_digest@)
        }) {
            Some("capture_quality_mask_digest_mismatch")
        } else if f.valid_range_ok is None {
            Some("capture_valid_range_missing")
        } else if f.valid_range_ok == Some(false) {
            Some("capture_valid_range_invalid")
        } else {
            None
        }
    }
}

fn digest_mismatch(data: &[u8], digest: &str) -> (r: bool)
    ensures
        r == digest_differs(data@, digest@),
{
    let computed = crate::digest::sha256_hex(data);
    !crate::text::str_eq(computed.as_str(), digest)
}

fn reference_present(frames: &Vec<CalibrationReferenceSummary>, kind: CalibrationReferenceKind) -> (r: bool)
    ensures
        r == has_reference(frames@, kind),
{
    let mut i: usize = 0;
    while i < frames.len()
        invariant
            i <= frames@.len(),
            forall|j: int| 0 <= j < i ==> !((#[trigger] frames@[j]).kind == kind && !blank(
                frames@[j].content_digest@,
            ) && !blank(frames@[j].raw_metadata_digest@)),
        decreases frames.len() - i,
    {
        let frame = &frames[i];
        if frame.kind == kind && !is_blank(frame.content_digest.as_str()) && !is_blank(
            frame.raw_metadata_digest.as_str(),
        ) {
            return true;
        }
        i = i + 1;
    }
    false
}

fn quality_is_invalid(q: &CalibrationQualityMaskSummary) -> (r: bool)
    ensures
        r == quality_invalid(*q),
{
    if q.total_samples == 0 || q.valid_samples == 0 || q.valid_samples > q.total_samples || is_blank(
        q.mask_artifact_digest.as_str(),
    ) {
        return true;
    }
    let mut i: usize = 0;
    while i < q.bad_pixel_indices.len()
        invariant
            i <= q.bad_pixel_indices@.len(),
            forall|j: int| 0 <= j < i ==> #[trigger] q.bad_pixel_indices@[j] < q.total_samples,
        decreases q.bad_pixel_indices.len() - i,
    {
        if q.bad_pixel_indices[i] as u64 >= q.total_samples {
            return true;
        }
        i = i + 1;
    }
    false
}

fn has_capture_capability(capabilities: &Vec<CalibrationCapability>) -> (r: bool)
    ensures
        r == capabilities@.contains(CalibrationCapability::CaptureCorrected),
{
    let mut i: usize = 0;
    while i < capabilities.len()
        invariant
            i <= capabilities@.len(),
            forall|j: int| 0 <= j < i ==> capabilities@[j] != CalibrationCapability::CaptureCorrected,
        decreases capabilities.len() - i,
    {
        if capabilities[i] == CalibrationCapability::CaptureCorrected {
            assert(capabilities@[i as int] == CalibrationCapability::CaptureCorrected);
            return true;
        }
        i = i + 1;
    }
    false
}

/// Check the mask artifact against its summary; `None` when it matches.
fn mask_refusal(q: &CalibrationQualityMaskSummary, m: &CalibrationQualityMaskArtifact) -> (r: Option<&'static str>)
    ensures
        r == (if m.encoding@ != "invalid_bitset_le_v1"@ || m.sample_count != q.total_samples || blank(
            m.data_base64@,
        ) {
            Some("capture_quality_mask_artifact_invalid")
        } else if crate::digest::base64_standard_decoded(m.data_base64@) is None {
            Some("capture_quality_mask_artifact_invalid")
        } else if ({
            let bytes = crate::digest::base64_standard_decoded(m.data_base64@)->Some_0;
            bytes.len() != (q.total_samples + 7) / 8 || digest_differs(bytes, q.mask_artifact_digest@)
        }) {
            Some("capture_quality_mask_digest_mismatch")
        } else {
            None::<&'static str>
        }),
{
    if !crate::text::str_eq(m.encoding.as_str(), "invalid_bitset_le_v1") || m.sample_count != q.total_samples
        || is_blank(m.data_base64.as_str()) {
        return Some("capture_quality_mask_artifact_invalid");
    }
    let bytes = match crate::digest::decode_base64(m.data_base64.as_str()) {
        Some(bytes) => bytes,
        None => return Some("capture_quality_mask_artifact_invalid"),
    };
    let expected = q.total_samples / 8 + if q.total_samples % 8 == 0 {
        0
    } else {
        1
    };
    assert(expected == (q.total_samples + 7) / 8);
    if bytes.len() as u64 != expected || digest_mismatch(bytes.as_slice(), q.mask_artifact_digest.as_str()) {
        return Some("capture_quality_mask_digest_mismatch");
    }
    None
}

/// Validate the independently usable dark/open Capture payload: the first
/// reason it cannot be trusted, or `None` when it is verified.
pub fn capture_validation_error(facts: &CapturePayloadFacts, current_raw_decode_version: i64) -> (r: Option<&'static str>)
    ensures
        r == capture_refusal(*facts, current_raw_decode_version),
{
    if facts.payload_version != CALIBRATION_PROFILE_PAYLOAD_VERSION {
        return Some("capture_payload_version_unsupported");
    }
    let session_missing = match &facts.calibration_session_id {
        Some(id) => crate::text::is_empty_text(id.as_str()),
        None => true,
    };
    if facts.issuer != CalibrationPayloadIssuer::BackendCalibrationSession || session_missing || is_blank(
        facts.payload_digest.as_str(),
    ) {
        return Some("capture_payload_not_backend_issued");
    }
    let digest_wrong = match &facts.canonical_json {
        Some(json) => digest_mismatch(json.as_slice(), facts.payload_digest.as_str()),
        None => true,
    };
    if digest_wrong {
        return Some("capture_payload_digest_mismatch");
    }
    if !has_capture_capability(&facts.capabilities) {
        return Some("capture_capability_missing");
    }
    match facts.validation_status {
        Some(CalibrationValidationStatus::Passed) => {},
        _ => return Some("capture_validation_not_passed"),
    }
    if is_blank(facts.hardware_fingerprint.as_str()) {
        return Some("capture_hardware_fingerprint_missing");
    }
    if is_blank(facts.libraw_version.as_str()) {
        return Some("capture_libraw_version_missing");
    }
    match facts.raw_decode_version {
        Some(v) => {
            if v != current_raw_decode_version {
                return Some("capture_raw_decode_version_mismatch");
            }
        },
        None => return Some("capture_raw_decode_version_mismatch"),
    }
    let parameters = match &facts.capture_parameters {
        Some(p) => p,
        None => return Some("capture_parameters_missing"),
    };
    if !crate::text::str_eq(parameters.correction_algorithm.as_str(), CAPTURE_CORRECTION_ALGORITHM_VERSION)
        || !crate::text::str_eq(parameters.demosaic_algorithm.as_str(), CAPTURE_DEMOSAIC_ALGORITHM_VERSION)
        || !parameters.epsilon_matches || is_blank(parameters.light_source_id.as_str()) || is_blank(
        parameters.geometry_fingerprint.as_str(),
    ) {
        return Some("capture_parameters_invalid");
    }
    if !reference_present(&facts.reference_frames, CalibrationReferenceKind::DarkFrame)
        || !reference_present(&facts.reference_frames, CalibrationReferenceKind::OpenGate) {
        return Some("capture_reference_summary_incomplete");
    }
    let quality = match &facts.quality_mask {
        Some(q) => q,
        None => return Some("capture_quality_mask_missing"),
    };
    if quality_is_invalid(quality) {
        return Some("capture_quality_mask_invalid");
    }
    let mask = match &facts.mask_artifact {
        Some(m) => m,
        None => return Some("capture_quality_mask_artifact_missing"),
    };
    let refused = mask_refusal(quality, mask);
    if refused.is_some() {
        return refused;
    }
    match facts.valid_range_ok {
        None => Some("capture_valid_range_missing"),
        Some(false) => Some("capture_valid_range_invalid"),
        Some(true) => None,
    }
}

/// The Capture payload passes every check.
pub fn capture_is_verified(facts: &CapturePayloadFacts, current_raw_decode_version: i64) -> (r: bool)
    ensures
        r == (capture_refusal(*facts, current_raw_decode_version) is None),
{
    capture_validation_error(facts, current_raw_decode_version).is_none()
}

// ---------------------------------------------------------------------------
// Thumbnails
// ---------------------------------------------------------------------------

/// A stored thumbnail that is present and not empty.
pub open spec fn has_rendered(rendered: Option<String>) -> bool {
    rendered matches Some(t) && t@.len() > 0
}

/// The pipeline state a frame renders with: the one the running session
/// derived for it, when there is one, else the state saved with the frame.
pub fn effective_pipeline_state<'a>(runtime: &'a Option<PipelineState>, saved: &'a PipelineState) -> (r: &'a PipelineState)
    ensures
        *r == match *runtime {
            Some(state) => state,
            None => *saved,
        },
{
    match runtime {
        Some(state) => state,
        None => saved,
    }
}

/// The thumbnail a frame shows: its rendered positive when it has one, else
/// the embedded import preview.
pub fn preferred_thumbnail<'a>(embedded: &'a String, rendered: &'a Option<String>) -> (r: &'a str)
    ensures
        r@ == if has_rendered(*rendered) {
            rendered->Some_0@
        } else {
            embedded@
        },
{
    match rendered {
        Some(t) => {
            if crate::text::is_empty_text(t.as_str()) {
                embedded.as_str()
            } else {
                t.as_str()
            }
        },
        None => embedded.as_str(),
    }
}

/// Which thumbnail a frame shows: `rendered` or `embedded`.
pub fn thumbnail_kind(rendered: &Option<String>) -> (r: &'static str)
    ensures
        r == if has_rendered(*rendered) {
            "rendered"
        } else {
            "embedded"
        },
{
    match rendered {
        Some(t) => {
            if crate::text::is_empty_text(t.as_str()) {
                "embedded"
            } else {
                "rendered"
            }
        },
        None => "embedded",
    }
}

} // verus!
