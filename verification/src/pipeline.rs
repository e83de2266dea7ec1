//! Decisions about a frame's film base that the density pipeline relies on:
//! whether a persisted base is a measurement of the frame that stores it, and
//! whether a frame's own base may be subtracted at all.
use vstd::prelude::*;
use crate::app_state::{BaseColor, PipelineState, ProcessingContract};

verus! {

/// Recorded when a frame carries a film base that was measured on another
/// frame of the same Roll instead of on its own pixels.
pub const INHERITED_FILM_BASE_SOURCE: &'static str = "inherited_film_base";

/// Base sources that record no measurement of the frame's own film.
pub open spec fn is_unmeasured_source(source: Seq<char>) -> bool {
    source == Seq::<char>::empty() || source == "unresolved"@ || source == INHERITED_FILM_BASE_SOURCE@
        || source == "compatibility_fallback"@ || source == "missing_film_base_reference"@
}

/// True when a persisted base belongs to the frame that stores it: a base that
/// is not the half-white placeholder, with a source that records a measurement.
pub open spec fn spec_base_is_frame_measurement(source: Seq<char>, base_color: BaseColor) -> bool {
    !crate::app_state::is_default_base_color(base_color) && !is_unmeasured_source(source)
}

pub fn base_is_frame_measurement(source: &str, base_color: &BaseColor) -> (r: bool)
    ensures
        r == spec_base_is_frame_measurement(source@, *base_color),
{
    if base_color.base_r == 32768 && base_color.base_g == 32768 && base_color.base_b == 32768 {
        return false;
    }
    !(crate::text::is_empty_text(source) || crate::text::str_eq(source, "unresolved") || crate::text::str_eq(
        source,
        INHERITED_FILM_BASE_SOURCE,
    ) || crate::text::str_eq(source, "compatibility_fallback") || crate::text::str_eq(
        source,
        "missing_film_base_reference",
    ))
}

/// A frame's own film base may be subtracted: the state is not a retired
/// compatibility record, has no roll base anchor, was not analysed in the
/// legacy sRGB domain, holds a measured base and records where it came from.
pub open spec fn frame_base_is_trusted(state: PipelineState, base_color: BaseColor) -> bool {
    let source = state.processing_report.base_source@;
    &&& state.contract != ProcessingContract::LegacyV1
    &&& state.density_anchors.d_min_base is None
    &&& state.processing_report.analysis_data_domain@ != "legacy_linear_srgb"@
    &&& !crate::app_state::is_default_base_color(base_color)
    &&& !(source == Seq::<char>::empty() || source == "unresolved"@ || source
        == "compatibility_fallback"@)
}

/// The per-frame film base this state should subtract, as the 16-bit base
/// colour its density is derived from, when it has a trusted one.
pub fn frame_base(state: &PipelineState, base_color: &BaseColor) -> (r: Option<BaseColor>)
    ensures
        r == (if frame_base_is_trusted(*state, *base_color) {
            Some(*base_color)
        } else {
            None
        }),
{
    if state.contract == ProcessingContract::LegacyV1 || state.density_anchors.d_min_base.is_some()
        || crate::text::str_eq(state.processing_report.analysis_data_domain.as_str(), "legacy_linear_srgb")
        || (base_color.base_r == 32768 && base_color.base_g == 32768 && base_color.base_b == 32768) {
        return None;
    }
    let source = state.processing_report.base_source.as_str();
    if crate::text::is_empty_text(source) || crate::text::str_eq(source, "unresolved") || crate::text::str_eq(
        source,
        "compatibility_fallback",
    ) {
        return None;
    }
    Some(*base_color)
}

} // verus!
