//! Version numbers and migration rules of the persisted project database.
use vstd::prelude::*;
use crate::app_state::{capture_refusal, digest_differs, CapturePayloadFacts, ProcessingContract};

verus! {

pub const DATABASE_PATH: &'static str = "nexfilm_user.db";
pub const LEGACY_MATH_VERSION: i64 = 3;
pub const MATH_VERSION: i64 = 5;
pub const RAW_DECODE_VERSION: i64 = 9;
pub const LAST_USED_CALIBRATION_PROFILE_KEY: &'static str = "last_used_calibration_profile_id";

/// The maths version a frame processed under a contract is stored with:
/// retired compatibility records keep the legacy version.
pub open spec fn spec_math_version_for_contract(contract: ProcessingContract) -> i64 {
    if contract == ProcessingContract::LegacyV1 {
        LEGACY_MATH_VERSION
    } else {
        MATH_VERSION
    }
}

pub fn math_version_for_contract(contract: ProcessingContract) -> (version: i64)
    ensures
        version == spec_math_version_for_contract(contract),
{
    match contract {
        ProcessingContract::LegacyV1 => LEGACY_MATH_VERSION,
        _ => MATH_VERSION,
    }
}

/// A frame stored under an older density contract or RAW decoder must have
/// its base estimate and rendered thumbnail discarded.
pub open spec fn spec_needs_density_migration(math_version: i64, raw_decode_version: i64) -> bool {
    math_version < LEGACY_MATH_VERSION || raw_decode_version < RAW_DECODE_VERSION
}

pub fn needs_density_migration(math_version: i64, raw_decode_version: i64) -> (r: bool)
    ensures
        r == spec_needs_density_migration(math_version, raw_decode_version),
{
    math_version < LEGACY_MATH_VERSION || raw_decode_version < RAW_DECODE_VERSION
}

/// A stored text that is present and not empty.
pub open spec fn present(value: Option<String>) -> bool {
    value matches Some(v) && v@.len() > 0
}

fn is_present(value: &Option<String>) -> (r: bool)
    ensures
        r == present(*value),
{
    match value {
        Some(v) => !crate::text::is_empty_text(v.as_str()),
        None => false,
    }
}

/// The thumbnails a frame that still has a single legacy thumbnail moves to:
/// the embedded thumbnail (the legacy one when none was stored) and the
/// rendered thumbnail (kept when stored; otherwise the legacy one, but only
/// for a frame that was edited). Frames without a legacy thumbnail are left
/// alone.
pub open spec fn legacy_thumbnail_move(
    legacy: Option<String>,
    edited: bool,
    embedded: Option<String>,
    rendered: Option<String>,
) -> Option<(Seq<char>, Option<Seq<char>>)> {
    if !present(legacy) {
        None
    } else {
        let embedded_next = if present(embedded) {
            embedded->Some_0@
        } else {
            legacy->Some_0@
        };
        let rendered_next = if present(rendered) {
            Some(rendered->Some_0@)
        } else if edited {
            Some(legacy->Some_0@)
        } else {
            None
        };
        Some((embedded_next, rendered_next))
    }
}

pub fn migrate_legacy_thumbnail(
    legacy: Option<String>,
    edited: bool,
    embedded: Option<String>,
    rendered: Option<String>,
) -> (r: Option<(String, Option<String>)>)
    ensures
        match legacy_thumbnail_move(legacy, edited, embedded, rendered) {
            None => r is None,
            Some((e, d)) => r matches Some((re, rd)) && re@ == e && match d {
                None => rd is None,
                Some(t) => rd matches Some(x) && x@ == t,
            },
        },
{
    if !is_present(&legacy) {
        return None;
    }
    let legacy_text = match legacy {
        Some(v) => v,
        None => String::new(),
    };
    let rendered_present = is_present(&rendered);
    let embedded_next = if is_present(&embedded) {
        match embedded {
            Some(v) => v,
            None => String::new(),
        }
    } else {
        legacy_text.clone()
    };
    let rendered_next = if rendered_present {
        rendered
    } else if edited {
        Some(legacy_text)
    } else {
        None
    };
    Some((embedded_next, rendered_next))
}


/// The schema version a stored calibration profile is loaded with: a profile
/// whose calibration level cannot be read is isolated with the largest
/// version; otherwise the stored version, negative values read as zero.
pub open spec fn spec_stored_schema_version(schema_version: i64, level_readable: bool) -> u32 {
    if !level_readable {
        u32::MAX
    } else if schema_version <= 0 {
        0
    } else {
        schema_version as u32
    }
}

pub fn stored_schema_version(schema_version: i64, level_readable: bool) -> (r: u32)
    ensures
        r == spec_stored_schema_version(schema_version, level_readable),
{
    if !level_readable {
        u32::MAX
    } else if schema_version <= 0 {
        0
    } else {
        #[verifier::truncate]
        (schema_version as u32)
    }
}

/// A passed calibration session still vouches for a profile's payload
/// digest: the session's payload records that digest, serialises to it, and
/// passes every Capture check.
pub open spec fn session_vouches(session: CapturePayloadFacts, payload_digest: Seq<char>, current_raw_decode_version: i64) -> bool {
    &&& session.payload_digest@ == payload_digest
    &&& session.canonical_json matches Some(json) && !digest_differs(json@, payload_digest)
    &&& capture_refusal(session, current_raw_decode_version) is None
}

/// Whether the payload of a passed session (`None` when there is none, or it
/// cannot be read) vouches for `payload_digest`.
pub fn session_payload_matches(
    session: &Option<CapturePayloadFacts>,
    payload_digest: &str,
    current_raw_decode_version: i64,
) -> (r: bool)
    ensures
        r == (*session matches Some(s) && session_vouches(s, payload_digest@, current_raw_decode_version)),
{
    match session {
        None => false,
        Some(s) => {
            if !crate::text::str_eq(s.payload_digest.as_str(), payload_digest) {
                return false;
            }
            let digest_matches = match &s.canonical_json {
                Some(json) => {
                    let digest = crate::digest::sha256_hex(json.as_slice());
                    crate::text::str_eq(digest.as_str(), payload_digest)
                },
                None => false,
            };
            digest_matches && crate::app_state::capture_is_verified(s, current_raw_decode_version)
        },
    }
}


/// Once a frame is stamped with the versions a migration writes, or saved
/// under any processing contract by the current decoder, no later start
/// migrates it again.
pub proof fn law_stamped_frames_need_no_migration(contract: ProcessingContract)
    ensures
        !spec_needs_density_migration(LEGACY_MATH_VERSION, RAW_DECODE_VERSION),
        !spec_needs_density_migration(spec_math_version_for_contract(contract), RAW_DECODE_VERSION),
{
}

/// Moving a legacy thumbnail settles after one run: moving it again, from
/// the slots the first run filled, leaves them as they are.
pub proof fn law_thumbnail_move_settles(
    legacy: Option<String>,
    edited: bool,
    embedded: Option<String>,
    rendered: Option<String>,
    embedded_after: String,
    rendered_after: Option<String>,
)
    requires
        legacy_thumbnail_move(legacy, edited, embedded, rendered) matches Some((e, d)) && e == embedded_after@
            && match d {
            None => rendered_after is None,
            Some(t) => rendered_after matches Some(x) && x@ == t,
        },
    ensures
        legacy_thumbnail_move(legacy, edited, Some(embedded_after), rendered_after) matches Some((e, d)) && e
            == embedded_after@ && match d {
            None => rendered_after is None,
            Some(t) => rendered_after matches Some(x) && x@ == t,
        },
{
}

} // verus!
