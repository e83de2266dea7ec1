//! The scanner input-profile boundary: what a local scanner profile must
//! declare before its transform may be applied, and how its digests bind it
//! to the file it came from.
use vstd::prelude::*;

verus! {

#[derive(Debug, Clone, Copy, PartialEq, Eq, Structural)]
pub enum ScannerProfileTarget {
    LinearRgb,
    Pcs,
}

#[derive(Debug, Clone, Copy, PartialEq, Eq, Structural)]
pub enum ScannerProfileConfidence {
    Unknown,
    Estimated,
    Characterized,
}

/// A scanner input profile. The transform is carried as `f32` bit patterns.
#[derive(Debug, Clone)]
pub struct ScannerInputProfile {
    pub profile_id: String,
    pub manufacturer: String,
    pub model: String,
    pub driver_software: String,
    pub resolution: u32,
    pub bit_depth: u16,
    pub positive_negative_mode: String,
    pub infrared: bool,
    pub multi_exposure: bool,
    pub lamp_holder: String,
    pub file_transfer_curve: String,
    pub crop_geometry: String,
    pub input_encoding: String,
    /// Digest of the actual ICC file, when an external ICC is supplied.
    pub icc_digest: String,
    /// Digest of this configuration, kept separate from the ICC digest.
    pub config_digest: String,
    pub profile_source: String,
    pub license: String,
    pub verified: bool,
    pub confidence: ScannerProfileConfidence,
    pub target: ScannerProfileTarget,
    pub compatible_film_class: String,
    pub matrix: [[u32; 3]; 3],
    pub offset: [u32; 3],
}

/// An `f32` bit pattern encodes a finite number: its exponent is not all ones.
pub open spec fn finite_bits(bits: u32) -> bool {
    (bits >> 23u32) & 0xffu32 != 0xffu32
}

fn is_finite_bits(bits: u32) -> (r: bool)
    ensures
        r == finite_bits(bits),
{
    (bits >> 23u32) & 0xffu32 != 0xffu32
}

/// The descriptive fields a profile must fill, by name, in checking order.
pub open spec fn required_fields(p: ScannerInputProfile) -> Seq<(Seq<char>, Seq<char>)> {
    seq![
        ("manufacturer"@, p.manufacturer@),
        ("model"@, p.model@),
        ("driver_software"@, p.driver_software@),
        ("positive_negative_mode"@, p.positive_negative_mode@),
        ("lamp_holder"@, p.lamp_holder@),
        ("file_transfer_curve"@, p.file_transfer_curve@),
        ("crop_geometry"@, p.crop_geometry@),
        ("profile_source"@, p.profile_source@),
        ("license"@, p.license@),
        ("input_encoding"@, p.input_encoding@),
        ("icc_digest"@, p.icc_digest@),
        ("compatible_film_class"@, p.compatible_film_class@),
    ]
}

/// The name of the first required field that is blank, if any.
pub open spec fn first_blank_field(fields: Seq<(Seq<char>, Seq<char>)>) -> Option<Seq<char>>
    decreases fields.len(),
{
    if fields.len() == 0 {
        None
    } else if crate::app_state::blank(fields[0].1) {
        Some(fields[0].0)
    } else {
        first_blank_field(fields.drop_first())
    }
}

/// Every value of the transform is finite.
pub open spec fn transform_is_finite(p: ScannerInputProfile) -> bool {
    &&& forall|r: int, c: int| 0 <= r < 3 && 0 <= c < 3 ==> finite_bits(#[trigger] p.matrix[r][c])
    &&& forall|c: int| 0 <= c < 3 ==> finite_bits(#[trigger] p.offset[c])
}

/// Why a profile is refused, if it is, in checking order.
pub open spec fn profile_refusal(p: ScannerInputProfile) -> Option<Seq<char>> {
    match first_blank_field(required_fields(p)) {
        Some(name) => Some("scanner_profile_"@ + name + "_missing"@),
        None => if p.resolution == 0 || p.bit_depth == 0 {
            Some("scanner_profile_dimensions_invalid"@)
        } else if !transform_is_finite(p) {
            Some("scanner_profile_transform_non_finite"@)
        } else if p.verified && p.confidence != ScannerProfileConfidence::Characterized {
            Some("scanner_profile_verified_requires_characterized_confidence"@)
        } else if !crate::color_science::lowers_to(crate::color_science::trimmed(p.input_encoding@), "linear_rgb"@) {
            Some("scanner_profile_input_encoding_unsupported"@)
        } else if p.target != ScannerProfileTarget::LinearRgb {
            Some("scanner_profile_target_space_unsupported"@)
        } else {
            None
        },
    }
}

fn check_field(name: &str, value: &str) -> (r: Option<String>)
    ensures
        match r {
            Some(m) => crate::app_state::blank(value@) && m@ == "scanner_profile_"@ + name@ + "_missing"@,
            None => !crate::app_state::blank(value@),
        },
{
    if crate::text::is_empty_text(crate::color_science::trim(value)) {
        let mut message = crate::text::joined("scanner_profile_", name);
        message.append("_missing");
        Some(message)
    } else {
        None
    }
}

impl ScannerInputProfile {
    pub fn validate(&self) -> (r: Result<(), String>)
        ensures
            match profile_refusal(*self) {
                Some(message) => r is Err && r->Err_0@ == message,
                None => r is Ok,
            },
    {
        let ghost fields = required_fields(*self);
        assert(fields.drop_first().drop_first().drop_first().drop_first().drop_first().drop_first().drop_first()
            .drop_first().drop_first().drop_first().drop_first().drop_first().len() == 0);
        reveal_with_fuel(first_blank_field, 13);
        match check_field("manufacturer", self.manufacturer.as_str()) {
            Some(m) => return Err(m),
            None => {},
        }
        match check_field("model", self.model.as_str()) {
            Some(m) => return Err(m),
            None => {},
        }
        match check_field("driver_software", self.driver_software.as_str()) {
            Some(m) => return Err(m),
            None => {},
        }
        match check_field("positive_negative_mode", self.positive_negative_mode.as_str()) {
            Some(m) => return Err(m),
            None => {},
        }
        match check_field("lamp_holder", self.lamp_holder.as_str()) {
            Some(m) => return Err(m),
            None => {},
        }
        match check_field("file_transfer_curve", self.file_transfer_curve.as_str()) {
            Some(m) => return Err(m),
            None => {},
        }
        match check_field("crop_geometry", self.crop_geometry.as_str()) {
            Some(m) => return Err(m),
            None => {},
        }
        match check_field("profile_source", self.profile_source.as_str()) {
            Some(m) => return Err(m),
            None => {},
        }
        match check_field("license", self.license.as_str()) {
            Some(m) => return Err(m),
            None => {},
        }
        match check_field("input_encoding", self.input_encoding.as_str()) {
            Some(m) => return Err(m),
            None => {},
        }
        match check_field("icc_digest", self.icc_digest.as_str()) {
            Some(m) => return Err(m),
            None => {},
        }
        match check_field("compatible_film_class", self.compatible_film_class.as_str()) {
            Some(m) => return Err(m),
            None => {},
        }
        if self.resolution == 0 || self.bit_depth == 0 {
            return Err(crate::text::owned("scanner_profile_dimensions_invalid"));
        }
        let mut finite = true;
        let mut r: usize = 0;
        while r < 3
            invariant
                r <= 3,
                finite == (forall|i: int, c: int| 0 <= i < r && 0 <= c < 3 ==> finite_bits(
                    #[trigger] self.matrix[i][c],
                )),
            decreases 3 - r,
        {
            let row = self.matrix[r];
            let row_finite = is_finite_bits(row[0]) && is_finite_bits(row[1]) && is_finite_bits(row[2]);
            assert(row_finite == (forall|c: int| 0 <= c < 3 ==> finite_bits(#[trigger] self.matrix[r as int][c]))) by {
                if !row_finite {
                    if !finite_bits(row[0]) {
                        assert(!finite_bits(self.matrix[r as int][0]));
                    } else if !finite_bits(row[1]) {
                        assert(!finite_bits(self.matrix[r as int][1]));
                    } else {
                        assert(!finite_bits(self.matrix[r as int][2]));
                    }
                }
            }
            finite = finite && row_finite;
            r = r + 1;
        }
        let offset_finite = is_finite_bits(self.offset[0]) && is_finite_bits(self.offset[1]) && is_finite_bits(
            self.offset[2],
        );
        assert(offset_finite == (forall|c: int| 0 <= c < 3 ==> finite_bits(#[trigger] self.offset[c]))) by {
            if !offset_finite {
                if !finite_bits(self.offset[0]) {
                    assert(!finite_bits(self.offset[0]));
                } else if !finite_bits(self.offset[1]) {
                    assert(!finite_bits(self.offset[1]));
                } else {
                    assert(!finite_bits(self.offset[2]));
                }
            }
        }
        if !(finite && offset_finite) {
            return Err(crate::text::owned("scanner_profile_transform_non_finite"));
        }
        if self.verified && self.confidence != ScannerProfileConfidence::Characterized {
            return Err(crate::text::owned("scanner_profile_verified_requires_characterized_confidence"));
        }
        if !crate::color_science::matches_name(crate::color_science::trim(self.input_encoding.as_str()), "linear_rgb") {
            return Err(crate::text::owned("scanner_profile_input_encoding_unsupported"));
        }
        if self.target != ScannerProfileTarget::LinearRgb {
            return Err(crate::text::owned("scanner_profile_target_space_unsupported"));
        }
        Ok(())
    }

    pub fn capability_label(&self) -> (label: &'static str)
        ensures
            label == if self.verified && self.confidence == ScannerProfileConfidence::Characterized {
                "Scanner Input Characterized"
            } else {
                "Scanner Input Estimate"
            },
    {
        if self.verified && self.confidence == ScannerProfileConfidence::Characterized {
            "Scanner Input Characterized"
        } else {
            "Scanner Input Estimate"
        }
    }
}

/// A profile and the file it was read from, bound by the file's digest.
#[derive(Debug, Clone)]
pub struct ScannerProfileRecord {
    pub profile: ScannerInputProfile,
    pub source_digest: String,
    pub source_path: String,
}

/// `p` with its two digests replaced.
pub open spec fn with_digests(q: ScannerInputProfile, p: ScannerInputProfile, icc: Seq<char>, config: Seq<char>) -> bool {
    &&& q.icc_digest@ == icc
    &&& q.config_digest@ == config
    &&& q.profile_id == p.profile_id
    &&& q.manufacturer == p.manufacturer
    &&& q.model == p.model
    &&& q.driver_software == p.driver_software
    &&& q.resolution == p.resolution
    &&& q.bit_depth == p.bit_depth
    &&& q.positive_negative_mode == p.positive_negative_mode
    &&& q.infrared == p.infrared
    &&& q.multi_exposure == p.multi_exposure
    &&& q.lamp_holder == p.lamp_holder
    &&& q.file_transfer_curve == p.file_transfer_curve
    &&& q.crop_geometry == p.crop_geometry
    &&& q.input_encoding == p.input_encoding
    &&& q.profile_source == p.profile_source
    &&& q.license == p.license
    &&& q.verified == p.verified
    &&& q.confidence == p.confidence
    &&& q.target == p.target
    &&& q.compatible_film_class == p.compatible_film_class
    &&& q.matrix == p.matrix
    &&& q.offset == p.offset
}

/// The lower-case hexadecimal SHA-256 of some bytes.
pub open spec fn hex_digest(bytes: Seq<u8>) -> Seq<char> {
    crate::digest::hex_lower(crate::digest::sha256(bytes))
}

/// The digests a profile is accepted with for canonical configuration
/// `canonical` (ICC digest, configuration digest), or `None` when it is
/// refused.
pub open spec fn accepted_digests(p: ScannerInputProfile, canonical: Seq<u8>) -> Option<(Seq<char>, Seq<char>)> {
    if profile_refusal(p) is Some {
        None
    } else if p.config_digest@.len() > 0 {
        if p.config_digest@ == hex_digest(canonical) {
            Some((p.icc_digest@, p.config_digest@))
        } else {
            None
        }
    } else if p.icc_digest@ == hex_digest(canonical) {
        Some(("unbound"@, hex_digest(canonical)))
    } else {
        None
    }
}

/// A stored record still describes its file and configuration.
pub open spec fn record_current(record: ScannerProfileRecord, file: Option<Seq<u8>>, canonical: Seq<u8>) -> bool {
    &&& file matches Some(bytes) && hex_digest(bytes) == record.source_digest@
    &&& profile_refusal(record.profile) is None
    &&& hex_digest(canonical) == record.profile.config_digest@
}

/// Accept a local profile read from a file: it must be valid, and its
/// configuration digest must be the digest of its canonical configuration
/// (`canonical`, the profile serialised with both digests cleared). Files
/// that stored that digest in the ICC field are kept as an unbound ICC. The
/// result carries the digest of the whole file.
pub fn accept_local_profile(profile: ScannerInputProfile, canonical: &[u8], file: &[u8]) -> (r: Result<(ScannerInputProfile, String), String>)
    ensures
        match profile_refusal(profile) {
            Some(message) => r is Err && r->Err_0@ == message,
            None => if profile.config_digest@.len() > 0 {
                if profile.config_digest@ != hex_digest(canonical@) {
                    r is Err && r->Err_0@ == "scanner_profile_config_digest_mismatch"@
                } else {
                    r matches Ok((q, d)) && with_digests(q, profile, profile.icc_digest@, profile.config_digest@)
                        && d@ == hex_digest(file@)
                }
            } else if profile.icc_digest@ == hex_digest(canonical@) {
                r matches Ok((q, d)) && with_digests(q, profile, "unbound"@, hex_digest(canonical@)) && d@
                    == hex_digest(file@)
            } else {
                r is Err && r->Err_0@ == "scanner_profile_digest_mismatch"@
            },
        },
        r is Ok <==> accepted_digests(profile, canonical@) is Some,
        r matches Ok((q, d)) ==> accepted_digests(profile, canonical@) matches Some((icc, config)) && with_digests(
            q,
            profile,
            icc,
            config,
        ) && d@ == hex_digest(file@),
{
    match profile.validate() {
        Err(message) => return Err(message),
        Ok(()) => {},
    }
    let canonical_digest = crate::digest::sha256_hex(canonical);
    let mut accepted = profile;
    if !crate::text::is_empty_text(accepted.config_digest.as_str()) {
        if !crate::text::str_eq(accepted.config_digest.as_str(), canonical_digest.as_str()) {
            return Err(crate::text::owned("scanner_profile_config_digest_mismatch"));
        }
    } else if crate::text::str_eq(accepted.icc_digest.as_str(), canonical_digest.as_str()) {
        accepted.config_digest = canonical_digest;
        accepted.icc_digest = crate::text::owned("unbound");
    } else {
        return Err(crate::text::owned("scanner_profile_digest_mismatch"));
    }
    let digest = crate::digest::sha256_hex(file);
    Ok((accepted, digest))
}

/// A stored record still describes its file: the file's digest is the one
/// recorded, the profile is valid, and its configuration digest matches its
/// canonical configuration. `file` is `None` when the file cannot be read.
pub fn record_is_current(record: &ScannerProfileRecord, file: Option<&[u8]>, canonical: &[u8]) -> (r: bool)
    ensures
        r == record_current(
            *record,
            match file {
                Some(bytes) => Some(bytes@),
                None => None,
            },
            canonical@,
        ),
{
    let bytes = match file {
        Some(b) => b,
        None => return false,
    };
    let file_digest = crate::digest::sha256_hex(bytes);
    if !crate::text::str_eq(file_digest.as_str(), record.source_digest.as_str()) {
        return false;
    }
    if record.profile.validate().is_err() {
        return false;
    }
    let config = crate::digest::sha256_hex(canonical);
    crate::text::str_eq(config.as_str(), record.profile.config_digest.as_str())
}


/// A profile accepted from a file is current for that file, and stops being
/// current as soon as the file's bytes hash differently.
pub proof fn law_imported_profile_is_current_until_its_file_changes(
    p: ScannerInputProfile,
    canonical: Seq<u8>,
    file: Seq<u8>,
    other: Seq<u8>,
    accepted: ScannerProfileRecord,
)
    requires
        accepted_digests(p, canonical) matches Some((icc, config)) && with_digests(accepted.profile, p, icc, config),
        accepted.source_digest@ == hex_digest(file),
    ensures
        record_current(accepted, Some(file), canonical),
        hex_digest(other) != hex_digest(file) ==> !record_current(accepted, Some(other), canonical),
{
    let q = accepted.profile;
    reveal_with_fuel(first_blank_field, 13);
    reveal_strlit("unbound");
    let unbound = "unbound"@;
    assert(crate::color_science::trim_start(unbound) == unbound);
    assert(crate::color_science::trim_end(unbound) == unbound);
    assert(required_fields(q) =~= required_fields(p).update(10, ("icc_digest"@, q.icc_digest@)));
    assert(transform_is_finite(q) == transform_is_finite(p));
}

} // verus!
