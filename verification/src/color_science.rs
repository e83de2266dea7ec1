//! Colour-space identifiers, the names the application accepts for them, and
//! ICC v2 matrix/TRC profile assembly.
//!
//! The numeric colorimetry (primaries, chromatic adaptation, transfer curves)
//! is floating-point work done by the caller; this module turns its fixed-point
//! results into the profile bytes, and decides every name and code the rest of
//! the application exchanges.
use vstd::prelude::*;

verus! {

#[derive(Clone, Copy, Debug, PartialEq, Eq, Structural)]
pub enum ColorSpaceId {
    SRgb,
    DisplayP3,
    AdobeRgb,
    Rec2020,
    ProPhotoRgb,
    /// LibRaw's native ProPhoto output is ProPhoto D65; standard ROMM RGB is D50.
    ProPhotoRgbD65,
    Aces2065,
    AcesCg,
}

/// Canonical linear-light RGB coordinates used before logarithmic film-density
/// conversion. This must stay fixed: changing primaries before `-log10(T)`
/// changes the density measurement itself rather than merely its presentation.
pub const DENSITY_CAPTURE_WORKING_SPACE: &'static str = "linear-srgb";

pub const DENSITY_CAPTURE_PROFILE: ColorSpaceId = ColorSpaceId::SRgb;

#[derive(Clone, Copy, Debug, PartialEq, Eq, Structural)]
pub enum WorkingSpaceId {
    LinearSRgb,
    LinearDisplayP3,
    LinearAdobeRgb,
    LinearRec2020,
    LinearProPhotoRgb,
    LinearAces,
    LinearAcesCg,
}

// ---------------------------------------------------------------------------
// Names
// ---------------------------------------------------------------------------

/// Unicode `White_Space`, the set `str::trim` removes.
pub open spec fn is_white_space(c: char) -> bool {
    let x = c as u32;
    (0x9 <= x <= 0xd) || x == 0x20 || x == 0x85 || x == 0xa0 || x == 0x1680 || (0x2000 <= x
        <= 0x200a) || x == 0x2028 || x == 0x2029 || x == 0x202f || x == 0x205f || x == 0x3000
}

/// `s` without its leading white space.
pub open spec fn trim_start(s: Seq<char>) -> Seq<char>
    decreases s.len(),
{
    if s.len() > 0 && is_white_space(s[0]) {
        trim_start(s.drop_first())
    } else {
        s
    }
}

/// `s` without its trailing white space.
pub open spec fn trim_end(s: Seq<char>) -> Seq<char>
    decreases s.len(),
{
    if s.len() > 0 && is_white_space(s.last()) {
        trim_end(s.drop_last())
    } else {
        s
    }
}

/// `s` without leading and trailing white space.
pub open spec fn trimmed(s: Seq<char>) -> Seq<char> {
    trim_end(trim_start(s))
}

/// ASCII lower case of one character; every other character is unchanged.
pub open spec fn ascii_lower(c: char) -> char {
    if 'A' <= c <= 'Z' {
        ((c as u32) + 32) as char
    } else {
        c
    }
}

/// Lower-casing the ASCII letters of `s` gives exactly `name`.
pub open spec fn lowers_to(s: Seq<char>, name: Seq<char>) -> bool {
    &&& s.len() == name.len()
    &&& forall|i: int| 0 <= i < s.len() ==> ascii_lower(#[trigger] s[i]) == name[i]
}

fn white_space(c: char) -> (r: bool)
    ensures
        r == is_white_space(c),
{
    let x = c as u32;
    (0x9 <= x && x <= 0xd) || x == 0x20 || x == 0x85 || x == 0xa0 || x == 0x1680 || (0x2000 <= x
        && x <= 0x200a) || x == 0x2028 || x == 0x2029 || x == 0x202f || x == 0x205f || x == 0x3000
}

/// `value` without leading and trailing white space.
pub fn trim(value: &str) -> (r: &str)
    ensures
        r@ == trimmed(value@),
{
    let n = value.unicode_len();
    let mut start: usize = 0;
    assert(value@.subrange(0, n as int) =~= value@);
    while start < n && white_space(value.get_char(start))
        invariant
            n == value@.len(),
            start <= n,
            trim_start(value@) == trim_start(value@.subrange(start as int, n as int)),
        decreases n - start,
    {
        assert(value@.subrange(start as int, n as int).drop_first() =~= value@.subrange(
            start + 1,
            n as int,
        ));
        start = start + 1;
    }
    let ghost rest = value@.subrange(start as int, n as int);
    assert(trim_start(value@) == rest);
    let mut end: usize = n;
    while end > start && white_space(value.get_char(end - 1))
        invariant
            n == value@.len(),
            start <= end <= n,
            rest == value@.subrange(start as int, n as int),
            trim_end(rest) == trim_end(value@.subrange(start as int, end as int)),
        decreases end,
    {
        assert(value@.subrange(start as int, end as int).drop_last() =~= value@.subrange(
            start as int,
            end - 1,
        ));
        end = end - 1;
    }
    value.substring_char(start, end)
}

fn lower_is(c: char, name: char) -> (r: bool)
    ensures
        r == (ascii_lower(c) == name),
{
    if 'A' <= c && c <= 'Z' {
        (c as u32) + 32 == (name as u32)
    } else {
        c == name
    }
}

/// Whether lower-casing the ASCII letters of `s` gives exactly `name`.
pub fn matches_name(s: &str, name: &str) -> (r: bool)
    ensures
        r == lowers_to(s@, name@),
{
    let n = s.unicode_len();
    if n != name.unicode_len() {
        return false;
    }
    let mut i: usize = 0;
    while i < n
        invariant
            n == s@.len(),
            n == name@.len(),
            i <= n,
            forall|j: int| 0 <= j < i ==> ascii_lower(#[trigger] s@[j]) == name@[j],
        decreases n - i,
    {
        if !lower_is(s.get_char(i), name.get_char(i)) {
            return false;
        }
        i = i + 1;
    }
    true
}

/// The working space a name selects, after trimming white space and ignoring
/// ASCII case.
pub open spec fn spec_parse_working_space(value: Seq<char>) -> Option<WorkingSpaceId> {
    let k = trimmed(value);
    if lowers_to(k, "linear-srgb"@) || lowers_to(k, "srgb"@) || lowers_to(k, "linear-srgb-d65"@) {
        Some(WorkingSpaceId::LinearSRgb)
    } else if lowers_to(k, "linear-display-p3"@) || lowers_to(k, "display-p3"@) || lowers_to(
        k,
        "p3"@,
    ) {
        Some(WorkingSpaceId::LinearDisplayP3)
    } else if lowers_to(k, "linear-adobe-rgb"@) || lowers_to(k, "adobe-rgb"@) || lowers_to(
        k,
        "adobe-rgb-1998"@,
    ) || lowers_to(k, "adobergb"@) {
        Some(WorkingSpaceId::LinearAdobeRgb)
    } else if lowers_to(k, "linear-rec2020"@) || lowers_to(k, "rec2020"@) || lowers_to(
        k,
        "rec.2020"@,
    ) || lowers_to(k, "bt2020"@) {
        Some(WorkingSpaceId::LinearRec2020)
    } else if lowers_to(k, "linear-prophoto"@) || lowers_to(k, "linear-prophoto-rgb"@)
        || lowers_to(k, "prophoto"@) || lowers_to(k, "prophoto-rgb"@) {
        Some(WorkingSpaceId::LinearProPhotoRgb)
    } else if lowers_to(k, "linear-aces"@) || lowers_to(k, "aces"@) || lowers_to(k, "aces2065"@)
        || lowers_to(k, "aces-ap0"@) {
        Some(WorkingSpaceId::LinearAces)
    } else if lowers_to(k, "linear-acescg"@) || lowers_to(k, "acescg"@) || lowers_to(
        k,
        "aces-ap1"@,
    ) {
        Some(WorkingSpaceId::LinearAcesCg)
    } else {
        None
    }
}

pub fn parse_working_space(value: &str) -> (r: Option<WorkingSpaceId>)
    ensures
        r == spec_parse_working_space(value@),
{
    let k = trim(value);
    if matches_name(k, "linear-srgb") || matches_name(k, "srgb") || matches_name(k, "linear-srgb-d65") {
        Some(WorkingSpaceId::LinearSRgb)
    } else if matches_name(k, "linear-display-p3") || matches_name(k, "display-p3") || matches_name(
        k,
        "p3",
    ) {
        Some(WorkingSpaceId::LinearDisplayP3)
    } else if matches_name(k, "linear-adobe-rgb") || matches_name(k, "adobe-rgb") || matches_name(
        k,
        "adobe-rgb-1998",
    ) || matches_name(k, "adobergb") {
        Some(WorkingSpaceId::LinearAdobeRgb)
    } else if matches_name(k, "linear-rec2020") || matches_name(k, "rec2020") || matches_name(
        k,
        "rec.2020",
    ) || matches_name(k, "bt2020") {
        Some(WorkingSpaceId::LinearRec2020)
    } else if matches_name(k, "linear-prophoto") || matches_name(k, "linear-prophoto-rgb")
        || matches_name(k, "prophoto") || matches_name(k, "prophoto-rgb") {
        Some(WorkingSpaceId::LinearProPhotoRgb)
    } else if matches_name(k, "linear-aces") || matches_name(k, "aces") || matches_name(k, "aces2065")
        || matches_name(k, "aces-ap0") {
        Some(WorkingSpaceId::LinearAces)
    } else if matches_name(k, "linear-acescg") || matches_name(k, "acescg") || matches_name(
        k,
        "aces-ap1",
    ) {
        Some(WorkingSpaceId::LinearAcesCg)
    } else {
        None
    }
}

/// The canonical name of a working space.
pub open spec fn working_space_name(id: WorkingSpaceId) -> &'static str {
    match id {
        WorkingSpaceId::LinearSRgb => "linear-srgb",
        WorkingSpaceId::LinearDisplayP3 => "linear-display-p3",
        WorkingSpaceId::LinearAdobeRgb => "linear-adobe-rgb",
        WorkingSpaceId::LinearRec2020 => "linear-rec2020",
        WorkingSpaceId::LinearProPhotoRgb => "linear-prophoto-rgb",
        WorkingSpaceId::LinearAces => "linear-aces",
        WorkingSpaceId::LinearAcesCg => "linear-acescg",
    }
}

pub fn canonical_working_space(value: &str) -> (r: Option<&'static str>)
    ensures
        r == (match spec_parse_working_space(value@) {
            Some(id) => Some(working_space_name(id)),
            None => None,
        }),
{
    match parse_working_space(value) {
        Some(WorkingSpaceId::LinearSRgb) => Some("linear-srgb"),
        Some(WorkingSpaceId::LinearDisplayP3) => Some("linear-display-p3"),
        Some(WorkingSpaceId::LinearAdobeRgb) => Some("linear-adobe-rgb"),
        Some(WorkingSpaceId::LinearRec2020) => Some("linear-rec2020"),
        Some(WorkingSpaceId::LinearProPhotoRgb) => Some("linear-prophoto-rgb"),
        Some(WorkingSpaceId::LinearAces) => Some("linear-aces"),
        Some(WorkingSpaceId::LinearAcesCg) => Some("linear-acescg"),
        None => None,
    }
}

/// The output space a name selects, after trimming white space and ignoring
/// ASCII case.
pub open spec fn spec_parse_output_space(value: Seq<char>) -> Option<ColorSpaceId> {
    let k = trimmed(value);
    if lowers_to(k, "srgb"@) || lowers_to(k, "s-rgb"@) {
        Some(ColorSpaceId::SRgb)
    } else if lowers_to(k, "display-p3"@) || lowers_to(k, "p3"@) {
        Some(ColorSpaceId::DisplayP3)
    } else if lowers_to(k, "adobe-rgb"@) || lowers_to(k, "adobe-rgb-1998"@) || lowers_to(
        k,
        "adobergb"@,
    ) {
        Some(ColorSpaceId::AdobeRgb)
    } else if lowers_to(k, "rec2020"@) || lowers_to(k, "rec.2020"@) || lowers_to(k, "bt2020"@) {
        Some(ColorSpaceId::Rec2020)
    } else if lowers_to(k, "prophoto"@) || lowers_to(k, "prophoto-rgb"@) || lowers_to(
        k,
        "romm-rgb"@,
    ) {
        Some(ColorSpaceId::ProPhotoRgb)
    } else if lowers_to(k, "acescg"@) || lowers_to(k, "aces-ap1"@) {
        Some(ColorSpaceId::AcesCg)
    } else if lowers_to(k, "aces"@) || lowers_to(k, "aces2065"@) || lowers_to(k, "aces-ap0"@) {
        Some(ColorSpaceId::Aces2065)
    } else {
        None
    }
}

pub fn parse_output_space(value: &str) -> (r: Option<ColorSpaceId>)
    ensures
        r == spec_parse_output_space(value@),
{
    let k = trim(value);
    if matches_name(k, "srgb") || matches_name(k, "s-rgb") {
        Some(ColorSpaceId::SRgb)
    } else if matches_name(k, "display-p3") || matches_name(k, "p3") {
        Some(ColorSpaceId::DisplayP3)
    } else if matches_name(k, "adobe-rgb") || matches_name(k, "adobe-rgb-1998") || matches_name(
        k,
        "adobergb",
    ) {
        Some(ColorSpaceId::AdobeRgb)
    } else if matches_name(k, "rec2020") || matches_name(k, "rec.2020") || matches_name(k, "bt2020") {
        Some(ColorSpaceId::Rec2020)
    } else if matches_name(k, "prophoto") || matches_name(k, "prophoto-rgb") || matches_name(
        k,
        "romm-rgb",
    ) {
        Some(ColorSpaceId::ProPhotoRgb)
    } else if matches_name(k, "acescg") || matches_name(k, "aces-ap1") {
        Some(ColorSpaceId::AcesCg)
    } else if matches_name(k, "aces") || matches_name(k, "aces2065") || matches_name(k, "aces-ap0") {
        Some(ColorSpaceId::Aces2065)
    } else {
        None
    }
}

/// The canonical name of an output space; LibRaw's ProPhoto D65 has none.
pub open spec fn output_space_name(id: ColorSpaceId) -> Option<&'static str> {
    match id {
        ColorSpaceId::SRgb => Some("srgb"),
        ColorSpaceId::DisplayP3 => Some("display-p3"),
        ColorSpaceId::AdobeRgb => Some("adobe-rgb"),
        ColorSpaceId::Rec2020 => Some("rec2020"),
        ColorSpaceId::ProPhotoRgb => Some("prophoto-rgb"),
        ColorSpaceId::ProPhotoRgbD65 => None,
        ColorSpaceId::Aces2065 => Some("aces"),
        ColorSpaceId::AcesCg => Some("acescg"),
    }
}

pub fn canonical_output_space(value: &str) -> (r: Option<&'static str>)
    ensures
        r == (match spec_parse_output_space(value@) {
            Some(id) => output_space_name(id),
            None => None,
        }),
{
    match parse_output_space(value) {
        Some(ColorSpaceId::SRgb) => Some("srgb"),
        Some(ColorSpaceId::DisplayP3) => Some("display-p3"),
        Some(ColorSpaceId::AdobeRgb) => Some("adobe-rgb"),
        Some(ColorSpaceId::Rec2020) => Some("rec2020"),
        Some(ColorSpaceId::ProPhotoRgb) => Some("prophoto-rgb"),
        Some(ColorSpaceId::ProPhotoRgbD65) => None,
        Some(ColorSpaceId::Aces2065) => Some("aces"),
        Some(ColorSpaceId::AcesCg) => Some("acescg"),
        None => None,
    }
}

/// The RGB profile a working space is defined in.
pub open spec fn spec_working_profile(id: WorkingSpaceId) -> ColorSpaceId {
    match id {
        WorkingSpaceId::LinearSRgb => ColorSpaceId::SRgb,
        WorkingSpaceId::LinearDisplayP3 => ColorSpaceId::DisplayP3,
        WorkingSpaceId::LinearAdobeRgb => ColorSpaceId::AdobeRgb,
        WorkingSpaceId::LinearRec2020 => ColorSpaceId::Rec2020,
        WorkingSpaceId::LinearProPhotoRgb => ColorSpaceId::ProPhotoRgb,
        WorkingSpaceId::LinearAces => ColorSpaceId::Aces2065,
        WorkingSpaceId::LinearAcesCg => ColorSpaceId::AcesCg,
    }
}

pub fn working_profile(id: WorkingSpaceId) -> (r: ColorSpaceId)
    ensures
        r == spec_working_profile(id),
{
    match id {
        WorkingSpaceId::LinearSRgb => ColorSpaceId::SRgb,
        WorkingSpaceId::LinearDisplayP3 => ColorSpaceId::DisplayP3,
        WorkingSpaceId::LinearAdobeRgb => ColorSpaceId::AdobeRgb,
        WorkingSpaceId::LinearRec2020 => ColorSpaceId::Rec2020,
        WorkingSpaceId::LinearProPhotoRgb => ColorSpaceId::ProPhotoRgb,
        WorkingSpaceId::LinearAces => ColorSpaceId::Aces2065,
        WorkingSpaceId::LinearAcesCg => ColorSpaceId::AcesCg,
    }
}

/// LibRaw's documented output-color value for a working space: sRGB=1,
/// Adobe=2, ProPhoto D65=4 and ACES=6. Spaces without a native LibRaw matrix
/// are decoded to linear ACES AP0 and converted afterwards.
pub open spec fn libraw_code(id: WorkingSpaceId) -> i32 {
    match id {
        WorkingSpaceId::LinearSRgb => 1,
        WorkingSpaceId::LinearAdobeRgb => 2,
        WorkingSpaceId::LinearProPhotoRgb => 4,
        _ => 6,
    }
}

/// The message for a working space LibRaw cannot decode to.
pub open spec fn unsupported_space_message(value: Seq<char>) -> Seq<char> {
    "Unsupported RAW working color space: "@ + value
}

pub fn libraw_output_color(value: &str) -> (r: Result<i32, String>)
    ensures
        match spec_parse_working_space(value@) {
            Some(id) => r == Ok::<i32, String>(libraw_code(id)),
            None => r is Err && r->Err_0@ == unsupported_space_message(value@),
        },
{
    match parse_working_space(value) {
        Some(WorkingSpaceId::LinearSRgb) => Ok(1),
        Some(WorkingSpaceId::LinearAdobeRgb) => Ok(2),
        Some(WorkingSpaceId::LinearProPhotoRgb) => Ok(4),
        Some(_) => Ok(6),
        None => Err(crate::text::joined("Unsupported RAW working color space: ", value)),
    }
}

/// The RGB profile LibRaw's linear output actually has for an output-color
/// value; output-color 4 is ProPhoto D65, not the D50 ROMM profile.
pub open spec fn spec_libraw_native_profile(output_color: i32) -> ColorSpaceId {
    if output_color == 2 {
        ColorSpaceId::AdobeRgb
    } else if output_color == 4 {
        ColorSpaceId::ProPhotoRgbD65
    } else if output_color == 6 {
        ColorSpaceId::Aces2065
    } else {
        ColorSpaceId::SRgb
    }
}

pub fn libraw_native_profile(output_color: i32) -> (r: ColorSpaceId)
    ensures
        r == spec_libraw_native_profile(output_color),
{
    match output_color {
        1 => ColorSpaceId::SRgb,
        2 => ColorSpaceId::AdobeRgb,
        4 => ColorSpaceId::ProPhotoRgbD65,
        6 => ColorSpaceId::Aces2065,
        _ => ColorSpaceId::SRgb,
    }
}

pub fn working_requires_aces_conversion(value: &str) -> (r: bool)
    ensures
        r == (spec_parse_working_space(value@) matches Some(id) && (id == WorkingSpaceId::LinearDisplayP3
            || id == WorkingSpaceId::LinearRec2020 || id == WorkingSpaceId::LinearAcesCg)),
{
    match parse_working_space(value) {
        Some(WorkingSpaceId::LinearDisplayP3) => true,
        Some(WorkingSpaceId::LinearRec2020) => true,
        Some(WorkingSpaceId::LinearAcesCg) => true,
        _ => false,
    }
}

/// The human-readable name of a profile, as written into its ICC description.
pub open spec fn spec_profile_name(id: ColorSpaceId) -> &'static str {
    match id {
        ColorSpaceId::SRgb => "sRGB IEC 61966-2.1",
        ColorSpaceId::DisplayP3 => "Display P3",
        ColorSpaceId::AdobeRgb => "Adobe RGB (1998)",
        ColorSpaceId::Rec2020 => "ITU-R BT.2020",
        ColorSpaceId::ProPhotoRgb => "ProPhoto RGB (ROMM RGB)",
        ColorSpaceId::ProPhotoRgbD65 => "LibRaw ProPhoto RGB D65",
        ColorSpaceId::Aces2065 => "ACES2065-1 (AP0)",
        ColorSpaceId::AcesCg => "ACEScg (AP1)",
    }
}

pub fn profile_name(id: ColorSpaceId) -> (r: &'static str)
    ensures
        r == spec_profile_name(id),
{
    match id {
        ColorSpaceId::SRgb => "sRGB IEC 61966-2.1",
        ColorSpaceId::DisplayP3 => "Display P3",
        ColorSpaceId::AdobeRgb => "Adobe RGB (1998)",
        ColorSpaceId::Rec2020 => "ITU-R BT.2020",
        ColorSpaceId::ProPhotoRgb => "ProPhoto RGB (ROMM RGB)",
        ColorSpaceId::ProPhotoRgbD65 => "LibRaw ProPhoto RGB D65",
        ColorSpaceId::Aces2065 => "ACES2065-1 (AP0)",
        ColorSpaceId::AcesCg => "ACEScg (AP1)",
    }
}

proof fn lemma_plain_name(s: Seq<char>)
    requires
        s.len() > 0,
        forall|i: int| 0 <= i < s.len() ==> 'a' <= #[trigger] s[i] <= 'z' || '0' <= s[i] <= '9' || s[i]
            == '-' || s[i] == '.',
    ensures
        trimmed(s) == s,
        forall|n: Seq<char>| lowers_to(s, n) <==> s == n,
{
    assert(!is_white_space(s[0]));
    assert(!is_white_space(s.last()));
    assert(trim_start(s) == s);
    assert(trim_end(s) == s);
    assert forall|n: Seq<char>| lowers_to(s, n) <==> s == n by {
        if lowers_to(s, n) {
            assert forall|i: int| 0 <= i < s.len() implies s[i] == n[i] by {
                assert(ascii_lower(s[i]) == n[i]);
            }
            assert(s =~= n);
        }
        if s == n {
            assert forall|i: int| 0 <= i < s.len() implies ascii_lower(#[trigger] s[i]) == n[i] by {
                assert(!('A' <= s[i] <= 'Z'));
            }
        }
    }
}

/// A working space's canonical name selects that working space again, so
/// canonicalising a name twice gives the same name as canonicalising it once.
pub proof fn law_working_space_names_round_trip(id: WorkingSpaceId)
    ensures
        spec_parse_working_space(working_space_name(id)@) == Some(id),
{
    reveal_strlit("linear-srgb");
    reveal_strlit("srgb");
    reveal_strlit("linear-srgb-d65");
    reveal_strlit("linear-display-p3");
    reveal_strlit("display-p3");
    reveal_strlit("p3");
    reveal_strlit("linear-adobe-rgb");
    reveal_strlit("adobe-rgb");
    reveal_strlit("adobe-rgb-1998");
    reveal_strlit("adobergb");
    reveal_strlit("linear-rec2020");
    reveal_strlit("rec2020");
    reveal_strlit("rec.2020");
    reveal_strlit("bt2020");
    reveal_strlit("linear-prophoto");
    reveal_strlit("linear-prophoto-rgb");
    reveal_strlit("prophoto");
    reveal_strlit("prophoto-rgb");
    reveal_strlit("linear-aces");
    reveal_strlit("aces");
    reveal_strlit("aces2065");
    reveal_strlit("aces-ap0");
    reveal_strlit("linear-acescg");
    reveal_strlit("acescg");
    reveal_strlit("aces-ap1");
    let name = working_space_name(id)@;
    lemma_plain_name(name);
    assert("linear-rec2020"@[0] != "adobe-rgb-1998"@[0]);
    assert("linear-aces"@[7] != "linear-srgb"@[7]);
}

/// An output space's canonical name selects that output space again.
pub proof fn law_output_space_names_round_trip(id: ColorSpaceId)
    requires
        output_space_name(id) is Some,
    ensures
        spec_parse_output_space(output_space_name(id)->Some_0@) == Some(id),
{
    reveal_strlit("srgb");
    reveal_strlit("s-rgb");
    reveal_strlit("display-p3");
    reveal_strlit("p3");
    reveal_strlit("adobe-rgb");
    reveal_strlit("adobe-rgb-1998");
    reveal_strlit("adobergb");
    reveal_strlit("rec2020");
    reveal_strlit("rec.2020");
    reveal_strlit("bt2020");
    reveal_strlit("prophoto");
    reveal_strlit("prophoto-rgb");
    reveal_strlit("romm-rgb");
    reveal_strlit("acescg");
    reveal_strlit("aces-ap1");
    reveal_strlit("aces");
    reveal_strlit("aces2065");
    reveal_strlit("aces-ap0");
    let name = output_space_name(id)->Some_0@;
    lemma_plain_name(name);
    assert("aces"@[0] != "srgb"@[0]);
    assert("acescg"@[0] != "bt2020"@[0]);
}

// ---------------------------------------------------------------------------
// Recognising ICC profiles
// ---------------------------------------------------------------------------

/// ASCII lower case of one byte.
pub open spec fn lower_byte(b: u8) -> u8 {
    if 65 <= b <= 90 {
        (b + 32) as u8
    } else {
        b
    }
}

/// The bytes of a profile with every zero byte dropped and ASCII letters
/// lower-cased: the text a profile name is searched in.
pub open spec fn searchable(icc: Seq<u8>) -> Seq<u8>
    decreases icc.len(),
{
    if icc.len() == 0 {
        Seq::empty()
    } else if icc.last() != 0 {
        searchable(icc.drop_last()).push(lower_byte(icc.last()))
    } else {
        searchable(icc.drop_last())
    }
}

/// `needle`, an ASCII text, occurs in `hay` starting at `i`.
pub open spec fn text_at(hay: Seq<u8>, i: int, needle: Seq<char>) -> bool {
    &&& 0 <= i
    &&& i + needle.len() <= hay.len()
    &&& forall|j: int| 0 <= j < needle.len() ==> hay[i + j] == #[trigger] needle[j] as u8
}

/// `needle`, an ASCII text, occurs somewhere in `hay`.
pub open spec fn contains_text(hay: Seq<u8>, needle: Seq<char>) -> bool {
    exists|i: int| text_at(hay, i, needle)
}

/// The profile signature `acsp` at bytes 36 to 39.
pub open spec fn has_profile_signature(icc: Seq<u8>) -> bool {
    &&& icc.len() >= 40
    &&& icc[36] == 0x61
    &&& icc[37] == 0x63
    &&& icc[38] == 0x73
    &&& icc[39] == 0x70
}

/// The profile a payload names, judged by the texts its bytes contain.
pub open spec fn spec_identify_icc_profile(icc: Seq<u8>) -> Option<ColorSpaceId> {
    let h = searchable(icc);
    if !has_profile_signature(icc) {
        None
    } else if contains_text(h, "acescg"@) {
        Some(ColorSpaceId::AcesCg)
    } else if contains_text(h, "aces2065"@) || (contains_text(h, "aces"@) && contains_text(h, "ap0"@)) {
        Some(ColorSpaceId::Aces2065)
    } else if contains_text(h, "displayp3"@) || contains_text(h, "display p3"@) {
        Some(ColorSpaceId::DisplayP3)
    } else if contains_text(h, "adobergb"@) || contains_text(h, "adobe rgb"@) {
        Some(ColorSpaceId::AdobeRgb)
    } else if contains_text(h, "rec2020"@) || contains_text(h, "rec.2020"@) || contains_text(
        h,
        "bt.2020"@,
    ) || contains_text(h, "2020"@) {
        Some(ColorSpaceId::Rec2020)
    } else if contains_text(h, "prophoto"@) || contains_text(h, "romm"@) {
        Some(ColorSpaceId::ProPhotoRgb)
    } else if contains_text(h, "srgb"@) {
        Some(ColorSpaceId::SRgb)
    } else {
        None
    }
}

fn searchable_bytes(icc: &[u8]) -> (r: Vec<u8>)
    ensures
        r@ == searchable(icc@),
{
    let mut out: Vec<u8> = Vec::new();
    let mut i: usize = 0;
    while i < icc.len()
        invariant
            i <= icc@.len(),
            out@ == searchable(icc@.subrange(0, i as int)),
        decreases icc.len() - i,
    {
        let b = icc[i];
        assert(icc@.subrange(0, i + 1).drop_last() =~= icc@.subrange(0, i as int));
        if b != 0 {
            let lower = if 65 <= b && b <= 90 {
                b + 32
            } else {
                b
            };
            out.push(lower);
        }
        i = i + 1;
    }
    assert(icc@.subrange(0, icc@.len() as int) =~= icc@);
    out
}

fn contains_ascii(hay: &Vec<u8>, needle: &str) -> (r: bool)
    ensures
        r == contains_text(hay@, needle@),
{
    let m = needle.unicode_len();
    let mut codes: Vec<u8> = Vec::new();
    let mut k: usize = 0;
    while k < m
        invariant
            m == needle@.len(),
            k <= m,
            codes@.len() == k,
            forall|j: int| 0 <= j < k ==> codes@[j] == #[trigger] needle@[j] as u8,
        decreases m - k,
    {
        codes.push(needle.get_char(k) as u8);
        k = k + 1;
    }
    if m == 0 {
        assert(text_at(hay@, 0, needle@));
        return true;
    }
    if hay.len() < m {
        assert forall|i: int| !text_at(hay@, i, needle@) by {}
        return false;
    }
    let last = hay.len() - m;
    let mut i: usize = 0;
    while i <= last
        invariant
            m == needle@.len(),
            m > 0,
            hay@.len() <= usize::MAX,
            last + m == hay@.len(),
            i <= last + 1,
            codes@.len() == m,
            forall|j: int| 0 <= j < m ==> codes@[j] == #[trigger] needle@[j] as u8,
            forall|p: int| 0 <= p < i ==> !text_at(hay@, p, needle@),
        decreases last + 1 - i,
    {
        let mut j: usize = 0;
        while j < m && hay[i + j] == codes[j]
            invariant
                m == needle@.len(),
                i <= last,
                hay@.len() <= usize::MAX,
                last + m == hay@.len(),
                codes@.len() == m,
                j <= m,
                forall|q: int| 0 <= q < j ==> hay@[i + q] == codes@[q],
            decreases m - j,
        {
            assert(i + j < hay@.len());
            j = j + 1;
        }
        if j == m {
            assert(text_at(hay@, i as int, needle@));
            return true;
        }
        assert(hay@[i + j] != needle@[j as int] as u8);
        assert(!text_at(hay@, i as int, needle@));
        i = i + 1;
    }
    assert forall|p: int| !text_at(hay@, p, needle@) by {
        if 0 <= p && p + m <= hay@.len() {
            assert(p < i);
        }
    }
    false
}

/// Identify the common RGB profiles supported by the application from an ICC
/// payload, by the profile name its text carries.
pub fn identify_icc_profile(icc: &[u8]) -> (r: Option<ColorSpaceId>)
    ensures
        r == spec_identify_icc_profile(icc@),
{
    if icc.len() < 40 || icc[36] != 0x61 || icc[37] != 0x63 || icc[38] != 0x73 || icc[39] != 0x70 {
        return None;
    }
    let h = searchable_bytes(icc);
    if contains_ascii(&h, "acescg") {
        return Some(ColorSpaceId::AcesCg);
    }
    if contains_ascii(&h, "aces2065") || (contains_ascii(&h, "aces") && contains_ascii(&h, "ap0")) {
        return Some(ColorSpaceId::Aces2065);
    }
    if contains_ascii(&h, "displayp3") || contains_ascii(&h, "display p3") {
        return Some(ColorSpaceId::DisplayP3);
    }
    if contains_ascii(&h, "adobergb") || contains_ascii(&h, "adobe rgb") {
        return Some(ColorSpaceId::AdobeRgb);
    }
    if contains_ascii(&h, "rec2020") || contains_ascii(&h, "rec.2020") || contains_ascii(&h, "bt.2020")
        || contains_ascii(&h, "2020") {
        return Some(ColorSpaceId::Rec2020);
    }
    if contains_ascii(&h, "prophoto") || contains_ascii(&h, "romm") {
        return Some(ColorSpaceId::ProPhotoRgb);
    }
    if contains_ascii(&h, "srgb") {
        return Some(ColorSpaceId::SRgb);
    }
    None
}

// ---------------------------------------------------------------------------
// Building ICC profiles
// ---------------------------------------------------------------------------

/// The fixed-point colorimetry of one profile, as ICC stores it: the D50 media
/// white and the D50-adapted colorant columns as s15Fixed16 numbers, and the
/// encoded-to-linear tone curve as 16-bit samples (empty for linear light).
pub struct IccColorimetry {
    pub white_point: [i32; 3],
    pub red: [i32; 3],
    pub green: [i32; 3],
    pub blue: [i32; 3],
    pub tone_curve: Vec<u16>,
}

/// The D50 PCS illuminant of the ICC header in s15Fixed16: 0.9642, 1.0, 0.8249.
pub const PCS_ILLUMINANT_X: u32 = 63190;
pub const PCS_ILLUMINANT_Y: u32 = 65536;
pub const PCS_ILLUMINANT_Z: u32 = 54061;

/// Big-endian bytes of a 16-bit value.
pub open spec fn be16(x: u16) -> Seq<u8> {
    seq![(x / 256) as u8, (x % 256) as u8]
}

/// Big-endian bytes of a 32-bit value.
pub open spec fn be32(x: u32) -> Seq<u8> {
    seq![(x / 16777216) as u8, ((x / 65536) % 256) as u8, ((x / 256) % 256) as u8, (x % 256) as u8]
}

/// Big-endian bytes of every value of a sequence, in order.
pub open spec fn be16_all(s: Seq<u16>) -> Seq<u8>
    decreases s.len(),
{
    if s.len() == 0 {
        Seq::empty()
    } else {
        be16_all(s.drop_last()) + be16(s.last())
    }
}

/// The UTF-8 bytes of a text.
pub open spec fn utf8(s: Seq<char>) -> Seq<u8> {
    vstd::utf8::encode_utf8(s)
}

/// `n` zero bytes.
pub open spec fn zero_bytes(n: int) -> Seq<u8> {
    Seq::new(n as nat, |i: int| 0u8)
}

/// A four-character code of ASCII letters and spaces as four bytes.
pub open spec fn four_cc(a: char, b: char, c: char, d: char) -> Seq<u8> {
    seq![a as u8, b as u8, c as u8, d as u8]
}

fn four_cc_bytes(a: char, b: char, c: char, d: char) -> (r: Vec<u8>)
    ensures
        r@ == four_cc(a, b, c, d),
{
    let mut out: Vec<u8> = Vec::new();
    out.push(a as u8);
    out.push(b as u8);
    out.push(c as u8);
    out.push(d as u8);
    assert(out@ =~= four_cc(a, b, c, d));
    out
}

/// A `text` tag: NUL-terminated text.
pub open spec fn text_tag_bytes(value: Seq<char>) -> Seq<u8> {
    four_cc('t', 'e', 'x', 't') + zero_bytes(4) + utf8(value) + seq![0u8]
}

/// A v2 `desc` tag: the ASCII description with its count including the NUL,
/// then empty Unicode and ScriptCode descriptions whose count fields are zero,
/// and the 67-byte ScriptCode field.
pub open spec fn description_tag_bytes(value: Seq<char>) -> Seq<u8> {
    four_cc('d', 'e', 's', 'c') + zero_bytes(4) + be32((utf8(value).len() + 1) as u32) + utf8(value) + seq![0u8]
        + be32(0) + be32(0) + be16(0) + seq![0u8] + zero_bytes(67)
}

/// An `XYZ ` tag holding one s15Fixed16 triple.
pub open spec fn xyz_tag_bytes(value: [i32; 3]) -> Seq<u8> {
    four_cc('X', 'Y', 'Z', ' ') + zero_bytes(4) + be32(value[0] as u32) + be32(value[1] as u32) + be32(
        value[2] as u32,
    )
}

/// A `curv` tag holding the samples of a tone curve; no samples means linear.
pub open spec fn curve_tag_bytes(samples: Seq<u16>) -> Seq<u8> {
    four_cc('c', 'u', 'r', 'v') + zero_bytes(4) + be32(samples.len() as u32) + be16_all(samples)
}

/// The tags of a profile, signature and data, in the order they are written.
#[verifier::opaque]
pub open spec fn icc_tags(name: Seq<char>, white: [i32; 3], red: [i32; 3], green: [i32; 3], blue: [i32; 3], curve: Seq<u16>) -> Seq<(Seq<u8>, Seq<u8>)> {
    seq![
        (four_cc('d', 'e', 's', 'c'), description_tag_bytes(name)),
        (four_cc('c', 'p', 'r', 't'), text_tag_bytes("Copyright 2026 NexFilm"@)),
        (four_cc('w', 't', 'p', 't'), xyz_tag_bytes(white)),
        (four_cc('r', 'X', 'Y', 'Z'), xyz_tag_bytes(red)),
        (four_cc('g', 'X', 'Y', 'Z'), xyz_tag_bytes(green)),
        (four_cc('b', 'X', 'Y', 'Z'), xyz_tag_bytes(blue)),
        (four_cc('r', 'T', 'R', 'C'), curve_tag_bytes(curve)),
        (four_cc('g', 'T', 'R', 'C'), curve_tag_bytes(curve)),
        (four_cc('b', 'T', 'R', 'C'), curve_tag_bytes(curve)),
    ]
}

/// `value` rounded up to a multiple of four.
pub open spec fn round_up4(value: int) -> int {
    if value % 4 == 0 { value } else { value + (4 - value % 4) }
}

/// Where the data of tag `k` would start if it were not aligned: the end of
/// the header, tag table and the data of the tags before it.
pub open spec fn icc_cursor(tags: Seq<(Seq<u8>, Seq<u8>)>, k: int) -> int
    decreases k,
{
    if k <= 0 {
        128 + 4 + 12 * (tags.len() as int)
    } else {
        round_up4(icc_cursor(tags, k - 1)) + tags[k - 1].1.len()
    }
}

/// The tag table rows of the first `k` tags: signature, offset, size.
pub open spec fn icc_table(tags: Seq<(Seq<u8>, Seq<u8>)>, k: int) -> Seq<u8>
    decreases k,
{
    if k <= 0 {
        Seq::empty()
    } else {
        icc_table(tags, k - 1) + tags[k - 1].0 + be32(round_up4(icc_cursor(tags, k - 1)) as u32)
            + be32(tags[k - 1].1.len() as u32)
    }
}

/// The data of the first `k` tags, each starting on a four-byte boundary.
pub open spec fn icc_data(tags: Seq<(Seq<u8>, Seq<u8>)>, k: int) -> Seq<u8>
    decreases k,
{
    if k <= 0 {
        Seq::empty()
    } else {
        let c = icc_cursor(tags, k - 1);
        icc_data(tags, k - 1) + zero_bytes(round_up4(c) - c) + tags[k - 1].1
    }
}

/// The 128-byte ICC v2.1 header of a display RGB profile with an XYZ PCS,
/// for a profile of `size` bytes.
pub open spec fn icc_header(size: u32) -> Seq<u8> {
    be32(size) + icc_header_fields()
}

/// The header after its size field: CMM, version 2.1, display class, RGB data,
/// XYZ PCS, the `acsp` signature, perceptual intent, the D50 illuminant and
/// the creator.
pub open spec fn icc_header_fields() -> Seq<u8> {
    four_cc('n', 'e', 'x', 'f') + be32(0x02100000) + four_cc('m', 'n', 't', 'r') + four_cc('R', 'G', 'B', ' ') + four_cc('X', 'Y', 'Z', ' ') + zero_bytes(12)
        + four_cc('a', 'c', 's', 'p') + zero_bytes(24) + be32(0) + be32(PCS_ILLUMINANT_X) + be32(PCS_ILLUMINANT_Y)
        + be32(PCS_ILLUMINANT_Z) + four_cc('N', 'E', 'X', 'F') + zero_bytes(44)
}

/// A whole profile: header, tag count, tag table and tag data.
pub open spec fn icc_profile_bytes(tags: Seq<(Seq<u8>, Seq<u8>)>) -> Seq<u8> {
    let n = tags.len() as int;
    icc_header(icc_cursor(tags, n) as u32) + be32(n as u32) + icc_table(tags, n) + icc_data(tags, n)
}

fn append_bytes(out: &mut Vec<u8>, src: &[u8])
    ensures
        final(out)@ == old(out)@ + src@,
{
    let ghost start = out@;
    let mut i: usize = 0;
    while i < src.len()
        invariant
            i <= src.len(),
            out@ == start + src@.subrange(0, i as int),
        decreases src.len() - i,
    {
        out.push(src[i]);
        i = i + 1;
        assert(out@ =~= start + src@.subrange(0, i as int));
    }
    assert(src@.subrange(0, src@.len() as int) =~= src@);
}

fn append_zeros(out: &mut Vec<u8>, count: usize)
    ensures
        final(out)@ == old(out)@ + zero_bytes(count as int),
{
    let ghost start = out@;
    let mut i: usize = 0;
    while i < count
        invariant
            i <= count,
            out@ == start + zero_bytes(i as int),
        decreases count - i,
    {
        out.push(0);
        i = i + 1;
        assert(out@ =~= start + zero_bytes(i as int));
    }
}

fn append_be16(out: &mut Vec<u8>, x: u16)
    ensures
        final(out)@ == old(out)@ + be16(x),
{
    out.push((x >> 8) as u8);
    out.push((x & 0xff) as u8);
    assert((x & 0xff) as u8 == (x % 256) as u8 && (x >> 8) as u8 == (x / 256) as u8) by (bit_vector);
    assert(final(out)@ =~= old(out)@ + be16(x));
}

fn append_be32(out: &mut Vec<u8>, x: u32)
    ensures
        final(out)@ == old(out)@ + be32(x),
{
    out.push((x >> 24) as u8);
    out.push(((x >> 16) & 0xff) as u8);
    out.push(((x >> 8) & 0xff) as u8);
    out.push((x & 0xff) as u8);
    assert((x & 0xff) as u8 == (x % 256) as u8 && ((x >> 8) & 0xff) as u8 == ((x / 256) % 256) as u8
        && ((x >> 16) & 0xff) as u8 == ((x / 65536) % 256) as u8 && (x >> 24) as u8 == (x / 16777216)
        as u8) by (bit_vector);
    assert(final(out)@ =~= old(out)@ + be32(x));
}

fn text_tag(value: &str) -> (r: Vec<u8>)
    ensures
        r@ == text_tag_bytes(value@),
{
    let mut out: Vec<u8> = Vec::new();
    append_bytes(&mut out, four_cc_bytes('t', 'e', 'x', 't').as_slice());
    append_zeros(&mut out, 4);
    append_bytes(&mut out, value.as_bytes());
    out.push(0);
    assert(out@ =~= text_tag_bytes(value@));
    out
}

fn description_tag(value: &str) -> (r: Vec<u8>)
    ensures
        r@ == description_tag_bytes(value@),
{
    let bytes = value.as_bytes();
    let mut out: Vec<u8> = Vec::new();
    append_bytes(&mut out, four_cc_bytes('d', 'e', 's', 'c').as_slice());
    append_zeros(&mut out, 4);
    let n = bytes.len();
    let count = (#[verifier::truncate] (n as u32)).wrapping_add(1);
    assert(count == (n + 1) as u32) by (bit_vector)
        requires
            count == (#[verifier::truncate] (n as u32)).wrapping_add(1),
    ;
    append_be32(&mut out, count);
    append_bytes(&mut out, bytes);
    out.push(0);
    append_be32(&mut out, 0);
    append_be32(&mut out, 0);
    append_be16(&mut out, 0);
    out.push(0);
    append_zeros(&mut out, 67);
    assert(out@ =~= description_tag_bytes(value@));
    out
}

fn xyz_tag(value: [i32; 3]) -> (r: Vec<u8>)
    ensures
        r@ == xyz_tag_bytes(value),
{
    let mut out: Vec<u8> = Vec::new();
    append_bytes(&mut out, four_cc_bytes('X', 'Y', 'Z', ' ').as_slice());
    append_zeros(&mut out, 4);
    append_be32(&mut out, #[verifier::truncate] (value[0] as u32));
    append_be32(&mut out, #[verifier::truncate] (value[1] as u32));
    append_be32(&mut out, #[verifier::truncate] (value[2] as u32));
    assert(out@ =~= xyz_tag_bytes(value));
    out
}

fn curve_tag(samples: &Vec<u16>) -> (r: Vec<u8>)
    ensures
        r@ == curve_tag_bytes(samples@),
{
    let mut out: Vec<u8> = Vec::new();
    append_bytes(&mut out, four_cc_bytes('c', 'u', 'r', 'v').as_slice());
    append_zeros(&mut out, 4);
    append_be32(&mut out, #[verifier::truncate] (samples.len() as u32));
    let ghost head = out@;
    let mut i: usize = 0;
    while i < samples.len()
        invariant
            i <= samples@.len(),
            out@ == head + be16_all(samples@.subrange(0, i as int)),
        decreases samples.len() - i,
    {
        append_be16(&mut out, samples[i]);
        assert(samples@.subrange(0, i + 1).drop_last() =~= samples@.subrange(0, i as int));
        i = i + 1;
    }
    assert(samples@.subrange(0, samples@.len() as int) =~= samples@);
    assert(out@ =~= curve_tag_bytes(samples@));
    out
}

/// The content of tags as signature and data bytes.
pub open spec fn tags_model(tags: Seq<(Vec<u8>, Vec<u8>)>) -> Seq<(Seq<u8>, Seq<u8>)> {
    tags.map_values(|t: (Vec<u8>, Vec<u8>)| (t.0@, t.1@))
}

fn profile_tags(id: ColorSpaceId, colorimetry: &IccColorimetry) -> (tags: Vec<(Vec<u8>, Vec<u8>)>)
    ensures
        tags_model(tags@) == icc_tags(
            spec_profile_name(id)@,
            colorimetry.white_point,
            colorimetry.red,
            colorimetry.green,
            colorimetry.blue,
            colorimetry.tone_curve@,
        ),
{
    reveal(icc_tags);
    let mut tags: Vec<(Vec<u8>, Vec<u8>)> = Vec::new();
    tags.push((four_cc_bytes('d', 'e', 's', 'c'), description_tag(profile_name(id))));
    tags.push((four_cc_bytes('c', 'p', 'r', 't'), text_tag("Copyright 2026 NexFilm")));
    tags.push((four_cc_bytes('w', 't', 'p', 't'), xyz_tag(colorimetry.white_point)));
    tags.push((four_cc_bytes('r', 'X', 'Y', 'Z'), xyz_tag(colorimetry.red)));
    tags.push((four_cc_bytes('g', 'X', 'Y', 'Z'), xyz_tag(colorimetry.green)));
    tags.push((four_cc_bytes('b', 'X', 'Y', 'Z'), xyz_tag(colorimetry.blue)));
    tags.push((four_cc_bytes('r', 'T', 'R', 'C'), curve_tag(&colorimetry.tone_curve)));
    tags.push((four_cc_bytes('g', 'T', 'R', 'C'), curve_tag(&colorimetry.tone_curve)));
    tags.push((four_cc_bytes('b', 'T', 'R', 'C'), curve_tag(&colorimetry.tone_curve)));
    assert(tags_model(tags@) =~= icc_tags(
        spec_profile_name(id)@,
        colorimetry.white_point,
        colorimetry.red,
        colorimetry.green,
        colorimetry.blue,
        colorimetry.tone_curve@,
    ));
    tags
}

/// Overwrite `src.len()` bytes of `out` starting at `at`.
fn put_bytes(out: &mut Vec<u8>, at: usize, src: &Vec<u8>)
    requires
        at + src@.len() <= old(out)@.len(),
    ensures
        final(out)@ == old(out)@.subrange(0, at as int) + src@ + old(out)@.subrange(
            at + src@.len(),
            old(out)@.len() as int,
        ),
{
    let ghost before = out@;
    assert(before.len() == out.len());
    let mut i: usize = 0;
    while i < src.len()
        invariant
            at + src@.len() <= before.len(),
            before.len() <= usize::MAX,
            out@.len() == before.len(),
            i <= src@.len(),
            forall|j: int| 0 <= j < at ==> out@[j] == before[j],
            forall|j: int| 0 <= j < i ==> out@[at + j] == src@[j],
            forall|j: int| at + i <= j < before.len() ==> out@[j] == before[j],
        decreases src.len() - i,
    {
        out.set(at + i, src[i]);
        i = i + 1;
    }
    assert(out@ =~= before.subrange(0, at as int) + src@ + before.subrange(
        at + src@.len(),
        before.len() as int,
    ));
}

fn be32_bytes(x: u32) -> (r: Vec<u8>)
    ensures
        r@ == be32(x),
{
    let mut out: Vec<u8> = Vec::new();
    append_be32(&mut out, x);
    assert(out@ =~= be32(x));
    out
}

/// Append the tag data, recording where each tag starts.
fn write_tag_data(out: &mut Vec<u8>, tags: &Vec<(Vec<u8>, Vec<u8>)>) -> (offsets: Vec<usize>)
    requires
        old(out)@.len() == icc_cursor(tags_model(tags@), 0),
    ensures
        final(out)@ == old(out)@ + icc_data(tags_model(tags@), tags@.len() as int),
        final(out)@.len() == icc_cursor(tags_model(tags@), tags@.len() as int),
        offsets@.len() == tags@.len(),
        forall|k: int| 0 <= k < tags@.len() ==> offsets@[k] == round_up4(
            icc_cursor(tags_model(tags@), k),
        ),
{
    let ghost start = out@;
    let ghost t = tags_model(tags@);
    let mut offsets: Vec<usize> = Vec::new();
    let mut k: usize = 0;
    while k < tags.len()
        invariant
            t == tags_model(tags@),
            k <= tags@.len(),
            out@ == start + icc_data(t, k as int),
            out@.len() == icc_cursor(t, k as int),
            offsets@.len() == k,
            forall|j: int| 0 <= j < k ==> offsets@[j] == round_up4(icc_cursor(t, j)),
        decreases tags@.len() - k,
    {
        let ghost before = out@;
        let c = out.len();
        let pad = (4 - c % 4) % 4;
        append_zeros(out, pad);
        assert(pad == round_up4(c as int) - c);
        offsets.push(out.len());
        append_bytes(out, tags[k].1.as_slice());
        assert(t[k as int] == (tags@[k as int].0@, tags@[k as int].1@));
        k = k + 1;
        assert(out@ =~= start + icc_data(t, k as int));
    }
    offsets
}

proof fn lemma_table_len(tags: Seq<(Seq<u8>, Seq<u8>)>, k: int)
    requires
        0 <= k <= tags.len(),
        forall|j: int| 0 <= j < tags.len() ==> (#[trigger] tags[j]).0.len() == 4,
    ensures
        icc_table(tags, k).len() == 12 * k,
    decreases k,
{
    if k > 0 {
        lemma_table_len(tags, k - 1);
    }
}

/// Fill in the tag table, whose rows were reserved as zeros at byte 132.
fn write_tag_table(out: &mut Vec<u8>, tags: &Vec<(Vec<u8>, Vec<u8>)>, offsets: &Vec<usize>, head: Ghost<Seq<u8>>, data: Ghost<Seq<u8>>)
    requires
        head@.len() == 132,
        tags@.len() == 9,
        forall|j: int| 0 <= j < 9 ==> (#[trigger] tags@[j]).0@.len() == 4,
        offsets@.len() == 9,
        forall|k: int| 0 <= k < 9 ==> offsets@[k] == round_up4(icc_cursor(tags_model(tags@), k)),
        old(out)@ == head@ + zero_bytes(108) + data@,
    ensures
        final(out)@ == head@ + icc_table(tags_model(tags@), 9) + data@,
        final(out)@.len() == old(out)@.len(),
{
    let ghost t = tags_model(tags@);
    let mut k: usize = 0;
    while k < 9
        invariant
            t == tags_model(tags@),
            head@.len() == 132,
            tags@.len() == 9,
            forall|j: int| 0 <= j < 9 ==> (#[trigger] tags@[j]).0@.len() == 4,
            offsets@.len() == 9,
            forall|j: int| 0 <= j < 9 ==> offsets@[j] == round_up4(icc_cursor(t, j)),
            k <= 9,
            out@ == head@ + icc_table(t, k as int) + zero_bytes(108 - 12 * k) + data@,
        decreases 9 - k,
    {
        proof {
            assert forall|j: int| 0 <= j < t.len() implies (#[trigger] t[j]).0.len() == 4 by {
                assert(t[j] == (tags@[j].0@, tags@[j].1@));
            }
            lemma_table_len(t, k as int);
        }
        let ghost before = out@;
        let mut row: Vec<u8> = Vec::new();
        append_bytes(&mut row, tags[k].0.as_slice());
        append_be32(&mut row, #[verifier::truncate] (offsets[k] as u32));
        append_be32(&mut row, #[verifier::truncate] (tags[k].1.len() as u32));
        assert(t[k as int] == (tags@[k as int].0@, tags@[k as int].1@));
        assert(row@ == t[k as int].0 + be32(round_up4(icc_cursor(t, k as int)) as u32) + be32(
            t[k as int].1.len() as u32,
        ));
        put_bytes(out, 132 + 12 * k, &row);
        k = k + 1;
        assert(out@ =~= head@ + icc_table(t, k as int) + zero_bytes(108 - 12 * k) + data@);
    }
    proof {
        assert forall|j: int| 0 <= j < t.len() implies (#[trigger] t[j]).0.len() == 4 by {
            assert(t[j] == (tags@[j].0@, tags@[j].1@));
        }
        lemma_table_len(t, 9);
    }
}

fn header_without_size() -> (out: Vec<u8>)
    ensures
        out@ == icc_header(0),
{
    let mut out: Vec<u8> = Vec::new();
    append_be32(&mut out, 0);
    append_bytes(&mut out, four_cc_bytes('n', 'e', 'x', 'f').as_slice());
    append_be32(&mut out, 0x02100000);
    append_bytes(&mut out, four_cc_bytes('m', 'n', 't', 'r').as_slice());
    append_bytes(&mut out, four_cc_bytes('R', 'G', 'B', ' ').as_slice());
    append_bytes(&mut out, four_cc_bytes('X', 'Y', 'Z', ' ').as_slice());
    append_zeros(&mut out, 12);
    append_bytes(&mut out, four_cc_bytes('a', 'c', 's', 'p').as_slice());
    append_zeros(&mut out, 24);
    append_be32(&mut out, 0);
    append_be32(&mut out, PCS_ILLUMINANT_X);
    append_be32(&mut out, PCS_ILLUMINANT_Y);
    append_be32(&mut out, PCS_ILLUMINANT_Z);
    append_bytes(&mut out, four_cc_bytes('N', 'E', 'X', 'F').as_slice());
    append_zeros(&mut out, 44);
    assert(out@ =~= icc_header(0));
    out
}

proof fn lemma_tag_shape(tags: Seq<(Vec<u8>, Vec<u8>)>)
    requires
        exists|name: Seq<char>, w: [i32; 3], r: [i32; 3], g: [i32; 3], b: [i32; 3], c: Seq<u16>|
            tags_model(tags) == #[trigger] icc_tags(name, w, r, g, b, c),
    ensures
        tags.len() == 9,
        forall|j: int| 0 <= j < 9 ==> (#[trigger] tags[j]).0@.len() == 4,
{
    let (name, w, r, g, b, c) = choose|name: Seq<char>, w: [i32; 3], r: [i32; 3], g: [i32; 3], b: [i32; 3], c: Seq<u16>|
        tags_model(tags) == #[trigger] icc_tags(name, w, r, g, b, c);
    let t = icc_tags(name, w, r, g, b, c);
    reveal(icc_tags);
    assert(tags_model(tags).len() == tags.len());
    assert forall|j: int| 0 <= j < 9 implies (#[trigger] tags[j]).0@.len() == 4 by {
        assert(tags_model(tags)[j] == (tags[j].0@, tags[j].1@));
        assert(t[j].0.len() == 4);
    }
}

proof fn lemma_sized(before: Seq<u8>, after: Seq<u8>, head: Seq<u8>, t: Seq<(Seq<u8>, Seq<u8>)>, data: Seq<u8>, size: u32)
    requires
        head == icc_header(0) + be32(9),
        before == head + icc_table(t, 9) + data,
        t.len() == 9,
        before.len() == icc_cursor(t, 9),
        size == before.len() as u32,
        data == icc_data(t, 9),
        after == before.subrange(0, 0) + be32(size) + before.subrange(4, before.len() as int),
    ensures
        after == icc_profile_bytes(t),
{
    assert(after =~= icc_profile_bytes(t));
}

/// Build a compact ICC v2 matrix/TRC RGB profile for `id` from its
/// fixed-point colorimetry. Tags are written in the order of `icc_tags`, each
/// on a four-byte boundary, and the header records the total size.
pub fn build_icc_profile(id: ColorSpaceId, colorimetry: &IccColorimetry) -> (profile: Vec<u8>)
    ensures
        profile@ == icc_profile_bytes(
            icc_tags(
                spec_profile_name(id)@,
                colorimetry.white_point,
                colorimetry.red,
                colorimetry.green,
                colorimetry.blue,
                colorimetry.tone_curve@,
            ),
        ),
{
    let tags = profile_tags(id, colorimetry);
    let ghost t = tags_model(tags@);
    proof {
        lemma_tag_shape(tags@);
    }
    let mut out = header_without_size();
    append_be32(&mut out, 9);
    let ghost head = out@;
    append_zeros(&mut out, 108);
    let offsets = write_tag_data(&mut out, &tags);
    let ghost data = icc_data(t, 9);
    assert(out@ == head + zero_bytes(108) + data);
    write_tag_table(&mut out, &tags, &offsets, Ghost(head), Ghost(data));
    let size = #[verifier::truncate] (out.len() as u32);
    let ghost before = out@;
    put_bytes(&mut out, 0, &be32_bytes(size));
    proof {
        lemma_sized(before, out@, head, t, data, size);
    }
    out
}

proof fn lemma_icc_cursor_order(tags: Seq<(Seq<u8>, Seq<u8>)>, a: int, b: int)
    requires
        0 <= a <= b <= tags.len(),
    ensures
        icc_cursor(tags, a) <= icc_cursor(tags, b),
        a < b ==> round_up4(icc_cursor(tags, a)) + tags[a].1.len() <= icc_cursor(tags, b),
        icc_cursor(tags, a) >= icc_cursor(tags, 0),
    decreases b - a,
{
    if a < b {
        lemma_icc_cursor_order(tags, a, b - 1);
        if a < b - 1 {
            lemma_icc_cursor_order(tags, a + 1, b);
        }
    }
    lemma_icc_cursor_grows(tags, a);
}

proof fn lemma_icc_cursor_grows(tags: Seq<(Seq<u8>, Seq<u8>)>, a: int)
    requires
        0 <= a <= tags.len(),
    ensures
        icc_cursor(tags, a) >= icc_cursor(tags, 0),
    decreases a,
{
    if a > 0 {
        lemma_icc_cursor_grows(tags, a - 1);
    }
}

proof fn lemma_icc_data_shape(tags: Seq<(Seq<u8>, Seq<u8>)>, k: int)
    requires
        0 <= k <= tags.len(),
    ensures
        icc_data(tags, k).len() == icc_cursor(tags, k) - icc_cursor(tags, 0),
        forall|j: int| 0 <= j < k ==> #[trigger] icc_data(tags, k).subrange(
            round_up4(icc_cursor(tags, j)) - icc_cursor(tags, 0),
            round_up4(icc_cursor(tags, j)) - icc_cursor(tags, 0) + tags[j].1.len(),
        ) == tags[j].1,
    decreases k,
{
    if k > 0 {
        lemma_icc_data_shape(tags, k - 1);
        let base = icc_cursor(tags, 0);
        let prev = icc_data(tags, k - 1);
        assert forall|j: int| 0 <= j < k implies #[trigger] icc_data(tags, k).subrange(
            round_up4(icc_cursor(tags, j)) - base,
            round_up4(icc_cursor(tags, j)) - base + tags[j].1.len(),
        ) == tags[j].1 by {
            lemma_icc_cursor_order(tags, j, k - 1);
            if j < k - 1 {
                assert(icc_data(tags, k).subrange(
                    round_up4(icc_cursor(tags, j)) - base,
                    round_up4(icc_cursor(tags, j)) - base + tags[j].1.len(),
                ) =~= prev.subrange(
                    round_up4(icc_cursor(tags, j)) - base,
                    round_up4(icc_cursor(tags, j)) - base + tags[j].1.len(),
                ));
            } else {
                assert(icc_data(tags, k).subrange(
                    round_up4(icc_cursor(tags, j)) - base,
                    round_up4(icc_cursor(tags, j)) - base + tags[j].1.len(),
                ) =~= tags[j].1);
            }
        }
    }
}

proof fn lemma_icc_table_shape(tags: Seq<(Seq<u8>, Seq<u8>)>, k: int)
    requires
        0 <= k <= tags.len(),
        forall|j: int| 0 <= j < tags.len() ==> (#[trigger] tags[j]).0.len() == 4,
    ensures
        icc_table(tags, k).len() == 12 * k,
        forall|j: int| 0 <= j < k ==> #[trigger] icc_table(tags, k).subrange(12 * j, 12 * j + 12) == tags[j].0
            + be32(round_up4(icc_cursor(tags, j)) as u32) + be32(tags[j].1.len() as u32),
    decreases k,
{
    if k > 0 {
        lemma_icc_table_shape(tags, k - 1);
        let prev = icc_table(tags, k - 1);
        assert forall|j: int| 0 <= j < k implies #[trigger] icc_table(tags, k).subrange(12 * j, 12 * j + 12)
            == tags[j].0 + be32(round_up4(icc_cursor(tags, j)) as u32) + be32(tags[j].1.len() as u32) by {
            if j < k - 1 {
                assert(icc_table(tags, k).subrange(12 * j, 12 * j + 12) =~= prev.subrange(12 * j, 12 * j + 12));
            } else {
                assert(icc_table(tags, k).subrange(12 * j, 12 * j + 12) =~= tags[j].0 + be32(
                    round_up4(icc_cursor(tags, j)) as u32,
                ) + be32(tags[j].1.len() as u32));
            }
        }
    }
}

/// What an ICC reader finds in a profile the builder assembled: the size
/// field holds the profile's length, the tag count follows the 128-byte
/// header, and each tag table row names its tag and points, on a four-byte
/// boundary, at exactly that tag's data.
#[verifier::rlimit(60)]
pub proof fn law_icc_readers_find_every_tag(tags: Seq<(Seq<u8>, Seq<u8>)>)
    requires
        forall|j: int| 0 <= j < tags.len() ==> (#[trigger] tags[j]).0.len() == 4,
    ensures
        icc_profile_bytes(tags).len() == icc_cursor(tags, tags.len() as int),
        icc_profile_bytes(tags).subrange(0, 4) == be32(icc_profile_bytes(tags).len() as u32),
        icc_profile_bytes(tags).subrange(128, 132) == be32(tags.len() as u32),
        forall|k: int| 0 <= k < tags.len() ==> #[trigger] icc_profile_bytes(tags).subrange(132 + 12 * k, 144 + 12 * k)
            == tags[k].0 + be32(round_up4(icc_cursor(tags, k)) as u32) + be32(tags[k].1.len() as u32),
        forall|k: int| 0 <= k < tags.len() ==> round_up4(#[trigger] icc_cursor(tags, k)) % 4 == 0,
        forall|k: int| 0 <= k < tags.len() ==> #[trigger] icc_profile_bytes(tags).subrange(
            round_up4(icc_cursor(tags, k)),
            round_up4(icc_cursor(tags, k)) + tags[k].1.len(),
        ) == tags[k].1,
{
    let n = tags.len() as int;
    let file = icc_profile_bytes(tags);
    lemma_icc_table_shape(tags, n);
    lemma_icc_data_shape(tags, n);
    let header = icc_header(icc_cursor(tags, n) as u32);
    let table = icc_table(tags, n);
    let data = icc_data(tags, n);
    assert(header.len() == 128);
    assert(file == header + be32(n as u32) + table + data);
    assert(file.subrange(0, 4) =~= be32(icc_cursor(tags, n) as u32));
    assert(file.subrange(128, 132) =~= be32(n as u32));
    assert forall|k: int| 0 <= k < n implies #[trigger] file.subrange(132 + 12 * k, 144 + 12 * k) == tags[k].0
        + be32(round_up4(icc_cursor(tags, k)) as u32) + be32(tags[k].1.len() as u32) by {
        assert(file.subrange(132 + 12 * k, 144 + 12 * k) =~= table.subrange(12 * k, 12 * k + 12));
    }
    assert forall|k: int| 0 <= k < n implies #[trigger] file.subrange(
        round_up4(icc_cursor(tags, k)),
        round_up4(icc_cursor(tags, k)) + tags[k].1.len(),
    ) == tags[k].1 by {
        let base = icc_cursor(tags, 0);
        lemma_icc_cursor_order(tags, k, n);
        assert(file.subrange(round_up4(icc_cursor(tags, k)), round_up4(icc_cursor(tags, k)) + tags[k].1.len())
            =~= data.subrange(
            round_up4(icc_cursor(tags, k)) - base,
            round_up4(icc_cursor(tags, k)) - base + tags[k].1.len(),
        ));
    }
}


// ---------------------------------------------------------------------------
// Recognising a built profile again
// ---------------------------------------------------------------------------

/// The space a name search assigns to a profile built for `id`: LibRaw's
/// ProPhoto D65 carries the ProPhoto name, so it reads as ProPhoto RGB.
pub open spec fn recognised_as(id: ColorSpaceId) -> ColorSpaceId {
    if id == ColorSpaceId::ProPhotoRgbD65 {
        ColorSpaceId::ProPhotoRgb
    } else {
        id
    }
}

/// The text `h` carries a name that the search tries before the names of
/// `recognised_as(id)`.
pub open spec fn names_rank_before(h: Seq<u8>, id: ColorSpaceId) -> bool {
    let cg = contains_text(h, "acescg"@);
    let ap0 = contains_text(h, "aces2065"@) || (contains_text(h, "aces"@) && contains_text(h, "ap0"@));
    let p3 = contains_text(h, "displayp3"@) || contains_text(h, "display p3"@);
    let adobe = contains_text(h, "adobergb"@) || contains_text(h, "adobe rgb"@);
    let rec = contains_text(h, "rec2020"@) || contains_text(h, "rec.2020"@) || contains_text(h, "bt.2020"@)
        || contains_text(h, "2020"@);
    let pro = contains_text(h, "prophoto"@) || contains_text(h, "romm"@);
    match recognised_as(id) {
        ColorSpaceId::AcesCg => false,
        ColorSpaceId::Aces2065 => cg,
        ColorSpaceId::DisplayP3 => cg || ap0,
        ColorSpaceId::AdobeRgb => cg || ap0 || p3,
        ColorSpaceId::Rec2020 => cg || ap0 || p3 || adobe,
        ColorSpaceId::ProPhotoRgb => cg || ap0 || p3 || adobe || rec,
        _ => cg || ap0 || p3 || adobe || rec || pro,
    }
}

/// The name text that the description of a profile built for `id` carries.
pub open spec fn name_needle(id: ColorSpaceId) -> Seq<char> {
    match id {
        ColorSpaceId::SRgb => "srgb"@,
        ColorSpaceId::DisplayP3 => "display p3"@,
        ColorSpaceId::AdobeRgb => "adobe rgb"@,
        ColorSpaceId::Rec2020 => "bt.2020"@,
        ColorSpaceId::ProPhotoRgb => "prophoto"@,
        ColorSpaceId::ProPhotoRgbD65 => "prophoto"@,
        ColorSpaceId::Aces2065 => "aces2065"@,
        ColorSpaceId::AcesCg => "acescg"@,
    }
}

/// An ASCII character that lower-cases to `wanted`.
pub open spec fn ascii_match(c: char, wanted: char) -> bool {
    &&& 0 < c as u32 <= 0x7f
    &&& lower_byte((c as u32) as u8) == wanted as u8
}

proof fn lemma_searchable_concat(a: Seq<u8>, b: Seq<u8>)
    ensures
        searchable(a + b) == searchable(a) + searchable(b),
    decreases b.len(),
{
    if b.len() == 0 {
        assert(a + b =~= a);
        assert(searchable(a) + searchable(b) =~= searchable(a));
    } else {
        lemma_searchable_concat(a, b.drop_last());
        assert((a + b).drop_last() =~= a + b.drop_last());
        assert((a + b).last() == b.last());
        if b.last() != 0 {
            assert(searchable(a) + searchable(b) =~= (searchable(a) + searchable(b.drop_last())).push(
                lower_byte(b.last()),
            ));
        }
    }
}

proof fn lemma_utf8_concat(a: Seq<char>, b: Seq<char>)
    ensures
        utf8(a + b) == utf8(a) + utf8(b),
    decreases a.len(),
{
    if a.len() == 0 {
        assert(a + b =~= b);
        assert(utf8(a) + utf8(b) =~= utf8(b));
    } else {
        lemma_utf8_concat(a.drop_first(), b);
        assert((a + b).drop_first() =~= a.drop_first() + b);
        assert((a + b)[0] == a[0]);
        assert(utf8(a + b) =~= vstd::utf8::encode_scalar(a[0] as u32) + (utf8(a.drop_first()) + utf8(b)));
    }
}

/// The searchable text of an ASCII window is its lower-cased characters.
proof fn lemma_ascii_window(w: Seq<char>, needle: Seq<char>)
    requires
        w.len() == needle.len(),
        forall|j: int| 0 <= j < w.len() ==> #[trigger] ascii_match(w[j], needle[j]),
    ensures
        searchable(utf8(w)).len() == w.len(),
        forall|j: int| 0 <= j < w.len() ==> #[trigger] searchable(utf8(w))[j] == needle[j] as u8,
    decreases w.len(),
{
    if w.len() > 0 {
        let last = w.len() - 1;
        let front = w.subrange(0, last);
        let nfront = needle.subrange(0, last);
        assert forall|j: int| 0 <= j < front.len() implies #[trigger] ascii_match(front[j], nfront[j]) by {
            assert(ascii_match(w[j], needle[j]));
        }
        lemma_ascii_window(front, nfront);
        assert(w =~= front + seq![w[last]]);
        lemma_utf8_concat(front, seq![w[last]]);
        let c = w[last];
        assert(ascii_match(c, needle[last]));
        let v = c as u32;
        let x = v as u8;
        assert(((v & 0x7f) as u8) == x && x != 0) by (bit_vector)
            requires
                0 < v <= 0x7f,
                x == v as u8,
        ;
        assert(vstd::utf8::has_width_1_encoding(v));
        assert(vstd::utf8::encode_scalar(v) == seq![(v & 0x7f) as u8]);
        assert(seq![c].drop_first() =~= Seq::<char>::empty());
        assert(utf8(Seq::<char>::empty()) =~= Seq::<u8>::empty());
        assert(utf8(seq![c]) =~= seq![x]);
        lemma_searchable_concat(utf8(front), seq![x]);
        assert(seq![x].drop_last() =~= Seq::<u8>::empty());
        assert(seq![x].last() == x);
        assert(searchable(Seq::<u8>::empty()) =~= Seq::<u8>::empty());
        assert(searchable(seq![x]) =~= Seq::<u8>::empty().push(lower_byte(x)));
        assert(searchable(seq![x]) =~= seq![lower_byte(x)]);
        assert(searchable(utf8(w)) == searchable(utf8(front)) + seq![lower_byte(x)]);
        assert(lower_byte(x) == needle[last] as u8);
        assert forall|j: int| 0 <= j < w.len() implies #[trigger] searchable(utf8(w))[j] == needle[j] as u8 by {
            if j < last {
                assert(searchable(utf8(front))[j] == nfront[j] as u8);
            }
        }
    }
}

/// A text contained in the middle of a byte string is contained in it.
proof fn lemma_contains_in_middle(p: Seq<u8>, h: Seq<u8>, q: Seq<u8>, needle: Seq<char>)
    requires
        contains_text(h, needle),
    ensures
        contains_text(p + h + q, needle),
{
    let i = choose|i: int| text_at(h, i, needle);
    let whole = p + h + q;
    assert forall|j: int| 0 <= j < needle.len() implies whole[p.len() + i + j] == #[trigger] needle[j] as u8 by {
        assert(h[i + j] == needle[j] as u8);
    }
    assert(text_at(whole, p.len() + i, needle));
}

/// A name holding, from `start`, an ASCII window that lower-cases to
/// `needle` carries `needle` in its searchable text.
proof fn lemma_name_window(name: Seq<char>, start: int, needle: Seq<char>)
    requires
        0 <= start,
        start + needle.len() <= name.len(),
        forall|j: int| 0 <= j < needle.len() ==> #[trigger] ascii_match(name[start + j], needle[j]),
    ensures
        contains_text(searchable(utf8(name)), needle),
{
    let end = start + needle.len();
    let a = name.subrange(0, start);
    let w = name.subrange(start, end);
    let b = name.subrange(end, name.len() as int);
    assert(name =~= a + w + b);
    assert forall|j: int| 0 <= j < w.len() implies #[trigger] ascii_match(w[j], needle[j]) by {
        assert(ascii_match(name[start + j], needle[j]));
    }
    lemma_ascii_window(w, needle);
    lemma_utf8_concat(a + w, b);
    lemma_utf8_concat(a, w);
    lemma_searchable_concat(utf8(a) + utf8(w), utf8(b));
    lemma_searchable_concat(utf8(a), utf8(w));
    assert(text_at(searchable(utf8(w)), 0, needle));
    lemma_contains_in_middle(searchable(utf8(a)), searchable(utf8(w)), searchable(utf8(b)), needle);
}

proof fn lemma_name_has_needle(id: ColorSpaceId)
    ensures
        contains_text(searchable(utf8(spec_profile_name(id)@)), name_needle(id)),
{
    match id {
        ColorSpaceId::SRgb => {
            reveal_strlit("sRGB IEC 61966-2.1");
            reveal_strlit("srgb");
            assert forall|j: int| 0 <= j < 4 implies #[trigger] ascii_match("sRGB IEC 61966-2.1"@[0 + j], "srgb"@[j]) by {
                if j == 0 {} else if j == 1 {} else if j == 2 {} else {}
            }
            lemma_name_window("sRGB IEC 61966-2.1"@, 0, "srgb"@);
        },
        ColorSpaceId::DisplayP3 => {
            reveal_strlit("Display P3");
            reveal_strlit("display p3");
            assert forall|j: int| 0 <= j < 10 implies #[trigger] ascii_match("Display P3"@[0 + j], "display p3"@[j]) by {
                if j == 0 {} else if j == 1 {} else if j == 2 {} else if j == 3 {} else if j == 4 {} else if j == 5 {} else if j == 6 {} else if j == 7 {} else if j == 8 {} else {}
            }
            lemma_name_window("Display P3"@, 0, "display p3"@);
        },
        ColorSpaceId::AdobeRgb => {
            reveal_strlit("Adobe RGB (1998)");
            reveal_strlit("adobe rgb");
            assert forall|j: int| 0 <= j < 9 implies #[trigger] ascii_match("Adobe RGB (1998)"@[0 + j], "adobe rgb"@[j]) by {
                if j == 0 {} else if j == 1 {} else if j == 2 {} else if j == 3 {} else if j == 4 {} else if j == 5 {} else if j == 6 {} else if j == 7 {} else {}
            }
            lemma_name_window("Adobe RGB (1998)"@, 0, "adobe rgb"@);
        },
        ColorSpaceId::Rec2020 => {
            reveal_strlit("ITU-R BT.2020");
            reveal_strlit("bt.2020");
            assert forall|j: int| 0 <= j < 7 implies #[trigger] ascii_match("ITU-R BT.2020"@[6 + j], "bt.2020"@[j]) by {
                if j == 0 {} else if j == 1 {} else if j == 2 {} else if j == 3 {} else if j == 4 {} else if j == 5 {} else {}
            }
            lemma_name_window("ITU-R BT.2020"@, 6, "bt.2020"@);
        },
        ColorSpaceId::ProPhotoRgb => {
            reveal_strlit("ProPhoto RGB (ROMM RGB)");
            reveal_strlit("prophoto");
            assert forall|j: int| 0 <= j < 8 implies #[trigger] ascii_match("ProPhoto RGB (ROMM RGB)"@[0 + j], "prophoto"@[j]) by {
                if j == 0 {} else if j == 1 {} else if j == 2 {} else if j == 3 {} else if j == 4 {} else if j == 5 {} else if j == 6 {} else {}
            }
            lemma_name_window("ProPhoto RGB (ROMM RGB)"@, 0, "prophoto"@);
        },
        ColorSpaceId::ProPhotoRgbD65 => {
            reveal_strlit("LibRaw ProPhoto RGB D65");
            reveal_strlit("prophoto");
            assert forall|j: int| 0 <= j < 8 implies #[trigger] ascii_match("LibRaw ProPhoto RGB D65"@[7 + j], "prophoto"@[j]) by {
                if j == 0 {} else if j == 1 {} else if j == 2 {} else if j == 3 {} else if j == 4 {} else if j == 5 {} else if j == 6 {} else {}
            }
            lemma_name_window("LibRaw ProPhoto RGB D65"@, 7, "prophoto"@);
        },
        ColorSpaceId::Aces2065 => {
            reveal_strlit("ACES2065-1 (AP0)");
            reveal_strlit("aces2065");
            assert forall|j: int| 0 <= j < 8 implies #[trigger] ascii_match("ACES2065-1 (AP0)"@[0 + j], "aces2065"@[j]) by {
                if j == 0 {} else if j == 1 {} else if j == 2 {} else if j == 3 {} else if j == 4 {} else if j == 5 {} else if j == 6 {} else {}
            }
            lemma_name_window("ACES2065-1 (AP0)"@, 0, "aces2065"@);
        },
        ColorSpaceId::AcesCg => {
            reveal_strlit("ACEScg (AP1)");
            reveal_strlit("acescg");
            assert forall|j: int| 0 <= j < 6 implies #[trigger] ascii_match("ACEScg (AP1)"@[0 + j], "acescg"@[j]) by {
                if j == 0 {} else if j == 1 {} else if j == 2 {} else if j == 3 {} else if j == 4 {} else {}
            }
            lemma_name_window("ACEScg (AP1)"@, 0, "acescg"@);
        },
    }
}

proof fn lemma_split_at(file: Seq<u8>, p: int, d: Seq<u8>)
    requires
        0 <= p,
        p + d.len() <= file.len(),
        file.subrange(p, p + d.len()) == d,
    ensures
        file == file.subrange(0, p) + d + file.subrange(p + d.len(), file.len() as int),
{
    assert(file =~= file.subrange(0, p) + file.subrange(p, p + d.len()) + file.subrange(p + d.len(), file.len() as int));
}

/// A built profile carries the profile signature.
proof fn lemma_built_signature(tags: Seq<(Seq<u8>, Seq<u8>)>)
    ensures
        has_profile_signature(icc_profile_bytes(tags)),
{
    let n = tags.len() as int;
    let file = icc_profile_bytes(tags);
    let header = icc_header(icc_cursor(tags, n) as u32);
    let rest = be32(n as u32) + icc_table(tags, n) + icc_data(tags, n);
    assert(file =~= header + rest);
    assert(header.len() == 128);
    assert(header[36] == 'a' as u8);
    assert(header[37] == 'c' as u8);
    assert(header[38] == 's' as u8);
    assert(header[39] == 'p' as u8);
    assert(file[36] == header[36] && file[37] == header[37] && file[38] == header[38] && file[39] == header[39]);
}

/// The searchable text of a built profile carries the searchable text of
/// the name its description holds.
#[verifier::spinoff_prover]
#[verifier::rlimit(60)]
proof fn lemma_built_name_text(name: Seq<char>, white: [i32; 3], red: [i32; 3], green: [i32; 3], blue: [i32; 3], curve: Seq<u16>, needle: Seq<char>)
    requires
        contains_text(searchable(utf8(name)), needle),
    ensures
        contains_text(searchable(icc_profile_bytes(icc_tags(name, white, red, green, blue, curve))), needle),
{
    let tags = icc_tags(name, white, red, green, blue, curve);
    let file = icc_profile_bytes(tags);
    assert(tags.len() > 0 && tags[0].1 == description_tag_bytes(name) && forall|j: int|
        0 <= j < tags.len() ==> (#[trigger] tags[j]).0.len() == 4) by {
        reveal(icc_tags);
    }
    law_icc_readers_find_every_tag(tags);
    let p = round_up4(icc_cursor(tags, 0));
    let d = tags[0].1;
    lemma_icc_cursor_order(tags, 0, tags.len() as int);
    assert(0 <= p && p + d.len() <= file.len());
    assert(file.subrange(p, p + d.len()) == d);
    lemma_split_at(file, p, d);
    let d0 = four_cc('d', 'e', 's', 'c') + zero_bytes(4) + be32((utf8(name).len() + 1) as u32);
    let d1 = seq![0u8] + be32(0) + be32(0) + be16(0) + seq![0u8] + zero_bytes(67);
    assert(d =~= d0 + utf8(name) + d1);
    let before = file.subrange(0, p);
    let after = file.subrange(p + d.len(), file.len() as int);
    assert(file =~= (before + d0) + utf8(name) + (d1 + after));
    lemma_searchable_concat((before + d0) + utf8(name), d1 + after);
    lemma_searchable_concat(before + d0, utf8(name));
    lemma_contains_in_middle(searchable(before + d0), searchable(utf8(name)), searchable(d1 + after), needle);
}

/// A profile built for `id` is recognised again as that space (LibRaw's
/// ProPhoto D65 as ProPhoto RGB), whatever its colorimetry, unless the
/// profile's text carries a name the search tries first: the profile
/// signature and the description naming the space are always there. For
/// each space this excludes exactly the profiles that are not recognised.
pub proof fn law_built_profiles_are_recognised(
    id: ColorSpaceId,
    white: [i32; 3],
    red: [i32; 3],
    green: [i32; 3],
    blue: [i32; 3],
    curve: Seq<u16>,
)
    requires
        !names_rank_before(
            searchable(icc_profile_bytes(icc_tags(spec_profile_name(id)@, white, red, green, blue, curve))),
            id,
        ),
    ensures
        spec_identify_icc_profile(icc_profile_bytes(icc_tags(spec_profile_name(id)@, white, red, green, blue, curve)))
            == Some(recognised_as(id)),
{
    let name = spec_profile_name(id)@;
    let file = icc_profile_bytes(icc_tags(name, white, red, green, blue, curve));
    lemma_built_signature(icc_tags(name, white, red, green, blue, curve));
    lemma_name_has_needle(id);
    lemma_built_name_text(name, white, red, green, blue, curve, name_needle(id));
    assert(contains_text(searchable(file), name_needle(id)));
}


// ---------------------------------------------------------------------------
// What a built profile holds, and how names are read
// ---------------------------------------------------------------------------

/// The signature of row `k` of a profile's tag table.
pub open spec fn row_signature(f: Seq<u8>, k: int) -> Seq<u8> {
    f.subrange(132 + 12 * k, 136 + 12 * k)
}

/// Every row of the nine-row tag table of `f` that carries signature `sig`
/// points, by its offset and size fields, at exactly `data`; and one row
/// carries it.
pub open spec fn tag_holds(f: Seq<u8>, sig: Seq<u8>, data: Seq<u8>) -> bool {
    &&& exists|k: int| 0 <= k < 9 && #[trigger] row_signature(f, k) == sig
    &&& forall|k: int|
        0 <= k < 9 && #[trigger] row_signature(f, k) == sig ==> exists|o: u32|
            f.subrange(136 + 12 * k, 144 + 12 * k) == be32(o) + be32(data.len() as u32) && #[trigger] f.subrange(
                o as int,
                o + data.len(),
            ) == data
}

/// In a built profile, the white point tag `wtpt` and the colorant tags
/// `rXYZ`, `gXYZ` and `bXYZ` each hold an `XYZ ` value of their own column:
/// the white point, the red, the green and the blue primary. It holds for
/// profiles whose size fits the header's 32-bit size field.
pub proof fn law_colorant_tags_hold_their_primaries(
    name: Seq<char>,
    white: [i32; 3],
    red: [i32; 3],
    green: [i32; 3],
    blue: [i32; 3],
    curve: Seq<u16>,
)
    requires
        icc_profile_bytes(icc_tags(name, white, red, green, blue, curve)).len() <= u32::MAX,
    ensures
        ({
            let f = icc_profile_bytes(icc_tags(name, white, red, green, blue, curve));
            let xyz = |v: [i32; 3]|
                seq![0x58u8, 0x59u8, 0x5au8, 0x20u8] + zero_bytes(4) + be32(v[0] as u32) + be32(v[1] as u32) + be32(
                    v[2] as u32,
                );
            &&& f.subrange(128, 132) == be32(9)
            &&& tag_holds(f, seq![0x77u8, 0x74u8, 0x70u8, 0x74u8], xyz(white))
            &&& tag_holds(f, seq![0x72u8, 0x58u8, 0x59u8, 0x5au8], xyz(red))
            &&& tag_holds(f, seq![0x67u8, 0x58u8, 0x59u8, 0x5au8], xyz(green))
            &&& tag_holds(f, seq![0x62u8, 0x58u8, 0x59u8, 0x5au8], xyz(blue))
        }),
{
    let tags = icc_tags(name, white, red, green, blue, curve);
    let f = icc_profile_bytes(tags);
    assert(tags.len() == 9 && forall|j: int| 0 <= j < tags.len() ==> (#[trigger] tags[j]).0.len() == 4) by {
        reveal(icc_tags);
    }
    assert(tags[2].0 == seq![0x77u8, 0x74u8, 0x70u8, 0x74u8] && tags[2].1 == seq![0x58u8, 0x59u8, 0x5au8, 0x20u8] + zero_bytes(4)
        + be32(white[0] as u32) + be32(white[1] as u32) + be32(white[2] as u32) && forall|j: int|
        0 <= j < 9 && j != 2 ==> #[trigger] tags[j].0 != seq![0x77u8, 0x74u8, 0x70u8, 0x74u8]) by {
        reveal(icc_tags);
        assert(tags[2].0 =~= seq![0x77u8, 0x74u8, 0x70u8, 0x74u8]);
        assert forall|j: int| 0 <= j < 9 && j != 2 implies #[trigger] tags[j].0 != seq![0x77u8, 0x74u8, 0x70u8, 0x74u8] by {
            if j == 0 {
                assert(tags[j].0[0] != seq![0x77u8, 0x74u8, 0x70u8, 0x74u8][0] || tags[j].0[1] != seq![0x77u8, 0x74u8, 0x70u8, 0x74u8][1]);
            } else if j == 1 {
                assert(tags[j].0[0] != seq![0x77u8, 0x74u8, 0x70u8, 0x74u8][0] || tags[j].0[1] != seq![0x77u8, 0x74u8, 0x70u8, 0x74u8][1]);
            } else if j == 2 {
                assert(tags[j].0[0] != seq![0x77u8, 0x74u8, 0x70u8, 0x74u8][0] || tags[j].0[1] != seq![0x77u8, 0x74u8, 0x70u8, 0x74u8][1]);
            } else if j == 3 {
                assert(tags[j].0[0] != seq![0x77u8, 0x74u8, 0x70u8, 0x74u8][0] || tags[j].0[1] != seq![0x77u8, 0x74u8, 0x70u8, 0x74u8][1]);
            } else if j == 4 {
                assert(tags[j].0[0] != seq![0x77u8, 0x74u8, 0x70u8, 0x74u8][0] || tags[j].0[1] != seq![0x77u8, 0x74u8, 0x70u8, 0x74u8][1]);
            } else if j == 5 {
                assert(tags[j].0[0] != seq![0x77u8, 0x74u8, 0x70u8, 0x74u8][0] || tags[j].0[1] != seq![0x77u8, 0x74u8, 0x70u8, 0x74u8][1]);
            } else if j == 6 {
                assert(tags[j].0[0] != seq![0x77u8, 0x74u8, 0x70u8, 0x74u8][0] || tags[j].0[1] != seq![0x77u8, 0x74u8, 0x70u8, 0x74u8][1]);
            } else if j == 7 {
                assert(tags[j].0[0] != seq![0x77u8, 0x74u8, 0x70u8, 0x74u8][0] || tags[j].0[1] != seq![0x77u8, 0x74u8, 0x70u8, 0x74u8][1]);
            } else {
                assert(tags[j].0[0] != seq![0x77u8, 0x74u8, 0x70u8, 0x74u8][0] || tags[j].0[1] != seq![0x77u8, 0x74u8, 0x70u8, 0x74u8][1]);
            }
        }
    }
    assert(tags[3].0 == seq![0x72u8, 0x58u8, 0x59u8, 0x5au8] && tags[3].1 == seq![0x58u8, 0x59u8, 0x5au8, 0x20u8] + zero_bytes(4)
        + be32(red[0] as u32) + be32(red[1] as u32) + be32(red[2] as u32) && forall|j: int|
        0 <= j < 9 && j != 3 ==> #[trigger] tags[j].0 != seq![0x72u8, 0x58u8, 0x59u8, 0x5au8]) by {
        reveal(icc_tags);
        assert(tags[3].0 =~= seq![0x72u8, 0x58u8, 0x59u8, 0x5au8]);
        assert forall|j: int| 0 <= j < 9 && j != 3 implies #[trigger] tags[j].0 != seq![0x72u8, 0x58u8, 0x59u8, 0x5au8] by {
            if j == 0 {
                assert(tags[j].0[0] != seq![0x72u8, 0x58u8, 0x59u8, 0x5au8][0] || tags[j].0[1] != seq![0x72u8, 0x58u8, 0x59u8, 0x5au8][1]);
            } else if j == 1 {
                assert(tags[j].0[0] != seq![0x72u8, 0x58u8, 0x59u8, 0x5au8][0] || tags[j].0[1] != seq![0x72u8, 0x58u8, 0x59u8, 0x5au8][1]);
            } else if j == 2 {
                assert(tags[j].0[0] != seq![0x72u8, 0x58u8, 0x59u8, 0x5au8][0] || tags[j].0[1] != seq![0x72u8, 0x58u8, 0x59u8, 0x5au8][1]);
            } else if j == 3 {
                assert(tags[j].0[0] != seq![0x72u8, 0x58u8, 0x59u8, 0x5au8][0] || tags[j].0[1] != seq![0x72u8, 0x58u8, 0x59u8, 0x5au8][1]);
            } else if j == 4 {
                assert(tags[j].0[0] != seq![0x72u8, 0x58u8, 0x59u8, 0x5au8][0] || tags[j].0[1] != seq![0x72u8, 0x58u8, 0x59u8, 0x5au8][1]);
            } else if j == 5 {
                assert(tags[j].0[0] != seq![0x72u8, 0x58u8, 0x59u8, 0x5au8][0] || tags[j].0[1] != seq![0x72u8, 0x58u8, 0x59u8, 0x5au8][1]);
            } else if j == 6 {
                assert(tags[j].0[0] != seq![0x72u8, 0x58u8, 0x59u8, 0x5au8][0] || tags[j].0[1] != seq![0x72u8, 0x58u8, 0x59u8, 0x5au8][1]);
            } else if j == 7 {
                assert(tags[j].0[0] != seq![0x72u8, 0x58u8, 0x59u8, 0x5au8][0] || tags[j].0[1] != seq![0x72u8, 0x58u8, 0x59u8, 0x5au8][1]);
            } else {
                assert(tags[j].0[0] != seq![0x72u8, 0x58u8, 0x59u8, 0x5au8][0] || tags[j].0[1] != seq![0x72u8, 0x58u8, 0x59u8, 0x5au8][1]);
            }
        }
    }
    assert(tags[4].0 == seq![0x67u8, 0x58u8, 0x59u8, 0x5au8] && tags[4].1 == seq![0x58u8, 0x59u8, 0x5au8, 0x20u8] + zero_bytes(4)
        + be32(green[0] as u32) + be32(green[1] as u32) + be32(green[2] as u32) && forall|j: int|
        0 <= j < 9 && j != 4 ==> #[trigger] tags[j].0 != seq![0x67u8, 0x58u8, 0x59u8, 0x5au8]) by {
        reveal(icc_tags);
        assert(tags[4].0 =~= seq![0x67u8, 0x58u8, 0x59u8, 0x5au8]);
        assert forall|j: int| 0 <= j < 9 && j != 4 implies #[trigger] tags[j].0 != seq![0x67u8, 0x58u8, 0x59u8, 0x5au8] by {
            if j == 0 {
                assert(tags[j].0[0] != seq![0x67u8, 0x58u8, 0x59u8, 0x5au8][0] || tags[j].0[1] != seq![0x67u8, 0x58u8, 0x59u8, 0x5au8][1]);
            } else if j == 1 {
                assert(tags[j].0[0] != seq![0x67u8, 0x58u8, 0x59u8, 0x5au8][0] || tags[j].0[1] != seq![0x67u8, 0x58u8, 0x59u8, 0x5au8][1]);
            } else if j == 2 {
                assert(tags[j].0[0] != seq![0x67u8, 0x58u8, 0x59u8, 0x5au8][0] || tags[j].0[1] != seq![0x67u8, 0x58u8, 0x59u8, 0x5au8][1]);
            } else if j == 3 {
                assert(tags[j].0[0] != seq![0x67u8, 0x58u8, 0x59u8, 0x5au8][0] || tags[j].0[1] != seq![0x67u8, 0x58u8, 0x59u8, 0x5au8][1]);
            } else if j == 4 {
                assert(tags[j].0[0] != seq![0x67u8, 0x58u8, 0x59u8, 0x5au8][0] || tags[j].0[1] != seq![0x67u8, 0x58u8, 0x59u8, 0x5au8][1]);
            } else if j == 5 {
                assert(tags[j].0[0] != seq![0x67u8, 0x58u8, 0x59u8, 0x5au8][0] || tags[j].0[1] != seq![0x67u8, 0x58u8, 0x59u8, 0x5au8][1]);
            } else if j == 6 {
                assert(tags[j].0[0] != seq![0x67u8, 0x58u8, 0x59u8, 0x5au8][0] || tags[j].0[1] != seq![0x67u8, 0x58u8, 0x59u8, 0x5au8][1]);
            } else if j == 7 {
                assert(tags[j].0[0] != seq![0x67u8, 0x58u8, 0x59u8, 0x5au8][0] || tags[j].0[1] != seq![0x67u8, 0x58u8, 0x59u8, 0x5au8][1]);
            } else {
                assert(tags[j].0[0] != seq![0x67u8, 0x58u8, 0x59u8, 0x5au8][0] || tags[j].0[1] != seq![0x67u8, 0x58u8, 0x59u8, 0x5au8][1]);
            }
        }
    }
    assert(tags[5].0 == seq![0x62u8, 0x58u8, 0x59u8, 0x5au8] && tags[5].1 == seq![0x58u8, 0x59u8, 0x5au8, 0x20u8] + zero_bytes(4)
        + be32(blue[0] as u32) + be32(blue[1] as u32) + be32(blue[2] as u32) && forall|j: int|
        0 <= j < 9 && j != 5 ==> #[trigger] tags[j].0 != seq![0x62u8, 0x58u8, 0x59u8, 0x5au8]) by {
        reveal(icc_tags);
        assert(tags[5].0 =~= seq![0x62u8, 0x58u8, 0x59u8, 0x5au8]);
        assert forall|j: int| 0 <= j < 9 && j != 5 implies #[trigger] tags[j].0 != seq![0x62u8, 0x58u8, 0x59u8, 0x5au8] by {
            if j == 0 {
                assert(tags[j].0[0] != seq![0x62u8, 0x58u8, 0x59u8, 0x5au8][0] || tags[j].0[1] != seq![0x62u8, 0x58u8, 0x59u8, 0x5au8][1]);
            } else if j == 1 {
                assert(tags[j].0[0] != seq![0x62u8, 0x58u8, 0x59u8, 0x5au8][0] || tags[j].0[1] != seq![0x62u8, 0x58u8, 0x59u8, 0x5au8][1]);
            } else if j == 2 {
                assert(tags[j].0[0] != seq![0x62u8, 0x58u8, 0x59u8, 0x5au8][0] || tags[j].0[1] != seq![0x62u8, 0x58u8, 0x59u8, 0x5au8][1]);
            } else if j == 3 {
                assert(tags[j].0[0] != seq![0x62u8, 0x58u8, 0x59u8, 0x5au8][0] || tags[j].0[1] != seq![0x62u8, 0x58u8, 0x59u8, 0x5au8][1]);
            } else if j == 4 {
                assert(tags[j].0[0] != seq![0x62u8, 0x58u8, 0x59u8, 0x5au8][0] || tags[j].0[1] != seq![0x62u8, 0x58u8, 0x59u8, 0x5au8][1]);
            } else if j == 5 {
                assert(tags[j].0[0] != seq![0x62u8, 0x58u8, 0x59u8, 0x5au8][0] || tags[j].0[1] != seq![0x62u8, 0x58u8, 0x59u8, 0x5au8][1]);
            } else if j == 6 {
                assert(tags[j].0[0] != seq![0x62u8, 0x58u8, 0x59u8, 0x5au8][0] || tags[j].0[1] != seq![0x62u8, 0x58u8, 0x59u8, 0x5au8][1]);
            } else if j == 7 {
                assert(tags[j].0[0] != seq![0x62u8, 0x58u8, 0x59u8, 0x5au8][0] || tags[j].0[1] != seq![0x62u8, 0x58u8, 0x59u8, 0x5au8][1]);
            } else {
                assert(tags[j].0[0] != seq![0x62u8, 0x58u8, 0x59u8, 0x5au8][0] || tags[j].0[1] != seq![0x62u8, 0x58u8, 0x59u8, 0x5au8][1]);
            }
        }
    }
    law_icc_readers_find_every_tag(tags);
    lemma_colorant_row(tags, 2, seq![0x77u8, 0x74u8, 0x70u8, 0x74u8], white);
    lemma_colorant_row(tags, 3, seq![0x72u8, 0x58u8, 0x59u8, 0x5au8], red);
    lemma_colorant_row(tags, 4, seq![0x67u8, 0x58u8, 0x59u8, 0x5au8], green);
    lemma_colorant_row(tags, 5, seq![0x62u8, 0x58u8, 0x59u8, 0x5au8], blue);
}

/// Row `at` of a built profile carries signature `sig` and the `XYZ ` value
/// `v`, and no other row carries `sig`.
#[verifier::spinoff_prover]
#[verifier::rlimit(60)]
proof fn lemma_colorant_row(tags: Seq<(Seq<u8>, Seq<u8>)>, at: int, sig: Seq<u8>, v: [i32; 3])
    requires
        tags.len() == 9,
        forall|j: int| 0 <= j < tags.len() ==> (#[trigger] tags[j]).0.len() == 4,
        0 <= at < 9,
        tags[at].0 == sig,
        tags[at].1 == seq![0x58u8, 0x59u8, 0x5au8, 0x20u8] + zero_bytes(4) + be32(v[0] as u32) + be32(v[1] as u32)
            + be32(v[2] as u32),
        forall|j: int| 0 <= j < 9 && j != at ==> #[trigger] tags[j].0 != sig,
        icc_profile_bytes(tags).len() <= u32::MAX,
        icc_profile_bytes(tags).len() == icc_cursor(tags, tags.len() as int),
        forall|k: int| 0 <= k < tags.len() ==> #[trigger] icc_profile_bytes(tags).subrange(132 + 12 * k, 144 + 12 * k)
            == tags[k].0 + be32(round_up4(icc_cursor(tags, k)) as u32) + be32(tags[k].1.len() as u32),
        forall|k: int| 0 <= k < tags.len() ==> #[trigger] icc_profile_bytes(tags).subrange(
            round_up4(icc_cursor(tags, k)),
            round_up4(icc_cursor(tags, k)) + tags[k].1.len(),
        ) == tags[k].1,
    ensures
        tag_holds(icc_profile_bytes(tags), sig, tags[at].1),
{
    let f = icc_profile_bytes(tags);
    let data = tags[at].1;
    lemma_icc_cursor_order(tags, 0, 9);
    assert(f.len() >= 240);
    let row = f.subrange(132 + 12 * at, 144 + 12 * at);
    assert(row == tags[at].0 + be32(round_up4(icc_cursor(tags, at)) as u32) + be32(tags[at].1.len() as u32));
    assert(row_signature(f, at) =~= row.subrange(0, 4));
    assert(row_signature(f, at) == sig);
    assert forall|k: int| 0 <= k < 9 && #[trigger] row_signature(f, k) == sig implies exists|o: u32|
        f.subrange(136 + 12 * k, 144 + 12 * k) == be32(o) + be32(data.len() as u32) && #[trigger] f.subrange(
            o as int,
            o + data.len(),
        ) == data by {
        let rk = f.subrange(132 + 12 * k, 144 + 12 * k);
        assert(rk == tags[k].0 + be32(round_up4(icc_cursor(tags, k)) as u32) + be32(tags[k].1.len() as u32));
        assert(row_signature(f, k) =~= rk.subrange(0, 4));
        assert(rk.subrange(0, 4) =~= tags[k].0);
        assert(k == at);
        lemma_icc_cursor_order(tags, at, 9);
        let o = round_up4(icc_cursor(tags, at)) as u32;
        assert(o == round_up4(icc_cursor(tags, at)));
        assert(f.subrange(136 + 12 * k, 144 + 12 * k) =~= rk.subrange(4, 12));
        assert(rk.subrange(4, 12) =~= be32(o) + be32(data.len() as u32));
        assert(f.subrange(o as int, o + data.len()) == data);
    }
}

/// The names a working space is accepted under.
pub open spec fn working_aliases(id: WorkingSpaceId) -> Seq<Seq<char>> {
    match id {
        WorkingSpaceId::LinearSRgb => seq!["linear-srgb"@, "srgb"@, "linear-srgb-d65"@],
        WorkingSpaceId::LinearDisplayP3 => seq!["linear-display-p3"@, "display-p3"@, "p3"@],
        WorkingSpaceId::LinearAdobeRgb => seq!["linear-adobe-rgb"@, "adobe-rgb"@, "adobe-rgb-1998"@, "adobergb"@],
        WorkingSpaceId::LinearRec2020 => seq!["linear-rec2020"@, "rec2020"@, "rec.2020"@, "bt2020"@],
        WorkingSpaceId::LinearProPhotoRgb => seq!["linear-prophoto"@, "linear-prophoto-rgb"@, "prophoto"@, "prophoto-rgb"@],
        WorkingSpaceId::LinearAces => seq!["linear-aces"@, "aces"@, "aces2065"@, "aces-ap0"@],
        WorkingSpaceId::LinearAcesCg => seq!["linear-acescg"@, "acescg"@, "aces-ap1"@],
    }
}

proof fn lemma_lowers_to_one_name(k: Seq<char>)
    ensures
        forall|a: Seq<char>, b: Seq<char>| #[trigger] lowers_to(k, a) && #[trigger] lowers_to(k, b) ==> a == b,
{
    assert forall|a: Seq<char>, b: Seq<char>| #[trigger] lowers_to(k, a) && #[trigger] lowers_to(k, b) implies a
        == b by {
        assert forall|i: int| 0 <= i < a.len() implies a[i] == b[i] by {
            assert(ascii_lower(k[i]) == a[i]);
            assert(ascii_lower(k[i]) == b[i]);
        }
        assert(a =~= b);
    }
}

/// A name selects a working space exactly when, trimmed and with ASCII
/// letters lower-cased, it is one of the names that space is accepted
/// under; no name is accepted for two spaces.
pub proof fn law_working_space_aliases_are_accepted(value: Seq<char>, id: WorkingSpaceId, i: int)
    ensures
        0 <= i < working_aliases(id).len() && lowers_to(trimmed(value), working_aliases(id)[i])
            ==> spec_parse_working_space(value) == Some(id),
        spec_parse_working_space(value) == Some(id) ==> exists|j: int|
            0 <= j < working_aliases(id).len() && lowers_to(trimmed(value), #[trigger] working_aliases(id)[j]),
{
    reveal_strlit("linear-srgb");
    reveal_strlit("srgb");
    reveal_strlit("linear-srgb-d65");
    reveal_strlit("linear-display-p3");
    reveal_strlit("display-p3");
    reveal_strlit("p3");
    reveal_strlit("linear-adobe-rgb");
    reveal_strlit("adobe-rgb");
    reveal_strlit("adobe-rgb-1998");
    reveal_strlit("adobergb");
    reveal_strlit("linear-rec2020");
    reveal_strlit("rec2020");
    reveal_strlit("rec.2020");
    reveal_strlit("bt2020");
    reveal_strlit("linear-prophoto");
    reveal_strlit("linear-prophoto-rgb");
    reveal_strlit("prophoto");
    reveal_strlit("prophoto-rgb");
    reveal_strlit("linear-aces");
    reveal_strlit("aces");
    reveal_strlit("aces2065");
    reveal_strlit("aces-ap0");
    reveal_strlit("linear-acescg");
    reveal_strlit("acescg");
    reveal_strlit("aces-ap1");
    let k = trimmed(value);
    lemma_lowers_to_one_name(k);
    if 0 <= i < working_aliases(id).len() && lowers_to(k, working_aliases(id)[i]) {
        match id {
            WorkingSpaceId::LinearSRgb => {
                if i == 0 {
                    assert(lowers_to(k, "linear-srgb"@));
                } else if i == 1 {
                    assert(lowers_to(k, "srgb"@));
                } else if i == 2 {
                    assert(lowers_to(k, "linear-srgb-d65"@));
                }
            },
            WorkingSpaceId::LinearDisplayP3 => {
                if i == 0 {
                    assert(lowers_to(k, "linear-display-p3"@));
                } else if i == 1 {
                    assert(lowers_to(k, "display-p3"@));
                } else if i == 2 {
                    assert(lowers_to(k, "p3"@));
                }
            },
            WorkingSpaceId::LinearAdobeRgb => {
                if i == 0 {
                    assert(lowers_to(k, "linear-adobe-rgb"@));
                } else if i == 1 {
                    assert(lowers_to(k, "adobe-rgb"@));
                } else if i == 2 {
                    assert(lowers_to(k, "adobe-rgb-1998"@));
                } else if i == 3 {
                    assert(lowers_to(k, "adobergb"@));
                }
            },
            WorkingSpaceId::LinearRec2020 => {
                if i == 0 {
                    assert(lowers_to(k, "linear-rec2020"@));
                    if lowers_to(k, "adobe-rgb-1998"@) {
                        assert(ascii_lower(k[0]) == "linear-rec2020"@[0]);
                        assert(ascii_lower(k[0]) == "adobe-rgb-1998"@[0]);
                    }
                } else if i == 1 {
                    assert(lowers_to(k, "rec2020"@));
                } else if i == 2 {
                    assert(lowers_to(k, "rec.2020"@));
                    if lowers_to(k, "adobergb"@) {
                        assert(ascii_lower(k[0]) == "rec.2020"@[0]);
                        assert(ascii_lower(k[0]) == "adobergb"@[0]);
                    }
                } else if i == 3 {
                    assert(lowers_to(k, "bt2020"@));
                }
            },
            WorkingSpaceId::LinearProPhotoRgb => {
                if i == 0 {
                    assert(lowers_to(k, "linear-prophoto"@));
                    if lowers_to(k, "linear-srgb-d65"@) {
                        assert(ascii_lower(k[7]) == "linear-prophoto"@[7]);
                        assert(ascii_lower(k[7]) == "linear-srgb-d65"@[7]);
                    }
                } else if i == 1 {
                    assert(lowers_to(k, "linear-prophoto-rgb"@));
                } else if i == 2 {
                    assert(lowers_to(k, "prophoto"@));
                    if lowers_to(k, "adobergb"@) {
                        assert(ascii_lower(k[0]) == "prophoto"@[0]);
                        assert(ascii_lower(k[0]) == "adobergb"@[0]);
                    }
                    if lowers_to(k, "rec.2020"@) {
                        assert(ascii_lower(k[0]) == "prophoto"@[0]);
                        assert(ascii_lower(k[0]) == "rec.2020"@[0]);
                    }
                } else if i == 3 {
                    assert(lowers_to(k, "prophoto-rgb"@));
                }
            },
            WorkingSpaceId::LinearAces => {
                if i == 0 {
                    assert(lowers_to(k, "linear-aces"@));
                    if lowers_to(k, "linear-srgb"@) {
                        assert(ascii_lower(k[7]) == "linear-aces"@[7]);
                        assert(ascii_lower(k[7]) == "linear-srgb"@[7]);
                    }
                } else if i == 1 {
                    assert(lowers_to(k, "aces"@));
                    if lowers_to(k, "srgb"@) {
                        assert(ascii_lower(k[0]) == "aces"@[0]);
                        assert(ascii_lower(k[0]) == "srgb"@[0]);
                    }
                } else if i == 2 {
                    assert(lowers_to(k, "aces2065"@));
                    if lowers_to(k, "adobergb"@) {
                        assert(ascii_lower(k[1]) == "aces2065"@[1]);
                        assert(ascii_lower(k[1]) == "adobergb"@[1]);
                    }
                    if lowers_to(k, "rec.2020"@) {
                        assert(ascii_lower(k[0]) == "aces2065"@[0]);
                        assert(ascii_lower(k[0]) == "rec.2020"@[0]);
                    }
                    if lowers_to(k, "prophoto"@) {
                        assert(ascii_lower(k[0]) == "aces2065"@[0]);
                        assert(ascii_lower(k[0]) == "prophoto"@[0]);
                    }
                } else if i == 3 {
                    assert(lowers_to(k, "aces-ap0"@));
                    if lowers_to(k, "adobergb"@) {
                        assert(ascii_lower(k[1]) == "aces-ap0"@[1]);
                        assert(ascii_lower(k[1]) == "adobergb"@[1]);
                    }
                    if lowers_to(k, "rec.2020"@) {
                        assert(ascii_lower(k[0]) == "aces-ap0"@[0]);
                        assert(ascii_lower(k[0]) == "rec.2020"@[0]);
                    }
                    if lowers_to(k, "prophoto"@) {
                        assert(ascii_lower(k[0]) == "aces-ap0"@[0]);
                        assert(ascii_lower(k[0]) == "prophoto"@[0]);
                    }
                }
            },
            WorkingSpaceId::LinearAcesCg => {
                if i == 0 {
                    assert(lowers_to(k, "linear-acescg"@));
                } else if i == 1 {
                    assert(lowers_to(k, "acescg"@));
                    if lowers_to(k, "bt2020"@) {
                        assert(ascii_lower(k[0]) == "acescg"@[0]);
                        assert(ascii_lower(k[0]) == "bt2020"@[0]);
                    }
                } else if i == 2 {
                    assert(lowers_to(k, "aces-ap1"@));
                    if lowers_to(k, "adobergb"@) {
                        assert(ascii_lower(k[1]) == "aces-ap1"@[1]);
                        assert(ascii_lower(k[1]) == "adobergb"@[1]);
                    }
                    if lowers_to(k, "rec.2020"@) {
                        assert(ascii_lower(k[0]) == "aces-ap1"@[0]);
                        assert(ascii_lower(k[0]) == "rec.2020"@[0]);
                    }
                    if lowers_to(k, "prophoto"@) {
                        assert(ascii_lower(k[0]) == "aces-ap1"@[0]);
                        assert(ascii_lower(k[0]) == "prophoto"@[0]);
                    }
                    if lowers_to(k, "aces2065"@) {
                        assert(ascii_lower(k[4]) == "aces-ap1"@[4]);
                        assert(ascii_lower(k[4]) == "aces2065"@[4]);
                    }
                    if lowers_to(k, "aces-ap0"@) {
                        assert(ascii_lower(k[7]) == "aces-ap1"@[7]);
                        assert(ascii_lower(k[7]) == "aces-ap0"@[7]);
                    }
                }
            },
        }
    }
    if spec_parse_working_space(value) == Some(id) {
        let al = working_aliases(id);
        if lowers_to(k, al[0]) {
        } else if lowers_to(k, al[1]) {
        } else if lowers_to(k, al[2]) {
        } else {
            assert(lowers_to(k, al[3]));
        }
    }
}

/// `needle` is one of the texts that name the space `id` in a profile.
pub open spec fn is_space_name(needle: Seq<char>, id: ColorSpaceId) -> bool {
    ||| (needle == "acescg"@ && id == ColorSpaceId::AcesCg)
    ||| (needle == "aces2065"@ && id == ColorSpaceId::Aces2065)
    ||| (needle == "displayp3"@ && id == ColorSpaceId::DisplayP3)
    ||| (needle == "display p3"@ && id == ColorSpaceId::DisplayP3)
    ||| (needle == "adobergb"@ && id == ColorSpaceId::AdobeRgb)
    ||| (needle == "adobe rgb"@ && id == ColorSpaceId::AdobeRgb)
    ||| (needle == "rec2020"@ && id == ColorSpaceId::Rec2020)
    ||| (needle == "rec.2020"@ && id == ColorSpaceId::Rec2020)
    ||| (needle == "bt.2020"@ && id == ColorSpaceId::Rec2020)
    ||| (needle == "2020"@ && id == ColorSpaceId::Rec2020)
    ||| (needle == "prophoto"@ && id == ColorSpaceId::ProPhotoRgb)
    ||| (needle == "romm"@ && id == ColorSpaceId::ProPhotoRgb)
    ||| (needle == "srgb"@ && id == ColorSpaceId::SRgb)
}

/// A profile, marked by its signature, that carries one of the names of a
/// space and none of the names the search tries first is identified as that
/// space; so is one carrying both "aces" and "ap0" and not "acescg".
pub proof fn law_named_profiles_are_identified(icc: Seq<u8>, needle: Seq<char>, id: ColorSpaceId)
    ensures
        has_profile_signature(icc) && is_space_name(needle, id) && contains_text(searchable(icc), needle)
            && !names_rank_before(searchable(icc), id) ==> spec_identify_icc_profile(icc) == Some(id),
        has_profile_signature(icc) && contains_text(searchable(icc), "aces"@) && contains_text(searchable(icc), "ap0"@)
            && !contains_text(searchable(icc), "acescg"@) ==> spec_identify_icc_profile(icc) == Some(
            ColorSpaceId::Aces2065,
        ),
{
}

/// A payload without the profile signature, or carrying none of the names
/// of any space (and not both "aces" and "ap0"), is not identified.
pub proof fn law_unnamed_profiles_are_not_identified(icc: Seq<u8>)
    ensures
        !has_profile_signature(icc) ==> spec_identify_icc_profile(icc) is None,
        (forall|needle: Seq<char>, id: ColorSpaceId| #[trigger] is_space_name(needle, id) ==> !contains_text(
            searchable(icc),
            needle,
        )) && !(contains_text(searchable(icc), "aces"@) && contains_text(searchable(icc), "ap0"@))
            ==> spec_identify_icc_profile(icc) is None,
{
    if forall|needle: Seq<char>, id: ColorSpaceId| #[trigger] is_space_name(needle, id) ==> !contains_text(
        searchable(icc),
        needle,
    ) {
        assert(is_space_name("acescg"@, ColorSpaceId::AcesCg));
        assert(is_space_name("aces2065"@, ColorSpaceId::Aces2065));
        assert(is_space_name("displayp3"@, ColorSpaceId::DisplayP3));
        assert(is_space_name("display p3"@, ColorSpaceId::DisplayP3));
        assert(is_space_name("adobergb"@, ColorSpaceId::AdobeRgb));
        assert(is_space_name("adobe rgb"@, ColorSpaceId::AdobeRgb));
        assert(is_space_name("rec2020"@, ColorSpaceId::Rec2020));
        assert(is_space_name("rec.2020"@, ColorSpaceId::Rec2020));
        assert(is_space_name("bt.2020"@, ColorSpaceId::Rec2020));
        assert(is_space_name("2020"@, ColorSpaceId::Rec2020));
        assert(is_space_name("prophoto"@, ColorSpaceId::ProPhotoRgb));
        assert(is_space_name("romm"@, ColorSpaceId::ProPhotoRgb));
        assert(is_space_name("srgb"@, ColorSpaceId::SRgb));
    }
}

} // verus!
