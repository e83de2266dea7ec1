//! Minimal DNG (TIFF/EP) writer for exported scans.
//!
//! Two shapes are emitted: a mosaic DNG that re-wraps the camera RAW CFA
//! samples unchanged, and a LinearRaw DNG that carries a developed positive as
//! linear 16-bit RGB. Only classic (32-bit offset) little-endian TIFF with a
//! single IFD and a single strip is produced; tags are written in ascending
//! order.
use vstd::prelude::*;
use crate::raw_backend::{CfaPattern, rgb_plane, spec_bayer_raw_channel};

verus! {

pub const TYPE_BYTE: u16 = 1;
pub const TYPE_ASCII: u16 = 2;
pub const TYPE_SHORT: u16 = 3;
pub const TYPE_LONG: u16 = 4;
pub const TYPE_RATIONAL: u16 = 5;
pub const TYPE_UNDEFINED: u16 = 7;
pub const TYPE_SRATIONAL: u16 = 10;

pub const PHOTOMETRIC_CFA: u16 = 32803;
pub const PHOTOMETRIC_LINEAR_RAW: u16 = 34892;

/// DNG `CalibrationIlluminant` codes used by the exported files.
pub const ILLUMINANT_D65: u16 = 21;
pub const ILLUMINANT_D50: u16 = 23;

/// Rational denominator for colour matrices and levels.
pub const MATRIX_DENOMINATOR: u32 = 10_000;

/// Little-endian bytes of a 16-bit value.
pub open spec fn le16(x: u16) -> Seq<u8> {
    seq![(x % 256) as u8, (x / 256) as u8]
}

/// Little-endian bytes of a 32-bit value.
pub open spec fn le32(x: u32) -> Seq<u8> {
    seq![(x % 256) as u8, ((x / 256) % 256) as u8, ((x / 65536) % 256) as u8, (x / 16777216) as u8]
}

/// Little-endian bytes of every value of a sequence, in order.
pub open spec fn le16_all(s: Seq<u16>) -> Seq<u8>
    decreases s.len(),
{
    if s.len() == 0 { Seq::empty() } else { le16_all(s.drop_last()) + le16(s.last()) }
}

/// Little-endian bytes of every value of a sequence, in order.
pub open spec fn le32_all(s: Seq<u32>) -> Seq<u8>
    decreases s.len(),
{
    if s.len() == 0 { Seq::empty() } else { le32_all(s.drop_last()) + le32(s.last()) }
}

pub fn push_le16(out: &mut Vec<u8>, x: u16)
    ensures
        final(out)@ == old(out)@ + le16(x),
{
    out.push((x & 0xff) as u8);
    out.push((x >> 8) as u8);
    assert((x & 0xff) as u8 == (x % 256) as u8 && (x >> 8) as u8 == (x / 256) as u8) by (bit_vector);
    assert(final(out)@ =~= old(out)@ + le16(x));
}

pub fn push_le32(out: &mut Vec<u8>, x: u32)
    ensures
        final(out)@ == old(out)@ + le32(x),
{
    out.push((x & 0xff) as u8);
    out.push(((x >> 8) & 0xff) as u8);
    out.push(((x >> 16) & 0xff) as u8);
    out.push((x >> 24) as u8);
    assert((x & 0xff) as u8 == (x % 256) as u8 && ((x >> 8) & 0xff) as u8 == ((x / 256) % 256) as u8
        && ((x >> 16) & 0xff) as u8 == ((x / 65536) % 256) as u8 && (x >> 24) as u8 == (x / 16777216)
        as u8) by (bit_vector);
    assert(final(out)@ =~= old(out)@ + le32(x));
}

/// TIFF orientation for a LibRaw `flip` value.
pub open spec fn spec_tiff_orientation(libraw_flip: u16) -> u16 {
    let f = libraw_flip % 8;
    if f == 1 { 2 } else if f == 2 { 4 } else if f == 3 { 3 } else if f == 4 { 5 }
    else if f == 5 { 8 } else if f == 6 { 6 } else if f == 7 { 7 } else { 1 }
}

/// TIFF orientation that displays the stored mosaic the way LibRaw reads it.
/// The table is the inverse of LibRaw's own `Orientation` parsing.
pub fn tiff_orientation(libraw_flip: u16) -> (orientation: u16)
    ensures
        orientation == spec_tiff_orientation(libraw_flip),
{
    assert(libraw_flip & 7 == libraw_flip % 8) by (bit_vector);
    let low = libraw_flip & 7;
    match low {
        1 => 2,
        2 => 4,
        3 => 3,
        4 => 5,
        5 => 8,
        6 => 6,
        7 => 7,
        _ => 1,
    }
}

/// The `flip` LibRaw's parser reads from a TIFF `Orientation` value.
pub open spec fn libraw_parsed_flip(orientation: u16) -> u16 {
    seq![5u16, 0u16, 1u16, 3u16, 2u16, 4u16, 6u16, 7u16][(orientation % 8) as int]
}

/// The orientation written for a capture reads back, through LibRaw's own
/// parsing, as the capture's flip (its low three bits).
pub proof fn law_written_orientation_reads_back_as_the_flip(libraw_flip: u16)
    ensures
        libraw_parsed_flip(spec_tiff_orientation(libraw_flip)) == libraw_flip % 8,
{
}

/// A TIFF tag value.
#[derive(Clone, Debug, PartialEq, Eq)]
pub enum Value {
    Byte(Vec<u8>),
    Ascii(String),
    Short(Vec<u16>),
    Long(Vec<u32>),
    Rational(Vec<[u32; 2]>),
    SRational(Vec<[i32; 2]>),
    Undefined(Vec<u8>),
}

/// The mathematical content of a TIFF tag value.
pub enum TagValue {
    Byte(Seq<u8>),
    Ascii(Seq<char>),
    Short(Seq<u16>),
    Long(Seq<u32>),
    Rational(Seq<(u32, u32)>),
    SRational(Seq<(i32, i32)>),
    Undefined(Seq<u8>),
}

impl View for Value {
    type V = TagValue;

    open spec fn view(&self) -> TagValue {
        match self {
            Value::Byte(b) => TagValue::Byte(b@),
            Value::Ascii(s) => TagValue::Ascii(s@),
            Value::Short(x) => TagValue::Short(x@),
            Value::Long(x) => TagValue::Long(x@),
            Value::Rational(x) => TagValue::Rational(x@.map_values(|p: [u32; 2]| (p[0], p[1]))),
            Value::SRational(x) => TagValue::SRational(x@.map_values(|p: [i32; 2]| (p[0], p[1]))),
            Value::Undefined(b) => TagValue::Undefined(b@),
        }
    }
}

/// Numerator then denominator of every rational, little endian.
pub open spec fn rational_all(s: Seq<(u32, u32)>) -> Seq<u8>
    decreases s.len(),
{
    if s.len() == 0 {
        Seq::empty()
    } else {
        rational_all(s.drop_last()) + le32(s.last().0) + le32(s.last().1)
    }
}

/// Numerator then denominator of every signed rational, two's complement,
/// little endian.
pub open spec fn srational_all(s: Seq<(i32, i32)>) -> Seq<u8>
    decreases s.len(),
{
    if s.len() == 0 {
        Seq::empty()
    } else {
        srational_all(s.drop_last()) + le32(s.last().0 as u32) + le32(s.last().1 as u32)
    }
}

/// The TIFF field type of a value.
pub open spec fn spec_type_code(v: TagValue) -> u16 {
    match v {
        TagValue::Byte(_) => TYPE_BYTE,
        TagValue::Ascii(_) => TYPE_ASCII,
        TagValue::Short(_) => TYPE_SHORT,
        TagValue::Long(_) => TYPE_LONG,
        TagValue::Rational(_) => TYPE_RATIONAL,
        TagValue::SRational(_) => TYPE_SRATIONAL,
        TagValue::Undefined(_) => TYPE_UNDEFINED,
    }
}

/// The UTF-8 bytes of a string.
pub open spec fn utf8_bytes(s: Seq<char>) -> Seq<u8> {
    vstd::utf8::encode_utf8(s)
}

/// `x + 1`, wrapping at 32 bits.
pub open spec fn wrapping_succ(x: u32) -> u32 {
    if x == u32::MAX { 0 } else { (x + 1) as u32 }
}

/// A length as a TIFF count, truncated to 32 bits as the writer does.
pub open spec fn count_of(len: nat) -> u32 {
    (len as usize) as u32
}

/// The TIFF value count: elements, or bytes including the terminating NUL for
/// ASCII.
pub open spec fn spec_count(v: TagValue) -> u32 {
    match v {
        TagValue::Byte(b) => count_of(b.len()),
        TagValue::Ascii(s) => wrapping_succ(count_of(utf8_bytes(s).len())),
        TagValue::Short(x) => count_of(x.len()),
        TagValue::Long(x) => count_of(x.len()),
        TagValue::Rational(x) => count_of(x.len()),
        TagValue::SRational(x) => count_of(x.len()),
        TagValue::Undefined(b) => count_of(b.len()),
    }
}

/// The payload of a value in file byte order; ASCII is NUL terminated.
pub open spec fn spec_value_bytes(v: TagValue) -> Seq<u8> {
    match v {
        TagValue::Byte(b) => b,
        TagValue::Ascii(s) => utf8_bytes(s).push(0u8),
        TagValue::Short(x) => le16_all(x),
        TagValue::Long(x) => le32_all(x),
        TagValue::Rational(x) => rational_all(x),
        TagValue::SRational(x) => srational_all(x),
        TagValue::Undefined(b) => b,
    }
}

fn copy_bytes(out: &mut Vec<u8>, src: &[u8])
    ensures
        final(out)@ == old(out)@ + src@,
{
    let ghost start = out@;
    let mut i: usize = 0;
    while i < src.len()
        invariant
            i <= src.len(),
            out@ == start + src@.subrange(0, i as int),
        decreases src.len() - i,
    {
        out.push(src[i]);
        i = i + 1;
        assert(out@ =~= start + src@.subrange(0, i as int));
    }
    assert(src@.subrange(0, src@.len() as int) =~= src@);
}

impl Value {
    pub fn type_code(&self) -> (code: u16)
        ensures
            code == spec_type_code(self@),
    {
        match self {
            Value::Byte(_) => TYPE_BYTE,
            Value::Ascii(_) => TYPE_ASCII,
            Value::Short(_) => TYPE_SHORT,
            Value::Long(_) => TYPE_LONG,
            Value::Rational(_) => TYPE_RATIONAL,
            Value::SRational(_) => TYPE_SRATIONAL,
            Value::Undefined(_) => TYPE_UNDEFINED,
        }
    }

    pub fn count(&self) -> (count: u32)
        ensures
            count == spec_count(self@),
    {
        match self {
            Value::Byte(values) => values.len() as u32,
            Value::Ascii(value) => {
                let n = value.as_str().as_bytes().len();
                (n as u32).wrapping_add(1)
            },
            Value::Short(values) => values.len() as u32,
            Value::Long(values) => values.len() as u32,
            Value::Rational(values) => values.len() as u32,
            Value::SRational(values) => values.len() as u32,
            Value::Undefined(values) => values.len() as u32,
        }
    }

    /// Tag payload in file byte order. ASCII values are NUL terminated here so
    /// the stored byte count always matches `count()`.
    pub fn bytes(&self) -> (bytes: Vec<u8>)
        ensures
            bytes@ == spec_value_bytes(self@),
    {
        let mut out: Vec<u8> = Vec::new();
        match self {
            Value::Byte(values) => copy_bytes(&mut out, values.as_slice()),
            Value::Undefined(values) => copy_bytes(&mut out, values.as_slice()),
            Value::Ascii(value) => {
                copy_bytes(&mut out, value.as_str().as_bytes());
                out.push(0);
            },
            Value::Short(values) => {
                let mut i: usize = 0;
                while i < values.len()
                    invariant
                        i <= values.len(),
                        out@ == le16_all(values@.subrange(0, i as int)),
                    decreases values.len() - i,
                {
                    push_le16(&mut out, values[i]);
                    assert(values@.subrange(0, i + 1).drop_last() =~= values@.subrange(0, i as int));
                    i = i + 1;
                }
                assert(values@.subrange(0, values.len() as int) =~= values@);
            },
            Value::Long(values) => {
                let mut i: usize = 0;
                while i < values.len()
                    invariant
                        i <= values.len(),
                        out@ == le32_all(values@.subrange(0, i as int)),
                    decreases values.len() - i,
                {
                    push_le32(&mut out, values[i]);
                    assert(values@.subrange(0, i + 1).drop_last() =~= values@.subrange(0, i as int));
                    i = i + 1;
                }
                assert(values@.subrange(0, values.len() as int) =~= values@);
            },
            Value::Rational(values) => {
                let mut i: usize = 0;
                while i < values.len()
                    invariant
                        i <= values.len(),
                        out@ == rational_all(values@.subrange(0, i as int).map_values(|p: [u32; 2]| (p[0], p[1]))),
                    decreases values.len() - i,
                {
                    let pair = values[i];
                    push_le32(&mut out, pair[0]);
                    push_le32(&mut out, pair[1]);
                    let ghost next = values@.subrange(0, i + 1).map_values(|p: [u32; 2]| (p[0], p[1]));
                    assert(next.drop_last() =~= values@.subrange(0, i as int).map_values(
                        |p: [u32; 2]| (p[0], p[1])));
                    assert(next.last() == (pair[0], pair[1]));
                    i = i + 1;
                }
                assert(values@.subrange(0, values.len() as int) =~= values@);
            },
            Value::SRational(values) => {
                let mut i: usize = 0;
                while i < values.len()
                    invariant
                        i <= values.len(),
                        out@ == srational_all(values@.subrange(0, i as int).map_values(|p: [i32; 2]| (p[0], p[1]))),
                    decreases values.len() - i,
                {
                    let pair = values[i];
                    push_le32(&mut out, #[verifier::truncate] (pair[0] as u32));
                    push_le32(&mut out, #[verifier::truncate] (pair[1] as u32));
                    let ghost next = values@.subrange(0, i + 1).map_values(|p: [i32; 2]| (p[0], p[1]));
                    assert(next.drop_last() =~= values@.subrange(0, i as int).map_values(
                        |p: [i32; 2]| (p[0], p[1])));
                    assert(next.last() == (pair[0], pair[1]));
                    i = i + 1;
                }
                assert(values@.subrange(0, values.len() as int) =~= values@);
            },
        }
        out
    }
}

/// `value` rounded up to a multiple of four.
pub open spec fn spec_align4(value: int) -> int {
    if value % 4 == 0 { value } else { value + (4 - value % 4) }
}

pub fn align4(value: usize) -> (aligned: usize)
    requires
        value + 3 <= usize::MAX,
    ensures
        aligned == spec_align4(value as int),
{
    let rest = value % 4;
    if rest == 0 {
        value
    } else {
        value + (4 - rest)
    }
}

/// No two entries carry the same tag.
pub open spec fn tags_distinct(s: Seq<(u16, Value)>) -> bool {
    forall|i: int, j: int| 0 <= i < s.len() && 0 <= j < s.len() && i != j ==> s[i].0 != s[j].0
}

/// Tags strictly ascend.
pub open spec fn tags_ascending(s: Seq<(u16, Value)>) -> bool {
    forall|i: int, j: int| 0 <= i < j < s.len() ==> s[i].0 < s[j].0
}

/// `a` is an arrangement of exactly the entries of `b`.
pub open spec fn same_entries(a: Seq<(u16, Value)>, b: Seq<(u16, Value)>) -> bool {
    &&& a.len() == b.len()
    &&& drawn_from(a, b, 0)
    &&& covers(a, b, 0)
}

/// Insert an entry whose tag is not yet present, keeping tags ascending.
fn insert_by_tag(sorted: &mut Vec<(u16, Value)>, entry: (u16, Value)) -> (p: usize)
    requires
        tags_ascending(old(sorted)@),
        forall|j: int| 0 <= j < old(sorted)@.len() ==> #[trigger] old(sorted)@[j].0 != entry.0,
    ensures
        p <= old(sorted)@.len(),
        final(sorted)@ == old(sorted)@.insert(p as int, entry),
        tags_ascending(final(sorted)@),
{
    let tag = entry.0;
    let mut p: usize = 0;
    while p < sorted.len() && sorted[p].0 < tag
        invariant
            p <= sorted@.len(),
            forall|j: int| 0 <= j < p ==> #[trigger] sorted@[j].0 < tag,
        decreases sorted@.len() - p,
    {
        p = p + 1;
    }
    let ghost before = sorted@;
    sorted.insert(p, entry);
    assert forall|i: int, j: int| 0 <= i < j < sorted@.len() implies sorted@[i].0 < sorted@[j].0 by {
        if j < p {
        } else if j == p {
        } else if i < p {
            assert(sorted@[j] == before[j - 1]);
        } else if i == p {
            assert(sorted@[j] == before[j - 1]);
            if j - 1 > p {
                assert(before[p as int].0 < before[j - 1].0);
            }
        } else {
            assert(sorted@[i] == before[i - 1]);
            assert(sorted@[j] == before[j - 1]);
        }
    }
    p
}

/// Every entry of `sorted` is an entry of `orig` at an index of at least `from`.
#[verifier::opaque]
pub open spec fn drawn_from(sorted: Seq<(u16, Value)>, orig: Seq<(u16, Value)>, from: int) -> bool {
    forall|i: int| 0 <= i < sorted.len() ==> exists|j: int|
        from <= j < orig.len() && #[trigger] sorted[i] == orig[j]
}

/// Every entry of `orig` at an index of at least `from` is in `sorted`.
#[verifier::opaque]
pub open spec fn covers(sorted: Seq<(u16, Value)>, orig: Seq<(u16, Value)>, from: int) -> bool {
    forall|j: int| from <= j < orig.len() ==> exists|i: int|
        0 <= i < sorted.len() && sorted[i] == #[trigger] orig[j]
}

proof fn lemma_tag_is_new(sorted: Seq<(u16, Value)>, orig: Seq<(u16, Value)>, k: int)
    requires
        tags_distinct(orig),
        0 <= k < orig.len(),
        drawn_from(sorted, orig, k + 1),
    ensures
        forall|j: int| 0 <= j < sorted.len() ==> #[trigger] sorted[j].0 != orig[k].0,
{
    reveal(drawn_from);
    assert forall|j: int| 0 <= j < sorted.len() implies #[trigger] sorted[j].0 != orig[k].0 by {
        let w = choose|w: int| k + 1 <= w < orig.len() && sorted[j] == orig[w];
    }
}

proof fn lemma_insert_drawn_from(
    before: Seq<(u16, Value)>,
    p: int,
    orig: Seq<(u16, Value)>,
    k: int,
)
    requires
        0 <= p <= before.len(),
        0 <= k < orig.len(),
        drawn_from(before, orig, k + 1),
    ensures
        drawn_from(before.insert(p, orig[k]), orig, k),
{
    reveal(drawn_from);
    let after = before.insert(p, orig[k]);
    assert forall|i: int| 0 <= i < after.len() implies exists|j: int|
        k <= j < orig.len() && #[trigger] after[i] == orig[j] by {
        if i < p {
            let j = choose|j: int| k + 1 <= j < orig.len() && before[i] == orig[j];
            assert(after[i] == orig[j]);
        } else if i == p {
            assert(after[i] == orig[k]);
        } else {
            let j = choose|j: int| k + 1 <= j < orig.len() && before[i - 1] == orig[j];
            assert(after[i] == orig[j]);
        }
    }
}

proof fn lemma_insert_covers(
    before: Seq<(u16, Value)>,
    p: int,
    orig: Seq<(u16, Value)>,
    k: int,
)
    requires
        0 <= p <= before.len(),
        0 <= k < orig.len(),
        covers(before, orig, k + 1),
    ensures
        covers(before.insert(p, orig[k]), orig, k),
{
    reveal(covers);
    let after = before.insert(p, orig[k]);
    assert forall|j: int| k <= j < orig.len() implies exists|i: int|
        0 <= i < after.len() && after[i] == #[trigger] orig[j] by {
        if j == k {
            assert(after[p] == orig[j]);
        } else {
            let i0 = choose|i0: int| 0 <= i0 < before.len() && before[i0] == orig[j];
            if i0 < p {
                assert(after[i0] == orig[j]);
            } else {
                assert(after[i0 + 1] == orig[j]);
            }
        }
    }
}

/// Arrange entries by ascending tag.
fn sort_entries(entries: Vec<(u16, Value)>) -> (sorted: Vec<(u16, Value)>)
    requires
        tags_distinct(entries@),
    ensures
        tags_ascending(sorted@),
        same_entries(sorted@, entries@),
{
    let ghost orig = entries@;
    let mut rest = entries;
    let mut sorted: Vec<(u16, Value)> = Vec::new();
    assert(drawn_from(sorted@, orig, orig.len() as int)) by {
        reveal(drawn_from);
    }
    assert(covers(sorted@, orig, orig.len() as int)) by {
        reveal(covers);
    }
    while rest.len() > 0
        invariant
            tags_distinct(orig),
            rest@ == orig.subrange(0, rest@.len() as int),
            sorted@.len() + rest@.len() == orig.len(),
            tags_ascending(sorted@),
            drawn_from(sorted@, orig, rest@.len() as int),
            covers(sorted@, orig, rest@.len() as int),
        decreases rest@.len(),
    {
        let ghost k = (rest@.len() - 1) as int;
        let entry = rest.pop().unwrap();
        assert(entry == orig[k]);
        proof {
            lemma_tag_is_new(sorted@, orig, k);
        }
        let ghost before = sorted@;
        let p = insert_by_tag(&mut sorted, entry);
        proof {
            lemma_insert_drawn_from(before, p as int, orig, k);
            lemma_insert_covers(before, p as int, orig, k);
        }
    }
    assert(rest@.len() == 0);
    assert(drawn_from(sorted@, orig, 0));
    assert(covers(sorted@, orig, 0));
    assert(orig == entries@);
    sorted
}

proof fn lemma_le16_all_len(s: Seq<u16>)
    ensures
        le16_all(s).len() == 2 * s.len(),
    decreases s.len(),
{
    if s.len() > 0 {
        lemma_le16_all_len(s.drop_last());
    }
}

proof fn lemma_le32_all_len(s: Seq<u32>)
    ensures
        le32_all(s).len() == 4 * s.len(),
    decreases s.len(),
{
    if s.len() > 0 {
        lemma_le32_all_len(s.drop_last());
    }
}

proof fn lemma_rational_all_len(s: Seq<(u32, u32)>)
    ensures
        rational_all(s).len() == 8 * s.len(),
    decreases s.len(),
{
    if s.len() > 0 {
        lemma_rational_all_len(s.drop_last());
    }
}

proof fn lemma_srational_all_len(s: Seq<(i32, i32)>)
    ensures
        srational_all(s).len() == 8 * s.len(),
    decreases s.len(),
{
    if s.len() > 0 {
        lemma_srational_all_len(s.drop_last());
    }
}

/// Bytes per value of a TIFF field type.
pub open spec fn field_size(type_code: u16) -> int {
    if type_code == TYPE_BYTE || type_code == TYPE_ASCII || type_code == TYPE_UNDEFINED {
        1
    } else if type_code == TYPE_SHORT {
        2
    } else if type_code == TYPE_LONG {
        4
    } else if type_code == TYPE_RATIONAL || type_code == TYPE_SRATIONAL {
        8
    } else {
        0
    }
}

/// The bytes a value stores always match its declared count: the count
/// times the size of its field type, ASCII text counting its terminating
/// NUL. It holds for every payload whose length fits a 32-bit count.
pub proof fn law_stored_bytes_match_the_count(v: TagValue)
    requires
        spec_value_bytes(v).len() <= u32::MAX,
    ensures
        spec_value_bytes(v).len() == spec_count(v) * field_size(spec_type_code(v)),
{
    match v {
        TagValue::Ascii(text) => {
            lemma_count_of_small(utf8_bytes(text).len());
        },
        TagValue::Short(x) => {
            lemma_le16_all_len(x);
            lemma_count_of_small(x.len());
        },
        TagValue::Long(x) => {
            lemma_le32_all_len(x);
            lemma_count_of_small(x.len());
        },
        TagValue::Rational(x) => {
            lemma_rational_all_len(x);
            lemma_count_of_small(x.len());
        },
        TagValue::SRational(x) => {
            lemma_srational_all_len(x);
            lemma_count_of_small(x.len());
        },
        TagValue::Byte(b) => {
            lemma_count_of_small(b.len());
        },
        TagValue::Undefined(b) => {
            lemma_count_of_small(b.len());
        },
    }
}

/// Payload length of every entry, in order.
pub open spec fn lens_of(s: Seq<(u16, Value)>) -> Seq<int> {
    s.map_values(|e: (u16, Value)| spec_value_bytes(e.1@).len() as int)
}

/// End of the directory: header, entry count, twelve bytes per entry and the
/// next-directory pointer.
pub open spec fn ifd_end(n: int) -> int {
    14 + 12 * n
}

/// Write position after the payloads of the first `k` entries were placed.
/// Payloads of more than four bytes are stored outside the directory, each
/// starting on a four-byte boundary and padded to one.
pub open spec fn cursor(lens: Seq<int>, k: int) -> int
    decreases k,
{
    if k <= 0 {
        ifd_end(lens.len() as int)
    } else {
        let c = cursor(lens, k - 1);
        if lens[k - 1] > 4 { spec_align4(c) + spec_align4(lens[k - 1]) } else { c }
    }
}

/// Where the out-of-line payload of entry `k` is stored.
pub open spec fn payload_offset(lens: Seq<int>, k: int) -> int {
    spec_align4(cursor(lens, k))
}

/// Where the strip data starts.
pub open spec fn data_offset(lens: Seq<int>) -> int {
    spec_align4(cursor(lens, lens.len() as int))
}

/// `n` zero bytes.
pub open spec fn zeros(n: int) -> Seq<u8> {
    Seq::new(n as nat, |i: int| 0u8)
}

/// The twelve directory bytes of one entry: tag, type, count, and either the
/// payload padded to four bytes or the offset of the payload.
pub open spec fn entry_bytes(tag: u16, v: TagValue, offset: int) -> Seq<u8> {
    let b = spec_value_bytes(v);
    le16(tag) + le16(spec_type_code(v)) + le32(spec_count(v)) + (if b.len() <= 4 {
        b + zeros(4 - b.len())
    } else {
        le32(offset as u32)
    })
}

/// The classic little-endian TIFF header pointing at a directory at offset 8.
pub open spec fn tiff_header() -> Seq<u8> {
    seq![0x49u8, 0x49u8] + le16(42) + le32(8)
}

/// The directory entries of the first `k` entries of `s`, in order.
pub open spec fn directory(s: Seq<(u16, Value)>, k: int) -> Seq<u8>
    decreases k,
{
    if k <= 0 {
        Seq::empty()
    } else {
        directory(s, k - 1) + entry_bytes(s[k - 1].0, s[k - 1].1@, payload_offset(lens_of(s), k - 1))
    }
}

/// The out-of-line payloads of the first `k` entries: each payload longer
/// than four bytes, preceded by zero padding up to a four-byte boundary and
/// followed by zero padding to a multiple of four bytes.
pub open spec fn payload_area(s: Seq<(u16, Value)>, k: int) -> Seq<u8>
    decreases k,
{
    if k <= 0 {
        Seq::empty()
    } else {
        let lens = lens_of(s);
        let c = cursor(lens, k - 1);
        let len = lens[k - 1];
        payload_area(s, k - 1) + if len > 4 {
            zeros(spec_align4(c) - c) + spec_value_bytes(s[k - 1].1@) + zeros(spec_align4(len) - len)
        } else {
            Seq::empty()
        }
    }
}

/// The bytes of a single-directory TIFF whose directory holds the entries `s`,
/// in that order: header, entry count, entries, a zero next-directory pointer,
/// the out-of-line payloads, zero padding to a four-byte boundary, and the strip.
pub open spec fn tiff_file(s: Seq<(u16, Value)>, strip: Seq<u8>) -> Seq<u8> {
    let n = s.len() as int;
    let lens = lens_of(s);
    tiff_header() + le16(n as u16) + directory(s, n) + zeros(4) + payload_area(s, n) + zeros(
        data_offset(lens) - cursor(lens, n),
    ) + strip
}

/// The entries as tag and value content.
pub open spec fn entries_model(s: Seq<(u16, Value)>) -> Seq<(u16, TagValue)> {
    s.map_values(|e: (u16, Value)| (e.0, e.1@))
}

/// `s` is the ascending arrangement of `entries` plus the strip tags: where
/// the strip starts (273), how many rows it holds (278) and its byte count
/// (279).
pub open spec fn is_tiff_arrangement(
    s: Seq<(u16, Value)>,
    entries: Seq<(u16, TagValue)>,
    rows: u32,
    strip_len: nat,
) -> bool {
    let lens = lens_of(s);
    &&& tags_ascending(s)
    &&& s.len() == entries.len() + 3
    &&& forall|i: int| 0 <= i < entries.len() ==> exists|k: int| 0 <= k < s.len()
        && s[k].0 == #[trigger] entries[i].0 && s[k].1@ == entries[i].1
    &&& exists|k: int| 0 <= k < s.len() && s[k].0 == 273 && s[k].1@ == TagValue::Long(
        seq![data_offset(lens) as u32])
    &&& exists|k: int| 0 <= k < s.len() && s[k].0 == 278 && s[k].1@ == TagValue::Long(seq![rows])
    &&& exists|k: int| 0 <= k < s.len() && s[k].0 == 279 && s[k].1@ == TagValue::Long(
        seq![count_of(strip_len)])
    &&& forall|k: int| #![trigger s[k]] 0 <= k < s.len() ==> s[k].0 == 273 || s[k].0 == 278 || s[k].0 == 279
        || exists|i: int| 0 <= i < entries.len() && #[trigger] entries[i] == (s[k].0, s[k].1@)
}

/// `out` is a classic TIFF file with one directory holding `entries` and the
/// strip tags, and one strip holding `strip`.
pub open spec fn is_tiff_of(
    out: Seq<u8>,
    entries: Seq<(u16, TagValue)>,
    rows: u32,
    strip: Seq<u8>,
) -> bool {
    exists|s: Seq<(u16, Value)>| is_tiff_arrangement(s, entries, rows, strip.len())
        && out == tiff_file(s, strip)
}

/// The directory fits the format: a 16-bit entry count, and 32-bit byte counts
/// for every payload and for the strip.
pub open spec fn fits_classic_tiff(entries: Seq<(u16, Value)>, strip_len: nat) -> bool {
    &&& entries.len() + 3 <= 0xffff
    &&& forall|i: int| 0 <= i < entries.len() ==> spec_value_bytes(#[trigger] entries[i].1@).len()
        <= u32::MAX
    &&& strip_len <= u32::MAX
}

fn push_zeros(out: &mut Vec<u8>, count: usize)
    ensures
        final(out)@ == old(out)@ + zeros(count as int),
{
    let ghost start = out@;
    let mut i: usize = 0;
    while i < count
        invariant
            i <= count,
            out@ == start + zeros(i as int),
        decreases count - i,
    {
        out.push(0);
        i = i + 1;
        assert(out@ =~= start + zeros(i as int));
    }
}

/// Payload lengths never exceed a 32-bit count.
pub open spec fn lens_bounded(lens: Seq<int>) -> bool {
    forall|i: int| 0 <= i < lens.len() ==> 0 <= #[trigger] lens[i] <= u32::MAX
}

proof fn lemma_cursor_bound(lens: Seq<int>, k: int)
    requires
        0 <= k <= lens.len(),
        lens_bounded(lens),
    ensures
        ifd_end(lens.len() as int) <= cursor(lens, k) <= ifd_end(lens.len() as int) + k * 0x1_0000_0007,
    decreases k,
{
    if k > 0 {
        lemma_cursor_bound(lens, k - 1);
        let l = lens[k - 1];
        assert(0 <= l <= u32::MAX);
    }
}

fn align4_u64(value: u64) -> (aligned: u64)
    requires
        value + 3 <= u64::MAX,
    ensures
        aligned == spec_align4(value as int),
{
    let rest = value % 4;
    if rest == 0 {
        value
    } else {
        value + (4 - rest)
    }
}

/// Compute where each out-of-line payload goes, and where the payload area
/// ends.
fn lay_out(s: &Vec<(u16, Value)>) -> (layout: (Vec<u64>, u64))
    requires
        s@.len() <= 0xffff,
        lens_bounded(lens_of(s@)),
    ensures
        layout.0@.len() == s@.len(),
        forall|k: int| 0 <= k < s@.len() ==> layout.0@[k] == payload_offset(lens_of(s@), k),
        layout.1 == cursor(lens_of(s@), s@.len() as int),
        layout.1 <= 0x1_0000_0000_0000,
{
    let ghost lens = lens_of(s@);
    let n = s.len();
    let mut offsets: Vec<u64> = Vec::new();
    let mut cur: u64 = 14 + 12 * (n as u64);
    let mut i: usize = 0;
    while i < n
        invariant
            n == s@.len(),
            n <= 0xffff,
            lens == lens_of(s@),
            lens_bounded(lens),
            i <= n,
            offsets@.len() == i,
            forall|k: int| 0 <= k < i ==> offsets@[k] == payload_offset(lens, k),
            cur == cursor(lens, i as int),
        decreases n - i,
    {
        proof {
            lemma_cursor_bound(lens, i as int);
            lemma_cursor_bound(lens, i + 1);
        }
        let bytes = s[i].1.bytes();
        assert(bytes@.len() == lens[i as int]);
        let at = align4_u64(cur);
        offsets.push(at);
        if bytes.len() > 4 {
            let len = bytes.len() as u64;
            let padded = align4_u64(len);
            cur = at + padded;
        }
        i = i + 1;
    }
    proof {
        lemma_cursor_bound(lens, n as int);
    }
    (offsets, cur)
}

/// Write the directory entries of `s`; `offsets` holds where each
/// out-of-line payload goes.
fn write_directory(out: &mut Vec<u8>, s: &Vec<(u16, Value)>, offsets: &Vec<u64>)
    requires
        offsets@.len() == s@.len(),
        forall|k: int| 0 <= k < s@.len() ==> offsets@[k] == payload_offset(lens_of(s@), k),
    ensures
        final(out)@ == old(out)@ + directory(s@, s@.len() as int),
{
    let ghost start = out@;
    let n = s.len();
    let mut i: usize = 0;
    while i < n
        invariant
            n == s@.len(),
            offsets@.len() == n,
            forall|k: int| 0 <= k < n ==> offsets@[k] == payload_offset(lens_of(s@), k),
            i <= n,
            out@ == start + directory(s@, i as int),
        decreases n - i,
    {
        let ghost before = out@;
        let tag = s[i].0;
        let value = &s[i].1;
        let bytes = value.bytes();
        push_le16(out, tag);
        push_le16(out, value.type_code());
        push_le32(out, value.count());
        if bytes.len() <= 4 {
            copy_bytes(out, bytes.as_slice());
            push_zeros(out, 4 - bytes.len());
        } else {
            push_le32(out, #[verifier::truncate] (offsets[i] as u32));
        }
        assert(out@ =~= before + entry_bytes(tag, value@, payload_offset(lens_of(s@), i as int)));
        i = i + 1;
        assert(out@ =~= start + directory(s@, i as int));
    }
}

/// Write the out-of-line payloads of `s`, starting right after the directory.
fn write_payloads(out: &mut Vec<u8>, s: &Vec<(u16, Value)>)
    requires
        old(out)@.len() == ifd_end(s@.len() as int),
        s@.len() <= 0xffff,
        lens_bounded(lens_of(s@)),
    ensures
        final(out)@ == old(out)@ + payload_area(s@, s@.len() as int),
        final(out)@.len() == cursor(lens_of(s@), s@.len() as int),
{
    let ghost start = out@;
    let ghost lens = lens_of(s@);
    let n = s.len();
    let mut i: usize = 0;
    while i < n
        invariant
            n == s@.len(),
            n <= 0xffff,
            lens == lens_of(s@),
            lens_bounded(lens),
            i <= n,
            out@ == start + payload_area(s@, i as int),
            out@.len() == cursor(lens, i as int),
        decreases n - i,
    {
        proof {
            lemma_cursor_bound(lens, i as int);
        }
        let ghost before = out@;
        let bytes = s[i].1.bytes();
        assert(bytes@.len() == lens[i as int]);
        if bytes.len() > 4 {
            let c = out.len();
            let lead = (4 - c % 4) % 4;
            push_zeros(out, lead);
            copy_bytes(out, bytes.as_slice());
            let tail = (4 - bytes.len() % 4) % 4;
            push_zeros(out, tail);
            assert(lead == spec_align4(c as int) - c);
            assert(tail == spec_align4(bytes@.len() as int) - bytes@.len());
            assert(out@ =~= before + (zeros(spec_align4(c as int) - c) + bytes@ + zeros(
                spec_align4(bytes@.len() as int) - bytes@.len())));
        } else {
            assert(out@ =~= before + Seq::<u8>::empty());
        }
        i = i + 1;
        assert(out@ =~= start + payload_area(s@, i as int));
    }
}


/// None of the tags is one of the strip tags the writer adds itself.
pub open spec fn has_no_strip_tags(entries: Seq<(u16, Value)>) -> bool {
    forall|i: int| 0 <= i < entries.len() ==> #[trigger] entries[i].0 != 273 && entries[i].0 != 278
        && entries[i].0 != 279
}

fn long_of(x: u32) -> (v: Value)
    ensures
        v@ == TagValue::Long(seq![x]),
{
    let mut values: Vec<u32> = Vec::new();
    values.push(x);
    assert(values@ =~= seq![x]);
    Value::Long(values)
}

proof fn lemma_long_len(x: u32)
    ensures
        spec_value_bytes(TagValue::Long(seq![x])).len() == 4,
{
    lemma_le32_all_len(seq![x]);
}

proof fn lemma_arranged_fits(s: Seq<(u16, Value)>, all: Seq<(u16, Value)>)
    requires
        drawn_from(s, all, 0),
        forall|i: int| 0 <= i < all.len() ==> spec_value_bytes(#[trigger] all[i].1@).len() <= u32::MAX,
    ensures
        lens_bounded(lens_of(s)),
{
    reveal(drawn_from);
    assert forall|i: int| 0 <= i < lens_of(s).len() implies 0 <= #[trigger] lens_of(s)[i] <= u32::MAX by {
        let j = choose|j: int| 0 <= j < all.len() && s[i] == all[j];
        assert(spec_value_bytes(all[j].1@).len() <= u32::MAX);
    }
}

/// Directory entries with the strip tags appended: a placeholder `StripOffsets`,
/// then `StripByteCounts` and `RowsPerStrip`.
pub open spec fn with_strip_tags(all: Seq<(u16, Value)>, input: Seq<(u16, Value)>, rows: u32, strip_len: nat) -> bool {
    &&& all.len() == input.len() + 3
    &&& forall|i: int| 0 <= i < input.len() ==> #[trigger] all[i] == input[i]
    &&& all[input.len() as int].0 == 273
    &&& all[input.len() as int].1@ == TagValue::Long(seq![0u32])
    &&& all[input.len() as int + 1].0 == 279
    &&& all[input.len() as int + 1].1@ == TagValue::Long(seq![count_of(strip_len)])
    &&& all[input.len() as int + 2].0 == 278
    &&& all[input.len() as int + 2].1@ == TagValue::Long(seq![rows])
}

proof fn lemma_placeholder_at(s: Seq<(u16, Value)>, all: Seq<(u16, Value)>, input: Seq<(u16, Value)>, p: int, rows: u32, strip_len: nat)
    requires
        drawn_from(s, all, 0),
        has_no_strip_tags(input),
        with_strip_tags(all, input, rows, strip_len),
        0 <= p < s.len(),
        s[p].0 == 273,
    ensures
        s[p] == all[input.len() as int],
{
    reveal(drawn_from);
    let n = input.len() as int;
    let jp = choose|j: int| 0 <= j < all.len() && s[p] == all[j];
    if jp < n {
        assert(all[jp] == input[jp]);
        assert(input[jp].0 != 273);
    }
}

proof fn lemma_found(s: Seq<(u16, Value)>, all: Seq<(u16, Value)>, i: int) -> (k: int)
    requires
        covers(s, all, 0),
        0 <= i < all.len(),
    ensures
        0 <= k < s.len(),
        s[k] == all[i],
{
    reveal(covers);
    choose|k: int| 0 <= k < s.len() && s[k] == all[i]
}

proof fn lemma_arrangement(
    s: Seq<(u16, Value)>,
    all: Seq<(u16, Value)>,
    input: Seq<(u16, Value)>,
    p: int,
    v: Value,
    rows: u32,
    strip_len: nat,
)
    requires
        tags_ascending(s),
        same_entries(s, all),
        has_no_strip_tags(input),
        with_strip_tags(all, input, rows, strip_len),
        0 <= p < s.len(),
        s[p].0 == 273,
        v@ == TagValue::Long(seq![data_offset(lens_of(s)) as u32]),
    ensures
        lens_of(s.update(p, (273u16, v))) == lens_of(s),
        is_tiff_arrangement(s.update(p, (273u16, v)), entries_model(input), rows, strip_len),
{
    let t = s.update(p, (273u16, v));
    let n = input.len() as int;
    lemma_placeholder_at(s, all, input, p, rows, strip_len);
    lemma_long_len(0u32);
    lemma_long_len(data_offset(lens_of(s)) as u32);
    assert(lens_of(t) =~= lens_of(s));
    let em = entries_model(input);
    assert forall|i: int| 0 <= i < em.len() implies exists|k: int| 0 <= k < t.len()
        && t[k].0 == #[trigger] em[i].0 && t[k].1@ == em[i].1 by {
        assert(all[i] == input[i]);
        assert(input[i].0 != 273);
        let k = lemma_found(s, all, i);
        assert(t[k] == s[k]);
    }
    let k9 = lemma_found(s, all, n + 1);
    assert(t[k9] == s[k9]);
    let k8 = lemma_found(s, all, n + 2);
    assert(t[k8] == s[k8]);
    assert(t[p].0 == 273);
    assert forall|i: int, j: int| 0 <= i < j < t.len() implies t[i].0 < t[j].0 by {
        assert(s[i].0 < s[j].0);
    }
    assert forall|k: int| #![trigger t[k]] 0 <= k < t.len() implies t[k].0 == 273 || t[k].0 == 278 || t[k].0
        == 279 || exists|i: int| 0 <= i < em.len() && #[trigger] em[i] == (t[k].0, t[k].1@) by {
        if k != p {
            reveal(drawn_from);
            let j = choose|j: int| 0 <= j < all.len() && #[trigger] s[k] == all[j];
            if j < n {
                assert(all[j] == input[j]);
                assert(em[j] == (t[k].0, t[k].1@));
            }
        }
    }
}

proof fn lemma_all_distinct(all: Seq<(u16, Value)>, input: Seq<(u16, Value)>, rows: u32, strip_len: nat)
    requires
        tags_distinct(input),
        has_no_strip_tags(input),
        with_strip_tags(all, input, rows, strip_len),
    ensures
        tags_distinct(all),
{
    let n = input.len() as int;
    assert forall|i: int, j: int| 0 <= i < all.len() && 0 <= j < all.len() && i != j implies all[i].0
        != all[j].0 by {
        if i < n {
            assert(all[i] == input[i]);
        }
        if j < n {
            assert(all[j] == input[j]);
        }
    }
}

/// Write a TIFF whose directory holds `s` in order, with the payload offsets
/// of `offsets`, followed by the strip.
fn emit_tiff(s: &Vec<(u16, Value)>, offsets: &Vec<u64>, strip: &[u8]) -> (out: Vec<u8>)
    requires
        s@.len() <= 0xffff,
        lens_bounded(lens_of(s@)),
        offsets@.len() == s@.len(),
        forall|k: int| 0 <= k < s@.len() ==> offsets@[k] == payload_offset(lens_of(s@), k),
    ensures
        out@ == tiff_file(s@, strip@),
{
    let n = s.len();
    let mut out: Vec<u8> = Vec::new();
    out.push(0x49);
    out.push(0x49);
    push_le16(&mut out, 42);
    push_le32(&mut out, 8);
    assert(out@ =~= tiff_header());
    push_le16(&mut out, n as u16);
    let ghost head = out@;
    write_directory(&mut out, s, offsets);
    let ghost dir = out@;
    assert(directory(s@, n as int).len() == 12 * n) by {
        lemma_directory_len(s@, n as int);
    }
    push_zeros(&mut out, 4);
    assert(out@.len() == ifd_end(n as int));
    let ghost before_payloads = out@;
    write_payloads(&mut out, s);
    let ghost after_payloads = out@;
    let tail = (4 - out.len() % 4) % 4;
    push_zeros(&mut out, tail);
    assert(tail == data_offset(lens_of(s@)) - cursor(lens_of(s@), n as int));
    copy_bytes(&mut out, strip);
    assert(out@ =~= tiff_file(s@, strip@));
    out
}

proof fn lemma_directory_len(s: Seq<(u16, Value)>, k: int)
    requires
        0 <= k <= s.len(),
    ensures
        directory(s, k).len() == 12 * k,
    decreases k,
{
    if k > 0 {
        lemma_directory_len(s, k - 1);
        let v = s[k - 1].1@;
        let b = spec_value_bytes(v);
        assert(entry_bytes(s[k - 1].0, v, payload_offset(lens_of(s), k - 1)).len() == 12);
    }
}

/// Assemble one classic TIFF directory plus its strip data. `entries` must
/// not contain the strip tags; the writer adds `StripOffsets`,
/// `StripByteCounts` and `RowsPerStrip` itself once the layout is known.
fn build_tiff(entries: Vec<(u16, Value)>, rows_per_strip: u32, strip: &[u8]) -> (out: Vec<u8>)
    requires
        tags_distinct(entries@),
        has_no_strip_tags(entries@),
        fits_classic_tiff(entries@, strip@.len()),
    ensures
        is_tiff_of(out@, entries_model(entries@), rows_per_strip, strip@),
{
    let ghost input = entries@;
    let mut all = entries;
    all.push((273, long_of(0)));
    all.push((279, long_of(strip.len() as u32)));
    all.push((278, long_of(rows_per_strip)));
    proof {
        assert(with_strip_tags(all@, input, rows_per_strip, strip@.len()));
        lemma_all_distinct(all@, input, rows_per_strip, strip@.len());
        lemma_long_len(0u32);
        lemma_long_len(strip.len() as u32);
        lemma_long_len(rows_per_strip);
        assert forall|i: int| 0 <= i < all@.len() implies spec_value_bytes(#[trigger] all@[i].1@).len()
            <= u32::MAX by {
            if i < input.len() {
                assert(all@[i] == input[i]);
            }
        }
    }
    let ghost arranged = all@;
    let mut sorted = sort_entries(all);
    proof {
        lemma_arranged_fits(sorted@, arranged);
    }
    let (offsets, end) = lay_out(&sorted);
    let data = align4_u64(end);
    let ghost placed = sorted@;
    assert(data == data_offset(lens_of(placed)));
    let mut p: usize = 0;
    while p < sorted.len() && sorted[p].0 != 273
        invariant
            sorted@ == placed,
            p <= sorted@.len(),
            forall|k: int| 0 <= k < p ==> #[trigger] sorted@[k].0 != 273,
        decreases sorted@.len() - p,
    {
        p = p + 1;
    }
    proof {
        let k = lemma_found(placed, arranged, input.len() as int);
        assert(placed[k].0 == 273);
    }
    let v = long_of(#[verifier::truncate] (data as u32));
    sorted.set(p, (273, v));
    proof {
        lemma_arrangement(placed, arranged, input, p as int, v, rows_per_strip, strip@.len());
    }
    assert(sorted@ == placed.update(p as int, (273u16, v)));
    let out = emit_tiff(&sorted, &offsets, strip);
    assert(is_tiff_arrangement(sorted@, entries_model(input), rows_per_strip, strip@.len())
        && out@ == tiff_file(sorted@, strip@));
    out
}

// ---------------------------------------------------------------------------
// Value constructors
// ---------------------------------------------------------------------------

fn shorts_of(values: &[u16]) -> (v: Value)
    ensures
        v@ == TagValue::Short(values@),
{
    let mut out: Vec<u16> = Vec::new();
    let mut i: usize = 0;
    while i < values.len()
        invariant
            i <= values@.len(),
            out@ == values@.subrange(0, i as int),
        decreases values.len() - i,
    {
        out.push(values[i]);
        i = i + 1;
    }
    assert(values@.subrange(0, values@.len() as int) =~= values@);
    Value::Short(out)
}

fn short_of(x: u16) -> (v: Value)
    ensures
        v@ == TagValue::Short(seq![x]),
{
    let mut out: Vec<u16> = Vec::new();
    out.push(x);
    assert(out@ =~= seq![x]);
    Value::Short(out)
}

fn longs_of(values: &[u32]) -> (v: Value)
    ensures
        v@ == TagValue::Long(values@),
{
    let mut out: Vec<u32> = Vec::new();
    let mut i: usize = 0;
    while i < values.len()
        invariant
            i <= values@.len(),
            out@ == values@.subrange(0, i as int),
        decreases values.len() - i,
    {
        out.push(values[i]);
        i = i + 1;
    }
    assert(values@.subrange(0, values@.len() as int) =~= values@);
    Value::Long(out)
}

fn bytes_value(values: &[u8]) -> (v: Value)
    ensures
        v@ == TagValue::Byte(values@),
{
    let mut out: Vec<u8> = Vec::new();
    copy_bytes(&mut out, values);
    Value::Byte(out)
}

fn undefined_value(values: &[u8]) -> (v: Value)
    ensures
        v@ == TagValue::Undefined(values@),
{
    let mut out: Vec<u8> = Vec::new();
    copy_bytes(&mut out, values);
    Value::Undefined(out)
}

fn ascii_of(text: &str) -> (v: Value)
    ensures
        v@ == TagValue::Ascii(text@),
{
    Value::Ascii(crate::text::owned(text))
}

/// The pairs of an array of rationals as tuples.
pub open spec fn rationals(values: Seq<[u32; 2]>) -> Seq<(u32, u32)> {
    values.map_values(|p: [u32; 2]| (p[0], p[1]))
}

/// The pairs of an array of signed rationals as tuples.
pub open spec fn srationals(values: Seq<[i32; 2]>) -> Seq<(i32, i32)> {
    values.map_values(|p: [i32; 2]| (p[0], p[1]))
}

fn rationals_of(values: &[[u32; 2]]) -> (v: Value)
    ensures
        v@ == TagValue::Rational(rationals(values@)),
{
    let mut out: Vec<[u32; 2]> = Vec::new();
    let mut i: usize = 0;
    while i < values.len()
        invariant
            i <= values@.len(),
            out@ == values@.subrange(0, i as int),
        decreases values.len() - i,
    {
        out.push(values[i]);
        i = i + 1;
    }
    assert(values@.subrange(0, values@.len() as int) =~= values@);
    Value::Rational(out)
}

fn srationals_of(values: &[[i32; 2]]) -> (v: Value)
    ensures
        v@ == TagValue::SRational(srationals(values@)),
{
    let mut out: Vec<[i32; 2]> = Vec::new();
    let mut i: usize = 0;
    while i < values.len()
        invariant
            i <= values@.len(),
            out@ == values@.subrange(0, i as int),
        decreases values.len() - i,
    {
        out.push(values[i]);
        i = i + 1;
    }
    assert(values@.subrange(0, values@.len() as int) =~= values@);
    Value::SRational(out)
}

/// Append an entry whose tag is above every tag already present and is not a
/// strip tag.
fn push_entry(entries: &mut Vec<(u16, Value)>, tag: u16, value: Value)
    requires
        tags_ascending(old(entries)@),
        has_no_strip_tags(old(entries)@),
        old(entries)@.len() == 0 || old(entries)@.last().0 < tag,
        tag != 273 && tag != 278 && tag != 279,
    ensures
        final(entries)@ == old(entries)@.push((tag, value)),
        entries_model(final(entries)@) == entries_model(old(entries)@).push((tag, value@)),
        tags_ascending(final(entries)@),
        has_no_strip_tags(final(entries)@),
{
    let ghost before = entries@;
    entries.push((tag, value));
    assert(entries_model(entries@) =~= entries_model(before).push((tag, value@)));
    assert forall|i: int, j: int| 0 <= i < j < entries@.len() implies entries@[i].0 < entries@[j].0 by {
        if j == before.len() && i < before.len() - 1 {
            assert(before[i].0 < before[before.len() - 1].0);
        }
    }
}

proof fn lemma_ascending_distinct(s: Seq<(u16, Value)>)
    requires
        tags_ascending(s),
    ensures
        tags_distinct(s),
{
    assert forall|i: int, j: int| 0 <= i < s.len() && 0 <= j < s.len() && i != j implies s[i].0
        != s[j].0 by {
        if i < j {
            assert(s[i].0 < s[j].0);
        } else {
            assert(s[j].0 < s[i].0);
        }
    }
}

/// The directory entries, as tags and value content, fit a classic TIFF
/// together with a strip of `strip_len` bytes.
pub open spec fn tags_fit(tags: Seq<(u16, TagValue)>, strip_len: nat) -> bool {
    &&& tags.len() + 3 <= 0xffff
    &&& forall|i: int| 0 <= i < tags.len() ==> spec_value_bytes(#[trigger] tags[i].1).len() <= u32::MAX
    &&& strip_len <= u32::MAX
}

fn classic_fits(entries: &Vec<(u16, Value)>, strip_len: usize) -> (r: bool)
    ensures
        r == tags_fit(entries_model(entries@), strip_len as nat),
        r == fits_classic_tiff(entries@, strip_len as nat),
{
    let ghost m = entries_model(entries@);
    assert forall|i: int| 0 <= i < entries@.len() implies #[trigger] m[i].1 == entries@[i].1@ by {}
    if entries.len() > 0xffff - 3 || strip_len > 0xffff_ffff {
        return false;
    }
    let mut i: usize = 0;
    while i < entries.len()
        invariant
            m == entries_model(entries@),
            i <= entries@.len(),
            forall|j: int| 0 <= j < i ==> spec_value_bytes(#[trigger] entries@[j].1@).len() <= u32::MAX,
        decreases entries.len() - i,
    {
        let bytes = entries[i].1.bytes();
        if bytes.len() > 0xffff_ffff {
            assert(m[i as int].1 == entries@[i as int].1@);
            return false;
        }
        i = i + 1;
    }
    assert forall|j: int| 0 <= j < m.len() implies spec_value_bytes(#[trigger] m[j].1).len() <= u32::MAX by {
        assert(m[j].1 == entries@[j].1@);
    }
    true
}

fn samples_le16(samples: &[u16]) -> (strip: Vec<u8>)
    ensures
        strip@ == le16_all(samples@),
{
    let mut out: Vec<u8> = Vec::new();
    let mut i: usize = 0;
    while i < samples.len()
        invariant
            i <= samples@.len(),
            out@ == le16_all(samples@.subrange(0, i as int)),
        decreases samples.len() - i,
    {
        push_le16(&mut out, samples[i]);
        assert(samples@.subrange(0, i + 1).drop_last() =~= samples@.subrange(0, i as int));
        i = i + 1;
    }
    assert(samples@.subrange(0, samples@.len() as int) =~= samples@);
    out
}

/// `UniqueCameraModel`: make and model joined by a space and trimmed, a fixed
/// name when that is empty, and at most 63 characters.
pub open spec fn spec_unique_camera_model(make: Seq<char>, model: Seq<char>) -> Seq<char> {
    let combined = crate::color_science::trimmed(
        crate::color_science::trimmed(make) + seq![' '] + crate::color_science::trimmed(model),
    );
    let candidate = if combined.len() == 0 {
        "NexFilm Scan"@
    } else {
        combined
    };
    if candidate.len() <= 63 {
        candidate
    } else {
        candidate.subrange(0, 63)
    }
}

/// `UniqueCameraModel` is limited to 63 characters plus the terminator.
pub fn unique_camera_model(make: &str, model: &str) -> (name: String)
    ensures
        name@ == spec_unique_camera_model(make@, model@),
{
    let m = crate::color_science::trim(make);
    let d = crate::color_science::trim(model);
    let mut joined = crate::text::owned(m);
    joined.append(" ");
    joined.append(d);
    proof {
        reveal_strlit(" ");
    }
    assert(joined@ == m@ + seq![' '] + d@);
    let c = crate::color_science::trim(joined.as_str());
    let candidate: &str = if c.unicode_len() == 0 {
        "NexFilm Scan"
    } else {
        c
    };
    let n = candidate.unicode_len();
    let k = if n <= 63 {
        n
    } else {
        63
    };
    let taken = candidate.substring_char(0, k);
    assert(n <= 63 ==> candidate@.subrange(0, k as int) =~= candidate@);
    crate::text::owned(taken)
}

// ---------------------------------------------------------------------------
// Mosaic DNG
// ---------------------------------------------------------------------------

pub const NOT_BAYER_MESSAGE: &'static str = "Only Bayer camera RAW mosaics can be written as a raw DNG; export this frame as a linear DNG instead";
pub const MOSAIC_SIZE_MESSAGE: &'static str = "The RAW mosaic does not match its declared dimensions";
pub const INVALID_AREA_MESSAGE: &'static str = "The RAW mosaic has an invalid active area";
pub const SMALL_AREA_MESSAGE: &'static str = "The RAW active area is too small to export";
pub const TOO_LARGE_MESSAGE: &'static str = "The image is too large for a classic TIFF container";
pub const LINEAR_SIZE_MESSAGE: &'static str = "The linear image does not match its declared dimensions";

/// What a mosaic DNG is written from: the unpacked RAW mosaic and its
/// geometry, the levels and colour calibration in the rational form the file
/// stores, and the descriptive texts.
pub struct CfaDngRequest {
    pub width: u32,
    pub height: u32,
    /// Raw samples, row by row, `width * height` values.
    pub samples: Vec<u16>,
    pub cfa: CfaPattern,
    /// Active area as `[left, top, width, height]`.
    pub active_area: [u32; 4],
    /// LibRaw `flip` value of the capture.
    pub orientation: u16,
    /// `BlackLevel`: the black level averaged over the four CFA positions and
    /// rounded, as numerator and denominator.
    pub black_level: [u32; 2],
    /// `WhiteLevel`.
    pub white_level: u32,
    /// `ColorMatrix1`, XYZ (D65) to camera, row by row, as signed rationals.
    pub xyz_to_camera: Option<[[i32; 2]; 9]>,
    /// Illuminant the colour matrix is calibrated for; `None` means D65.
    pub calibration_illuminant: Option<u16>,
    /// `AsShotNeutral` in camera coordinates, as rationals.
    pub as_shot_neutral: Option<[[u32; 2]; 3]>,
    pub make: String,
    pub model: String,
    /// Optional roll information stored in `ImageDescription`.
    pub description: Option<String>,
    pub software: String,
    pub timestamp: String,
}

/// The active area `[left, top, width, height]` moved to even Bayer margins:
/// an odd origin moves one site inwards and the extent shrinks by one.
pub open spec fn evened(area: [u32; 4]) -> [u32; 4] {
    let (left, width) = if area[0] % 2 == 1 {
        ((area[0] + 1) as u32, if area[2] == 0 { 0u32 } else { (area[2] - 1) as u32 })
    } else {
        (area[0], area[2])
    };
    let (top, height) = if area[1] % 2 == 1 {
        ((area[1] + 1) as u32, if area[3] == 0 { 0u32 } else { (area[3] - 1) as u32 })
    } else {
        (area[1], area[3])
    };
    [left, top, width, height]
}

/// `CFAPattern`: the RGB plane of the four sites of the repeating 2x2 cell.
pub open spec fn cfa_pattern(filters: u32) -> Seq<u8> {
    seq![
        rgb_plane(spec_bayer_raw_channel(filters, 0, 0)) as u8,
        rgb_plane(spec_bayer_raw_channel(filters, 0, 1)) as u8,
        rgb_plane(spec_bayer_raw_channel(filters, 1, 0)) as u8,
        rgb_plane(spec_bayer_raw_channel(filters, 1, 1)) as u8,
    ]
}

/// `CalibrationIlluminant1`: without a colour matrix the file is explicitly
/// uncalibrated (0); a matrix without a stated illuminant is D65.
pub open spec fn calibration_illuminant(has_matrix: bool, stated: Option<u16>) -> u16 {
    if !has_matrix {
        0
    } else {
        match stated {
            Some(illuminant) => illuminant,
            None => ILLUMINANT_D65,
        }
    }
}

/// The DNG `CFAPattern` plane (`0`=R, `1`=G, `2`=B) of a LibRaw colour code.
fn cfa_plane(libraw_colour: u32) -> (plane: u8)
    ensures
        plane as u32 == rgb_plane(libraw_colour),
{
    if libraw_colour == 0 {
        0
    } else if libraw_colour == 2 {
        2
    } else {
        1
    }
}

/// LibRaw's CFA colour code for a raw coordinate, anchored at the mosaic's
/// origin exactly like the decoder's own demosaic.
fn cfa_colour(filters: u32, row: i32, column: i32) -> (colour: u32)
    ensures
        colour == spec_bayer_raw_channel(filters, row, column),
{
    crate::raw_backend::bayer_raw_channel(filters, row, column)
}

/// The `filters` of a Bayer pattern.
pub open spec fn bayer_filters(cfa: CfaPattern) -> u32 {
    match cfa {
        CfaPattern::Bayer { filters } => filters,
        _ => 0,
    }
}

/// The first entries of a mosaic DNG: subfile type, size, sample format,
/// compression, photometric interpretation and the optional description.
pub open spec fn cfa_head_tags(req: &CfaDngRequest) -> Seq<(u16, TagValue)> {
    let head = seq![
        (254u16, TagValue::Long(seq![0u32])),
        (256u16, TagValue::Long(seq![req.width])),
        (257u16, TagValue::Long(seq![req.height])),
        (258u16, TagValue::Short(seq![16u16])),
        (259u16, TagValue::Short(seq![1u16])),
        (262u16, TagValue::Short(seq![PHOTOMETRIC_CFA])),
    ];
    match req.description {
        Some(d) => head.push((270u16, TagValue::Ascii(d@))),
        None => head,
    }
}

/// The descriptive, layout and level entries of a mosaic DNG.
pub open spec fn cfa_body_tags(req: &CfaDngRequest) -> Seq<(u16, TagValue)> {
    seq![
        (271u16, TagValue::Ascii(req.make@)),
        (272u16, TagValue::Ascii(req.model@)),
        (274u16, TagValue::Short(seq![spec_tiff_orientation(req.orientation)])),
        (277u16, TagValue::Short(seq![1u16])),
        (284u16, TagValue::Short(seq![1u16])),
        (305u16, TagValue::Ascii(req.software@)),
        (306u16, TagValue::Ascii(req.timestamp@)),
        (33421u16, TagValue::Short(seq![2u16, 2u16])),
        (33422u16, TagValue::Byte(cfa_pattern(bayer_filters(req.cfa)))),
        (50706u16, TagValue::Byte(seq![1u8, 4u8, 0u8, 0u8])),
        (50707u16, TagValue::Byte(seq![1u8, 1u8, 0u8, 0u8])),
        (50708u16, TagValue::Ascii(spec_unique_camera_model(req.make@, req.model@))),
        (50710u16, TagValue::Byte(seq![0u8, 1u8, 2u8])),
        (50711u16, TagValue::Short(seq![1u16])),
        (50714u16, TagValue::Rational(rationals(seq![req.black_level]))),
        (50717u16, TagValue::Long(seq![req.white_level])),
    ]
}

/// The colour entries and the active area of a mosaic DNG.
pub open spec fn cfa_tail_tags(req: &CfaDngRequest, area: [u32; 4]) -> Seq<(u16, TagValue)> {
    let matrix = match req.xyz_to_camera {
        Some(m) => seq![(50721u16, TagValue::SRational(srationals(m@)))],
        None => Seq::empty(),
    };
    let neutral = match req.as_shot_neutral {
        Some(n) => seq![(50728u16, TagValue::Rational(rationals(n@)))],
        None => Seq::empty(),
    };
    matrix + neutral + seq![
        (50778u16, TagValue::Short(seq![calibration_illuminant(req.xyz_to_camera is Some, req.calibration_illuminant)])),
        (50829u16, TagValue::Long(seq![area[1], area[0], (area[1] + area[3]) as u32, (area[0] + area[2]) as u32])),
    ]
}

/// The directory entries of a mosaic DNG, before the strip tags, in ascending
/// tag order; `area` is the evened active area.
pub open spec fn cfa_tags(req: &CfaDngRequest, area: [u32; 4]) -> Seq<(u16, TagValue)> {
    cfa_head_tags(req) + cfa_body_tags(req) + cfa_tail_tags(req, area)
}

/// Why a mosaic DNG cannot be written, if it cannot, checked in this order.
pub open spec fn cfa_dng_refusal(req: &CfaDngRequest) -> Option<Seq<char>> {
    let a = req.active_area;
    if !(req.cfa is Bayer) {
        Some(NOT_BAYER_MESSAGE@)
    } else if req.samples@.len() != req.width * req.height {
        Some(MOSAIC_SIZE_MESSAGE@)
    } else if a[2] == 0 || a[3] == 0 || a[0] + a[2] > req.width || a[1] + a[3] > req.height {
        Some(INVALID_AREA_MESSAGE@)
    } else if evened(a)[2] == 0 || evened(a)[3] == 0 {
        Some(SMALL_AREA_MESSAGE@)
    } else if !tags_fit(cfa_tags(req, evened(a)), 2 * req.samples@.len()) {
        Some(TOO_LARGE_MESSAGE@)
    } else {
        None
    }
}

fn bytes_of4(a: u8, b: u8, c: u8, d: u8) -> (v: Value)
    ensures
        v@ == TagValue::Byte(seq![a, b, c, d]),
{
    let mut out: Vec<u8> = Vec::new();
    out.push(a);
    out.push(b);
    out.push(c);
    out.push(d);
    assert(out@ =~= seq![a, b, c, d]);
    Value::Byte(out)
}

fn bytes_of3(a: u8, b: u8, c: u8) -> (v: Value)
    ensures
        v@ == TagValue::Byte(seq![a, b, c]),
{
    let mut out: Vec<u8> = Vec::new();
    out.push(a);
    out.push(b);
    out.push(c);
    assert(out@ =~= seq![a, b, c]);
    Value::Byte(out)
}

fn shorts_of2(a: u16, b: u16) -> (v: Value)
    ensures
        v@ == TagValue::Short(seq![a, b]),
{
    let mut out: Vec<u16> = Vec::new();
    out.push(a);
    out.push(b);
    assert(out@ =~= seq![a, b]);
    Value::Short(out)
}

fn longs_of4(a: u32, b: u32, c: u32, d: u32) -> (v: Value)
    ensures
        v@ == TagValue::Long(seq![a, b, c, d]),
{
    let mut out: Vec<u32> = Vec::new();
    out.push(a);
    out.push(b);
    out.push(c);
    out.push(d);
    assert(out@ =~= seq![a, b, c, d]);
    Value::Long(out)
}

fn cfa_head_entries(req: &CfaDngRequest) -> (entries: Vec<(u16, Value)>)
    ensures
        entries_model(entries@) == cfa_head_tags(req),
        tags_ascending(entries@),
        has_no_strip_tags(entries@),
        entries@.len() > 0,
        entries@.last().0 <= 270,
{
    let mut entries: Vec<(u16, Value)> = Vec::new();
    push_entry(&mut entries, 254, long_of(0));
    push_entry(&mut entries, 256, long_of(req.width));
    push_entry(&mut entries, 257, long_of(req.height));
    push_entry(&mut entries, 258, short_of(16));
    push_entry(&mut entries, 259, short_of(1));
    push_entry(&mut entries, 262, short_of(PHOTOMETRIC_CFA));
    match &req.description {
        Some(d) => push_entry(&mut entries, 270, ascii_of(d.as_str())),
        None => {},
    }
    assert(entries_model(entries@) =~= cfa_head_tags(req));
    entries
}

fn push_cfa_body(entries: &mut Vec<(u16, Value)>, req: &CfaDngRequest)
    requires
        req.cfa is Bayer,
        tags_ascending(old(entries)@),
        has_no_strip_tags(old(entries)@),
        old(entries)@.len() > 0,
        old(entries)@.last().0 <= 270,
    ensures
        entries_model(final(entries)@) == entries_model(old(entries)@) + cfa_body_tags(req),
        tags_ascending(final(entries)@),
        has_no_strip_tags(final(entries)@),
        final(entries)@.len() > 0,
        final(entries)@.last().0 == 50717,
{
    let ghost start = entries_model(entries@);
    let filters = match req.cfa {
        CfaPattern::Bayer { filters } => filters,
        _ => 0,
    };
    let mut pattern: Vec<u8> = Vec::new();
    pattern.push(cfa_plane(cfa_colour(filters, 0, 0)));
    pattern.push(cfa_plane(cfa_colour(filters, 0, 1)));
    pattern.push(cfa_plane(cfa_colour(filters, 1, 0)));
    pattern.push(cfa_plane(cfa_colour(filters, 1, 1)));
    assert(pattern@ =~= cfa_pattern(filters));
    push_entry(entries, 271, ascii_of(req.make.as_str()));
    push_entry(entries, 272, ascii_of(req.model.as_str()));
    push_entry(entries, 274, short_of(tiff_orientation(req.orientation)));
    push_entry(entries, 277, short_of(1));
    push_entry(entries, 284, short_of(1));
    push_entry(entries, 305, ascii_of(req.software.as_str()));
    push_entry(entries, 306, ascii_of(req.timestamp.as_str()));
    push_entry(entries, 33421, shorts_of2(2, 2));
    push_entry(entries, 33422, Value::Byte(pattern));
    push_entry(entries, 50706, bytes_of4(1, 4, 0, 0));
    push_entry(entries, 50707, bytes_of4(1, 1, 0, 0));
    let unique = unique_camera_model(req.make.as_str(), req.model.as_str());
    push_entry(entries, 50708, Value::Ascii(unique));
    push_entry(entries, 50710, bytes_of3(0, 1, 2));
    push_entry(entries, 50711, short_of(1));
    let black = [req.black_level];
    assert(black@ =~= seq![req.black_level]);
    push_entry(entries, 50714, rationals_of(&black));
    push_entry(entries, 50717, long_of(req.white_level));
    assert(entries_model(entries@) =~= start + cfa_body_tags(req));
}

fn push_cfa_tail(entries: &mut Vec<(u16, Value)>, req: &CfaDngRequest, area: [u32; 4])
    requires
        area[1] + area[3] <= u32::MAX,
        area[0] + area[2] <= u32::MAX,
        tags_ascending(old(entries)@),
        has_no_strip_tags(old(entries)@),
        old(entries)@.len() > 0,
        old(entries)@.last().0 == 50717,
    ensures
        entries_model(final(entries)@) == entries_model(old(entries)@) + cfa_tail_tags(req, area),
        tags_ascending(final(entries)@),
        has_no_strip_tags(final(entries)@),
{
    let ghost start = entries_model(entries@);
    let illuminant = match (&req.xyz_to_camera, req.calibration_illuminant) {
        (Some(_), Some(illuminant)) => illuminant,
        (Some(_), None) => ILLUMINANT_D65,
        (None, _) => 0,
    };
    match &req.xyz_to_camera {
        Some(m) => push_entry(entries, 50721, srationals_of(m)),
        None => {},
    }
    match &req.as_shot_neutral {
        Some(n) => push_entry(entries, 50728, rationals_of(n)),
        None => {},
    }
    push_entry(entries, 50778, short_of(illuminant));
    push_entry(entries, 50829, longs_of4(area[1], area[0], area[1] + area[3], area[0] + area[2]));
    assert(entries_model(entries@) =~= start + cfa_tail_tags(req, area));
}

fn cfa_entries(req: &CfaDngRequest, area: [u32; 4]) -> (entries: Vec<(u16, Value)>)
    requires
        req.cfa is Bayer,
        area[1] + area[3] <= u32::MAX,
        area[0] + area[2] <= u32::MAX,
    ensures
        entries_model(entries@) == cfa_tags(req, area),
        tags_ascending(entries@),
        has_no_strip_tags(entries@),
{
    let mut entries = cfa_head_entries(req);
    push_cfa_body(&mut entries, req);
    push_cfa_tail(&mut entries, req, area);
    entries
}

/// Re-wrap an unpacked camera RAW mosaic as a DNG. Raw sample values are
/// copied unchanged; black level, white level, CFA phase and the active area
/// are declared so a reader reproduces the geometry the decoder measured.
pub fn cfa_dng_bytes(request: &CfaDngRequest) -> (r: Result<Vec<u8>, String>)
    ensures
        match cfa_dng_refusal(request) {
            Some(message) => r is Err && r->Err_0@ == message,
            None => r is Ok && is_tiff_of(
                r->Ok_0@,
                cfa_tags(request, evened(request.active_area)),
                request.height,
                le16_all(request.samples@),
            ),
        },
{
    match request.cfa {
        CfaPattern::Bayer { .. } => {},
        _ => return Err(crate::text::owned(NOT_BAYER_MESSAGE)),
    }
    let w = request.width as u64;
    let h = request.height as u64;
    assert(w * h <= u64::MAX) by (nonlinear_arith)
        requires
            w <= u32::MAX,
            h <= u32::MAX,
    ;
    if request.samples.len() as u64 != w * h {
        return Err(crate::text::owned(MOSAIC_SIZE_MESSAGE));
    }
    let a = request.active_area;
    if a[2] == 0 || a[3] == 0 || (a[0] as u64) + (a[2] as u64) > request.width as u64 || (a[1] as u64)
        + (a[3] as u64) > request.height as u64 {
        return Err(crate::text::owned(INVALID_AREA_MESSAGE));
    }
    let mut left = a[0];
    let mut top = a[1];
    let mut active_width = a[2];
    let mut active_height = a[3];
    // Every dcraw-derived reader forces even Bayer margins and shifts the CFA
    // phase with them; declaring the already-even rectangle keeps the exported
    // geometry a fixed point of that rule.
    if top % 2 == 1 {
        top = top + 1;
        active_height = active_height - 1;
    }
    if left % 2 == 1 {
        left = left + 1;
        active_width = active_width - 1;
    }
    let area = [left, top, active_width, active_height];
    assert(area@ =~= evened(a)@);
    if active_width == 0 || active_height == 0 {
        return Err(crate::text::owned(SMALL_AREA_MESSAGE));
    }
    let entries = cfa_entries(request, area);
    let strip = samples_le16(request.samples.as_slice());
    proof {
        lemma_le16_all_len(request.samples@);
    }
    if !classic_fits(&entries, strip.len()) {
        return Err(crate::text::owned(TOO_LARGE_MESSAGE));
    }
    proof {
        lemma_ascending_distinct(entries@);
    }
    Ok(build_tiff(entries, request.height, strip.as_slice()))
}

// ---------------------------------------------------------------------------
// Linear DNG
// ---------------------------------------------------------------------------

/// What a LinearRaw DNG is written from: linear 16-bit RGB and the colour
/// matrix of the space the samples are stored in.
pub struct LinearDngRequest {
    pub width: u32,
    pub height: u32,
    /// Interleaved 16-bit linear RGB samples, `width * height * 3` values.
    pub rgb16: Vec<u16>,
    /// `ColorMatrix1`: XYZ (D50) to the space the samples are stored in, row
    /// by row, as signed rationals.
    pub xyz_to_space: [[i32; 2]; 9],
    pub icc_profile: Option<Vec<u8>>,
    pub camera_model: String,
    /// Optional roll information stored in `ImageDescription`.
    pub description: Option<String>,
    pub software: String,
    pub timestamp: String,
}

/// The first entries of a linear DNG, up to the orientation.
pub open spec fn linear_head_tags(req: &LinearDngRequest) -> Seq<(u16, TagValue)> {
    let head = seq![
        (254u16, TagValue::Long(seq![0u32])),
        (256u16, TagValue::Long(seq![req.width])),
        (257u16, TagValue::Long(seq![req.height])),
        (258u16, TagValue::Short(seq![16u16, 16u16, 16u16])),
        (259u16, TagValue::Short(seq![1u16])),
        (262u16, TagValue::Short(seq![PHOTOMETRIC_LINEAR_RAW])),
    ];
    let described = match req.description {
        Some(d) => head.push((270u16, TagValue::Ascii(d@))),
        None => head,
    };
    described + seq![
        (271u16, TagValue::Ascii("NexFilm"@)),
        (272u16, TagValue::Ascii(req.camera_model@)),
        (274u16, TagValue::Short(seq![1u16])),
        (277u16, TagValue::Short(seq![3u16])),
        (284u16, TagValue::Short(seq![1u16])),
        (305u16, TagValue::Ascii(req.software@)),
        (306u16, TagValue::Ascii(req.timestamp@)),
    ]
}

/// The profile and colour entries of a linear DNG. The samples are already
/// neutralised, so the as-shot neutral is unity for every channel.
pub open spec fn linear_tail_tags(req: &LinearDngRequest) -> Seq<(u16, TagValue)> {
    let profiled = match req.icc_profile {
        Some(p) => seq![(34675u16, TagValue::Undefined(p@))],
        None => Seq::empty(),
    };
    profiled + seq![
        (50706u16, TagValue::Byte(seq![1u8, 4u8, 0u8, 0u8])),
        (50707u16, TagValue::Byte(seq![1u8, 1u8, 0u8, 0u8])),
        (50708u16, TagValue::Ascii(spec_unique_camera_model("NexFilm"@, req.camera_model@))),
        (50721u16, TagValue::SRational(srationals(req.xyz_to_space@))),
        (50728u16, TagValue::Rational(seq![(1u32, 1u32), (1u32, 1u32), (1u32, 1u32)])),
        (50778u16, TagValue::Short(seq![ILLUMINANT_D50])),
    ]
}

/// The directory entries of a linear DNG, before the strip tags, in ascending
/// tag order.
pub open spec fn linear_tags(req: &LinearDngRequest) -> Seq<(u16, TagValue)> {
    linear_head_tags(req) + linear_tail_tags(req)
}

/// Why a linear DNG cannot be written, if it cannot, checked in this order.
pub open spec fn linear_dng_refusal(req: &LinearDngRequest) -> Option<Seq<char>> {
    if req.rgb16@.len() != req.width * req.height * 3 {
        Some(LINEAR_SIZE_MESSAGE@)
    } else if !tags_fit(linear_tags(req), 2 * req.rgb16@.len()) {
        Some(TOO_LARGE_MESSAGE@)
    } else {
        None
    }
}

fn linear_head_entries(req: &LinearDngRequest) -> (entries: Vec<(u16, Value)>)
    ensures
        entries_model(entries@) == linear_head_tags(req),
        tags_ascending(entries@),
        has_no_strip_tags(entries@),
        entries@.len() > 0,
        entries@.last().0 == 306,
{
    let mut entries: Vec<(u16, Value)> = Vec::new();
    push_entry(&mut entries, 254, long_of(0));
    push_entry(&mut entries, 256, long_of(req.width));
    push_entry(&mut entries, 257, long_of(req.height));
    let mut bits: Vec<u16> = Vec::new();
    bits.push(16);
    bits.push(16);
    bits.push(16);
    assert(bits@ =~= seq![16u16, 16u16, 16u16]);
    push_entry(&mut entries, 258, Value::Short(bits));
    push_entry(&mut entries, 259, short_of(1));
    push_entry(&mut entries, 262, short_of(PHOTOMETRIC_LINEAR_RAW));
    match &req.description {
        Some(d) => push_entry(&mut entries, 270, ascii_of(d.as_str())),
        None => {},
    }
    let ghost described = entries_model(entries@);
    push_entry(&mut entries, 271, ascii_of("NexFilm"));
    push_entry(&mut entries, 272, ascii_of(req.camera_model.as_str()));
    push_entry(&mut entries, 274, short_of(1));
    push_entry(&mut entries, 277, short_of(3));
    push_entry(&mut entries, 284, short_of(1));
    push_entry(&mut entries, 305, ascii_of(req.software.as_str()));
    push_entry(&mut entries, 306, ascii_of(req.timestamp.as_str()));
    assert(entries_model(entries@) =~= linear_head_tags(req));
    entries
}

fn push_linear_tail(entries: &mut Vec<(u16, Value)>, req: &LinearDngRequest)
    requires
        tags_ascending(old(entries)@),
        has_no_strip_tags(old(entries)@),
        old(entries)@.len() > 0,
        old(entries)@.last().0 == 306,
    ensures
        entries_model(final(entries)@) == entries_model(old(entries)@) + linear_tail_tags(req),
        tags_ascending(final(entries)@),
        has_no_strip_tags(final(entries)@),
{
    let ghost start = entries_model(entries@);
    match &req.icc_profile {
        Some(p) => push_entry(entries, 34675, undefined_value(p.as_slice())),
        None => {},
    }
    push_entry(entries, 50706, bytes_of4(1, 4, 0, 0));
    push_entry(entries, 50707, bytes_of4(1, 1, 0, 0));
    let unique = unique_camera_model("NexFilm", req.camera_model.as_str());
    push_entry(entries, 50708, Value::Ascii(unique));
    push_entry(entries, 50721, srationals_of(&req.xyz_to_space));
    let unity = [[1u32, 1u32], [1u32, 1u32], [1u32, 1u32]];
    assert(rationals(unity@) =~= seq![(1u32, 1u32), (1u32, 1u32), (1u32, 1u32)]);
    push_entry(entries, 50728, rationals_of(&unity));
    push_entry(entries, 50778, short_of(ILLUMINANT_D50));
    assert(entries_model(entries@) =~= start + linear_tail_tags(req));
}

/// Write already-linear RGB as a LinearRaw DNG.
pub fn linear_dng_bytes(request: &LinearDngRequest) -> (r: Result<Vec<u8>, String>)
    ensures
        match linear_dng_refusal(request) {
            Some(message) => r is Err && r->Err_0@ == message,
            None => r is Ok && is_tiff_of(
                r->Ok_0@,
                linear_tags(request),
                request.height,
                le16_all(request.rgb16@),
            ),
        },
{
    let w = request.width as u128;
    let h = request.height as u128;
    assert(w * h * 3 <= u128::MAX) by (nonlinear_arith)
        requires
            w <= u32::MAX,
            h <= u32::MAX,
    ;
    if request.rgb16.len() as u128 != w * h * 3 {
        return Err(crate::text::owned(LINEAR_SIZE_MESSAGE));
    }
    let mut entries = linear_head_entries(request);
    push_linear_tail(&mut entries, request);
    let strip = samples_le16(request.rgb16.as_slice());
    proof {
        lemma_le16_all_len(request.rgb16@);
    }
    if !classic_fits(&entries, strip.len()) {
        return Err(crate::text::owned(TOO_LARGE_MESSAGE));
    }
    proof {
        lemma_ascending_distinct(entries@);
    }
    Ok(build_tiff(entries, request.height, strip.as_slice()))
}

// ---------------------------------------------------------------------------
// Reading colour tags back
// ---------------------------------------------------------------------------

/// Colour tags read from a DNG: `ColorMatrix1` as nine signed rationals,
/// `CalibrationIlluminant1`, and `AsShotNeutral` as three rationals. A
/// rational is numerator and denominator; denominators are never zero.
#[derive(Debug, Clone, PartialEq, Eq)]
pub struct DngColorTags {
    pub xyz_to_camera: Option<Vec<(i32, u32)>>,
    pub calibration_illuminant: Option<u16>,
    pub as_shot_neutral: Option<Vec<(u32, u32)>>,
}

/// The colour tags as plain values.
pub type ColorTagsModel = (Option<Seq<(i32, u32)>>, Option<u16>, Option<Seq<(u32, u32)>>);

/// A 16-bit value at `at` in the file's byte order, when it is inside the file.
pub open spec fn read16(b: Seq<u8>, little: bool, at: int) -> Option<u16> {
    if 0 <= at && at + 2 <= b.len() {
        Some(
            if little {
                (b[at] + 256 * b[at + 1]) as u16
            } else {
                (256 * b[at] + b[at + 1]) as u16
            },
        )
    } else {
        None
    }
}

/// A 32-bit value at `at` in the file's byte order, when it is inside the file.
pub open spec fn read32(b: Seq<u8>, little: bool, at: int) -> Option<u32> {
    if 0 <= at && at + 4 <= b.len() {
        Some(
            if little {
                (b[at] + 256 * b[at + 1] + 65536 * b[at + 2] + 16777216 * b[at + 3]) as u32
            } else {
                (16777216 * b[at] + 65536 * b[at + 1] + 256 * b[at + 2] + b[at + 3]) as u32
            },
        )
    } else {
        None
    }
}

/// Bytes per value of the field types a colour tag can have; zero for others.
pub open spec fn unit_size(type_code: u16) -> int {
    if type_code == TYPE_SHORT {
        2
    } else if type_code == TYPE_LONG {
        4
    } else if type_code == TYPE_RATIONAL || type_code == TYPE_SRATIONAL {
        8
    } else {
        0
    }
}

/// The payload of a directory entry at `entry`: inside the entry when it has
/// at most four bytes, else at the offset the entry holds. `None` when the
/// type is not one of the colour types or the payload is outside the file.
pub open spec fn entry_payload(b: Seq<u8>, little: bool, entry: int, type_code: u16, count: u32) -> Option<Seq<u8>> {
    let unit = unit_size(type_code);
    let total = unit * count;
    if unit == 0 {
        None
    } else if total <= 4 {
        if entry + 8 + total <= b.len() {
            Some(b.subrange(entry + 8, entry + 8 + total))
        } else {
            None
        }
    } else {
        match read32(b, little, entry + 8) {
            Some(offset) => if offset + total <= b.len() {
                Some(b.subrange(offset as int, offset + total))
            } else {
                None
            },
            None => None,
        }
    }
}

/// The `i`-th rational of a payload: numerator and a denominator that is not
/// zero.
pub open spec fn fraction_at(raw: Seq<u8>, little: bool, i: int) -> Option<(u32, u32)> {
    match (read32(raw, little, 8 * i), read32(raw, little, 8 * i + 4)) {
        (Some(n), Some(d)) => if d != 0 { Some((n, d)) } else { None },
        _ => None,
    }
}

/// The first `n` rationals of a payload, unless one is missing or has a zero
/// denominator.
pub open spec fn fractions(raw: Seq<u8>, little: bool, n: int) -> Option<Seq<(u32, u32)>>
    decreases n,
{
    if n <= 0 {
        Some(Seq::empty())
    } else {
        match (fractions(raw, little, n - 1), fraction_at(raw, little, n - 1)) {
            (Some(s), Some(f)) => Some(s.push(f)),
            _ => None,
        }
    }
}

/// Signed rationals from their raw two's-complement numerators.
pub open spec fn signed_fractions(s: Seq<(u32, u32)>) -> Seq<(i32, u32)> {
    s.map_values(|f: (u32, u32)| (f.0 as i32, f.1))
}

/// Read directory entry `index` into `tags`; `None` means the whole read
/// fails (the entry lies outside the file, or a colour rational is broken).
pub open spec fn scan_entry(b: Seq<u8>, little: bool, ifd: int, index: int, tags: ColorTagsModel) -> Option<ColorTagsModel> {
    let entry = ifd + 2 + 12 * index;
    match (read16(b, little, entry), read16(b, little, entry + 2), read32(b, little, entry + 4)) {
        (Some(tag), Some(type_code), Some(count)) => match entry_payload(b, little, entry, type_code, count) {
            None => Some(tags),
            Some(raw) => if tag == 50721 && type_code == TYPE_SRATIONAL && count == 9 {
                match fractions(raw, little, 9) {
                    Some(f) => Some((Some(signed_fractions(f)), tags.1, tags.2)),
                    None => None,
                }
            } else if tag == 50778 && type_code == TYPE_SHORT && count == 1 {
                Some((tags.0, read16(raw, little, 0), tags.2))
            } else if tag == 50728 && type_code == TYPE_RATIONAL && count == 3 {
                match fractions(raw, little, 3) {
                    Some(f) => Some((tags.0, tags.1, Some(f))),
                    None => None,
                }
            } else {
                Some(tags)
            },
        },
        _ => None,
    }
}

/// The colour tags after reading the first `k` directory entries.
pub open spec fn scan_entries(b: Seq<u8>, little: bool, ifd: int, k: int) -> Option<ColorTagsModel>
    decreases k,
{
    if k <= 0 {
        Some((None, None, None))
    } else {
        match scan_entries(b, little, ifd, k - 1) {
            Some(tags) => scan_entry(b, little, ifd, k - 1, tags),
            None => None,
        }
    }
}

/// `ColorMatrix1`, `CalibrationIlluminant1` and `AsShotNeutral` of a classic
/// TIFF, read from at most 512 entries of its first directory; `None` when
/// the file is unreadable or carries none of the three.
pub open spec fn spec_read_color_tags(b: Seq<u8>) -> Option<ColorTagsModel> {
    if b.len() < 8 {
        None
    } else if !((b[0] == 0x49 && b[1] == 0x49) || (b[0] == 0x4d && b[1] == 0x4d)) {
        None
    } else {
        let little = b[0] == 0x49;
        match (read16(b, little, 2), read32(b, little, 4)) {
            (Some(magic), Some(ifd)) => if magic != 42 {
                None
            } else {
                match read16(b, little, ifd as int) {
                    Some(count) => {
                        let n = if count < 512 { count as int } else { 512 };
                        match scan_entries(b, little, ifd as int, n) {
                            Some(tags) => if tags.0 is Some || tags.1 is Some || tags.2 is Some {
                                Some(tags)
                            } else {
                                None
                            },
                            None => None,
                        }
                    },
                    None => None,
                }
            },
            _ => None,
        }
    }
}

/// The model of read colour tags.
pub open spec fn tags_model(t: DngColorTags) -> ColorTagsModel {
    (
        match t.xyz_to_camera {
            Some(v) => Some(v@),
            None => None,
        },
        t.calibration_illuminant,
        match t.as_shot_neutral {
            Some(v) => Some(v@),
            None => None,
        },
    )
}

fn get16(b: &[u8], little: bool, at: u64) -> (r: Option<u16>)
    ensures
        r == read16(b@, little, at as int),
{
    if at > b.len() as u64 || b.len() as u64 - at < 2 {
        return None;
    }
    let i = at as usize;
    let lo = b[i] as u16;
    let hi = b[i + 1] as u16;
    if little {
        Some(lo + 256 * hi)
    } else {
        Some(256 * lo + hi)
    }
}

fn get32(b: &[u8], little: bool, at: u64) -> (r: Option<u32>)
    ensures
        r == read32(b@, little, at as int),
{
    if at > b.len() as u64 || b.len() as u64 - at < 4 {
        return None;
    }
    let i = at as usize;
    let b0 = b[i] as u32;
    let b1 = b[i + 1] as u32;
    let b2 = b[i + 2] as u32;
    let b3 = b[i + 3] as u32;
    if little {
        Some(b0 + 256 * b1 + 65536 * b2 + 16777216 * b3)
    } else {
        Some(16777216 * b0 + 65536 * b1 + 256 * b2 + b3)
    }
}

fn slice_of(b: &[u8], from: u64, len: u64) -> (r: Option<Vec<u8>>)
    ensures
        match r {
            Some(v) => from + len <= b@.len() && v@ == b@.subrange(from as int, from + len),
            None => from + len > b@.len(),
        },
{
    if from > b.len() as u64 || b.len() as u64 - from < len {
        return None;
    }
    let mut out: Vec<u8> = Vec::new();
    let start = from as usize;
    let end = (from + len) as usize;
    let mut i: usize = start;
    while i < end
        invariant
            start <= i <= end,
            end <= b@.len(),
            start == from,
            end == from + len,
            out@ == b@.subrange(start as int, i as int),
        decreases end - i,
    {
        out.push(b[i]);
        i = i + 1;
        assert(out@ =~= b@.subrange(start as int, i as int));
    }
    Some(out)
}

fn payload_of(b: &[u8], little: bool, entry: u64, type_code: u16, count: u32) -> (r: Option<Vec<u8>>)
    requires
        entry <= 0x2_0000_0000,
    ensures
        match r {
            Some(v) => entry_payload(b@, little, entry as int, type_code, count) == Some(v@),
            None => entry_payload(b@, little, entry as int, type_code, count) is None,
        },
{
    let unit: u64 = if type_code == TYPE_SHORT {
        2
    } else if type_code == TYPE_LONG {
        4
    } else if type_code == TYPE_RATIONAL || type_code == TYPE_SRATIONAL {
        8
    } else {
        0
    };
    if unit == 0 {
        return None;
    }
    let total = unit * (count as u64);
    if total <= 4 {
        slice_of(b, entry + 8, total)
    } else {
        match get32(b, little, entry + 8) {
            Some(offset) => slice_of(b, offset as u64, total),
            None => None,
        }
    }
}

proof fn lemma_fractions_stay_broken(raw: Seq<u8>, little: bool, k: int, n: int)
    requires
        0 <= k <= n,
        fractions(raw, little, k) is None,
    ensures
        fractions(raw, little, n) is None,
    decreases n - k,
{
    if k < n {
        lemma_fractions_stay_broken(raw, little, k, n - 1);
    }
}

proof fn lemma_scan_stays_broken(b: Seq<u8>, little: bool, ifd: int, k: int, n: int)
    requires
        0 <= k <= n,
        scan_entries(b, little, ifd, k) is None,
    ensures
        scan_entries(b, little, ifd, n) is None,
    decreases n - k,
{
    if k < n {
        lemma_scan_stays_broken(b, little, ifd, k, n - 1);
    }
}

fn fractions_of(raw: &Vec<u8>, little: bool, n: u64) -> (r: Option<Vec<(u32, u32)>>)
    requires
        n <= 9,
    ensures
        match r {
            Some(v) => fractions(raw@, little, n as int) == Some(v@),
            None => fractions(raw@, little, n as int) is None,
        },
{
    let mut out: Vec<(u32, u32)> = Vec::new();
    let mut i: u64 = 0;
    while i < n
        invariant
            i <= n <= 9,
            fractions(raw@, little, i as int) == Some(out@),
        decreases n - i,
    {
        let numerator = get32(raw.as_slice(), little, 8 * i);
        let denominator = get32(raw.as_slice(), little, 8 * i + 4);
        match (numerator, denominator) {
            (Some(num), Some(den)) => {
                if den == 0 {
                    proof {
                        lemma_fractions_stay_broken(raw@, little, i + 1, n as int);
                    }
                    return None;
                }
                out.push((num, den));
            },
            _ => {
                proof {
                    lemma_fractions_stay_broken(raw@, little, i + 1, n as int);
                }
                return None;
            },
        }
        i = i + 1;
    }
    Some(out)
}

fn signed_of(v: Vec<(u32, u32)>) -> (r: Vec<(i32, u32)>)
    ensures
        r@ == signed_fractions(v@),
{
    let mut out: Vec<(i32, u32)> = Vec::new();
    let mut i: usize = 0;
    while i < v.len()
        invariant
            i <= v@.len(),
            out@ == signed_fractions(v@.subrange(0, i as int)),
        decreases v.len() - i,
    {
        let (num, den) = v[i];
        out.push((#[verifier::truncate] (num as i32), den));
        i = i + 1;
        assert(out@ =~= signed_fractions(v@.subrange(0, i as int)));
    }
    assert(v@.subrange(0, v@.len() as int) =~= v@);
    out
}

/// What a read of colour tags gives once every entry was read.
pub open spec fn finish_tags(scanned: Option<ColorTagsModel>) -> Option<ColorTagsModel> {
    match scanned {
        Some(tags) => if tags.0 is Some || tags.1 is Some || tags.2 is Some {
            Some(tags)
        } else {
            None
        },
        None => None,
    }
}

/// Read directory entry `index` into `tags`; `false` when the read fails.
fn scan_one(bytes: &[u8], little: bool, ifd: u32, index: u64, tags: &mut DngColorTags) -> (ok: bool)
    requires
        index < 512,
    ensures
        ok ==> scan_entry(bytes@, little, ifd as int, index as int, tags_model(*old(tags))) == Some(
            tags_model(*final(tags)),
        ),
        !ok ==> scan_entry(bytes@, little, ifd as int, index as int, tags_model(*old(tags))) is None,
{
    let entry = (ifd as u64) + 2 + 12 * index;
    let read_tag = get16(bytes, little, entry);
    let read_type = get16(bytes, little, entry + 2);
    let read_count = get32(bytes, little, entry + 4);
    let (tag, type_code, value_count) = match (read_tag, read_type, read_count) {
        (Some(t), Some(c), Some(k)) => (t, c, k),
        _ => return false,
    };
    match payload_of(bytes, little, entry, type_code, value_count) {
        None => true,
        Some(raw) => {
            if tag == 50721 && type_code == TYPE_SRATIONAL && value_count == 9 {
                match fractions_of(&raw, little, 9) {
                    Some(f) => {
                        tags.xyz_to_camera = Some(signed_of(f));
                        true
                    },
                    None => false,
                }
            } else if tag == 50778 && type_code == TYPE_SHORT && value_count == 1 {
                tags.calibration_illuminant = get16(raw.as_slice(), little, 0);
                true
            } else if tag == 50728 && type_code == TYPE_RATIONAL && value_count == 3 {
                match fractions_of(&raw, little, 3) {
                    Some(f) => {
                        tags.as_shot_neutral = Some(f);
                        true
                    },
                    None => false,
                }
            } else {
                true
            }
        },
    }
}

/// Read `ColorMatrix1`, `CalibrationIlluminant1` and `AsShotNeutral` from the
/// bytes of a DNG, so that a re-wrap can carry over the colour calibration a
/// source DNG declares. Classic (32-bit offset) TIFF only; anything unreadable
/// yields `None`.
pub fn read_dng_color_tags(bytes: &[u8]) -> (r: Option<DngColorTags>)
    ensures
        match r {
            Some(t) => spec_read_color_tags(bytes@) == Some(tags_model(t)),
            None => spec_read_color_tags(bytes@) is None,
        },
{
    if bytes.len() < 8 {
        return None;
    }
    let little = if bytes[0] == 0x49 && bytes[1] == 0x49 {
        true
    } else if bytes[0] == 0x4d && bytes[1] == 0x4d {
        false
    } else {
        return None;
    };
    let magic = match get16(bytes, little, 2) {
        Some(v) => v,
        None => return None,
    };
    let ifd = match get32(bytes, little, 4) {
        Some(v) => v,
        None => return None,
    };
    if magic != 42 {
        return None;
    }
    let count = match get16(bytes, little, ifd as u64) {
        Some(v) => v,
        None => return None,
    };
    let n: u64 = if count < 512 {
        count as u64
    } else {
        512
    };
    let mut tags = DngColorTags { xyz_to_camera: None, calibration_illuminant: None, as_shot_neutral: None };
    assert(spec_read_color_tags(bytes@) == finish_tags(scan_entries(bytes@, little, ifd as int, n as int)));
    let mut index: u64 = 0;
    while index < n
        invariant
            index <= n <= 512,
            spec_read_color_tags(bytes@) == finish_tags(scan_entries(bytes@, little, ifd as int, n as int)),
            scan_entries(bytes@, little, ifd as int, index as int) == Some(tags_model(tags)),
        decreases n - index,
    {
        if !scan_one(bytes, little, ifd, index, &mut tags) {
            proof {
                lemma_scan_stays_broken(bytes@, little, ifd as int, index + 1, n as int);
            }
            return None;
        }
        index = index + 1;
    }
    if tags.xyz_to_camera.is_some() || tags.calibration_illuminant.is_some() || tags.as_shot_neutral.is_some() {
        Some(tags)
    } else {
        None
    }
}

// ---------------------------------------------------------------------------
// EXIF timestamps
// ---------------------------------------------------------------------------

/// A year of the proleptic Gregorian calendar is a leap year.
pub open spec fn is_leap_year(y: int) -> bool {
    (y % 4 == 0 && y % 100 != 0) || y % 400 == 0
}

/// Days in year `y`.
pub open spec fn year_length(y: int) -> int {
    if is_leap_year(y) { 366 } else { 365 }
}

/// Days in month `m` of year `y`.
pub open spec fn month_length(y: int, m: int) -> int {
    if m == 2 {
        if is_leap_year(y) { 29 } else { 28 }
    } else if m == 4 || m == 6 || m == 9 || m == 11 {
        30
    } else {
        31
    }
}

/// Leap years strictly before year `y`, counted from year 1 (extended to all
/// years by the same formula).
pub open spec fn leaps_before(y: int) -> int {
    (y - 1) / 4 - (y - 1) / 100 + (y - 1) / 400
}

/// Days from 1970-01-01 to the first day of year `y`.
pub open spec fn days_before_year(y: int) -> int {
    365 * (y - 1970) + leaps_before(y) - leaps_before(1970)
}

/// Days from the first day of year `y` to the first day of month `m`.
pub open spec fn days_before_month(y: int, m: int) -> int
    decreases m,
{
    if m <= 1 {
        0
    } else {
        days_before_month(y, m - 1) + month_length(y, m - 1)
    }
}

/// A month and day that exist in year `y`.
pub open spec fn is_valid_date(y: int, m: int, d: int) -> bool {
    1 <= m <= 12 && 1 <= d <= month_length(y, m)
}

/// Days from 1970-01-01 to the given date.
pub open spec fn day_number(y: int, m: int, d: int) -> int {
    days_before_year(y) + days_before_month(y, m) + d - 1
}

proof fn lemma_step_div(x: int, k: int)
    requires
        k > 0,
    ensures
        x / k - (x - 1) / k == (if x % k == 0 { 1int } else { 0int }),
{
    let q = (x - 1) / k;
    let r = (x - 1) % k;
    vstd::arithmetic::div_mod::lemma_fundamental_div_mod(x - 1, k);
    assert(0 <= r < k);
    if r + 1 < k {
        vstd::arithmetic::div_mod::lemma_fundamental_div_mod_converse(x, k, q, r + 1);
    } else {
        assert(x == (q + 1) * k + 0) by (nonlinear_arith)
            requires
                x - 1 == k * q + r,
                r + 1 == k,
        ;
        vstd::arithmetic::div_mod::lemma_fundamental_div_mod_converse(x, k, q + 1, 0);
    }
}

proof fn lemma_year_step(y: int)
    ensures
        days_before_year(y + 1) == days_before_year(y) + year_length(y),
{
    lemma_step_div(y, 4);
    lemma_step_div(y, 100);
    lemma_step_div(y, 400);
    vstd::arithmetic::div_mod::lemma_fundamental_div_mod(y, 400);
    vstd::arithmetic::div_mod::lemma_fundamental_div_mod(y, 100);
    vstd::arithmetic::div_mod::lemma_fundamental_div_mod(y, 4);
    if y % 400 == 0 {
        let q = y / 400;
        vstd::arithmetic::div_mod::lemma_fundamental_div_mod_converse(y, 100, 4 * q, 0);
        vstd::arithmetic::div_mod::lemma_fundamental_div_mod_converse(y, 4, 100 * q, 0);
    } else if y % 100 == 0 {
        let q = y / 100;
        vstd::arithmetic::div_mod::lemma_fundamental_div_mod_converse(y, 4, 25 * q, 0);
    }
}

proof fn lemma_era_step(y: int, k: int)
    ensures
        days_before_year(y + 400 * k) == days_before_year(y) + 146097 * k,
{
    vstd::arithmetic::div_mod::lemma_hoist_over_denominator(y - 1, 100 * k, 4);
    vstd::arithmetic::div_mod::lemma_hoist_over_denominator(y - 1, 4 * k, 100);
    vstd::arithmetic::div_mod::lemma_hoist_over_denominator(y - 1, k, 400);
    assert((y - 1 + (100 * k) * 4) == y + 400 * k - 1);
    assert((y - 1 + (4 * k) * 100) == y + 400 * k - 1);
    assert((y - 1 + k * 400) == y + 400 * k - 1);
}

proof fn lemma_leap_period(y: int, k: int)
    ensures
        is_leap_year(y + 400 * k) == is_leap_year(y),
{
    vstd::arithmetic::div_mod::lemma_fundamental_div_mod(y, 400);
    vstd::arithmetic::div_mod::lemma_fundamental_div_mod(y, 100);
    vstd::arithmetic::div_mod::lemma_fundamental_div_mod(y, 4);
    vstd::arithmetic::div_mod::lemma_fundamental_div_mod_converse(y + 400 * k, 400, y / 400 + k, y % 400);
    vstd::arithmetic::div_mod::lemma_fundamental_div_mod_converse(y + 400 * k, 100, y / 100 + 4 * k, y % 100);
    vstd::arithmetic::div_mod::lemma_fundamental_div_mod_converse(y + 400 * k, 4, y / 4 + 100 * k, y % 4);
}

proof fn lemma_months_fill_the_year(y: int)
    ensures
        days_before_month(y, 13) == year_length(y),
{
    reveal_with_fuel(days_before_month, 13);
}

fn leap(year: u64) -> (r: bool)
    ensures
        r == is_leap_year(year as int),
{
    (year % 4 == 0 && year % 100 != 0) || year % 400 == 0
}

fn year_days(year: u64) -> (r: i64)
    ensures
        r == year_length(year as int),
{
    if leap(year) {
        366
    } else {
        365
    }
}

fn month_days(year: u64, month: u32) -> (r: i64)
    ensures
        r == month_length(year as int, month as int),
{
    if month == 2 {
        if leap(year) {
            29
        } else {
            28
        }
    } else if month == 4 || month == 6 || month == 9 || month == 11 {
        30
    } else {
        31
    }
}

/// Floor division and remainder of `x` by a positive `d`.
fn floor_div_mod(x: i64, d: i64) -> (r: (i64, i64))
    requires
        d > 0,
    ensures
        r.0 == x as int / d as int,
        r.1 == x as int % d as int,
{
    if x >= 0 {
        let q = x / d;
        let m = x % d;
        (q, m)
    } else {
        let a: i64 = -(x + 1);
        let q = a / d;
        let m = a % d;
        proof {
            vstd::arithmetic::div_mod::lemma_fundamental_div_mod(a as int, d as int);
            assert(x as int == (-(q as int) - 1) * d + (d - 1 - m)) by (nonlinear_arith)
                requires
                    a == -(x + 1),
                    a == d * q + m,
            ;
            vstd::arithmetic::div_mod::lemma_fundamental_div_mod_converse(
                x as int,
                d as int,
                -(q as int) - 1,
                d - 1 - m,
            );
        }
        (-q - 1, d - 1 - m)
    }
}

/// The date of day number `days` counted from 1970-01-01.
#[verifier::spinoff_prover]
#[verifier::rlimit(40)]
pub fn civil_from_days(days: i64) -> (date: (i64, u32, u32))
    requires
        -200_000_000_000_000 <= days <= 200_000_000_000_000,
    ensures
        is_valid_date(date.0 as int, date.1 as int, date.2 as int),
        day_number(date.0 as int, date.1 as int, date.2 as int) == days,
        -1_000_000_000_000 <= date.0 <= 1_000_000_000_000,
{
    let (era, rest) = floor_div_mod(days, 146097);
    proof {
        vstd::arithmetic::div_mod::lemma_fundamental_div_mod(days as int, 146097);
        assert(-2_000_000_000 <= era <= 2_000_000_000) by (nonlinear_arith)
            requires
                days == 146097 * era + rest,
                0 <= rest < 146097,
                -200_000_000_000_000 <= days <= 200_000_000_000_000,
        ;
    }
    let base: i64 = 1970 + 400 * era;
    proof {
        lemma_era_step(1970, era as int);
        assert(days_before_year(1970) == 0);
    }
    // Walk the years of the 400-year cycle starting at `base`.
    let mut k: u64 = 0;
    let mut remaining: i64 = rest;
    while remaining >= year_days(1970 + k)
        invariant
            0 <= remaining,
            k <= 400,
            days_before_year(base + k) + remaining == days,
            days_before_year(base + 400) == days_before_year(base as int) + 146097,
            base == 1970 + 400 * era,
            0 <= rest < 146097,
            days_before_year(base as int) == 146097 * era,
            days_before_year(base + k) - days_before_year(base as int) + remaining == rest,
        decreases remaining,
    {
        let length = year_days(1970 + k);
        proof {
            lemma_leap_period(1970 + k, era as int);
            lemma_year_step(base + k);
            if k == 400 {
                assert(false);
            }
        }
        remaining = remaining - length;
        k = k + 1;
    }
    proof {
        lemma_leap_period(1970 + k, era as int);
    }
    let year: i64 = base + k as i64;
    let mut month: u32 = 1;
    let ghost in_year = remaining;
    proof {
        lemma_months_fill_the_year(year as int);
    }
    while remaining >= month_days(1970 + k, month)
        invariant
            1 <= month <= 13,
            0 <= remaining,
            days_before_month(year as int, month as int) + remaining == in_year,
            in_year < year_length(year as int),
            days_before_month(year as int, 13) == year_length(year as int),
            year == base + k,
            k <= 400,
            is_leap_year(year as int) == is_leap_year(1970 + k),
        decreases remaining,
    {
        if month == 13 {
            assert(false);
        }
        remaining = remaining - month_days(1970 + k, month);
        month = month + 1;
    }
    if month == 13 {
        assert(false);
    }
    (year, month, (remaining + 1) as u32)
}

/// The decimal digits of a natural number, most significant first.
pub open spec fn decimal(n: nat) -> Seq<char>
    decreases n,
{
    if n < 10 {
        seq![(48 + n) as char]
    } else {
        decimal(n / 10).push((48 + n % 10) as char)
    }
}

/// The decimal digits of `n`, with leading zeros up to `width` digits.
pub open spec fn zero_padded(n: nat, width: nat) -> Seq<char> {
    let digits = decimal(n);
    if digits.len() < width {
        Seq::new((width - digits.len()) as nat, |i: int| '0') + digits
    } else {
        digits
    }
}

/// A year as `{:04}` prints it: four digits, or a minus sign and three.
pub open spec fn year_text(y: int) -> Seq<char> {
    if y < 0 {
        seq!['-'] + zero_padded((-y) as nat, 3)
    } else {
        zero_padded(y as nat, 4)
    }
}

/// `YYYY:MM:DD HH:MM:SS`.
pub open spec fn exif_text(y: int, mo: nat, d: nat, h: nat, mi: nat, s: nat) -> Seq<char> {
    year_text(y) + seq![':'] + zero_padded(mo, 2) + seq![':'] + zero_padded(d, 2) + seq![' ']
        + zero_padded(h, 2) + seq![':'] + zero_padded(mi, 2) + seq![':'] + zero_padded(s, 2)
}

/// Days from 1970-01-01 of a Unix time, and the second of that day.
pub open spec fn day_of(epoch_seconds: int) -> int {
    epoch_seconds / 86400
}

pub open spec fn second_of_day(epoch_seconds: int) -> int {
    epoch_seconds % 86400
}

fn digits_len(n: u64) -> (len: u64)
    ensures
        len == decimal(n as nat).len(),
        len <= n + 1,
    decreases n,
{
    if n < 10 {
        1
    } else {
        digits_len(n / 10) + 1
    }
}

fn digit_text(n: u64) -> (s: &'static str)
    requires
        n < 10,
    ensures
        s@ == seq![(48 + n) as char],
{
    proof {
        reveal_strlit("0");
        reveal_strlit("1");
        reveal_strlit("2");
        reveal_strlit("3");
        reveal_strlit("4");
        reveal_strlit("5");
        reveal_strlit("6");
        reveal_strlit("7");
        reveal_strlit("8");
        reveal_strlit("9");
    }
    match n {
        0 => "0",
        1 => "1",
        2 => "2",
        3 => "3",
        4 => "4",
        5 => "5",
        6 => "6",
        7 => "7",
        8 => "8",
        _ => "9",
    }
}

pub(crate) fn push_decimal(out: &mut String, n: u64)
    ensures
        final(out)@ == old(out)@ + decimal(n as nat),
    decreases n,
{
    if n < 10 {
        out.append(digit_text(n));
    } else {
        push_decimal(out, n / 10);
        out.append(digit_text(n % 10));
        assert(final(out)@ =~= old(out)@ + decimal(n as nat));
    }
}

fn push_padded(out: &mut String, n: u64, width: usize)
    ensures
        final(out)@ == old(out)@ + zero_padded(n as nat, width as nat),
{
    let ghost start = out@;
    let len = digits_len(n);
    if len < width as u64 {
        let pad = width - len as usize;
        let mut i: usize = 0;
        while i < pad
            invariant
                len < width,
                pad == width - len,
                i <= pad,
                out@ == start + Seq::new(i as nat, |j: int| '0'),
            decreases pad - i,
        {
            proof {
                reveal_strlit("0");
            }
            out.append("0");
            i = i + 1;
            assert(out@ =~= start + Seq::new(i as nat, |j: int| '0'));
        }
    }
    push_decimal(out, n);
    assert(out@ =~= start + zero_padded(n as nat, width as nat));
}

fn push_char_text(out: &mut String, text: &str)
    ensures
        final(out)@ == old(out)@ + text@,
{
    out.append(text);
}

/// EXIF style `YYYY:MM:DD HH:MM:SS` timestamp of a Unix time, in UTC.
pub fn exif_datetime(epoch_seconds: i64) -> (text: String)
    ensures
        exists|y: int, mo: int, d: int| #![trigger day_number(y, mo, d)]
            is_valid_date(y, mo, d) && day_number(y, mo, d) == day_of(epoch_seconds as int)
                && text@ == exif_text(
                y,
                mo as nat,
                d as nat,
                (second_of_day(epoch_seconds as int) / 3600) as nat,
                ((second_of_day(epoch_seconds as int) % 3600) / 60) as nat,
                (second_of_day(epoch_seconds as int) % 60) as nat,
            ),
{
    let (days, seconds_of_day) = floor_div_mod(epoch_seconds, 86400);
    let (year, month, day) = civil_from_days(days);
    let hour = seconds_of_day / 3600;
    let minute = (seconds_of_day % 3600) / 60;
    let second = seconds_of_day % 60;
    let mut out = String::new();
    if year < 0 {
        proof {
            reveal_strlit("-");
        }
        push_char_text(&mut out, "-");
        push_padded(&mut out, (-year) as u64, 3);
    } else {
        push_padded(&mut out, year as u64, 4);
    }
    proof {
        reveal_strlit(":");
        reveal_strlit(" ");
    }
    push_char_text(&mut out, ":");
    push_padded(&mut out, month as u64, 2);
    push_char_text(&mut out, ":");
    push_padded(&mut out, day as u64, 2);
    push_char_text(&mut out, " ");
    push_padded(&mut out, hour as u64, 2);
    push_char_text(&mut out, ":");
    push_padded(&mut out, minute as u64, 2);
    push_char_text(&mut out, ":");
    push_padded(&mut out, second as u64, 2);
    assert(out@ =~= exif_text(
        year as int,
        month as nat,
        day as nat,
        hour as nat,
        minute as nat,
        second as nat,
    ));
    assert(day_number(year as int, month as int, day as int) == day_of(epoch_seconds as int));
    out
}

// ---------------------------------------------------------------------------
// What a reader finds
// ---------------------------------------------------------------------------

proof fn lemma_cursor_grows(lens: Seq<int>, k: int)
    requires
        0 <= k <= lens.len(),
        forall|i: int| 0 <= i < lens.len() ==> 0 <= #[trigger] lens[i],
    ensures
        cursor(lens, k) >= ifd_end(lens.len() as int),
    decreases k,
{
    if k > 0 {
        lemma_cursor_grows(lens, k - 1);
    }
}

proof fn lemma_payload_area_shape(s: Seq<(u16, Value)>, k: int)
    requires
        0 <= k <= s.len(),
    ensures
        payload_area(s, k).len() == cursor(lens_of(s), k) - ifd_end(s.len() as int),
        forall|j: int| 0 <= j < k && lens_of(s)[j] > 4 ==> #[trigger] payload_area(s, k).subrange(
            payload_offset(lens_of(s), j) - ifd_end(s.len() as int),
            payload_offset(lens_of(s), j) - ifd_end(s.len() as int) + lens_of(s)[j],
        ) == spec_value_bytes(s[j].1@),
    decreases k,
{
    let lens = lens_of(s);
    let base = ifd_end(s.len() as int);
    if k > 0 {
        lemma_payload_area_shape(s, k - 1);
        let prev = payload_area(s, k - 1);
        let c = cursor(lens, k - 1);
        let len = lens[k - 1];
        let b = spec_value_bytes(s[k - 1].1@);
        assert(b.len() == len);
        if len > 4 {
            let tail = zeros(spec_align4(c) - c) + b + zeros(spec_align4(len) - len);
            assert(payload_area(s, k) == prev + tail);
            assert forall|j: int| 0 <= j < k && lens[j] > 4 implies #[trigger] payload_area(s, k).subrange(
                payload_offset(lens, j) - base,
                payload_offset(lens, j) - base + lens[j],
            ) == spec_value_bytes(s[j].1@) by {
                if j < k - 1 {
                    assert forall|i: int| 0 <= i < lens.len() implies 0 <= #[trigger] lens[i] by {}
                    lemma_cursor_order(lens, j, k - 1);
                    lemma_cursor_grows(lens, j);
                    assert(payload_offset(lens, j) >= cursor(lens, j));
                    assert(payload_offset(lens, j) + lens[j] <= cursor(lens, k - 1));
                    assert(prev.len() == cursor(lens, k - 1) - base);
                    assert(payload_area(s, k).subrange(payload_offset(lens, j) - base, payload_offset(lens, j) - base + lens[j])
                        =~= prev.subrange(payload_offset(lens, j) - base, payload_offset(lens, j) - base + lens[j]));
                } else {
                    assert forall|i: int| 0 <= i < lens.len() implies 0 <= #[trigger] lens[i] by {}
                    lemma_cursor_grows(lens, j);
                    assert(prev.len() == c - base);
                    assert(payload_area(s, k).subrange(payload_offset(lens, j) - base, payload_offset(lens, j) - base + lens[j])
                        =~= b);
                }
            }
        } else {
            assert(payload_area(s, k) =~= prev);
        }
    }
}

proof fn lemma_cursor_order(lens: Seq<int>, a: int, b: int)
    requires
        0 <= a <= b <= lens.len(),
        forall|i: int| 0 <= i < lens.len() ==> 0 <= #[trigger] lens[i],
    ensures
        cursor(lens, a) <= cursor(lens, b),
        a < b && lens[a] > 4 ==> payload_offset(lens, a) + lens[a] <= cursor(lens, b),
    decreases b - a,
{
    if a < b {
        lemma_cursor_order(lens, a, b - 1);
        if a < b - 1 {
            lemma_cursor_order(lens, a + 1, b);
        }
    }
}

proof fn lemma_directory_shape(s: Seq<(u16, Value)>, k: int)
    requires
        0 <= k <= s.len(),
    ensures
        directory(s, k).len() == 12 * k,
        forall|j: int| 0 <= j < k ==> #[trigger] directory(s, k).subrange(12 * j, 12 * j + 12) == entry_bytes(
            s[j].0,
            s[j].1@,
            payload_offset(lens_of(s), j),
        ),
    decreases k,
{
    if k > 0 {
        lemma_directory_shape(s, k - 1);
        lemma_directory_len(s, k);
        let prev = directory(s, k - 1);
        assert forall|j: int| 0 <= j < k implies #[trigger] directory(s, k).subrange(12 * j, 12 * j + 12)
            == entry_bytes(s[j].0, s[j].1@, payload_offset(lens_of(s), j)) by {
            if j < k - 1 {
                assert(directory(s, k).subrange(12 * j, 12 * j + 12) =~= prev.subrange(12 * j, 12 * j + 12));
            } else {
                assert(directory(s, k).subrange(12 * j, 12 * j + 12) =~= entry_bytes(
                    s[j].0,
                    s[j].1@,
                    payload_offset(lens_of(s), j),
                ));
            }
        }
    }
}

/// What a TIFF reader finds in a file the writer produced: the header points
/// at the directory at byte 8, which holds the entry count and then twelve
/// bytes per entry; an entry whose payload does not fit in four bytes points
/// at the place where that payload is stored; the strip follows the payloads.
#[verifier::rlimit(60)]
pub proof fn law_readers_find_every_entry_and_payload(s: Seq<(u16, Value)>, strip: Seq<u8>)
    requires
        s.len() <= 0xffff,
    ensures
        tiff_file(s, strip).subrange(0, 8) == tiff_header(),
        tiff_file(s, strip).subrange(8, 10) == le16(s.len() as u16),
        forall|k: int| 0 <= k < s.len() ==> #[trigger] tiff_file(s, strip).subrange(10 + 12 * k, 22 + 12 * k)
            == entry_bytes(s[k].0, s[k].1@, payload_offset(lens_of(s), k)),
        forall|k: int| 0 <= k < s.len() && lens_of(s)[k] > 4 ==> #[trigger] tiff_file(s, strip).subrange(
            payload_offset(lens_of(s), k),
            payload_offset(lens_of(s), k) + lens_of(s)[k],
        ) == spec_value_bytes(s[k].1@),
        tiff_file(s, strip).subrange(
            data_offset(lens_of(s)),
            data_offset(lens_of(s)) + strip.len(),
        ) == strip,
        tiff_file(s, strip).len() == data_offset(lens_of(s)) + strip.len(),
{
    let n = s.len() as int;
    let lens = lens_of(s);
    let file = tiff_file(s, strip);
    lemma_directory_shape(s, n);
    lemma_payload_area_shape(s, n);
    let head = tiff_header() + le16(n as u16);
    let dir = directory(s, n);
    let area = payload_area(s, n);
    let pad = zeros(data_offset(lens) - cursor(lens, n));
    assert(head.len() == 10);
    assert(file == head + dir + zeros(4) + area + pad + strip);
    assert(file.subrange(0, 8) =~= tiff_header());
    assert(file.subrange(8, 10) =~= le16(n as u16));
    assert forall|k: int| 0 <= k < n implies #[trigger] file.subrange(10 + 12 * k, 22 + 12 * k) == entry_bytes(
        s[k].0,
        s[k].1@,
        payload_offset(lens, k),
    ) by {
        assert(file.subrange(10 + 12 * k, 22 + 12 * k) =~= dir.subrange(12 * k, 12 * k + 12));
    }
    assert forall|k: int| 0 <= k < n && lens[k] > 4 implies #[trigger] file.subrange(
        payload_offset(lens, k),
        payload_offset(lens, k) + lens[k],
    ) == spec_value_bytes(s[k].1@) by {
        let base = ifd_end(n);
        assert forall|i: int| 0 <= i < lens.len() implies 0 <= #[trigger] lens[i] by {}
        lemma_cursor_grows(lens, k);
        lemma_cursor_order(lens, k, n);
        assert(file.subrange(payload_offset(lens, k), payload_offset(lens, k) + lens[k]) =~= area.subrange(
            payload_offset(lens, k) - base,
            payload_offset(lens, k) - base + lens[k],
        ));
    }
    assert(file.subrange(data_offset(lens), data_offset(lens) + strip.len()) =~= strip);
}

proof fn lemma_months_ordered(y: int, a: int, b: int)
    requires
        1 <= a <= b,
    ensures
        days_before_month(y, a) <= days_before_month(y, b),
    decreases b - a,
{
    if a < b {
        lemma_months_ordered(y, a, b - 1);
    }
}

proof fn lemma_years_ordered(a: int, b: int)
    requires
        a <= b,
    ensures
        days_before_year(a) <= days_before_year(b),
    decreases b - a,
{
    if a < b {
        lemma_years_ordered(a, b - 1);
        lemma_year_step(b - 1);
    }
}

proof fn lemma_date_within_year(y: int, m: int, d: int)
    requires
        is_valid_date(y, m, d),
    ensures
        days_before_year(y) <= day_number(y, m, d) < days_before_year(y + 1),
        days_before_month(y, m) <= days_before_month(y, m) + d - 1 < days_before_month(y, m + 1),
{
    lemma_year_step(y);
    lemma_months_fill_the_year(y);
    lemma_months_ordered(y, m + 1, 13);
    lemma_months_ordered(y, 1, m);
    assert(days_before_month(y, m + 1) == days_before_month(y, m) + month_length(y, m));
}

/// A day number names one date: two valid dates with the same day number are
/// the same date. Together with `civil_from_days`, this makes the date an
/// EXIF timestamp prints the only date of its day.
pub proof fn law_day_numbers_name_one_date(y1: int, m1: int, d1: int, y2: int, m2: int, d2: int)
    requires
        is_valid_date(y1, m1, d1),
        is_valid_date(y2, m2, d2),
        day_number(y1, m1, d1) == day_number(y2, m2, d2),
    ensures
        y1 == y2 && m1 == m2 && d1 == d2,
{
    lemma_date_within_year(y1, m1, d1);
    lemma_date_within_year(y2, m2, d2);
    if y1 < y2 {
        lemma_years_ordered(y1 + 1, y2);
    } else if y2 < y1 {
        lemma_years_ordered(y2 + 1, y1);
    }
    assert(y1 == y2);
    if m1 < m2 {
        lemma_months_ordered(y1, m1 + 1, m2);
    } else if m2 < m1 {
        lemma_months_ordered(y1, m2 + 1, m1);
    }
}


// ---------------------------------------------------------------------------
// Reading back what the writer wrote
// ---------------------------------------------------------------------------

proof fn lemma_le16_reads(b: Seq<u8>, at: int, x: u16)
    requires
        0 <= at,
        at + 2 <= b.len(),
        b.subrange(at, at + 2) == le16(x),
    ensures
        read16(b, true, at) == Some(x),
{
    assert(b[at] == le16(x)[0]);
    assert(b[at + 1] == le16(x)[1]);
    assert(x % 256 + 256 * (x / 256) == x);
}

proof fn lemma_le32_reads(b: Seq<u8>, at: int, x: u32)
    requires
        0 <= at,
        at + 4 <= b.len(),
        b.subrange(at, at + 4) == le32(x),
    ensures
        read32(b, true, at) == Some(x),
{
    assert(b[at] == le32(x)[0]);
    assert(b[at + 1] == le32(x)[1]);
    assert(b[at + 2] == le32(x)[2]);
    assert(b[at + 3] == le32(x)[3]);
    assert(x % 256 + 256 * ((x / 256) % 256) + 65536 * ((x / 65536) % 256) + 16777216 * (x / 16777216) == x)
        by (bit_vector);
}

/// Reading a 32-bit value only looks at its own four bytes.
proof fn lemma_read32_prefix(a: Seq<u8>, c: Seq<u8>, at: int)
    requires
        0 <= at,
        at + 4 <= a.len(),
    ensures
        read32(a + c, true, at) == read32(a, true, at),
{
    assert((a + c)[at] == a[at]);
    assert((a + c)[at + 1] == a[at + 1]);
    assert((a + c)[at + 2] == a[at + 2]);
    assert((a + c)[at + 3] == a[at + 3]);
}

proof fn lemma_rational_reads(x: Seq<(u32, u32)>, i: int)
    requires
        0 <= i < x.len(),
    ensures
        read32(rational_all(x), true, 8 * i) == Some(x[i].0),
        read32(rational_all(x), true, 8 * i + 4) == Some(x[i].1),
    decreases x.len(),
{
    let rest = x.drop_last();
    lemma_rational_all_len(rest);
    lemma_rational_all_len(x);
    let tail = le32(x.last().0) + le32(x.last().1);
    assert(rational_all(x) == rational_all(rest) + tail);
    if i < x.len() - 1 {
        lemma_rational_reads(rest, i);
        lemma_read32_prefix(rational_all(rest), tail, 8 * i);
        lemma_read32_prefix(rational_all(rest), tail, 8 * i + 4);
    } else {
        let b = rational_all(x);
        let base = 8 * i;
        assert(b.subrange(base, base + 4) =~= le32(x.last().0));
        assert(b.subrange(base + 4, base + 8) =~= le32(x.last().1));
        lemma_le32_reads(b, base, x.last().0);
        lemma_le32_reads(b, base + 4, x.last().1);
    }
}

proof fn lemma_srational_reads(x: Seq<(i32, i32)>, i: int)
    requires
        0 <= i < x.len(),
    ensures
        read32(srational_all(x), true, 8 * i) == Some(x[i].0 as u32),
        read32(srational_all(x), true, 8 * i + 4) == Some(x[i].1 as u32),
    decreases x.len(),
{
    let rest = x.drop_last();
    lemma_srational_all_len(rest);
    lemma_srational_all_len(x);
    let tail = le32(x.last().0 as u32) + le32(x.last().1 as u32);
    assert(srational_all(x) == srational_all(rest) + tail);
    if i < x.len() - 1 {
        lemma_srational_reads(rest, i);
        lemma_read32_prefix(srational_all(rest), tail, 8 * i);
        lemma_read32_prefix(srational_all(rest), tail, 8 * i + 4);
    } else {
        let b = srational_all(x);
        let base = 8 * i;
        assert(b.subrange(base, base + 4) =~= le32(x.last().0 as u32));
        assert(b.subrange(base + 4, base + 8) =~= le32(x.last().1 as u32));
        lemma_le32_reads(b, base, x.last().0 as u32);
        lemma_le32_reads(b, base + 4, x.last().1 as u32);
    }
}

/// The rationals a writer stored read back, when no denominator is zero.
proof fn lemma_fractions_read(x: Seq<(u32, u32)>, n: int)
    requires
        0 <= n <= x.len(),
        forall|j: int| 0 <= j < x.len() ==> #[trigger] x[j].1 != 0,
    ensures
        fractions(rational_all(x), true, n) == Some(x.take(n)),
    decreases n,
{
    if n > 0 {
        lemma_fractions_read(x, n - 1);
        lemma_rational_reads(x, n - 1);
        assert(x.take(n - 1).push(x[n - 1]) =~= x.take(n));
    }
}

/// Signed rationals as a reader takes them: numerator, and the denominator
/// read as unsigned.
pub open spec fn unsigned_denominators(x: Seq<(i32, i32)>) -> Seq<(i32, u32)> {
    x.map_values(|p: (i32, i32)| (p.0, p.1 as u32))
}

proof fn lemma_signed_fractions_read(x: Seq<(i32, i32)>, n: int)
    requires
        0 <= n <= x.len(),
        forall|j: int| 0 <= j < x.len() ==> #[trigger] x[j].1 != 0,
    ensures
        fractions(srational_all(x), true, n) matches Some(f) && signed_fractions(f) == unsigned_denominators(
            x.take(n),
        ),
    decreases n,
{
    if n > 0 {
        lemma_signed_fractions_read(x, n - 1);
        lemma_srational_reads(x, n - 1);
        let d = x[n - 1].1;
        assert(d as u32 != 0) by (bit_vector)
            requires
                d != 0,
        ;
        let v = x[n - 1].0;
        assert((v as u32) as i32 == v) by (bit_vector);
        let f = fractions(srational_all(x), true, n - 1)->Some_0;
        assert(signed_fractions(f).len() == f.len());
        assert(unsigned_denominators(x.take(n - 1)).len() == n - 1);
        assert(f.len() == n - 1);
        let g = f.push((v as u32, d as u32));
        assert(fraction_at(srational_all(x), true, n - 1) == Some((v as u32, d as u32)));
        assert(fractions(srational_all(x), true, n) == Some(g));
        assert forall|j: int| 0 <= j < n implies #[trigger] signed_fractions(g)[j] == unsigned_denominators(
            x.take(n),
        )[j] by {
            if j < n - 1 {
                assert(signed_fractions(f)[j] == unsigned_denominators(x.take(n - 1))[j]);
                assert(g[j] == f[j]);
            }
        }
        assert(signed_fractions(g) =~= unsigned_denominators(x.take(n)));
    } else {
        assert(signed_fractions(Seq::<(u32, u32)>::empty()) =~= unsigned_denominators(x.take(0)));
    }
}


/// What reading one written entry does to the colour tags read so far.
pub open spec fn colour_step(tags: ColorTagsModel, tag: u16, v: TagValue) -> ColorTagsModel {
    match v {
        TagValue::SRational(x) => if tag == 50721 && x.len() == 9 {
            (Some(unsigned_denominators(x)), tags.1, tags.2)
        } else {
            tags
        },
        TagValue::Short(x) => if tag == 50778 && x.len() == 1 {
            (tags.0, Some(x[0]), tags.2)
        } else {
            tags
        },
        TagValue::Rational(x) => if tag == 50728 && x.len() == 3 {
            (tags.0, tags.1, Some(x))
        } else {
            tags
        },
        _ => tags,
    }
}

/// The colour tags read from the first `k` written entries.
pub open spec fn colour_tags_upto(s: Seq<(u16, Value)>, k: int) -> ColorTagsModel
    decreases k,
{
    if k <= 0 {
        (None, None, None)
    } else {
        colour_step(colour_tags_upto(s, k - 1), s[k - 1].0, s[k - 1].1@)
    }
}

/// Every colour matrix and neutral among the entries has denominators a
/// reader accepts.
pub open spec fn colour_rationals_readable(s: Seq<(u16, Value)>) -> bool {
    forall|k: int| #![trigger s[k]] 0 <= k < s.len() ==> readable_denominators(s[k].0, s[k].1@)
}

/// A colour matrix or neutral value has no zero denominator.
pub open spec fn readable_denominators(tag: u16, v: TagValue) -> bool {
    match v {
        TagValue::SRational(x) => tag == 50721 ==> forall|i: int| 0 <= i < x.len() ==> #[trigger] x[i].1 != 0,
        TagValue::Rational(x) => tag == 50728 ==> forall|i: int| 0 <= i < x.len() ==> #[trigger] x[i].1 != 0,
        _ => true,
    }
}

proof fn lemma_count_of_small(len: nat)
    requires
        len <= u32::MAX,
    ensures
        count_of(len) == len,
{
}

/// Where the directory and the payload area sit in a written file.
proof fn lemma_file_parts(s: Seq<(u16, Value)>, strip: Seq<u8>)
    requires
        s.len() <= 0xffff,
    ensures
        ({
            let b = tiff_file(s, strip);
            let n = s.len() as int;
            let lens = lens_of(s);
            &&& b.len() == data_offset(lens) + strip.len()
            &&& cursor(lens, n) <= data_offset(lens)
            &&& ifd_end(n) <= cursor(lens, n)
            &&& b[0] == 0x49 && b[1] == 0x49
            &&& b.subrange(2, 4) == le16(42)
            &&& b.subrange(4, 8) == le32(8)
            &&& b.subrange(8, 10) == le16(n as u16)
            &&& forall|x: int| 0 <= x < 12 * n ==> b[10 + x] == #[trigger] directory(s, n)[x]
            &&& forall|y: int| 0 <= y < payload_area(s, n).len() ==> b[ifd_end(n) + y] == #[trigger] payload_area(
                s,
                n,
            )[y]
        }),
{
    let n = s.len() as int;
    let lens = lens_of(s);
    lemma_directory_shape(s, n);
    lemma_payload_area_shape(s, n);
    assert forall|i: int| 0 <= i < lens.len() implies 0 <= #[trigger] lens[i] by {}
    lemma_cursor_grows(lens, n);
    let head = tiff_header() + le16(n as u16);
    let dir = directory(s, n);
    let area = payload_area(s, n);
    let pad = zeros(data_offset(lens) - cursor(lens, n));
    let b = tiff_file(s, strip);
    assert(b == head + dir + zeros(4) + area + pad + strip);
    assert(head.len() == 10);
    assert(b.subrange(2, 4) =~= le16(42));
    assert(b.subrange(4, 8) =~= le32(8));
    assert(b.subrange(8, 10) =~= le16(n as u16));
    assert forall|x: int| 0 <= x < 12 * n implies b[10 + x] == #[trigger] dir[x] by {}
    assert forall|y: int| 0 <= y < area.len() implies b[ifd_end(n) + y] == #[trigger] area[y] by {}
}

proof fn lemma_entry_bytes_parts(tag: u16, v: TagValue, off: int)
    ensures
        ({
            let eb = entry_bytes(tag, v, off);
            let bytes = spec_value_bytes(v);
            &&& eb.len() == 12
            &&& eb.subrange(0, 2) == le16(tag)
            &&& eb.subrange(2, 4) == le16(spec_type_code(v))
            &&& eb.subrange(4, 8) == le32(spec_count(v))
            &&& bytes.len() > 4 ==> eb.subrange(8, 12) == le32(off as u32)
            &&& bytes.len() <= 4 ==> eb.subrange(8, 8 + bytes.len() as int) == bytes
        }),
{
    let eb = entry_bytes(tag, v, off);
    let bytes = spec_value_bytes(v);
    assert(eb.subrange(0, 2) =~= le16(tag));
    assert(eb.subrange(2, 4) =~= le16(spec_type_code(v)));
    assert(eb.subrange(4, 8) =~= le32(spec_count(v)));
    if bytes.len() > 4 {
        assert(eb.subrange(8, 12) =~= le32(off as u32));
    } else {
        assert(eb.subrange(8, 8 + bytes.len() as int) =~= bytes);
    }
}

/// The twelve bytes of written entry `j` are where a reader looks for them.
proof fn lemma_entry_at(s: Seq<(u16, Value)>, strip: Seq<u8>, j: int)
    requires
        s.len() <= 0xffff,
        0 <= j < s.len(),
    ensures
        10 + 12 * j + 12 <= tiff_file(s, strip).len(),
        tiff_file(s, strip).subrange(10 + 12 * j, 22 + 12 * j) == entry_bytes(
            s[j].0,
            s[j].1@,
            payload_offset(lens_of(s), j),
        ),
{
    let b = tiff_file(s, strip);
    let n = s.len() as int;
    lemma_file_parts(s, strip);
    lemma_directory_shape(s, n);
    let eb = entry_bytes(s[j].0, s[j].1@, payload_offset(lens_of(s), j));
    let dir = directory(s, n);
    assert(dir.subrange(12 * j, 12 * j + 12) == eb);
    assert forall|i: int| 0 <= i < 12 implies b.subrange(10 + 12 * j, 22 + 12 * j)[i] == #[trigger] eb[i] by {
        assert(dir[12 * j + i] == dir.subrange(12 * j, 12 * j + 12)[i]);
        assert(b[10 + (12 * j + i)] == dir[12 * j + i]);
    }
    assert(b.subrange(10 + 12 * j, 22 + 12 * j) =~= eb);
}

/// The out-of-line payload of written entry `j` is where its offset points.
proof fn lemma_payload_at(s: Seq<(u16, Value)>, strip: Seq<u8>, j: int)
    requires
        s.len() <= 0xffff,
        0 <= j < s.len(),
        lens_of(s)[j] > 4,
    ensures
        payload_offset(lens_of(s), j) + lens_of(s)[j] <= tiff_file(s, strip).len(),
        tiff_file(s, strip).subrange(payload_offset(lens_of(s), j), payload_offset(lens_of(s), j) + lens_of(
            s,
        )[j]) == spec_value_bytes(s[j].1@),
{
    let b = tiff_file(s, strip);
    let n = s.len() as int;
    let lens = lens_of(s);
    lemma_file_parts(s, strip);
    assert forall|i: int| 0 <= i < lens.len() implies 0 <= #[trigger] lens[i] by {}
    lemma_cursor_order(lens, j, n);
    lemma_cursor_grows(lens, j);
    lemma_payload_area_shape(s, n);
    let base = ifd_end(n);
    let area = payload_area(s, n);
    let off = payload_offset(lens, j);
    let bytes = spec_value_bytes(s[j].1@);
    assert(payload_offset(lens, j) >= cursor(lens, j));
    assert(area.subrange(off - base, off - base + lens[j]) == bytes);
    assert forall|i: int| 0 <= i < lens[j] implies b.subrange(off, off + lens[j])[i] == #[trigger] bytes[i] by {
        assert(area[off - base + i] == area.subrange(off - base, off - base + lens[j])[i]);
        assert(b[base + (off - base + i)] == area[off - base + i]);
    }
    assert(b.subrange(off, off + lens[j]) =~= bytes);
}

/// What a reader finds in the entry at `e` of `b` when that entry holds the
/// bytes the writer emits for `tag` and `v`.
#[verifier::spinoff_prover]
proof fn lemma_scan_written_entry(b: Seq<u8>, j: int, tag: u16, v: TagValue, off: int, tags: ColorTagsModel)
    requires
        0 <= j,
        10 + 12 * j + 12 <= b.len(),
        b.subrange(10 + 12 * j, 22 + 12 * j) == entry_bytes(tag, v, off),
        spec_value_bytes(v).len() <= u32::MAX,
        spec_value_bytes(v).len() > 4 ==> 0 <= off && off + spec_value_bytes(v).len() <= b.len() && off
            <= u32::MAX && b.subrange(off, off + spec_value_bytes(v).len()) == spec_value_bytes(v),
        readable_denominators(tag, v),
    ensures
        scan_entry(b, true, 8, j, tags) == Some(colour_step(tags, tag, v)),
{
    let e = 10 + 12 * j;
    assert(8 + 2 + 12 * j == e);
    let bytes = spec_value_bytes(v);
    let eb = entry_bytes(tag, v, off);
    lemma_entry_bytes_parts(tag, v, off);
    let w = b.subrange(e, e + 12);
    assert(b.subrange(e, e + 2) =~= w.subrange(0, 2));
    assert(b.subrange(e + 2, e + 4) =~= w.subrange(2, 4));
    assert(b.subrange(e + 4, e + 8) =~= w.subrange(4, 8));
    lemma_le16_reads(b, e, tag);
    lemma_le16_reads(b, e + 2, spec_type_code(v));
    lemma_le32_reads(b, e + 4, spec_count(v));
    if bytes.len() > 4 {
        assert(b.subrange(e + 8, e + 12) =~= w.subrange(8, 12));
        lemma_le32_reads(b, e + 8, off as u32);
    }
    match v {
        TagValue::SRational(x) => {
            lemma_srational_all_len(x);
            lemma_count_of_small(x.len());
            if tag == 50721 && x.len() == 9 {
                lemma_signed_fractions_read(x, 9);
                assert(x.take(9) =~= x);
            }
        },
        TagValue::Rational(x) => {
            lemma_rational_all_len(x);
            lemma_count_of_small(x.len());
            if tag == 50728 && x.len() == 3 {
                lemma_fractions_read(x, 3);
                assert(x.take(3) =~= x);
            }
        },
        TagValue::Short(x) => {
            lemma_le16_all_len(x);
            lemma_count_of_small(x.len());
            if tag == 50778 && x.len() == 1 {
                assert(le16_all(x) =~= le16(x[0]));
                let raw = b.subrange(e + 8, e + 10);
                assert(raw =~= w.subrange(8, 10));
                assert(w.subrange(8, 10) == bytes);
                assert(raw.subrange(0, 2) =~= le16(x[0]));
                lemma_le16_reads(raw, 0, x[0]);
            }
        },
        TagValue::Long(x) => {
            lemma_le32_all_len(x);
            lemma_count_of_small(x.len());
        },
        _ => {},
    }
}

/// Entry `j` of `s` and its payload sit in `b` where the writer puts them.
#[verifier::opaque]
pub open spec fn written_entry_at(b: Seq<u8>, s: Seq<(u16, Value)>, j: int) -> bool {
    let lens = lens_of(s);
    let off = payload_offset(lens, j);
    &&& 10 + 12 * j + 12 <= b.len()
    &&& b.subrange(10 + 12 * j, 22 + 12 * j) == entry_bytes(s[j].0, s[j].1@, off)
    &&& lens[j] > 4 ==> 0 <= off && off + lens[j] <= b.len() && b.subrange(off, off + lens[j]) == spec_value_bytes(
        s[j].1@,
    )
}

proof fn lemma_every_entry_written(s: Seq<(u16, Value)>, strip: Seq<u8>)
    requires
        s.len() <= 0xffff,
    ensures
        forall|j: int| 0 <= j < s.len() ==> #[trigger] written_entry_at(tiff_file(s, strip), s, j),
{
    assert forall|j: int| 0 <= j < s.len() implies #[trigger] written_entry_at(tiff_file(s, strip), s, j) by {
        reveal(written_entry_at);
        lemma_entry_at(s, strip, j);
        let lens = lens_of(s);
        assert forall|i: int| 0 <= i < lens.len() implies 0 <= #[trigger] lens[i] by {}
        lemma_cursor_grows(lens, j);
        if lens[j] > 4 {
            lemma_payload_at(s, strip, j);
        }
    }
}

proof fn lemma_scan_step(b: Seq<u8>, s: Seq<(u16, Value)>, j: int, tags: ColorTagsModel)
    requires
        0 <= j < s.len(),
        written_entry_at(b, s, j),
        b.len() <= u32::MAX,
        lens_of(s)[j] <= u32::MAX,
        readable_denominators(s[j].0, s[j].1@),
    ensures
        scan_entry(b, true, 8, j, tags) == Some(colour_step(tags, s[j].0, s[j].1@)),
{
    reveal(written_entry_at);
    let lens = lens_of(s);
    assert(lens[j] == spec_value_bytes(s[j].1@).len());
    assert forall|i: int| 0 <= i < lens.len() implies 0 <= #[trigger] lens[i] by {}
    lemma_cursor_grows(lens, j);
    lemma_scan_written_entry(b, j, s[j].0, s[j].1@, payload_offset(lens, j), tags);
}

/// Reading the first `k` entries of a written file gathers the colour tags
/// of those entries.
proof fn lemma_scan_entries_written(b: Seq<u8>, s: Seq<(u16, Value)>, k: int)
    requires
        forall|j: int| 0 <= j < s.len() ==> #[trigger] written_entry_at(b, s, j),
        forall|j: int| 0 <= j < s.len() ==> #[trigger] lens_of(s)[j] <= u32::MAX,
        b.len() <= u32::MAX,
        colour_rationals_readable(s),
        0 <= k <= s.len(),
    ensures
        scan_entries(b, true, 8, k) == Some(colour_tags_upto(s, k)),
    decreases k,
{
    if k > 0 {
        lemma_scan_entries_written(b, s, k - 1);
        let j = k - 1;
        assert(written_entry_at(b, s, j));
        assert(lens_of(s)[j] <= u32::MAX);
        assert(readable_denominators(s[j].0, s[j].1@));
        lemma_scan_step(b, s, j, colour_tags_upto(s, j));
    }
}

/// What a reader takes from a `ColorMatrix1` entry with value `v`.
pub open spec fn matrix_read(v: TagValue) -> Option<Seq<(i32, u32)>> {
    match v {
        TagValue::SRational(x) => if x.len() == 9 { Some(unsigned_denominators(x)) } else { None },
        _ => None,
    }
}

/// What a reader takes from a `CalibrationIlluminant1` entry with value `v`.
pub open spec fn illuminant_read(v: TagValue) -> Option<u16> {
    match v {
        TagValue::Short(x) => if x.len() == 1 { Some(x[0]) } else { None },
        _ => None,
    }
}

/// What a reader takes from an `AsShotNeutral` entry with value `v`.
pub open spec fn neutral_read(v: TagValue) -> Option<Seq<(u32, u32)>> {
    match v {
        TagValue::Rational(x) => if x.len() == 3 { Some(x) } else { None },
        _ => None,
    }
}

/// With distinct tags, each colour tag read from the first `k` entries comes
/// from the one entry that carries that tag, if any does.
proof fn lemma_colour_components(s: Seq<(u16, Value)>, k: int)
    requires
        tags_distinct(s),
        0 <= k <= s.len(),
    ensures
        forall|j: int| 0 <= j < k && #[trigger] s[j].0 == 50721 ==> colour_tags_upto(s, k).0 == matrix_read(s[j].1@),
        forall|j: int| 0 <= j < k && #[trigger] s[j].0 == 50778 ==> colour_tags_upto(s, k).1 == illuminant_read(
            s[j].1@,
        ),
        forall|j: int| 0 <= j < k && #[trigger] s[j].0 == 50728 ==> colour_tags_upto(s, k).2 == neutral_read(s[j].1@),
        (forall|j: int| 0 <= j < k ==> #[trigger] s[j].0 != 50721) ==> colour_tags_upto(s, k).0 is None,
        (forall|j: int| 0 <= j < k ==> #[trigger] s[j].0 != 50778) ==> colour_tags_upto(s, k).1 is None,
        (forall|j: int| 0 <= j < k ==> #[trigger] s[j].0 != 50728) ==> colour_tags_upto(s, k).2 is None,
    decreases k,
{
    if k > 0 {
        lemma_colour_components(s, k - 1);
        let t = colour_tags_upto(s, k - 1);
        let tag = s[k - 1].0;
        let v = s[k - 1].1@;
        assert(colour_tags_upto(s, k) == colour_step(t, tag, v));
        assert forall|j: int| 0 <= j < k - 1 implies #[trigger] s[j].0 != tag by {}
        if tag == 50721 {
            assert(t.0 is None) by {
                assert forall|j: int| 0 <= j < k - 1 implies #[trigger] s[j].0 != 50721 by {}
            }
        }
        if tag == 50778 {
            assert(t.1 is None) by {
                assert forall|j: int| 0 <= j < k - 1 implies #[trigger] s[j].0 != 50778 by {}
            }
        }
        if tag == 50728 {
            assert(t.2 is None) by {
                assert forall|j: int| 0 <= j < k - 1 implies #[trigger] s[j].0 != 50728 by {}
            }
        }
    }
}

/// Where the colour entries of a mosaic DNG sit among its directory entries,
/// and that no other entry carries their tags.
proof fn lemma_cfa_colour_entries(req: &CfaDngRequest, area: [u32; 4])
    ensures
        ({
            let t = cfa_tags(req, area);
            let ill = TagValue::Short(seq![calibration_illuminant(req.xyz_to_camera is Some, req.calibration_illuminant)]);
            &&& t.len() <= 27
            &&& forall|i: int| 0 <= i < t.len() && #[trigger] t[i].0 == 50721 ==> req.xyz_to_camera is Some
                && t[i].1 == TagValue::SRational(srationals(req.xyz_to_camera->0@))
            &&& forall|i: int| 0 <= i < t.len() && #[trigger] t[i].0 == 50728 ==> req.as_shot_neutral is Some
                && t[i].1 == TagValue::Rational(rationals(req.as_shot_neutral->0@))
            &&& forall|i: int| 0 <= i < t.len() && #[trigger] t[i].0 == 50778 ==> t[i].1 == ill
            &&& req.xyz_to_camera is Some ==> exists|i: int| 0 <= i < t.len() && #[trigger] t[i] == (
                50721u16,
                TagValue::SRational(srationals(req.xyz_to_camera->0@)),
            )
            &&& req.as_shot_neutral is Some ==> exists|i: int| 0 <= i < t.len() && #[trigger] t[i] == (
                50728u16,
                TagValue::Rational(rationals(req.as_shot_neutral->0@)),
            )
            &&& exists|i: int| 0 <= i < t.len() && #[trigger] t[i] == (50778u16, ill)
        }),
{
    let h = cfa_head_tags(req);
    let b = cfa_body_tags(req);
    let tl = cfa_tail_tags(req, area);
    let t = cfa_tags(req, area);
    let ill = TagValue::Short(seq![calibration_illuminant(req.xyz_to_camera is Some, req.calibration_illuminant)]);
    let matrix: Seq<(u16, TagValue)> = match req.xyz_to_camera {
        Some(m) => seq![(50721u16, TagValue::SRational(srationals(m@)))],
        None => Seq::empty(),
    };
    let neutral: Seq<(u16, TagValue)> = match req.as_shot_neutral {
        Some(n) => seq![(50728u16, TagValue::Rational(rationals(n@)))],
        None => Seq::empty(),
    };
    let last = seq![
        (50778u16, ill),
        (50829u16, TagValue::Long(seq![area[1], area[0], (area[1] + area[3]) as u32, (area[0] + area[2]) as u32])),
    ];
    assert(tl == matrix + neutral + last);
    assert forall|i: int| 0 <= i < h.len() implies #[trigger] h[i].0 <= 270 by {
        if i == 0 {} else if i == 1 {} else if i == 2 {} else if i == 3 {} else if i == 4 {} else if i == 5 {} else {}
    }
    assert forall|i: int| 0 <= i < b.len() implies #[trigger] b[i].0 <= 50717 by {
        if i < 8 {
            if i == 0 {} else if i == 1 {} else if i == 2 {} else if i == 3 {} else if i == 4 {} else if i == 5 {} else if i == 6 {} else {}
        } else {
            if i == 8 {} else if i == 9 {} else if i == 10 {} else if i == 11 {} else if i == 12 {} else if i == 13 {} else if i == 14 {} else {}
        }
    }
    let hb: int = h.len() as int + b.len() as int;
    assert(t == h + b + tl);
    assert forall|i: int| 0 <= i < hb implies #[trigger] t[i].0 <= 50717 by {
        if i < h.len() {
            assert(t[i] == h[i]);
        } else {
            assert(t[i] == b[i - h.len()]);
        }
    }
    assert forall|i: int| hb <= i < t.len() implies #[trigger] t[i] == tl[i - hb] by {}
    let m0 = matrix.len() as int;
    let n0 = neutral.len() as int;
    assert forall|i: int| 0 <= i < t.len() && #[trigger] t[i].0 == 50721 implies req.xyz_to_camera is Some
        && t[i].1 == TagValue::SRational(srationals(req.xyz_to_camera->0@)) by {
        if i >= hb {
            let q = i - hb;
            assert(tl[q] == t[i]);
            if q < m0 {
                assert(tl[q] == matrix[q]);
            } else if q < m0 + n0 {
                assert(tl[q] == neutral[q - m0]);
            } else {
                assert(tl[q] == last[q - m0 - n0]);
            }
        }
    }
    assert forall|i: int| 0 <= i < t.len() && #[trigger] t[i].0 == 50728 implies req.as_shot_neutral is Some
        && t[i].1 == TagValue::Rational(rationals(req.as_shot_neutral->0@)) by {
        if i >= hb {
            let q = i - hb;
            assert(tl[q] == t[i]);
            if q < m0 {
                assert(tl[q] == matrix[q]);
            } else if q < m0 + n0 {
                assert(tl[q] == neutral[q - m0]);
            } else {
                assert(tl[q] == last[q - m0 - n0]);
            }
        }
    }
    assert forall|i: int| 0 <= i < t.len() && #[trigger] t[i].0 == 50778 implies t[i].1 == ill by {
        if i >= hb {
            let q = i - hb;
            assert(tl[q] == t[i]);
            if q < m0 {
                assert(tl[q] == matrix[q]);
            } else if q < m0 + n0 {
                assert(tl[q] == neutral[q - m0]);
            } else {
                assert(tl[q] == last[q - m0 - n0]);
            }
        }
    }
    if req.xyz_to_camera is Some {
        assert(t[hb] == tl[0]);
        assert(tl[0] == matrix[0]);
    }
    if req.as_shot_neutral is Some {
        assert(t[hb + m0] == tl[m0]);
        assert(tl[m0] == neutral[0]);
    }
    assert(t[hb + m0 + n0] == tl[m0 + n0]);
    assert(tl[m0 + n0] == last[0]);
}

/// What the colour reader gives back of a file holding the directory `s`.
proof fn lemma_read_written_file(s: Seq<(u16, Value)>, strip: Seq<u8>)
    requires
        s.len() < 512,
        tiff_file(s, strip).len() <= u32::MAX,
        colour_rationals_readable(s),
    ensures
        ({
            let t = colour_tags_upto(s, s.len() as int);
            spec_read_color_tags(tiff_file(s, strip)) == if t.0 is Some || t.1 is Some || t.2 is Some {
                Some(t)
            } else {
                None
            }
        }),
{
    let b = tiff_file(s, strip);
    let n = s.len() as int;
    let lens = lens_of(s);
    lemma_file_parts(s, strip);
    lemma_le16_reads(b, 2, 42);
    lemma_le32_reads(b, 4, 8);
    lemma_le16_reads(b, 8, n as u16);
    assert forall|i: int| 0 <= i < lens.len() implies 0 <= #[trigger] lens[i] by {}
    assert forall|j: int| 0 <= j < s.len() implies #[trigger] lens_of(s)[j] <= u32::MAX by {
        if lens[j] > 4 {
            lemma_payload_at(s, strip, j);
            lemma_cursor_grows(lens, j);
        }
    }
    lemma_every_entry_written(s, strip);
    lemma_scan_entries_written(b, s, n);
}

/// The colour tags a mosaic DNG written for `req` declares, as a reader
/// takes them: the matrix with its denominators read as unsigned, the
/// calibration illuminant, and the neutral.
pub open spec fn written_colour_tags(req: &CfaDngRequest) -> ColorTagsModel {
    (
        match req.xyz_to_camera {
            Some(m) => Some(unsigned_denominators(srationals(m@))),
            None => None,
        },
        Some(calibration_illuminant(req.xyz_to_camera is Some, req.calibration_illuminant)),
        match req.as_shot_neutral {
            Some(n) => Some(rationals(n@)),
            None => None,
        },
    )
}

/// The directory entries `entries` declare the colour tags `t`: the entry
/// carrying each colour tag reads as the matching part of `t`, with no zero
/// denominator, and a part of `t` is `None` when no entry carries its tag.
pub open spec fn entries_declare(entries: Seq<(u16, TagValue)>, t: ColorTagsModel) -> bool {
    &&& forall|i: int| 0 <= i < entries.len() && #[trigger] entries[i].0 == 50721 ==> matrix_read(entries[i].1)
        == t.0 && readable_denominators(50721, entries[i].1)
    &&& forall|i: int| 0 <= i < entries.len() && #[trigger] entries[i].0 == 50778 ==> illuminant_read(
        entries[i].1,
    ) == t.1
    &&& forall|i: int| 0 <= i < entries.len() && #[trigger] entries[i].0 == 50728 ==> neutral_read(entries[i].1)
        == t.2 && readable_denominators(50728, entries[i].1)
    &&& (forall|i: int| 0 <= i < entries.len() ==> #[trigger] entries[i].0 != 50721) ==> t.0 is None
    &&& (forall|i: int| 0 <= i < entries.len() ==> #[trigger] entries[i].0 != 50778) ==> t.1 is None
    &&& (forall|i: int| 0 <= i < entries.len() ==> #[trigger] entries[i].0 != 50728) ==> t.2 is None
}

proof fn lemma_declared_readable(s: Seq<(u16, Value)>, entries: Seq<(u16, TagValue)>, rows: u32, strip_len: nat, t: ColorTagsModel)
    requires
        is_tiff_arrangement(s, entries, rows, strip_len),
        entries_declare(entries, t),
    ensures
        colour_rationals_readable(s),
{
    assert forall|k: int| 0 <= k < s.len() implies readable_denominators(#[trigger] s[k].0, s[k].1@) by {
        if s[k].0 == 50721 || s[k].0 == 50728 {
            let i = choose|i: int| 0 <= i < entries.len() && #[trigger] entries[i] == (s[k].0, s[k].1@);
            assert(entries[i].0 == s[k].0);
        }
    }
}

proof fn lemma_declared_matrix(s: Seq<(u16, Value)>, entries: Seq<(u16, TagValue)>, rows: u32, strip_len: nat, t: ColorTagsModel)
    requires
        is_tiff_arrangement(s, entries, rows, strip_len),
        tags_distinct(s),
        entries_declare(entries, t),
    ensures
        colour_tags_upto(s, s.len() as int).0 == t.0,
{
    let n = s.len() as int;
    lemma_colour_components(s, n);
    if exists|k: int| 0 <= k < n && #[trigger] s[k].0 == 50721 {
        let k = choose|k: int| 0 <= k < n && #[trigger] s[k].0 == 50721;
        let i = choose|i: int| 0 <= i < entries.len() && #[trigger] entries[i] == (s[k].0, s[k].1@);
        assert(entries[i].0 == 50721);
    } else {
        assert forall|i: int| 0 <= i < entries.len() implies #[trigger] entries[i].0 != 50721 by {
            if entries[i].0 == 50721 {
                let k = choose|k: int| 0 <= k < s.len() && s[k].0 == entries[i].0 && s[k].1@ == entries[i].1;
                assert(s[k].0 == 50721);
            }
        }
    }
}

proof fn lemma_declared_illuminant(s: Seq<(u16, Value)>, entries: Seq<(u16, TagValue)>, rows: u32, strip_len: nat, t: ColorTagsModel)
    requires
        is_tiff_arrangement(s, entries, rows, strip_len),
        tags_distinct(s),
        entries_declare(entries, t),
    ensures
        colour_tags_upto(s, s.len() as int).1 == t.1,
{
    let n = s.len() as int;
    lemma_colour_components(s, n);
    if exists|k: int| 0 <= k < n && #[trigger] s[k].0 == 50778 {
        let k = choose|k: int| 0 <= k < n && #[trigger] s[k].0 == 50778;
        let i = choose|i: int| 0 <= i < entries.len() && #[trigger] entries[i] == (s[k].0, s[k].1@);
        assert(entries[i].0 == 50778);
    } else {
        assert forall|i: int| 0 <= i < entries.len() implies #[trigger] entries[i].0 != 50778 by {
            if entries[i].0 == 50778 {
                let k = choose|k: int| 0 <= k < s.len() && s[k].0 == entries[i].0 && s[k].1@ == entries[i].1;
                assert(s[k].0 == 50778);
            }
        }
    }
}

proof fn lemma_declared_neutral(s: Seq<(u16, Value)>, entries: Seq<(u16, TagValue)>, rows: u32, strip_len: nat, t: ColorTagsModel)
    requires
        is_tiff_arrangement(s, entries, rows, strip_len),
        tags_distinct(s),
        entries_declare(entries, t),
    ensures
        colour_tags_upto(s, s.len() as int).2 == t.2,
{
    let n = s.len() as int;
    lemma_colour_components(s, n);
    if exists|k: int| 0 <= k < n && #[trigger] s[k].0 == 50728 {
        let k = choose|k: int| 0 <= k < n && #[trigger] s[k].0 == 50728;
        let i = choose|i: int| 0 <= i < entries.len() && #[trigger] entries[i] == (s[k].0, s[k].1@);
        assert(entries[i].0 == 50728);
    } else {
        assert forall|i: int| 0 <= i < entries.len() implies #[trigger] entries[i].0 != 50728 by {
            if entries[i].0 == 50728 {
                let k = choose|k: int| 0 <= k < s.len() && s[k].0 == entries[i].0 && s[k].1@ == entries[i].1;
                assert(s[k].0 == 50728);
            }
        }
    }
}

/// A reader gives back the colour tags that the entries of a written file
/// declare.
proof fn lemma_declared_read_back(out: Seq<u8>, entries: Seq<(u16, TagValue)>, rows: u32, strip: Seq<u8>, t: ColorTagsModel)
    requires
        is_tiff_of(out, entries, rows, strip),
        out.len() <= u32::MAX,
        entries.len() < 509,
        entries_declare(entries, t),
        t.1 is Some,
    ensures
        spec_read_color_tags(out) == Some(t),
{
    let s = choose|s: Seq<(u16, Value)>| is_tiff_arrangement(s, entries, rows, strip.len()) && out == tiff_file(
        s,
        strip,
    );
    lemma_ascending_distinct(s);
    lemma_declared_readable(s, entries, rows, strip.len(), t);
    lemma_read_written_file(s, strip);
    lemma_declared_matrix(s, entries, rows, strip.len(), t);
    lemma_declared_illuminant(s, entries, rows, strip.len(), t);
    lemma_declared_neutral(s, entries, rows, strip.len(), t);
    assert(colour_tags_upto(s, s.len() as int) == t);
}

/// The entries of a mosaic DNG declare the request's colour calibration.
#[verifier::spinoff_prover]
proof fn lemma_cfa_declares(req: &CfaDngRequest, area: [u32; 4])
    requires
        req.xyz_to_camera matches Some(m) ==> forall|i: int| 0 <= i < 9 ==> #[trigger] m[i][1] != 0,
        req.as_shot_neutral matches Some(v) ==> forall|i: int| 0 <= i < 3 ==> #[trigger] v[i][1] != 0,
    ensures
        entries_declare(cfa_tags(req, area), written_colour_tags(req)),
{
    let entries = cfa_tags(req, area);
    let t = written_colour_tags(req);
    lemma_cfa_colour_entries(req, area);
    assert forall|i: int| 0 <= i < entries.len() && #[trigger] entries[i].0 == 50721 implies matrix_read(entries[i].1)
        == t.0 && readable_denominators(50721, entries[i].1) by {
        let m = req.xyz_to_camera->0;
        let x = srationals(m@);
        assert forall|j: int| 0 <= j < x.len() implies #[trigger] x[j].1 != 0 by {
            assert(x[j] == (m@[j][0], m@[j][1]));
        }
    }
    assert forall|i: int| 0 <= i < entries.len() && #[trigger] entries[i].0 == 50728 implies neutral_read(entries[i].1)
        == t.2 && readable_denominators(50728, entries[i].1) by {
        let v = req.as_shot_neutral->0;
        let x = rationals(v@);
        assert forall|j: int| 0 <= j < x.len() implies #[trigger] x[j].1 != 0 by {
            assert(x[j] == (v@[j][0], v@[j][1]));
        }
    }
    if req.xyz_to_camera is Some {
        let i = choose|i: int| 0 <= i < entries.len() && #[trigger] entries[i] == (
            50721u16,
            TagValue::SRational(srationals(req.xyz_to_camera->0@)),
        );
        assert(entries[i].0 == 50721);
    }
    if req.as_shot_neutral is Some {
        let i = choose|i: int| 0 <= i < entries.len() && #[trigger] entries[i] == (
            50728u16,
            TagValue::Rational(rationals(req.as_shot_neutral->0@)),
        );
        assert(entries[i].0 == 50728);
    }
    let ill = TagValue::Short(seq![calibration_illuminant(req.xyz_to_camera is Some, req.calibration_illuminant)]);
    let i = choose|i: int| 0 <= i < entries.len() && #[trigger] entries[i] == (50778u16, ill);
    assert(entries[i].0 == 50778);
}

/// Reading the colour tags of a mosaic DNG gives back the calibration it was
/// written with: the colour matrix and the neutral when the request has
/// them, and the calibration illuminant (uncalibrated without a matrix, D65
/// when none is stated). It holds for files of classic-TIFF size whose
/// rationals have no zero denominator.
pub proof fn law_mosaic_colour_tags_read_back(req: &CfaDngRequest, out: Seq<u8>)
    requires
        is_tiff_of(out, cfa_tags(req, evened(req.active_area)), req.height, le16_all(req.samples@)),
        out.len() <= u32::MAX,
        req.xyz_to_camera matches Some(m) ==> forall|i: int| 0 <= i < 9 ==> #[trigger] m[i][1] != 0,
        req.as_shot_neutral matches Some(v) ==> forall|i: int| 0 <= i < 3 ==> #[trigger] v[i][1] != 0,
    ensures
        spec_read_color_tags(out) == Some(written_colour_tags(req)),
{
    let area = evened(req.active_area);
    lemma_cfa_declares(req, area);
    lemma_cfa_colour_entries(req, area);
    lemma_declared_read_back(out, cfa_tags(req, area), req.height, le16_all(req.samples@), written_colour_tags(req));
}

/// The colour tags a linear DNG written for `req` declares, as a reader
/// takes them: its matrix to the working space, D50, and a unity neutral.
pub open spec fn linear_colour_tags(req: &LinearDngRequest) -> ColorTagsModel {
    (
        Some(unsigned_denominators(srationals(req.xyz_to_space@))),
        Some(ILLUMINANT_D50),
        Some(seq![(1u32, 1u32), (1u32, 1u32), (1u32, 1u32)]),
    )
}

/// The entries of a linear DNG declare its colour tags.
#[verifier::spinoff_prover]
proof fn lemma_linear_declares(req: &LinearDngRequest)
    requires
        forall|i: int| 0 <= i < 9 ==> #[trigger] req.xyz_to_space[i][1] != 0,
    ensures
        linear_tags(req).len() <= 21,
        entries_declare(linear_tags(req), linear_colour_tags(req)),
{
    let h = linear_head_tags(req);
    let tl = linear_tail_tags(req);
    let t = linear_tags(req);
    let c = linear_colour_tags(req);
    let profiled: Seq<(u16, TagValue)> = match req.icc_profile {
        Some(p) => seq![(34675u16, TagValue::Undefined(p@))],
        None => Seq::empty(),
    };
    let rest = seq![
        (50706u16, TagValue::Byte(seq![1u8, 4u8, 0u8, 0u8])),
        (50707u16, TagValue::Byte(seq![1u8, 1u8, 0u8, 0u8])),
        (50708u16, TagValue::Ascii(spec_unique_camera_model("NexFilm"@, req.camera_model@))),
        (50721u16, TagValue::SRational(srationals(req.xyz_to_space@))),
        (50728u16, TagValue::Rational(seq![(1u32, 1u32), (1u32, 1u32), (1u32, 1u32)])),
        (50778u16, TagValue::Short(seq![ILLUMINANT_D50])),
    ];
    assert(tl == profiled + rest);
    let base = seq![
        (254u16, TagValue::Long(seq![0u32])),
        (256u16, TagValue::Long(seq![req.width])),
        (257u16, TagValue::Long(seq![req.height])),
        (258u16, TagValue::Short(seq![16u16, 16u16, 16u16])),
        (259u16, TagValue::Short(seq![1u16])),
        (262u16, TagValue::Short(seq![PHOTOMETRIC_LINEAR_RAW])),
    ];
    let described = match req.description {
        Some(d) => base.push((270u16, TagValue::Ascii(d@))),
        None => base,
    };
    let more = seq![
        (271u16, TagValue::Ascii("NexFilm"@)),
        (272u16, TagValue::Ascii(req.camera_model@)),
        (274u16, TagValue::Short(seq![1u16])),
        (277u16, TagValue::Short(seq![3u16])),
        (284u16, TagValue::Short(seq![1u16])),
        (305u16, TagValue::Ascii(req.software@)),
        (306u16, TagValue::Ascii(req.timestamp@)),
    ];
    assert(h == described + more);
    assert forall|i: int| 0 <= i < described.len() implies #[trigger] described[i].0 <= 270 by {
        if i == 0 {} else if i == 1 {} else if i == 2 {} else if i == 3 {} else if i == 4 {} else if i == 5 {} else {}
    }
    assert forall|i: int| 0 <= i < more.len() implies #[trigger] more[i].0 <= 306 by {
        if i == 0 {} else if i == 1 {} else if i == 2 {} else if i == 3 {} else if i == 4 {} else if i == 5 {} else {}
    }
    assert forall|i: int| 0 <= i < h.len() implies #[trigger] h[i].0 <= 306 by {
        if i < described.len() {
            assert(h[i] == described[i]);
        } else {
            assert(h[i] == more[i - described.len()]);
        }
    }
    let hl = h.len() as int;
    let p0 = profiled.len() as int;
    assert(t == h + tl);
    assert forall|i: int| 0 <= i < t.len() && #[trigger] t[i].0 >= 50721 implies t[i] == rest[i - hl - p0]
        && i - hl - p0 >= 3 by {
        if i < hl {
            assert(t[i] == h[i]);
        } else {
            assert(t[i] == tl[i - hl]);
            if i - hl < p0 {
                assert(tl[i - hl] == profiled[i - hl]);
            } else {
                assert(tl[i - hl] == rest[i - hl - p0]);
                let q = i - hl - p0;
                if q == 0 {} else if q == 1 {} else if q == 2 {} else {}
            }
        }
    }
    let x = srationals(req.xyz_to_space@);
    assert forall|j: int| 0 <= j < x.len() implies #[trigger] x[j].1 != 0 by {
        assert(x[j] == (req.xyz_to_space@[j][0], req.xyz_to_space@[j][1]));
    }
    assert forall|i: int| 0 <= i < t.len() && #[trigger] t[i].0 == 50721 implies matrix_read(t[i].1) == c.0
        && readable_denominators(50721, t[i].1) by {
        let q = i - hl - p0;
        if q == 3 {} else if q == 4 {} else {}
    }
    assert forall|i: int| 0 <= i < t.len() && #[trigger] t[i].0 == 50728 implies neutral_read(t[i].1) == c.2
        && readable_denominators(50728, t[i].1) by {
        let q = i - hl - p0;
        if q == 3 {} else if q == 4 {} else {}
    }
    assert forall|i: int| 0 <= i < t.len() && #[trigger] t[i].0 == 50778 implies illuminant_read(t[i].1) == c.1 by {
        let q = i - hl - p0;
        if q == 3 {} else if q == 4 {} else {}
    }
    assert(t[hl + p0 + 3] == tl[p0 + 3]);
    assert(tl[p0 + 3] == rest[3]);
    assert(t[hl + p0 + 4] == tl[p0 + 4]);
    assert(tl[p0 + 4] == rest[4]);
    assert(t[hl + p0 + 5] == tl[p0 + 5]);
    assert(tl[p0 + 5] == rest[5]);
    assert(t.len() == hl + p0 + 6);
    assert(t[hl + p0 + 3].0 == 50721);
    assert(t[hl + p0 + 4].0 == 50728);
    assert(t[hl + p0 + 5].0 == 50778);
}

/// Reading the colour tags of a linear DNG gives back its matrix to the
/// working space, the D50 calibration illuminant and the unity neutral. It
/// holds for files of classic-TIFF size whose matrix has no zero denominator.
pub proof fn law_linear_colour_tags_read_back(req: &LinearDngRequest, out: Seq<u8>)
    requires
        is_tiff_of(out, linear_tags(req), req.height, le16_all(req.rgb16@)),
        out.len() <= u32::MAX,
        forall|i: int| 0 <= i < 9 ==> #[trigger] req.xyz_to_space[i][1] != 0,
    ensures
        spec_read_color_tags(out) == Some(linear_colour_tags(req)),
{
    lemma_linear_declares(req);
    lemma_declared_read_back(out, linear_tags(req), req.height, le16_all(req.rgb16@), linear_colour_tags(req));
}


/// The directory entries of a mosaic DNG declare the request's levels: one
/// `BlackLevel` entry holding the request's black level as a rational, and
/// one `WhiteLevel` entry holding its white level.
pub proof fn law_mosaic_levels_are_the_requests(req: &CfaDngRequest, area: [u32; 4])
    ensures
        ({
            let t = cfa_tags(req, area);
            let black = TagValue::Rational(seq![(req.black_level[0], req.black_level[1])]);
            let white = TagValue::Long(seq![req.white_level]);
            &&& exists|i: int| 0 <= i < t.len() && #[trigger] t[i] == (50714u16, black)
            &&& forall|i: int| 0 <= i < t.len() && #[trigger] t[i].0 == 50714 ==> t[i].1 == black
            &&& exists|i: int| 0 <= i < t.len() && #[trigger] t[i] == (50717u16, white)
            &&& forall|i: int| 0 <= i < t.len() && #[trigger] t[i].0 == 50717 ==> t[i].1 == white
        }),
{
    let h = cfa_head_tags(req);
    let b = cfa_body_tags(req);
    let tl = cfa_tail_tags(req, area);
    let t = cfa_tags(req, area);
    let black = TagValue::Rational(seq![(req.black_level[0], req.black_level[1])]);
    let white = TagValue::Long(seq![req.white_level]);
    assert(rationals(seq![req.black_level]) =~= seq![(req.black_level[0], req.black_level[1])]);
    assert forall|i: int| 0 <= i < h.len() implies #[trigger] h[i].0 <= 270 by {
        if i == 0 {} else if i == 1 {} else if i == 2 {} else if i == 3 {} else if i == 4 {} else if i == 5 {} else {}
    }
    assert forall|i: int| 0 <= i < b.len() && b[i].0 == 50714 implies i == 14 by {
        if i < 8 {
            if i == 0 {} else if i == 1 {} else if i == 2 {} else if i == 3 {} else if i == 4 {} else if i == 5 {} else if i == 6 {} else {}
        } else {
            if i == 8 {} else if i == 9 {} else if i == 10 {} else if i == 11 {} else if i == 12 {} else if i == 13 {} else if i == 14 {} else {}
        }
    }
    assert forall|i: int| 0 <= i < b.len() && b[i].0 == 50717 implies i == 15 by {
        if i < 8 {
            if i == 0 {} else if i == 1 {} else if i == 2 {} else if i == 3 {} else if i == 4 {} else if i == 5 {} else if i == 6 {} else {}
        } else {
            if i == 8 {} else if i == 9 {} else if i == 10 {} else if i == 11 {} else if i == 12 {} else if i == 13 {} else if i == 14 {} else {}
        }
    }
    let matrix: Seq<(u16, TagValue)> = match req.xyz_to_camera {
        Some(m) => seq![(50721u16, TagValue::SRational(srationals(m@)))],
        None => Seq::empty(),
    };
    let neutral: Seq<(u16, TagValue)> = match req.as_shot_neutral {
        Some(n) => seq![(50728u16, TagValue::Rational(rationals(n@)))],
        None => Seq::empty(),
    };
    let last = seq![
        (50778u16, TagValue::Short(seq![calibration_illuminant(req.xyz_to_camera is Some, req.calibration_illuminant)])),
        (50829u16, TagValue::Long(seq![area[1], area[0], (area[1] + area[3]) as u32, (area[0] + area[2]) as u32])),
    ];
    assert(tl == matrix + neutral + last);
    assert forall|i: int| 0 <= i < tl.len() implies #[trigger] tl[i].0 >= 50721 by {
        let m0 = matrix.len() as int;
        let n0 = neutral.len() as int;
        if i < m0 {
            assert(tl[i] == matrix[i]);
        } else if i < m0 + n0 {
            assert(tl[i] == neutral[i - m0]);
        } else {
            assert(tl[i] == last[i - m0 - n0]);
        }
    }
    let hl = h.len() as int;
    let hb = hl + b.len() as int;
    assert(t == h + b + tl);
    assert(t[hl + 14] == b[14]);
    assert(t[hl + 15] == b[15]);
    assert(b[14] == (50714u16, black));
    assert(b[15] == (50717u16, white));
    assert forall|i: int| 0 <= i < t.len() && #[trigger] t[i].0 == 50714 implies t[i].1 == black by {
        if i < hl {
            assert(t[i] == h[i]);
        } else if i < hb {
            assert(t[i] == b[i - hl]);
        } else {
            assert(t[i] == tl[i - hb]);
        }
    }
    assert forall|i: int| 0 <= i < t.len() && #[trigger] t[i].0 == 50717 implies t[i].1 == white by {
        if i < hl {
            assert(t[i] == h[i]);
        } else if i < hb {
            assert(t[i] == b[i - hl]);
        } else {
            assert(t[i] == tl[i - hb]);
        }
    }
}

/// The entry a directory's entries carry for `tag` is the one the file's
/// directory holds for it.
proof fn lemma_arranged_entry(
    s: Seq<(u16, Value)>,
    entries: Seq<(u16, TagValue)>,
    rows: u32,
    strip_len: nat,
    tag: u16,
    v: TagValue,
)
    requires
        is_tiff_arrangement(s, entries, rows, strip_len),
        tag != 273 && tag != 278 && tag != 279,
        exists|i: int| 0 <= i < entries.len() && #[trigger] entries[i] == (tag, v),
        forall|i: int| 0 <= i < entries.len() && #[trigger] entries[i].0 == tag ==> entries[i].1 == v,
    ensures
        exists|k: int| 0 <= k < s.len() && #[trigger] s[k].0 == tag,
        forall|k: int| 0 <= k < s.len() && #[trigger] s[k].0 == tag ==> s[k].1@ == v,
{
    let i = choose|i: int| 0 <= i < entries.len() && #[trigger] entries[i] == (tag, v);
    assert(entries[i].0 == tag);
    let k = choose|k: int| 0 <= k < s.len() && s[k].0 == entries[i].0 && s[k].1@ == entries[i].1;
    assert(s[k].0 == tag);
    assert forall|k2: int| 0 <= k2 < s.len() && #[trigger] s[k2].0 == tag implies s[k2].1@ == v by {
        let j = choose|j: int| 0 <= j < entries.len() && #[trigger] entries[j] == (s[k2].0, s[k2].1@);
        assert(entries[j].0 == tag);
    }
}

/// A written mosaic DNG declares the request's white level: its directory
/// has a `WhiteLevel` entry, and every one holds the request's white level;
/// likewise its `BlackLevel` entries hold the request's black level.
pub proof fn law_written_mosaic_declares_its_levels(req: &CfaDngRequest, out: Seq<u8>)
    requires
        is_tiff_of(out, cfa_tags(req, evened(req.active_area)), req.height, le16_all(req.samples@)),
    ensures
        exists|s: Seq<(u16, Value)>|
            out == tiff_file(s, le16_all(req.samples@)) && (exists|k: int| 0 <= k < s.len() && #[trigger] s[k].0 == 50717)
                && (forall|k: int| 0 <= k < s.len() && #[trigger] s[k].0 == 50717 ==> s[k].1@ == TagValue::Long(
                seq![req.white_level],
            )) && (forall|k: int| 0 <= k < s.len() && #[trigger] s[k].0 == 50714 ==> s[k].1@ == TagValue::Rational(
                seq![(req.black_level[0], req.black_level[1])],
            )),
{
    let entries = cfa_tags(req, evened(req.active_area));
    let strip = le16_all(req.samples@);
    let s = choose|s: Seq<(u16, Value)>| is_tiff_arrangement(s, entries, req.height, strip.len()) && out == tiff_file(
        s,
        strip,
    );
    law_mosaic_levels_are_the_requests(req, evened(req.active_area));
    lemma_arranged_entry(s, entries, req.height, strip.len(), 50717, TagValue::Long(seq![req.white_level]));
    lemma_arranged_entry(
        s,
        entries,
        req.height,
        strip.len(),
        50714,
        TagValue::Rational(seq![(req.black_level[0], req.black_level[1])]),
    );
}

} // verus!
