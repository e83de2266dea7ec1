//! Camera RAW bookkeeping that does not depend on the decoder: the CFA layout
//! of a mosaic, the colour of a Bayer site, and the per-sample quality mask
//! that capture correction fills in and summarises.
use vstd::prelude::*;

verus! {

/// The colour filter array of a RAW mosaic, in LibRaw's terms.
#[derive(Debug, Clone, Copy, PartialEq, Eq, Structural)]
pub enum CfaPattern {
    Bayer { filters: u32 },
    XTrans,
    Unknown,
}

/// LibRaw's colour code (`0`=R, `1`=G, `2`=B, `3`=G2) of a raw site of a Bayer
/// mosaic described by `filters`, as LibRaw's own `FC` macro computes it.
pub open spec fn spec_bayer_raw_channel(filters: u32, row: i32, col: i32) -> u32 {
    (filters >> ((((row << 1u32) & 14i32) | (col & 1i32)) << 1u32) as u32) & 3u32
}

/// The RGB plane (`0`=R, `1`=G, `2`=B) of a LibRaw colour code; both green
/// sites share the green plane.
pub open spec fn rgb_plane(channel: u32) -> u32 {
    if channel == 0 {
        0
    } else if channel == 2 {
        2
    } else {
        1
    }
}

pub fn bayer_raw_channel(filters: u32, row: i32, col: i32) -> (channel: u32)
    ensures
        channel == spec_bayer_raw_channel(filters, row, col),
        channel < 4,
{
    let shift = (((row << 1u32) & 14i32) | (col & 1i32)) << 1u32;
    assert(0 <= shift < 32) by (bit_vector)
        requires
            shift == (((row << 1u32) & 14i32) | (col & 1i32)) << 1u32,
    ;
    let channel = (filters >> (shift as u32)) & 3u32;
    assert(channel < 4) by (bit_vector)
        requires
            channel == (filters >> (shift as u32)) & 3u32,
    ;
    channel
}

pub fn bayer_rgb_channel(filters: u32, row: i32, col: i32) -> (plane: u32)
    ensures
        plane == rgb_plane(spec_bayer_raw_channel(filters, row, col)),
{
    let channel = bayer_raw_channel(filters, row, col);
    if channel == 0 {
        0
    } else if channel == 2 {
        2
    } else {
        1
    }
}

/// Why a capture sample is not a valid measurement.
#[derive(Debug, Clone, Copy, PartialEq, Eq, Structural)]
pub enum QualityFlag {
    InvalidDenominator,
    NegativeSample,
    SaturatedSample,
    SaturatedReference,
    OutOfRange,
    BadPixel,
    MissingReference,
    MissingMetadata,
    GeometryMismatch,
    ExposureMismatch,
    IsoMismatch,
    LightMismatch,
    CameraMismatch,
    CfaMismatch,
    DemosaicInsufficientNeighbors,
}

/// The bit a flag occupies in a set of flags: its position in declaration order.
pub open spec fn flag_index(flag: QualityFlag) -> u16 {
    match flag {
        QualityFlag::InvalidDenominator => 0,
        QualityFlag::NegativeSample => 1,
        QualityFlag::SaturatedSample => 2,
        QualityFlag::SaturatedReference => 3,
        QualityFlag::OutOfRange => 4,
        QualityFlag::BadPixel => 5,
        QualityFlag::MissingReference => 6,
        QualityFlag::MissingMetadata => 7,
        QualityFlag::GeometryMismatch => 8,
        QualityFlag::ExposureMismatch => 9,
        QualityFlag::IsoMismatch => 10,
        QualityFlag::LightMismatch => 11,
        QualityFlag::CameraMismatch => 12,
        QualityFlag::CfaMismatch => 13,
        QualityFlag::DemosaicInsufficientNeighbors => 14,
    }
}

/// Every flag, in declaration order.
pub open spec fn all_flags() -> Seq<QualityFlag> {
    seq![
        QualityFlag::InvalidDenominator,
        QualityFlag::NegativeSample,
        QualityFlag::SaturatedSample,
        QualityFlag::SaturatedReference,
        QualityFlag::OutOfRange,
        QualityFlag::BadPixel,
        QualityFlag::MissingReference,
        QualityFlag::MissingMetadata,
        QualityFlag::GeometryMismatch,
        QualityFlag::ExposureMismatch,
        QualityFlag::IsoMismatch,
        QualityFlag::LightMismatch,
        QualityFlag::CameraMismatch,
        QualityFlag::CfaMismatch,
        QualityFlag::DemosaicInsufficientNeighbors,
    ]
}

/// A set of quality flags, one bit per flag.
#[derive(Debug, Clone, Copy, Default, PartialEq, Eq, Structural)]
pub struct QualityFlags(pub u16);

/// The set `bits` holds `flag`.
pub open spec fn has_flag(bits: u16, flag: QualityFlag) -> bool {
    (bits >> flag_index(flag)) & 1 == 1
}

impl QualityFlags {
    fn bit(flag: QualityFlag) -> (b: u16)
        ensures
            b == 1u16 << flag_index(flag),
    {
        let index: u16 = match flag {
            QualityFlag::InvalidDenominator => 0,
            QualityFlag::NegativeSample => 1,
            QualityFlag::SaturatedSample => 2,
            QualityFlag::SaturatedReference => 3,
            QualityFlag::OutOfRange => 4,
            QualityFlag::BadPixel => 5,
            QualityFlag::MissingReference => 6,
            QualityFlag::MissingMetadata => 7,
            QualityFlag::GeometryMismatch => 8,
            QualityFlag::ExposureMismatch => 9,
            QualityFlag::IsoMismatch => 10,
            QualityFlag::LightMismatch => 11,
            QualityFlag::CameraMismatch => 12,
            QualityFlag::CfaMismatch => 13,
            QualityFlag::DemosaicInsufficientNeighbors => 14,
        };
        1u16 << index
    }

    pub fn contains(&self, flag: &QualityFlag) -> (r: bool)
        ensures
            r == has_flag(self.0, *flag),
    {
        let bits = self.0;
        let b = Self::bit(*flag);
        let ghost index = flag_index(*flag);
        assert(index < 15);
        assert((bits & (1u16 << index) != 0) == ((bits >> index) & 1 == 1)) by (bit_vector)
            requires
                index < 15,
        ;
        bits & b != 0
    }

    pub fn insert(&mut self, flag: QualityFlag)
        ensures
            has_flag(final(self).0, flag),
            forall|other: QualityFlag| other != flag ==> has_flag(final(self).0, other) == has_flag(
                old(self).0,
                other,
            ),
    {
        let before = self.0;
        let b = Self::bit(flag);
        self.0 = before | b;
        let after = self.0;
        let ghost index = flag_index(flag);
        assert((after >> index) & 1 == 1) by (bit_vector)
            requires
                index < 15,
                after == before | (1u16 << index),
        ;
        assert forall|other: QualityFlag| other != flag implies has_flag(after, other) == has_flag(
            before,
            other,
        ) by {
            let j = flag_index(other);
            assert(j != index);
            assert(((after >> j) & 1 == 1) == ((before >> j) & 1 == 1)) by (bit_vector)
                requires
                    index < 15,
                    j < 15,
                    j != index,
                    after == before | (1u16 << index),
            ;
        }
    }

    /// The flags of the set, in declaration order.
    pub fn flags(&self) -> (r: Vec<QualityFlag>)
        ensures
            r@ == all_flags().filter(|f: QualityFlag| has_flag(self.0, f)),
    {
        let mut all: Vec<QualityFlag> = Vec::new();
        all.push(QualityFlag::InvalidDenominator);
        all.push(QualityFlag::NegativeSample);
        all.push(QualityFlag::SaturatedSample);
        all.push(QualityFlag::SaturatedReference);
        all.push(QualityFlag::OutOfRange);
        all.push(QualityFlag::BadPixel);
        all.push(QualityFlag::MissingReference);
        all.push(QualityFlag::MissingMetadata);
        all.push(QualityFlag::GeometryMismatch);
        all.push(QualityFlag::ExposureMismatch);
        all.push(QualityFlag::IsoMismatch);
        all.push(QualityFlag::LightMismatch);
        all.push(QualityFlag::CameraMismatch);
        all.push(QualityFlag::CfaMismatch);
        all.push(QualityFlag::DemosaicInsufficientNeighbors);
        assert(all@ =~= all_flags());
        let ghost pred = |f: QualityFlag| has_flag(self.0, f);
        let mut out: Vec<QualityFlag> = Vec::new();
        let mut i: usize = 0;
        while i < all.len()
            invariant
                all@ == all_flags(),
                i <= all@.len(),
                pred == (|f: QualityFlag| has_flag(self.0, f)),
                out@ == all@.subrange(0, i as int).filter(pred),
            decreases all.len() - i,
        {
            let flag = all[i];
            let ghost prefix = all@.subrange(0, i + 1);
            assert(prefix.drop_last() =~= all@.subrange(0, i as int));
            assert(prefix.last() == flag);
            proof {
                reveal(Seq::filter);
            }
            if self.contains(&flag) {
                out.push(flag);
            }
            i = i + 1;
        }
        assert(all@.subrange(0, all@.len() as int) =~= all@);
        out
    }
}

/// Per-sample validity and the reasons a sample is invalid.
#[derive(Debug, Clone, Default, PartialEq, Eq)]
pub struct QualityMask {
    pub valid: Vec<bool>,
    pub flags: Vec<QualityFlags>,
}

/// Counts of a quality mask: samples, valid samples, and how many samples
/// carry each kind of flag.
#[derive(Debug, Clone, Default, PartialEq, Eq)]
pub struct QualitySummary {
    pub total_samples: usize,
    pub valid_samples: usize,
    pub invalid_denominator: usize,
    pub negative_samples: usize,
    pub saturated_samples: usize,
    pub bad_pixels: usize,
    pub missing_reference: usize,
    pub out_of_range: usize,
    pub reference_mismatch: usize,
}

/// How many samples are valid.
pub open spec fn count_valid(valid: Seq<bool>) -> nat
    decreases valid.len(),
{
    if valid.len() == 0 {
        0
    } else {
        count_valid(valid.drop_last()) + if valid.last() { 1nat } else { 0nat }
    }
}

/// How many samples carry `flag`.
pub open spec fn count_flag(flags: Seq<QualityFlags>, flag: QualityFlag) -> nat
    decreases flags.len(),
{
    if flags.len() == 0 {
        0
    } else {
        count_flag(flags.drop_last(), flag) + if has_flag(flags.last().0, flag) { 1nat } else { 0nat }
    }
}

/// Flags that report a mismatch between a capture and its references or
/// metadata, counted together.
pub open spec fn count_mismatches(flags: Seq<QualityFlags>) -> nat {
    count_flag(flags, QualityFlag::MissingMetadata) + count_flag(flags, QualityFlag::GeometryMismatch)
        + count_flag(flags, QualityFlag::ExposureMismatch) + count_flag(flags, QualityFlag::IsoMismatch)
        + count_flag(flags, QualityFlag::LightMismatch) + count_flag(flags, QualityFlag::CameraMismatch)
        + count_flag(flags, QualityFlag::CfaMismatch) + count_flag(
        flags,
        QualityFlag::DemosaicInsufficientNeighbors,
    )
}

/// `summary` counts the mask `valid`, `flags`.
pub open spec fn summarises(summary: QualitySummary, valid: Seq<bool>, flags: Seq<QualityFlags>) -> bool {
    &&& summary.total_samples == valid.len()
    &&& summary.valid_samples == count_valid(valid)
    &&& summary.invalid_denominator == count_flag(flags, QualityFlag::InvalidDenominator)
    &&& summary.negative_samples == count_flag(flags, QualityFlag::NegativeSample)
    &&& summary.saturated_samples == count_flag(flags, QualityFlag::SaturatedSample) + count_flag(
        flags,
        QualityFlag::SaturatedReference,
    )
    &&& summary.bad_pixels == count_flag(flags, QualityFlag::BadPixel)
    &&& summary.missing_reference == count_flag(flags, QualityFlag::MissingReference)
    &&& summary.out_of_range == count_flag(flags, QualityFlag::OutOfRange)
    &&& summary.reference_mismatch == count_mismatches(flags)
}

proof fn lemma_count_valid_bound(valid: Seq<bool>)
    ensures
        count_valid(valid) <= valid.len(),
    decreases valid.len(),
{
    if valid.len() > 0 {
        lemma_count_valid_bound(valid.drop_last());
    }
}

proof fn lemma_count_flag_bound(flags: Seq<QualityFlags>, flag: QualityFlag)
    ensures
        count_flag(flags, flag) <= flags.len(),
    decreases flags.len(),
{
    if flags.len() > 0 {
        lemma_count_flag_bound(flags.drop_last(), flag);
    }
}

fn bump(counter: usize, flags: QualityFlags, flag: QualityFlag) -> (r: usize)
    requires
        counter < usize::MAX,
    ensures
        r == counter + if has_flag(flags.0, flag) { 1nat } else { 0nat },
{
    if flags.contains(&flag) {
        counter + 1
    } else {
        counter
    }
}

impl QualityMask {
    /// A mask of `len` valid samples without flags.
    pub fn new(len: usize) -> (mask: QualityMask)
        ensures
            mask.valid@ == Seq::new(len as nat, |i: int| true),
            mask.flags@ == Seq::new(len as nat, |i: int| QualityFlags(0)),
    {
        let mut valid: Vec<bool> = Vec::new();
        let mut flags: Vec<QualityFlags> = Vec::new();
        let mut i: usize = 0;
        while i < len
            invariant
                i <= len,
                valid@ == Seq::new(i as nat, |j: int| true),
                flags@ == Seq::new(i as nat, |j: int| QualityFlags(0)),
            decreases len - i,
        {
            valid.push(true);
            flags.push(QualityFlags(0));
            i = i + 1;
            assert(valid@ =~= Seq::new(i as nat, |j: int| true));
            assert(flags@ =~= Seq::new(i as nat, |j: int| QualityFlags(0)));
        }
        QualityMask { valid, flags }
    }

    /// Mark sample `index` invalid for `flag`; an index outside the mask
    /// changes nothing.
    pub fn invalidate(&mut self, index: usize, flag: QualityFlag)
        ensures
            final(self).valid@ == if index < old(self).valid@.len() {
                old(self).valid@.update(index as int, false)
            } else {
                old(self).valid@
            },
            final(self).flags@.len() == old(self).flags@.len(),
            forall|i: int| 0 <= i < old(self).flags@.len() && i != index ==> #[trigger] final(self).flags@[i]
                == old(self).flags@[i],
            index < old(self).flags@.len() ==> has_flag(final(self).flags@[index as int].0, flag),
            index < old(self).flags@.len() ==> forall|other: QualityFlag| other != flag ==> has_flag(
                #[trigger] final(self).flags@[index as int].0,
                other,
            ) == has_flag(old(self).flags@[index as int].0, other),
    {
        if index < self.valid.len() {
            self.valid.set(index, false);
        }
        if index < self.flags.len() {
            let mut flags = self.flags[index];
            flags.insert(flag);
            self.flags.set(index, flags);
        }
    }

    /// Count the mask.
    pub fn summary(&self) -> (summary: QualitySummary)
        requires
            self.flags@.len() <= usize::MAX / 8,
        ensures
            summarises(summary, self.valid@, self.flags@),
    {
        let mut valid_samples: usize = 0;
        let mut i: usize = 0;
        while i < self.valid.len()
            invariant
                i <= self.valid@.len(),
                valid_samples == count_valid(self.valid@.subrange(0, i as int)),
            decreases self.valid.len() - i,
        {
            proof {
                lemma_count_valid_bound(self.valid@.subrange(0, i as int));
            }
            assert(self.valid@.subrange(0, i + 1).drop_last() =~= self.valid@.subrange(0, i as int));
            if self.valid[i] {
                valid_samples = valid_samples + 1;
            }
            i = i + 1;
        }
        assert(self.valid@.subrange(0, self.valid@.len() as int) =~= self.valid@);
        let mut summary = QualitySummary {
            total_samples: self.valid.len(),
            valid_samples,
            invalid_denominator: 0,
            negative_samples: 0,
            saturated_samples: 0,
            bad_pixels: 0,
            missing_reference: 0,
            out_of_range: 0,
            reference_mismatch: 0,
        };
        let mut k: usize = 0;
        while k < self.flags.len()
            invariant
                k <= self.flags@.len(),
                self.flags@.len() <= usize::MAX / 8,
                summarises(summary, self.valid@, self.flags@.subrange(0, k as int)),
            decreases self.flags.len() - k,
        {
            let ghost prefix = self.flags@.subrange(0, k as int);
            let ghost next = self.flags@.subrange(0, k + 1);
            assert(next.drop_last() =~= prefix);
            proof {
                lemma_count_flag_bound(prefix, QualityFlag::InvalidDenominator);
                lemma_count_flag_bound(prefix, QualityFlag::NegativeSample);
                lemma_count_flag_bound(prefix, QualityFlag::SaturatedSample);
                lemma_count_flag_bound(prefix, QualityFlag::SaturatedReference);
                lemma_count_flag_bound(prefix, QualityFlag::BadPixel);
                lemma_count_flag_bound(prefix, QualityFlag::MissingReference);
                lemma_count_flag_bound(prefix, QualityFlag::OutOfRange);
                lemma_count_flag_bound(prefix, QualityFlag::MissingMetadata);
                lemma_count_flag_bound(prefix, QualityFlag::GeometryMismatch);
                lemma_count_flag_bound(prefix, QualityFlag::ExposureMismatch);
                lemma_count_flag_bound(prefix, QualityFlag::IsoMismatch);
                lemma_count_flag_bound(prefix, QualityFlag::LightMismatch);
                lemma_count_flag_bound(prefix, QualityFlag::CameraMismatch);
                lemma_count_flag_bound(prefix, QualityFlag::CfaMismatch);
                lemma_count_flag_bound(prefix, QualityFlag::DemosaicInsufficientNeighbors);
            }
            let f = self.flags[k];
            summary.invalid_denominator = bump(summary.invalid_denominator, f, QualityFlag::InvalidDenominator);
            summary.negative_samples = bump(summary.negative_samples, f, QualityFlag::NegativeSample);
            summary.saturated_samples = bump(summary.saturated_samples, f, QualityFlag::SaturatedSample);
            summary.saturated_samples = bump(summary.saturated_samples, f, QualityFlag::SaturatedReference);
            summary.out_of_range = bump(summary.out_of_range, f, QualityFlag::OutOfRange);
            summary.bad_pixels = bump(summary.bad_pixels, f, QualityFlag::BadPixel);
            summary.missing_reference = bump(summary.missing_reference, f, QualityFlag::MissingReference);
            summary.reference_mismatch = bump(summary.reference_mismatch, f, QualityFlag::MissingMetadata);
            summary.reference_mismatch = bump(summary.reference_mismatch, f, QualityFlag::GeometryMismatch);
            summary.reference_mismatch = bump(summary.reference_mismatch, f, QualityFlag::ExposureMismatch);
            summary.reference_mismatch = bump(summary.reference_mismatch, f, QualityFlag::IsoMismatch);
            summary.reference_mismatch = bump(summary.reference_mismatch, f, QualityFlag::LightMismatch);
            summary.reference_mismatch = bump(summary.reference_mismatch, f, QualityFlag::CameraMismatch);
            summary.reference_mismatch = bump(summary.reference_mismatch, f, QualityFlag::CfaMismatch);
            summary.reference_mismatch = bump(
                summary.reference_mismatch,
                f,
                QualityFlag::DemosaicInsufficientNeighbors,
            );
            k = k + 1;
        }
        assert(self.flags@.subrange(0, self.flags@.len() as int) =~= self.flags@);
        summary
    }
}

/// A fresh mask counts every sample as valid and none as flagged.
pub proof fn law_fresh_mask_is_all_valid(len: nat, flag: QualityFlag)
    ensures
        count_valid(Seq::new(len, |i: int| true)) == len,
        count_flag(Seq::new(len, |i: int| QualityFlags(0)), flag) == 0,
    decreases len,
{
    if len > 0 {
        law_fresh_mask_is_all_valid((len - 1) as nat, flag);
        assert(Seq::new(len, |i: int| true).drop_last() =~= Seq::new((len - 1) as nat, |i: int| true));
        assert(Seq::new(len, |i: int| QualityFlags(0)).drop_last() =~= Seq::new(
            (len - 1) as nat,
            |i: int| QualityFlags(0),
        ));
        let z: u16 = 0;
        let j = flag_index(flag);
        assert((z >> j) & 1 == 0) by (bit_vector)
            requires
                z == 0,
        ;
    }
}

/// Invalidating a sample lowers the valid count by one when the sample was
/// valid, and leaves it unchanged otherwise.
pub proof fn law_invalidating_lowers_the_valid_count(valid: Seq<bool>, index: int)
    requires
        0 <= index < valid.len(),
    ensures
        count_valid(valid.update(index, false)) + (if valid[index] { 1nat } else { 0nat }) == count_valid(
            valid,
        ),
    decreases valid.len(),
{
    let updated = valid.update(index, false);
    if index < valid.len() - 1 {
        law_invalidating_lowers_the_valid_count(valid.drop_last(), index);
        assert(updated.drop_last() =~= valid.drop_last().update(index, false));
    } else {
        assert(updated.drop_last() =~= valid.drop_last());
    }
}

/// No flag is counted on more samples than the mask has, and no more samples
/// are valid than there are.
pub proof fn law_counts_are_bounded_by_the_mask(valid: Seq<bool>, flags: Seq<QualityFlags>, flag: QualityFlag)
    ensures
        count_valid(valid) <= valid.len(),
        count_flag(flags, flag) <= flags.len(),
{
    lemma_count_valid_bound(valid);
    lemma_count_flag_bound(flags, flag);
}

/// How one optional exposure value of a capture compares with its reference.
#[derive(Debug, Clone, Copy, PartialEq, Eq, Structural)]
pub enum MetadataComparison {
    /// One of the two values is unknown.
    Missing,
    /// Both are known and agree within tolerance.
    Agrees,
    /// Both are known and differ beyond tolerance.
    Differs,
}

/// What the reference check reads of a capture's metadata.
#[derive(Debug, Clone)]
pub struct ReferenceMetadata {
    pub cfa: CfaPattern,
    pub active_area: [u32; 4],
    pub camera_id: String,
}

/// The mismatch flags a reference raises against a capture, each once and in
/// declaration order.
pub open spec fn raised_flags(
    sample: ReferenceMetadata,
    reference: ReferenceMetadata,
    iso: MetadataComparison,
    exposure: MetadataComparison,
) -> Seq<QualityFlag> {
    let missing = iso == MetadataComparison::Missing || exposure == MetadataComparison::Missing;
    let geometry = sample.active_area@ != reference.active_area@;
    let camera = sample.camera_id@.len() > 0 && reference.camera_id@.len() > 0 && sample.camera_id@
        != reference.camera_id@;
    let cfa = sample.cfa != reference.cfa;
    let one = |raised: bool, flag: QualityFlag| if raised { seq![flag] } else { Seq::<QualityFlag>::empty() };
    one(missing, QualityFlag::MissingMetadata) + one(geometry, QualityFlag::GeometryMismatch) + one(
        exposure == MetadataComparison::Differs,
        QualityFlag::ExposureMismatch,
    ) + one(iso == MetadataComparison::Differs, QualityFlag::IsoMismatch) + one(
        camera,
        QualityFlag::CameraMismatch,
    ) + one(cfa, QualityFlag::CfaMismatch)
}

fn push_if(flags: &mut Vec<QualityFlag>, raised: bool, flag: QualityFlag)
    ensures
        final(flags)@ == old(flags)@ + if raised { seq![flag] } else { Seq::<QualityFlag>::empty() },
{
    if raised {
        flags.push(flag);
        assert(final(flags)@ =~= old(flags)@ + seq![flag]);
    } else {
        assert(old(flags)@ =~= old(flags)@ + Seq::<QualityFlag>::empty());
    }
}

/// Validate that a reference frame is geometrically and exposure compatible
/// with a capture. The ISO and exposure time are compared by the caller;
/// mismatches come back once each, in declaration order.
pub fn validate_reference_compatibility(
    sample: &ReferenceMetadata,
    reference: &ReferenceMetadata,
    iso: MetadataComparison,
    exposure: MetadataComparison,
) -> (r: Result<(), Vec<QualityFlag>>)
    ensures
        match r {
            Ok(()) => raised_flags(*sample, *reference, iso, exposure).len() == 0,
            Err(flags) => flags@ == raised_flags(*sample, *reference, iso, exposure) && flags@.len() > 0,
        },
{
    let a = sample.active_area;
    let b = reference.active_area;
    let same_area = a[0] == b[0] && a[1] == b[1] && a[2] == b[2] && a[3] == b[3];
    assert(same_area == (a@ == b@)) by {
        if same_area {
            assert(a@ =~= b@);
        }
    }
    let missing = match (iso, exposure) {
        (MetadataComparison::Missing, _) => true,
        (_, MetadataComparison::Missing) => true,
        _ => false,
    };
    let camera = !crate::text::is_empty_text(sample.camera_id.as_str()) && !crate::text::is_empty_text(
        reference.camera_id.as_str(),
    ) && !crate::text::str_eq(sample.camera_id.as_str(), reference.camera_id.as_str());
    let iso_differs = match iso {
        MetadataComparison::Differs => true,
        _ => false,
    };
    let exposure_differs = match exposure {
        MetadataComparison::Differs => true,
        _ => false,
    };
    let mut flags: Vec<QualityFlag> = Vec::new();
    push_if(&mut flags, missing, QualityFlag::MissingMetadata);
    push_if(&mut flags, !same_area, QualityFlag::GeometryMismatch);
    push_if(&mut flags, exposure_differs, QualityFlag::ExposureMismatch);
    push_if(&mut flags, iso_differs, QualityFlag::IsoMismatch);
    push_if(&mut flags, camera, QualityFlag::CameraMismatch);
    push_if(&mut flags, sample.cfa != reference.cfa, QualityFlag::CfaMismatch);
    assert(flags@ =~= raised_flags(*sample, *reference, iso, exposure));
    if flags.len() == 0 {
        Ok(())
    } else {
        Err(flags)
    }
}


// ---------------------------------------------------------------------------
// Capture correction mask
// ---------------------------------------------------------------------------

/// How one reference frame (dark or open gate) fits a capture.
#[derive(Debug, Clone)]
pub struct ReferenceFit {
    /// Same width, height and sample count as the capture.
    pub fits_geometry: bool,
    /// What `validate_reference_compatibility` raised against the capture.
    pub mismatches: Vec<QualityFlag>,
}

/// The flags every sample of a capture carries because of its references.
pub open spec fn reference_flag(dark: Option<ReferenceFit>, open: Option<ReferenceFit>, f: QualityFlag) -> bool {
    match (dark, open) {
        (Some(d), Some(o)) => if !d.fits_geometry {
            f == QualityFlag::GeometryMismatch
        } else if !o.fits_geometry {
            d.mismatches@.contains(f) || f == QualityFlag::GeometryMismatch
        } else {
            d.mismatches@.contains(f) || o.mismatches@.contains(f)
        },
        _ => f == QualityFlag::MissingReference,
    }
}

/// Both references are present and fit the capture, so its samples are
/// corrected at all.
pub open spec fn references_usable(dark: Option<ReferenceFit>, open: Option<ReferenceFit>) -> bool {
    dark matches Some(d) && open matches Some(o) && d.fits_geometry && o.fits_geometry
}

/// A masked rectangle `[top, left, bottom, right]` covers column `x`, row `y`.
pub open spec fn area_covers(area: [u32; 4], x: int, y: int) -> bool {
    area[0] <= y < area[2] && area[1] <= x < area[3]
}

/// One of the first `k` masked rectangles covers column `x`, row `y`.
pub open spec fn areas_cover(areas: Seq<[u32; 4]>, k: int, x: int, y: int) -> bool
    decreases k,
{
    if k <= 0 || k > areas.len() {
        false
    } else {
        areas_cover(areas, k - 1, x, y) || area_covers(areas[k - 1], x, y)
    }
}

/// Sample `i` is one of the first `k` listed masked pixels.
pub open spec fn listed_pixel(list: Seq<u32>, k: int, i: int) -> bool {
    exists|j: int| 0 <= j < k && #[trigger] list[j] as int == i
}

/// Sample `i` is one of the first `k` listed bad pixels.
pub open spec fn listed_bad(list: Seq<usize>, k: int, i: int) -> bool {
    exists|j: int| 0 <= j < k && #[trigger] list[j] as int == i
}

/// Sample `i` of a mosaic `width` samples wide is a bad pixel: inside a
/// masked rectangle, or listed.
pub open spec fn marked_bad(
    width: int,
    areas: Seq<[u32; 4]>,
    masked: Seq<u32>,
    bad: Seq<usize>,
    i: int,
) -> bool {
    ||| areas_cover(areas, areas.len() as int, i % width, i / width)
    ||| listed_pixel(masked, masked.len() as int, i)
    ||| listed_bad(bad, bad.len() as int, i)
}

/// The mask a capture starts its correction with, and whether its samples
/// are corrected at all.
#[derive(Debug, Clone)]
pub struct CaptureMask {
    pub quality: QualityMask,
    pub corrects: bool,
}

fn insert_all(base: &mut QualityFlags, flags: &Vec<QualityFlag>)
    ensures
        forall|f: QualityFlag| #[trigger] has_flag(final(base).0, f) == (has_flag(old(base).0, f) || flags@.contains(f)),
{
    let ghost start = *base;
    let mut j: usize = 0;
    while j < flags.len()
        invariant
            j <= flags@.len(),
            forall|f: QualityFlag| #[trigger] has_flag(base.0, f) == (has_flag(start.0, f) || exists|k: int|
                0 <= k < j && #[trigger] flags@[k] == f),
        decreases flags@.len() - j,
    {
        let f = flags[j];
        base.insert(f);
        assert forall|g: QualityFlag| #[trigger] has_flag(base.0, g) == (has_flag(start.0, g) || exists|k: int|
            0 <= k < j + 1 && #[trigger] flags@[k] == g) by {
            if g == f {
                assert(flags@[j as int] == g);
            }
        }
        j = j + 1;
    }
}

/// The flags the references put on every sample, and whether the samples are
/// corrected.
fn reference_flags(dark: &Option<ReferenceFit>, open: &Option<ReferenceFit>) -> (r: (QualityFlags, bool))
    ensures
        forall|f: QualityFlag| #[trigger] has_flag(r.0.0, f) == reference_flag(*dark, *open, f),
        r.1 == references_usable(*dark, *open),
{
    let mut base = QualityFlags(0);
    let z: u16 = 0;
    assert forall|f: QualityFlag| !#[trigger] has_flag(z, f) by {
        let j = flag_index(f);
        assert((z >> j) & 1 == 0) by (bit_vector)
            requires
                z == 0,
        ;
    }
    match (dark, open) {
        (Some(d), Some(o)) => {
            if !d.fits_geometry {
                base.insert(QualityFlag::GeometryMismatch);
                (base, false)
            } else if !o.fits_geometry {
                insert_all(&mut base, &d.mismatches);
                base.insert(QualityFlag::GeometryMismatch);
                (base, false)
            } else {
                insert_all(&mut base, &d.mismatches);
                insert_all(&mut base, &o.mismatches);
                (base, true)
            }
        },
        _ => {
            base.insert(QualityFlag::MissingReference);
            (base, false)
        },
    }
}

proof fn lemma_row_bound(i: int, w: int, h: int)
    requires
        w > 0,
        0 <= i < w * h,
    ensures
        i / w < h,
{
    assert(i / w < h) by (nonlinear_arith)
        requires
            w > 0,
            0 <= i < w * h,
    ;
}

proof fn lemma_row_major(i: int, w: int, x: int, y: int)
    requires
        w > 0,
        0 <= x < w,
        i == y * w + x,
    ensures
        i / w == y,
        i % w == x,
{
    vstd::arithmetic::div_mod::lemma_fundamental_div_mod_converse(i, w, y, x);
}

/// Mark the samples inside `area`; every other sample keeps its mark.
fn mark_area(marks: &mut Vec<bool>, width: u32, height: u32, area: [u32; 4])
    requires
        width > 0,
        old(marks)@.len() == width as int * height as int,
    ensures
        final(marks)@.len() == old(marks)@.len(),
        forall|i: int| 0 <= i < final(marks)@.len() ==> #[trigger] final(marks)@[i] == (old(marks)@[i]
            || area_covers(area, i % width as int, i / width as int)),
{
    let ghost before = marks@;
    let ghost w = width as int;
    let ghost n = before.len();
    let count = marks.len();
    let y_end: u32 = if area[2] < height { area[2] } else { height };
    let x_start: u32 = if area[1] < width { area[1] } else { width };
    let x_end: u32 = if area[3] < width { area[3] } else { width };
    let mut y: u32 = if area[0] < height { area[0] } else { height };
    assert forall|i: int| 0 <= i < n implies #[trigger] marks@[i] == (before[i] || (area_covers(area, i % w, i / w)
        && i / w < y)) by {
        lemma_row_bound(i, w, height as int);
    }
    while y < y_end
        invariant
            w == width as int,
            width > 0,
            n == w * height as int,
            marks@.len() == n,
            y_end <= height,
            x_end <= width,
            x_start == (if area[1] < width { area[1] } else { width }),
            y_end == (if area[2] < height { area[2] } else { height }),
            x_end == (if area[3] < width { area[3] } else { width }),
            y >= (if area[0] < height { area[0] } else { height }),
            before.len() == n,
            count == n,
            forall|i: int| 0 <= i < n ==> #[trigger] marks@[i] == (before[i] || (area_covers(area, i % w, i / w)
                && i / w < y)),
        decreases y_end - y,
    {
        let mut x: u32 = x_start;
        while x < x_end
            invariant
                w == width as int,
                width > 0,
                n == w * height as int,
                marks@.len() == n,
                y < y_end,
                y_end <= height,
                x_end <= width,
                x >= x_start,
                x_start == (if area[1] < width { area[1] } else { width }),
                x_end == (if area[3] < width { area[3] } else { width }),
                y_end == (if area[2] < height { area[2] } else { height }),
                y >= (if area[0] < height { area[0] } else { height }),
                before.len() == n,
                count == n,
                forall|i: int| 0 <= i < n ==> #[trigger] marks@[i] == (before[i] || (area_covers(area, i % w, i / w)
                    && (i / w < y || (i / w == y && i % w < x)))),
            decreases x_end - x,
        {
            assert((y as int) * w + (x as int) < n && 0 <= (y as int) * w) by (nonlinear_arith)
                requires
                    (y as int) < height as int,
                    0 <= (x as int) < w,
                    n == w * height as int,
                    w > 0,
            ;
            let index: usize = (y as usize) * (width as usize) + (x as usize);
            proof {
                lemma_row_major(index as int, w, x as int, y as int);
            }
            let ghost prev = marks@;
            marks.set(index, true);
            proof {
                assert forall|i: int| 0 <= i < n implies #[trigger] marks@[i] == (before[i] || (area_covers(
                    area,
                    i % w,
                    i / w,
                ) && (i / w < y || (i / w == y && i % w < x + 1)))) by {
                    if i == index as int {
                        assert(area_covers(area, x as int, y as int));
                    } else {
                        assert(prev[i] == (before[i] || (area_covers(area, i % w, i / w) && (i / w < y || (i / w
                            == y && i % w < x)))));
                        if i / w == y as int && i % w == x as int {
                            vstd::arithmetic::div_mod::lemma_fundamental_div_mod(i, w);
                            assert(i == (y as int) * w + (x as int)) by (nonlinear_arith)
                                requires
                                    i == w * (i / w) + i % w,
                                    i / w == y as int,
                                    i % w == x as int,
                            ;
                        }
                    }
                }
            }
            x = x + 1;
        }
        proof {
            assert forall|i: int| 0 <= i < n implies #[trigger] marks@[i] == (before[i] || (area_covers(
                area,
                i % w,
                i / w,
            ) && i / w < y + 1)) by {
                vstd::arithmetic::div_mod::lemma_fundamental_div_mod(i, w);
            }
        }
        y = y + 1;
    }
    assert forall|i: int| 0 <= i < n implies #[trigger] marks@[i] == (before[i] || area_covers(area, i % w, i / w)) by {
        lemma_row_bound(i, w, height as int);
    }
}


fn mark_listed_pixels(marks: &mut Vec<bool>, list: &Vec<u32>)
    ensures
        final(marks)@.len() == old(marks)@.len(),
        forall|i: int| 0 <= i < final(marks)@.len() ==> #[trigger] final(marks)@[i] == (old(marks)@[i]
            || listed_pixel(list@, list@.len() as int, i)),
{
    let ghost before = marks@;
    let mut j: usize = 0;
    while j < list.len()
        invariant
            j <= list@.len(),
            marks@.len() == before.len(),
            forall|i: int| 0 <= i < before.len() ==> #[trigger] marks@[i] == (before[i] || listed_pixel(list@, j as int, i)),
        decreases list@.len() - j,
    {
        let index = list[j] as usize;
        let ghost prev = marks@;
        if index < marks.len() {
            marks.set(index, true);
        }
        assert forall|i: int| 0 <= i < before.len() implies #[trigger] marks@[i] == (before[i] || listed_pixel(
            list@,
            j + 1,
            i,
        )) by {
            assert(prev[i] == (before[i] || listed_pixel(list@, j as int, i)));
            if list@[j as int] as int == i {
                assert(listed_pixel(list@, j + 1, i));
            }
            if listed_pixel(list@, j + 1, i) && !listed_pixel(list@, j as int, i) {
                let k = choose|k: int| 0 <= k < j + 1 && #[trigger] list@[k] as int == i;
                assert(k == j);
            }
        }
        j = j + 1;
    }
}

fn mark_listed_bad(marks: &mut Vec<bool>, list: &Vec<usize>)
    ensures
        final(marks)@.len() == old(marks)@.len(),
        forall|i: int| 0 <= i < final(marks)@.len() ==> #[trigger] final(marks)@[i] == (old(marks)@[i]
            || listed_bad(list@, list@.len() as int, i)),
{
    let ghost before = marks@;
    let mut j: usize = 0;
    while j < list.len()
        invariant
            j <= list@.len(),
            marks@.len() == before.len(),
            forall|i: int| 0 <= i < before.len() ==> #[trigger] marks@[i] == (before[i] || listed_bad(list@, j as int, i)),
        decreases list@.len() - j,
    {
        let index = list[j];
        let ghost prev = marks@;
        if index < marks.len() {
            marks.set(index, true);
        }
        assert forall|i: int| 0 <= i < before.len() implies #[trigger] marks@[i] == (before[i] || listed_bad(
            list@,
            j + 1,
            i,
        )) by {
            assert(prev[i] == (before[i] || listed_bad(list@, j as int, i)));
            if list@[j as int] as int == i {
                assert(listed_bad(list@, j + 1, i));
            }
            if listed_bad(list@, j + 1, i) && !listed_bad(list@, j as int, i) {
                let k = choose|k: int| 0 <= k < j + 1 && #[trigger] list@[k] as int == i;
                assert(k == j);
            }
        }
        j = j + 1;
    }
}

/// The samples of a `width` x `height` mosaic that are bad pixels.
fn bad_sample_marks(
    width: u32,
    height: u32,
    count: usize,
    areas: &Vec<[u32; 4]>,
    masked: &Vec<u32>,
    bad: &Vec<usize>,
) -> (marks: Vec<bool>)
    requires
        width > 0,
        count == width as int * height as int,
    ensures
        marks@.len() == count,
        forall|i: int| 0 <= i < count ==> #[trigger] marks@[i] == marked_bad(width as int, areas@, masked@, bad@, i),
{
    let mut marks: Vec<bool> = Vec::new();
    let mut i: usize = 0;
    while i < count
        invariant
            i <= count,
            marks@ == Seq::new(i as nat, |j: int| false),
        decreases count - i,
    {
        marks.push(false);
        i = i + 1;
        assert(marks@ =~= Seq::new(i as nat, |j: int| false));
    }
    let ghost w = width as int;
    let mut k: usize = 0;
    while k < areas.len()
        invariant
            width > 0,
            w == width as int,
            count == width as int * height as int,
            k <= areas@.len(),
            marks@.len() == count,
            forall|i: int| 0 <= i < count ==> #[trigger] marks@[i] == areas_cover(areas@, k as int, i % w, i / w),
        decreases areas@.len() - k,
    {
        mark_area(&mut marks, width, height, areas[k]);
        k = k + 1;
    }
    mark_listed_pixels(&mut marks, masked);
    mark_listed_bad(&mut marks, bad);
    marks
}

/// The quality mask a capture starts its correction with: every sample
/// carries the flags its references raise, and, when the capture is corrected
/// at all, bad pixels are flagged. A sample is valid exactly when it carries
/// no flag. `sample_count` must be the mosaic's `width * height`.
pub fn capture_quality_mask(
    width: u32,
    height: u32,
    sample_count: usize,
    dark: &Option<ReferenceFit>,
    open: &Option<ReferenceFit>,
    masked_areas: &Vec<[u32; 4]>,
    masked_pixels: &Vec<u32>,
    bad_pixels: &Vec<usize>,
) -> (r: Result<CaptureMask, String>)
    ensures
        sample_count != width as int * height as int ==> r is Err && r->Err_0@
            == "Raw mosaic sample count mismatch"@,
        sample_count == width as int * height as int ==> (r matches Ok(m) && {
            &&& m.corrects == references_usable(*dark, *open)
            &&& m.quality.valid@.len() == sample_count
            &&& m.quality.flags@.len() == sample_count
            &&& forall|i: int| 0 <= i < sample_count ==> #[trigger] m.quality.valid@[i] == (m.quality.flags@[i].0
                == 0)
            &&& forall|i: int, f: QualityFlag|
                0 <= i < sample_count ==> #[trigger] has_flag(m.quality.flags@[i].0, f) == (reference_flag(
                    *dark,
                    *open,
                    f,
                ) || (f == QualityFlag::BadPixel && m.corrects && marked_bad(
                    width as int,
                    masked_areas@,
                    masked_pixels@,
                    bad_pixels@,
                    i,
                )))
        }),
{
    assert((width as int) * (height as int) <= 0xffff_ffffint * 0xffff_ffffint) by (nonlinear_arith)
        requires
            0 <= width <= 0xffff_ffff,
            0 <= height <= 0xffff_ffff,
    ;
    let expected: u64 = (width as u64) * (height as u64);
    if sample_count as u64 != expected {
        return Err(crate::text::owned("Raw mosaic sample count mismatch"));
    }
    let (base, corrects) = reference_flags(dark, open);
    let marks: Vec<bool> = if corrects && width > 0 {
        bad_sample_marks(width, height, sample_count, masked_areas, masked_pixels, bad_pixels)
    } else {
        let mut none: Vec<bool> = Vec::new();
        let mut i: usize = 0;
        while i < sample_count
            invariant
                i <= sample_count,
                none@ == Seq::new(i as nat, |j: int| false),
            decreases sample_count - i,
        {
            none.push(false);
            i = i + 1;
            assert(none@ =~= Seq::new(i as nat, |j: int| false));
        }
        none
    };
    assert(forall|i: int| 0 <= i < sample_count && marks@[i] ==> corrects && marked_bad(
        width as int,
        masked_areas@,
        masked_pixels@,
        bad_pixels@,
        i,
    ));
    let mut with_bad = base;
    with_bad.insert(QualityFlag::BadPixel);
    let mut valid: Vec<bool> = Vec::new();
    let mut flags: Vec<QualityFlags> = Vec::new();
    let mut i: usize = 0;
    while i < sample_count
        invariant
            i <= sample_count,
            marks@.len() == sample_count,
            valid@.len() == i,
            flags@.len() == i,
            forall|f: QualityFlag| #[trigger] has_flag(base.0, f) == reference_flag(*dark, *open, f),
            has_flag(with_bad.0, QualityFlag::BadPixel),
            forall|f: QualityFlag| f != QualityFlag::BadPixel ==> #[trigger] has_flag(with_bad.0, f) == has_flag(base.0, f),
            forall|j: int| 0 <= j < i ==> #[trigger] valid@[j] == (flags@[j].0 == 0),
            forall|j: int| 0 <= j < i ==> #[trigger] flags@[j] == if marks@[j] { with_bad } else { base },
        decreases sample_count - i,
    {
        let f = if marks[i] { with_bad } else { base };
        valid.push(f.0 == 0);
        flags.push(f);
        i = i + 1;
    }
    let quality = QualityMask { valid, flags };
    assert forall|i: int, f: QualityFlag| 0 <= i < sample_count implies #[trigger] has_flag(quality.flags@[i].0, f)
        == (reference_flag(*dark, *open, f) || (f == QualityFlag::BadPixel && corrects && marked_bad(
        width as int,
        masked_areas@,
        masked_pixels@,
        bad_pixels@,
        i,
    ))) by {
        assert(quality.flags@[i] == flags@[i]);
        assert(flags@[i] == if marks@[i] { with_bad } else { base });
        assert(has_flag(base.0, f) == reference_flag(*dark, *open, f));
        if corrects && width > 0 {
            assert(marks@[i] == marked_bad(width as int, masked_areas@, masked_pixels@, bad_pixels@, i));
        } else {
            assert(!marks@[i]);
        }
        if marks@[i] && f != QualityFlag::BadPixel {
            assert(has_flag(with_bad.0, f) == has_flag(base.0, f));
        }
    }
    Ok(CaptureMask { quality, corrects })
}


// ---------------------------------------------------------------------------
// Fixed bilinear demosaic and orientation
// ---------------------------------------------------------------------------

/// Why a corrected mosaic cannot be demosaiced, if it cannot. `active_area`
/// is `[left, top, active_width, active_height]`.
pub open spec fn demosaic_refusal(
    cfa: CfaPattern,
    width: u32,
    height: u32,
    sample_count: int,
    mask_count: int,
    active_area: [u32; 4],
) -> Option<Seq<char>> {
    if !(cfa is Bayer) {
        Some("Measured CFA demosaic requires a Bayer CFA"@)
    } else if sample_count != width * height || mask_count != width * height {
        Some("Raw mosaic and quality mask dimensions do not match"@)
    } else if active_area[2] == 0 || active_area[3] == 0 || active_area[0] + active_area[2] > width
        || active_area[1] + active_area[3] > height {
        Some("Raw active area is outside the unpacked mosaic"@)
    } else {
        None
    }
}

/// Check that a corrected mosaic can be demosaiced.
pub fn demosaic_layout(
    cfa: CfaPattern,
    width: u32,
    height: u32,
    sample_count: usize,
    mask_count: usize,
    active_area: [u32; 4],
) -> (r: Result<(), String>)
    ensures
        match demosaic_refusal(cfa, width, height, sample_count as int, mask_count as int, active_area) {
            Some(message) => r is Err && r->Err_0@ == message,
            None => r is Ok,
        },
{
    match cfa {
        CfaPattern::Bayer { .. } => {},
        _ => return Err(crate::text::owned("Measured CFA demosaic requires a Bayer CFA")),
    }
    assert((width as int) * (height as int) <= 0xffff_ffffint * 0xffff_ffffint) by (nonlinear_arith)
        requires
            0 <= width <= 0xffff_ffff,
            0 <= height <= 0xffff_ffff,
    ;
    let expected: u64 = (width as u64) * (height as u64);
    if sample_count as u64 != expected || mask_count as u64 != expected {
        return Err(crate::text::owned("Raw mosaic and quality mask dimensions do not match"));
    }
    let left = active_area[0] as u64;
    let top = active_area[1] as u64;
    if active_area[2] == 0 || active_area[3] == 0 || left + active_area[2] as u64 > width as u64 || top
        + active_area[3] as u64 > height as u64 {
        return Err(crate::text::owned("Raw active area is outside the unpacked mosaic"));
    }
    Ok(())
}

/// The raw site the demosaic reads as neighbour `k` (row-major over the 3x3
/// window) of the site at column `x`, row `y`, when that site lies inside the
/// active area `[left, top, active_width, active_height]`.
pub open spec fn neighbour_site(active_area: [u32; 4], x: int, y: int, k: int) -> Option<(int, int)> {
    let nx = x + k % 3 - 1;
    let ny = y + k / 3 - 1;
    if nx < active_area[0] || ny < active_area[1] || nx >= active_area[0] + active_area[2] || ny
        >= active_area[1] + active_area[3] {
        None
    } else {
        Some((nx, ny))
    }
}

/// What the demosaic reads as neighbour `k`: the neighbour's sample index and
/// RGB plane, when the neighbour is inside the active area and valid. The
/// CFA phase is anchored in full raw coordinates.
pub open spec fn demosaic_neighbour_spec(
    filters: u32,
    width: u32,
    active_area: [u32; 4],
    valid: Seq<bool>,
    x: int,
    y: int,
    k: int,
) -> Option<(usize, u32)> {
    match neighbour_site(active_area, x, y, k) {
        None => None,
        Some((nx, ny)) => {
            let n = ny * width + nx;
            if valid[n] {
                Some((n as usize, rgb_plane(spec_bayer_raw_channel(filters, ny as i32, nx as i32))))
            } else {
                None
            }
        },
    }
}

/// Neighbour `k` (0 to 8, row-major over the 3x3 window) that the fixed
/// bilinear demosaic averages into the pixel at raw column `x`, row `y`.
pub fn demosaic_neighbour(
    filters: u32,
    width: u32,
    height: u32,
    active_area: [u32; 4],
    valid: &Vec<bool>,
    x: u32,
    y: u32,
    k: u32,
) -> (r: Option<(usize, u32)>)
    requires
        width < 0x8000_0000,
        height < 0x8000_0000,
        valid@.len() == width * height,
        active_area[0] + active_area[2] <= width,
        active_area[1] + active_area[3] <= height,
        active_area[0] <= x < active_area[0] + active_area[2],
        active_area[1] <= y < active_area[1] + active_area[3],
        k < 9,
    ensures
        r == demosaic_neighbour_spec(filters, width, active_area, valid@, x as int, y as int, k as int),
{
    let nx: i64 = x as i64 + (k % 3) as i64 - 1;
    let ny: i64 = y as i64 + (k / 3) as i64 - 1;
    let left = active_area[0] as i64;
    let top = active_area[1] as i64;
    if nx < left || ny < top || nx >= left + active_area[2] as i64 || ny >= top + active_area[3] as i64 {
        return None;
    }
    assert((ny as int) * (width as int) + (nx as int) < (width as int) * (height as int)) by (nonlinear_arith)
        requires
            0 <= nx < width,
            0 <= ny < height,
    ;
    assert(0 <= (ny as int) * (width as int)) by (nonlinear_arith)
        requires
            0 <= ny,
            0 <= width,
    ;
    let count = valid.len();
    let n: usize = (ny as usize) * (width as usize) + (nx as usize);
    if valid[n] {
        Some((n, bayer_rgb_channel(filters, ny as i32, nx as i32)))
    } else {
        None
    }
}

/// The size of an image after LibRaw flip `orientation`: flips 5 and 6 turn
/// it by a quarter.
pub open spec fn oriented_size(orientation: u16, width: int, height: int) -> (int, int) {
    if orientation == 5 || orientation == 6 {
        (height, width)
    } else {
        (width, height)
    }
}

/// The source pixel `(x, y)` shown at target `(tx, ty)` under LibRaw flip
/// `orientation`: 3 turns by a half, 5 a quarter counter-clockwise, 6 a
/// quarter clockwise; any other value leaves the image as it is.
pub open spec fn oriented_source(orientation: u16, width: int, height: int, tx: int, ty: int) -> (int, int) {
    if orientation == 3 {
        (width - 1 - tx, height - 1 - ty)
    } else if orientation == 5 {
        (width - 1 - ty, tx)
    } else if orientation == 6 {
        (ty, height - 1 - tx)
    } else {
        (tx, ty)
    }
}

/// The source index of target index `t`, both row-major.
pub open spec fn oriented_index(orientation: u16, width: int, height: int, t: int) -> int {
    let target_width = oriented_size(orientation, width, height).0;
    let (sx, sy) = oriented_source(orientation, width, height, t % target_width, t / target_width);
    sy * width + sx
}

/// Reorder the row-major pixels of a `width` x `height` image as LibRaw flip
/// `orientation` shows them.
pub fn orient_pixels<T: Copy>(values: &Vec<T>, width: u32, height: u32, orientation: u16) -> (r: Vec<T>)
    requires
        values@.len() == width * height,
    ensures
        r@.len() == values@.len(),
        forall|t: int| 0 <= t < r@.len() ==> #[trigger] r@[t] == values@[oriented_index(
            orientation,
            width as int,
            height as int,
            t,
        )],
{
    let turned = orientation == 5 || orientation == 6;
    let target_width: u32 = if turned { height } else { width };
    let target_height: u32 = if turned { width } else { height };
    let ghost w = width as int;
    let ghost h = height as int;
    let ghost tw = target_width as int;
    let count = values.len();
    let mut out: Vec<T> = Vec::new();
    let mut ty: u32 = 0;
    while ty < target_height
        invariant
            values@.len() == w * h,
            count == values@.len(),
            w == width as int,
            h == height as int,
            tw == target_width as int,
            tw == oriented_size(orientation, w, h).0,
            target_height as int == oriented_size(orientation, w, h).1,
            ty <= target_height,
            out@.len() == ty * tw,
            forall|t: int| 0 <= t < out@.len() ==> #[trigger] out@[t] == values@[oriented_index(orientation, w, h, t)],
        decreases target_height - ty,
    {
        let mut tx: u32 = 0;
        while tx < target_width
            invariant
                values@.len() == w * h,
                count == values@.len(),
                w == width as int,
                h == height as int,
                tw == target_width as int,
                tw == oriented_size(orientation, w, h).0,
                target_height as int == oriented_size(orientation, w, h).1,
                ty < target_height,
                tx <= target_width,
                out@.len() == ty * tw + tx,
                forall|t: int| 0 <= t < out@.len() ==> #[trigger] out@[t] == values@[oriented_index(
                    orientation,
                    w,
                    h,
                    t,
                )],
            decreases target_width - tx,
        {
            let (sx, sy): (u32, u32) = if orientation == 3 {
                (width - 1 - tx, height - 1 - ty)
            } else if orientation == 5 {
                (width - 1 - ty, tx)
            } else if orientation == 6 {
                (ty, height - 1 - tx)
            } else {
                (tx, ty)
            };
            assert((sy as int) * w + (sx as int) < w * h && 0 <= (sy as int) * w) by (nonlinear_arith)
                requires
                    0 <= sx < w,
                    0 <= sy < h,
            ;
            let source: usize = (sy as usize) * (width as usize) + (sx as usize);
            proof {
                lemma_row_major((ty as int) * tw + (tx as int), tw, tx as int, ty as int);
            }
            out.push(values[source]);
            tx = tx + 1;
        }
        assert(out@.len() == (ty + 1) * tw) by (nonlinear_arith)
            requires
                out@.len() == ty * tw + tw,
        ;
        ty = ty + 1;
    }
    assert(out@.len() == w * h) by (nonlinear_arith)
        requires
            out@.len() == (target_height as int) * tw,
            tw == oriented_size(orientation, w, h).0,
            target_height as int == oriented_size(orientation, w, h).1,
    ;
    out
}


/// Turning an image by a half twice restores every pixel, and so do a
/// quarter turn one way (LibRaw flip 6) and then the other (flip 5), in
/// either order: the second reordering undoes the first.
pub proof fn law_turns_undo_each_other(w: int, h: int, t: int)
    requires
        w > 0,
        h > 0,
        0 <= t < w * h,
    ensures
        oriented_index(3, w, h, oriented_index(3, w, h, t)) == t,
        oriented_index(6, w, h, oriented_index(5, h, w, t)) == t,
        oriented_index(5, w, h, oriented_index(6, h, w, t)) == t,
{
    vstd::arithmetic::div_mod::lemma_fundamental_div_mod(t, w);
    lemma_row_bound(t, w, h);
    let (tx, ty) = (t % w, t / w);
    assert(t == ty * w + tx) by (nonlinear_arith)
        requires
            t == w * (t / w) + t % w,
            tx == t % w,
            ty == t / w,
    ;
    // A half turn.
    let half = oriented_index(3, w, h, t);
    assert(half == (h - 1 - ty) * w + (w - 1 - tx));
    lemma_row_major(half, w, w - 1 - tx, h - 1 - ty);
    // Flip 5 on the h x w image, then flip 6.
    let five = oriented_index(5, h, w, t);
    assert(five == tx * h + (h - 1 - ty));
    lemma_row_major(five, h, h - 1 - ty, tx);
    // Flip 6 on the h x w image, then flip 5.
    let six = oriented_index(6, h, w, t);
    assert(six == (w - 1 - tx) * h + ty);
    lemma_row_major(six, h, ty, w - 1 - tx);
}


// ---------------------------------------------------------------------------
// The mosaic LibRaw unpacked
// ---------------------------------------------------------------------------

/// LibRaw's `filters` value for an X-Trans sensor.
pub const LIBRAW_XTRANS: u32 = 9;

/// The colour filter array LibRaw's `filters` describes.
pub open spec fn spec_cfa_from_filters(filters: u32) -> CfaPattern {
    if filters == LIBRAW_XTRANS {
        CfaPattern::XTrans
    } else if filters != 0 {
        CfaPattern::Bayer { filters }
    } else {
        CfaPattern::Unknown
    }
}

pub fn cfa_from_filters(filters: u32) -> (cfa: CfaPattern)
    ensures
        cfa == spec_cfa_from_filters(filters),
{
    if filters == LIBRAW_XTRANS {
        CfaPattern::XTrans
    } else if filters != 0 {
        CfaPattern::Bayer { filters }
    } else {
        CfaPattern::Unknown
    }
}

/// LibRaw's `flip` as an orientation code, kept within `u16`.
pub fn libraw_orientation(flip: i32) -> (orientation: u16)
    ensures
        orientation == if flip < 0 {
            0
        } else if flip > u16::MAX {
            u16::MAX as int
        } else {
            flip as int
        },
{
    if flip < 0 {
        0
    } else if flip > 0xffff {
        0xffff
    } else {
        flip as u16
    }
}

/// Per-channel black and white levels: the common black plus the channel's
/// own, saturating; the channel's linear maximum when LibRaw has one, else the
/// sensor maximum.
pub fn channel_levels(black: u32, cblack: [u32; 4], linear_max: [u32; 4], maximum: u32) -> (levels: ([u32; 4], [u32; 4]))
    ensures
        forall|c: int| 0 <= c < 4 ==> #[trigger] levels.0[c] == if black + cblack[c] > u32::MAX {
            u32::MAX as int
        } else {
            black + cblack[c]
        },
        forall|c: int| 0 <= c < 4 ==> #[trigger] levels.1[c] == if linear_max[c] > 0 {
            linear_max[c]
        } else {
            maximum
        },
{
    let mut black_level: [u32; 4] = [0, 0, 0, 0];
    let mut white_level: [u32; 4] = [0, 0, 0, 0];
    let mut c: usize = 0;
    while c < 4
        invariant
            c <= 4,
            forall|k: int| 0 <= k < c ==> #[trigger] black_level[k] == if black + cblack[k] > u32::MAX {
                u32::MAX as int
            } else {
                black + cblack[k]
            },
            forall|k: int| 0 <= k < c ==> #[trigger] white_level[k] == if linear_max[k] > 0 {
                linear_max[k]
            } else {
                maximum
            },
        decreases 4 - c,
    {
        let b = black.saturating_add(cblack[c]);
        black_level[c] = b;
        let w = if linear_max[c] > 0 { linear_max[c] } else { maximum };
        white_level[c] = w;
        c = c + 1;
    }
    (black_level, white_level)
}

/// A masked rectangle LibRaw reports is usable: it is set, and no coordinate
/// is negative.
pub open spec fn usable_mask(area: [i32; 4]) -> bool {
    (area[0] != 0 || area[1] != 0 || area[2] != 0 || area[3] != 0) && area[0] >= 0 && area[1] >= 0
        && area[2] >= 0 && area[3] >= 0
}

/// The usable rectangles among the first `n`, in order, as unsigned values.
pub open spec fn usable_masks_upto(areas: Seq<[i32; 4]>, n: int) -> Seq<[u32; 4]>
    decreases n,
{
    if n <= 0 {
        Seq::empty()
    } else {
        let earlier = usable_masks_upto(areas, n - 1);
        let a = areas[n - 1];
        if usable_mask(a) {
            earlier.push([a[0] as u32, a[1] as u32, a[2] as u32, a[3] as u32])
        } else {
            earlier
        }
    }
}

/// The masked rectangles of a mosaic that mark optical-black samples.
pub fn usable_masked_areas(areas: &Vec<[i32; 4]>) -> (r: Vec<[u32; 4]>)
    ensures
        r@ == usable_masks_upto(areas@, areas@.len() as int),
{
    let mut out: Vec<[u32; 4]> = Vec::new();
    let mut i: usize = 0;
    while i < areas.len()
        invariant
            i <= areas@.len(),
            out@ == usable_masks_upto(areas@, i as int),
        decreases areas@.len() - i,
    {
        let a = areas[i];
        if (a[0] != 0 || a[1] != 0 || a[2] != 0 || a[3] != 0) && a[0] >= 0 && a[1] >= 0 && a[2] >= 0 && a[3] >= 0 {
            out.push([a[0] as u32, a[1] as u32, a[2] as u32, a[3] as u32]);
        }
        i = i + 1;
    }
    out
}

/// Copy the rows of a mosaic LibRaw stores `raw_pitch` bytes apart into one
/// contiguous `width` x `height` buffer. `raw` holds the rows as LibRaw
/// stores them.
pub fn copy_pitched_rows(raw: &[u16], width: u32, height: u32, raw_pitch: u32) -> (r: Result<Vec<u16>, String>)
    requires
        width * height > 0 && raw_pitch / 2 >= width ==> raw@.len() >= (height - 1) * (raw_pitch / 2) + width,
    ensures
        width * height > usize::MAX ==> r is Err && r->Err_0@ == "LibRaw mosaic dimensions overflow"@,
        width * height <= usize::MAX && (width * height == 0 || raw_pitch / 2 < width) ==> r is Err && r->Err_0@
            == "LibRaw returned invalid raw mosaic dimensions"@,
        width * height <= usize::MAX && width * height > 0 && raw_pitch / 2 >= width ==> (r matches Ok(samples) && {
            &&& samples@.len() == width * height
            &&& forall|i: int| 0 <= i < width * height ==> #[trigger] samples@[i] == raw@[(i / width as int) * (raw_pitch
                / 2) + i % width as int]
        }),
{
    assert((width as int) * (height as int) <= 0xffff_ffffint * 0xffff_ffffint) by (nonlinear_arith)
        requires
            0 <= width <= 0xffff_ffff,
            0 <= height <= 0xffff_ffff,
    ;
    let product: u64 = (width as u64) * (height as u64);
    if product > usize::MAX as u64 {
        return Err(crate::text::owned("LibRaw mosaic dimensions overflow"));
    }
    let stride: u32 = raw_pitch / 2;
    if product == 0 || stride < width {
        return Err(crate::text::owned("LibRaw returned invalid raw mosaic dimensions"));
    }
    let ghost w = width as int;
    let ghost h = height as int;
    let ghost st = stride as int;
    let raw_len = raw.len();
    let mut samples: Vec<u16> = Vec::new();
    let mut row: u32 = 0;
    while row < height
        invariant
            w == width as int,
            h == height as int,
            st == stride as int,
            w > 0,
            h > 0,
            st >= w,
            w * h <= usize::MAX,
            raw_len == raw@.len(),
            raw@.len() >= (h - 1) * st + w,
            row <= height,
            samples@.len() == row * w,
            forall|i: int| 0 <= i < samples@.len() ==> #[trigger] samples@[i] == raw@[(i / w) * st + i % w],
        decreases height - row,
    {
        let mut column: u32 = 0;
        while column < width
            invariant
                w == width as int,
                h == height as int,
                st == stride as int,
                w > 0,
                h > 0,
                st >= w,
                w * h <= usize::MAX,
                raw_len == raw@.len(),
                raw@.len() >= (h - 1) * st + w,
                row < height,
                column <= width,
                samples@.len() == row * w + column,
                forall|i: int| 0 <= i < samples@.len() ==> #[trigger] samples@[i] == raw@[(i / w) * st + i % w],
            decreases width - column,
        {
            assert((row as int) * st + (column as int) < (h - 1) * st + w && 0 <= (row as int) * st) by (nonlinear_arith)
                requires
                    0 <= row < h,
                    0 <= column < w,
                    st >= w,
                    w > 0,
            ;
            let source: usize = (row as usize) * (stride as usize) + (column as usize);
            proof {
                lemma_row_major((row as int) * w + (column as int), w, column as int, row as int);
            }
            samples.push(raw[source]);
            column = column + 1;
        }
        assert(samples@.len() == (row + 1) * w) by (nonlinear_arith)
            requires
                samples@.len() == row * w + w,
        ;
        row = row + 1;
    }
    assert(samples@.len() == w * h) by (nonlinear_arith)
        requires
            samples@.len() == h * w,
    ;
    Ok(samples)
}


pub const SMART_AUTO_CHANNELS_PREFIX: &'static str = "LibRaw Smart Auto output has ";
pub const SMART_AUTO_CHANNELS_SUFFIX: &'static str = " channels";
pub const SMART_AUTO_DEPTH_PREFIX: &'static str = "Unsupported LibRaw Smart Auto bit depth: ";
pub const SMART_AUTO_TRUNCATED_MESSAGE: &'static str = "LibRaw Smart Auto output is truncated";

/// The red, green and blue codes of every pixel of a processed LibRaw image,
/// and the code of full scale (255 for 8-bit, 65535 for 16-bit output).
pub struct SmartAutoCodes {
    pub codes: Vec<u16>,
    pub full_scale: u16,
}

/// Why a processed LibRaw image cannot serve as a Smart Auto source, if it
/// cannot: fewer than three channels, a depth other than 8 or 16 bits, or
/// fewer bytes than its pixels take.
pub open spec fn smart_auto_refusal(width: u16, height: u16, colors: u16, bits: u16, len: nat) -> Option<Seq<char>> {
    if colors < 3 {
        Some(SMART_AUTO_CHANNELS_PREFIX@ + crate::dng_writer::decimal(colors as nat) + SMART_AUTO_CHANNELS_SUFFIX@)
    } else if bits != 8 && bits != 16 {
        Some(SMART_AUTO_DEPTH_PREFIX@ + crate::dng_writer::decimal(bits as nat))
    } else if len < width * height * colors * (bits / 8) {
        Some(SMART_AUTO_TRUNCATED_MESSAGE@)
    } else {
        None
    }
}

/// Channel `channel` of pixel `pixel` of interleaved samples of `colors`
/// channels of `bytes` bytes each, two-byte samples read in the byte order
/// `little` says.
pub open spec fn interleaved_code(data: Seq<u8>, little: bool, colors: int, bytes: int, pixel: int, channel: int) -> u16 {
    let at = pixel * (colors * bytes) + channel * bytes;
    if bytes == 1 {
        data[at] as u16
    } else if little {
        (data[at] + 256 * data[at + 1]) as u16
    } else {
        (256 * data[at] + data[at + 1]) as u16
    }
}

proof fn lemma_interleaved_in_bounds(pixel: int, pixels: int, channel: int, stride: int, bytes: int)
    requires
        0 <= pixel < pixels,
        0 <= channel < 3,
        1 <= bytes <= 2,
        3 * bytes <= stride,
    ensures
        0 <= pixel * stride,
        0 <= channel * bytes,
        pixel * stride + channel * bytes + bytes <= pixels * stride,
{
    assert(pixel * stride + channel * bytes + bytes <= pixel * stride + stride) by (nonlinear_arith)
        requires
            0 <= channel < 3,
            1 <= bytes,
            3 * bytes <= stride,
    ;
    assert(pixel * stride + stride == (pixel + 1) * stride) by (nonlinear_arith);
    assert((pixel + 1) * stride <= pixels * stride) by (nonlinear_arith)
        requires
            pixel + 1 <= pixels,
            0 <= stride,
    ;
    assert(0 <= pixel * stride) by (nonlinear_arith)
        requires
            0 <= pixel,
            0 <= stride,
    ;
}

/// The Smart Auto source codes of LibRaw's processed image: the first three
/// channels of each pixel. `little_endian` is the byte order of the machine
/// LibRaw wrote its 16-bit samples on.
pub fn smart_auto_codes(width: u16, height: u16, colors: u16, bits: u16, data: &[u8], little_endian: bool) -> (r: Result<
    SmartAutoCodes,
    String,
>)
    ensures
        match smart_auto_refusal(width, height, colors, bits, data@.len()) {
            Some(message) => r is Err && r->Err_0@ == message,
            None => r is Ok && r->Ok_0.full_scale == (if bits == 8 { 255u16 } else { 65535u16 }) && r->Ok_0.codes@.len()
                == width * height * 3 && forall|k: int|
                0 <= k < width * height * 3 ==> #[trigger] r->Ok_0.codes@[k] == interleaved_code(
                    data@,
                    little_endian,
                    colors as int,
                    bits as int / 8,
                    k / 3,
                    k % 3,
                ),
        },
{
    if colors < 3 {
        let mut message = crate::text::owned(SMART_AUTO_CHANNELS_PREFIX);
        crate::dng_writer::push_decimal(&mut message, colors as u64);
        message.append(SMART_AUTO_CHANNELS_SUFFIX);
        return Err(message);
    }
    if bits != 8 && bits != 16 {
        let mut message = crate::text::owned(SMART_AUTO_DEPTH_PREFIX);
        crate::dng_writer::push_decimal(&mut message, bits as u64);
        return Err(message);
    }
    let bytes: u64 = if bits == 8 { 1 } else { 2 };
    let stride: u64 = colors as u64 * bytes;
    assert(width * height <= 0xffff * 0xffff) by (nonlinear_arith)
        requires
            width <= 0xffff,
            height <= 0xffff,
    ;
    let pixels: u64 = width as u64 * height as u64;
    assert(pixels * stride <= 0x1_0000_0000_0000_0000 - 1) by (nonlinear_arith)
        requires
            pixels == width * height,
            stride == colors * bytes,
            width <= 0xffff,
            height <= 0xffff,
            colors <= 0xffff,
            bytes <= 2,
    ;
    let expected: u64 = pixels * stride;
    assert(expected == width * height * colors * (bits / 8)) by (nonlinear_arith)
        requires
            expected == pixels * stride,
            pixels == width * height,
            stride == colors * bytes,
            bytes == bits / 8,
    ;
    if (data.len() as u64) < expected {
        return Err(crate::text::owned(SMART_AUTO_TRUNCATED_MESSAGE));
    }
    let total: u64 = pixels * 3;
    assert(data@.len() == data.len());
    let mut codes: Vec<u16> = Vec::new();
    let mut k: u64 = 0;
    while k < total
        invariant
            total == pixels * 3,
            pixels == width * height,
            stride == colors * bytes,
            bytes == bits / 8,
            1 <= bytes <= 2,
            3 <= colors,
            3 * bytes <= stride,
            pixels * stride <= data@.len(),
            data@.len() <= usize::MAX,
            k <= total,
            codes@.len() == k,
            forall|j: int| 0 <= j < k ==> #[trigger] codes@[j] == interleaved_code(
                data@,
                little_endian,
                colors as int,
                bytes as int,
                j / 3,
                j % 3,
            ),
        decreases total - k,
    {
        let pixel: u64 = k / 3;
        let channel: u64 = k % 3;
        assert(pixel < pixels) by (nonlinear_arith)
            requires
                pixel == k / 3,
                k < pixels * 3,
        ;
        proof {
            lemma_interleaved_in_bounds(pixel as int, pixels as int, channel as int, stride as int, bytes as int);
        }
        let at: u64 = pixel * stride + channel * bytes;
        let code: u16 = if bytes == 1 {
            data[at as usize] as u16
        } else {
            let first = data[at as usize] as u16;
            let second = data[at as usize + 1] as u16;
            if little_endian {
                first + 256 * second
            } else {
                256 * first + second
            }
        };
        codes.push(code);
        k = k + 1;
    }
    Ok(SmartAutoCodes { codes, full_scale: if bits == 8 { 255 } else { 65535 } })
}

} // verus!
