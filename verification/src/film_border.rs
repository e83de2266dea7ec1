//! The integer side of film-gate detection: how an analysis thumbnail samples
//! its source, the area of a detected quadrilateral, and whether its corners
//! lie on the image. The gradient and contour analysis itself is
//! floating-point work done by the caller.
use vstd::prelude::*;

verus! {

#[derive(Debug, Clone, Copy, PartialEq, Eq, Structural)]
pub enum DetectionConfidence {
    High,
    Low,
}

/// The source row (or column) that analysis row `index` of `analysis_len`
/// samples: the centre of its span, kept on the image.
pub open spec fn spec_analysis_source(index: int, analysis_len: int, source_len: int) -> int {
    let centre = ((index * 2 + 1) * source_len) / (analysis_len * 2);
    let last = if source_len > 0 { source_len - 1 } else { 0 };
    if centre < last {
        centre
    } else {
        last
    }
}

/// The source row (or column) that analysis row `index` samples when an
/// image `source_len` samples long is reduced to `analysis_len` samples.
pub fn analysis_source(index: u32, analysis_len: u32, source_len: u32) -> (r: u32)
    requires
        0 < analysis_len,
        index < analysis_len,
    ensures
        r == spec_analysis_source(index as int, analysis_len as int, source_len as int),
        source_len > 0 ==> r < source_len,
{
    assert((index as int * 2 + 1) * (source_len as int) <= 0x2_0000_0000int * 0x1_0000_0000int) by (nonlinear_arith)
        requires
            0 <= index <= 0xffff_ffff,
            0 <= source_len <= 0xffff_ffff,
    ;
    let numerator: u128 = (index as u128 * 2 + 1) * source_len as u128;
    let centre: u128 = numerator / (analysis_len as u128 * 2);
    let last: u32 = if source_len > 0 { source_len - 1 } else { 0 };
    if centre < last as u128 {
        centre as u32
    } else {
        last
    }
}

/// Twice the signed area of the quadrilateral `p`, by the shoelace formula.
pub open spec fn shoelace(p: [[i32; 2]; 4]) -> int {
    (p[0][0] * p[1][1] - p[1][0] * p[0][1]) + (p[1][0] * p[2][1] - p[2][0] * p[1][1]) + (p[2][0] * p[3][1]
        - p[3][0] * p[2][1]) + (p[3][0] * p[0][1] - p[0][0] * p[3][1])
}

/// One edge's term of the shoelace sum.
fn cross(a: [i32; 2], b: [i32; 2]) -> (r: i128)
    ensures
        r == a[0] * b[1] - b[0] * a[1],
        -0x8000_0000_0000_0000int <= r <= 0x8000_0000_0000_0000int,
{
    let (ax, ay, bx, by) = (a[0] as i128, a[1] as i128, b[0] as i128, b[1] as i128);
    assert(-0x4000_0000_0000_0000int <= ax * by <= 0x4000_0000_0000_0000int) by (nonlinear_arith)
        requires
            -0x8000_0000int <= ax <= 0x7fff_ffff,
            -0x8000_0000int <= by <= 0x7fff_ffff,
    ;
    assert(-0x4000_0000_0000_0000int <= bx * ay <= 0x4000_0000_0000_0000int) by (nonlinear_arith)
        requires
            -0x8000_0000int <= bx <= 0x7fff_ffff,
            -0x8000_0000int <= ay <= 0x7fff_ffff,
    ;
    ax * by - bx * ay
}

/// Twice the area of the quadrilateral with corners `points` (`[x, y]`, in
/// order round the outline).
pub fn twice_polygon_area(points: [[i32; 2]; 4]) -> (r: u128)
    ensures
        r == if shoelace(points) >= 0 { shoelace(points) } else { -shoelace(points) },
{
    let sum: i128 = cross(points[0], points[1]) + cross(points[1], points[2]) + cross(points[2], points[3]) + cross(
        points[3],
        points[0],
    );
    if sum >= 0 {
        sum as u128
    } else {
        (-sum) as u128
    }
}

/// Every corner lies on a `width` x `height` image.
pub open spec fn corners_on_image(points: [[i32; 2]; 4], width: u32, height: u32) -> bool {
    forall|i: int| 0 <= i < 4 ==> 0 <= #[trigger] points[i][0] < width && 0 <= points[i][1] < height
}

/// Whether every corner of a detected quadrilateral lies on the image.
pub fn quad_on_image(points: [[i32; 2]; 4], width: u32, height: u32) -> (r: bool)
    ensures
        r == corners_on_image(points, width, height),
{
    let mut i: usize = 0;
    while i < 4
        invariant
            i <= 4,
            forall|j: int| 0 <= j < i ==> 0 <= #[trigger] points[j][0] < width && 0 <= points[j][1] < height,
        decreases 4 - i,
    {
        let p = points[i];
        if p[0] < 0 || p[1] < 0 || p[0] as i64 >= width as i64 || p[1] as i64 >= height as i64 {
            assert(!(0 <= points[i as int][0] < width && 0 <= points[i as int][1] < height));
            return false;
        }
        i = i + 1;
    }
    true
}

/// `x` is the middle sample of `samples`: it sits at position `len / 2` of
/// an arrangement of the same samples in which nothing before it is larger
/// and nothing after it is smaller.
pub open spec fn is_middle_sample(samples: Seq<i16>, x: i16) -> bool {
    let mid = samples.len() as int / 2;
    exists|t: Seq<i16>|
        #![trigger t.to_multiset()]
        t.len() == samples.len() && t.to_multiset() == samples.to_multiset() && t[mid] == x && (forall|i: int|
            0 <= i < mid ==> #[trigger] t[i] <= x) && (forall|i: int| mid < i < t.len() ==> #[trigger] t[i] >= x)
}

/// `slice::select_nth_unstable`: reorders the samples so that the one at
/// `index` is where a sort would put it, with no larger sample before it and
/// no smaller one after it. The contract claims exactly that, and that the
/// samples are only reordered.
#[verifier::external_body]
fn select_nth(samples: &mut Vec<i16>, index: usize)
    requires
        index < old(samples)@.len(),
    ensures
        final(samples)@.len() == old(samples)@.len(),
        final(samples)@.to_multiset() == old(samples)@.to_multiset(),
        forall|i: int| 0 <= i < index ==> #[trigger] final(samples)@[i] <= final(samples)@[index as int],
        forall|i: int|
            index < i < final(samples)@.len() ==> #[trigger] final(samples)@[i] >= final(samples)@[index as int],
{
    samples.select_nth_unstable(index);
}

/// The median gradient sample of a projection line: the middle sample, or 0
/// when there is none. The samples are left reordered.
pub fn median_i16(samples: &mut Vec<i16>) -> (m: i16)
    ensures
        final(samples)@.to_multiset() == old(samples)@.to_multiset(),
        old(samples)@.len() == 0 ==> m == 0,
        old(samples)@.len() > 0 ==> is_middle_sample(old(samples)@, m),
{
    if samples.len() == 0 {
        return 0;
    }
    let middle = samples.len() / 2;
    select_nth(samples, middle);
    let m = samples[middle];
    assert(samples@.to_multiset() == old(samples)@.to_multiset());
    m
}

/// The edge strength of a gradient sample for the wanted polarity: the
/// signed response, or 0 when it points the other way.
pub open spec fn edge_strength(v: i16, polarity: i32) -> int {
    let p = v * polarity;
    if p > 0 {
        p
    } else {
        0
    }
}

/// First position of the search window round `center`: at least 1.
pub open spec fn window_start(center: i32, radius: i32) -> int {
    if center - radius > 1 {
        center - radius
    } else {
        1
    }
}

/// Last position of the search window round `center`: at most `len - 2`.
pub open spec fn window_end(center: i32, radius: i32, len: int) -> int {
    if center + radius < len - 2 {
        center + radius
    } else {
        len - 2
    }
}

/// The strongest edge response along a gradient line within `radius` of
/// `center`, away from the line's outermost samples: its position and
/// strength, the last position among equally strong ones. `None` when the
/// window is empty.
pub fn strongest_local(line: &[i16], center: i32, radius: i32, polarity: i32) -> (r: Option<(i32, i64)>)
    requires
        i32::MIN <= center - radius <= i32::MAX,
        i32::MIN <= center + radius <= i32::MAX,
        line@.len() <= i32::MAX,
    ensures
        ({
            let lo = window_start(center, radius);
            let hi = window_end(center, radius, line@.len() as int);
            match r {
                None => lo > hi,
                Some((k, s)) => {
                    &&& lo <= k <= hi
                    &&& s == edge_strength(line@[k as int], polarity)
                    &&& forall|j: int| lo <= j <= hi ==> edge_strength(#[trigger] line@[j], polarity) <= s
                    &&& forall|j: int| k < j <= hi ==> edge_strength(#[trigger] line@[j], polarity) < s
                },
            }
        }),
{
    let ghost lo = window_start(center, radius);
    let ghost hi = window_end(center, radius, line@.len() as int);
    let start: i32 = if center - radius > 1 { center - radius } else { 1 };
    let last_index: i64 = line.len() as i64 - 2;
    let end: i64 = if (center as i64 + radius as i64) < last_index { center as i64 + radius as i64 } else { last_index };
    if (start as i64) > end {
        return None;
    }
    let mut best: i32 = start;
    let mut best_strength: i64 = strength_of(line[start as usize], polarity);
    let mut x: i64 = start as i64 + 1;
    while x <= end
        invariant
            lo == start,
            hi == end,
            1 <= start <= best < x <= end + 1,
            end <= line@.len() - 2,
            end <= i32::MAX,
            best_strength == edge_strength(line@[best as int], polarity),
            forall|j: int| lo <= j < x ==> edge_strength(#[trigger] line@[j], polarity) <= best_strength,
            forall|j: int| best < j < x ==> edge_strength(#[trigger] line@[j], polarity) < best_strength,
        decreases end + 1 - x,
    {
        let s = strength_of(line[x as usize], polarity);
        if s >= best_strength {
            best = x as i32;
            best_strength = s;
        }
        x = x + 1;
    }
    Some((best, best_strength))
}

fn strength_of(v: i16, polarity: i32) -> (s: i64)
    ensures
        s == edge_strength(v, polarity),
{
    assert(-0x8000_0000_0000int <= v * polarity <= 0x8000_0000_0000int) by (nonlinear_arith)
        requires
            -0x8000 <= v <= 0x7fff,
            -0x8000_0000int <= polarity <= 0x7fff_ffff,
    ;
    let p: i64 = v as i64 * polarity as i64;
    if p > 0 {
        p
    } else {
        0
    }
}

} // verus!
