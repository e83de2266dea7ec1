//! The integer side of automatic cropping: the 8-bit grey image whose edges
//! the line detection looks for. The blur, edge and line analysis itself is
//! floating-point work done by the caller.
use vstd::prelude::*;

verus! {

/// The grey level of a 16-bit RGB pixel: the mean of its channels, scaled
/// to 8 bits.
pub open spec fn grey_level(r: u16, g: u16, b: u16) -> int {
    (r as int + g as int + b as int) / 768
}

/// The grey image of interleaved 16-bit RGB samples, one level per pixel.
pub fn gray_luma(rgb: &[u16]) -> (grey: Vec<u8>)
    requires
        rgb@.len() % 3 == 0,
    ensures
        grey@.len() == rgb@.len() / 3,
        forall|p: int|
            0 <= p < grey@.len() ==> #[trigger] grey@[p] == grey_level(rgb@[3 * p], rgb@[3 * p + 1], rgb@[3 * p + 2]),
{
    let pixels = rgb.len() / 3;
    assert(rgb@.len() == rgb.len());
    let mut grey: Vec<u8> = Vec::new();
    let mut p: usize = 0;
    while p < pixels
        invariant
            pixels == rgb@.len() / 3,
            rgb@.len() % 3 == 0,
            rgb@.len() <= usize::MAX,
            p <= pixels,
            grey@.len() == p,
            forall|q: int|
                0 <= q < p ==> #[trigger] grey@[q] == grey_level(rgb@[3 * q], rgb@[3 * q + 1], rgb@[3 * q + 2]),
        decreases pixels - p,
    {
        let sum: u32 = rgb[3 * p] as u32 + rgb[3 * p + 1] as u32 + rgb[3 * p + 2] as u32;
        let level: u32 = sum / 768;
        assert(level <= 255);
        grey.push(level as u8);
        p = p + 1;
    }
    grey
}

} // verus!
