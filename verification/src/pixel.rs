//! RGBA pixels and the per-pixel compositing operation.

use vstd::prelude::*;

verus! {

/// One pixel: red, green, blue and alpha, eight bits each.
#[derive(Clone, Copy, Debug, PartialEq, Eq, Structural)]
pub struct Pixel {
    pub r: u8,
    pub g: u8,
    pub b: u8,
    pub a: u8,
}

impl Pixel {
    /// Fully opaque: compositing this pixel over another replaces it.
    pub open spec fn opaque(self) -> bool {
        self.a == 255
    }

    /// Fully transparent: compositing this pixel over an opaque or fully
    /// transparent pixel leaves that pixel as it was.
    pub open spec fn transparent(self) -> bool {
        self.a == 0
    }

    pub fn new(r: u8, g: u8, b: u8, a: u8) -> (p: Pixel)
        ensures
            p == (Pixel { r, g, b, a }),
    {
        Pixel { r, g, b, a }
    }
}

/// What the `image` crate's source-over alpha compositing returns for the
/// pixel pairs whose result `blend_spec` does not spell out: a function of the
/// two pixels alone.
pub uninterp spec fn blend_mixed(dst: Pixel, src: Pixel) -> Pixel;

/// Source-over compositing of `src` onto `dst`, as the `image` crate computes
/// it for eight-bit RGBA.  A fully transparent source leaves an opaque or
/// fully transparent destination as it was; a fully opaque source replaces an
/// opaque or fully transparent destination.  Every other pairing goes through
/// the crate's rounded alpha arithmetic, named here by `blend_mixed`.
pub open spec fn blend_spec(dst: Pixel, src: Pixel) -> Pixel {
    if src.transparent() && (dst.transparent() || dst.opaque()) {
        dst
    } else if src.opaque() && (dst.opaque() || dst.transparent()) {
        src
    } else {
        blend_mixed(dst, src)
    }
}

/// Relies on `<image::Rgba<u8> as image::Pixel>::blend`, source-over alpha
/// compositing: pure arithmetic in the two pixels, so the result is a
/// function of them alone.  The spelled-out cases hold of that arithmetic:
/// with both alphas 0 the blend returns at once and the destination stays;
/// with either alpha 255 and the other 0 or 255, the alpha factors come out
/// exactly 1.0f32 and 0.0f32, so the surviving pixel's each channel `c`
/// comes back as `trunc(255.0 * (c / 255.0))`, which is `c` again for every
/// byte (the quotient is correctly rounded to within a relative error of
/// 2^-24, so the product lands within 2^-15 of `c` and cannot reach the next
/// integer down).
#[verifier::external_body]
pub(crate) fn blend(dst: Pixel, src: Pixel) -> (res: Pixel)
    ensures
        res == blend_spec(dst, src),
        !(src.transparent() && (dst.transparent() || dst.opaque()))
            && !(src.opaque() && (dst.opaque() || dst.transparent())) ==> res == blend_mixed(dst, src),
{
    let mut d = image::Rgba([dst.r, dst.g, dst.b, dst.a]);
    let s = image::Rgba([src.r, src.g, src.b, src.a]);
    image::Pixel::blend(&mut d, &s);
    Pixel { r: d.0[0], g: d.0[1], b: d.0[2], a: d.0[3] }
}

} // verus!
