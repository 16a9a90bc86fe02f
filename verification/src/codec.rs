//! The boundary to the `image` crate: format-sniffing decode to RGBA and PNG
//! encode behind trusted declarations, with verified conversions between
//! grids and raw RGBA byte buffers.

use vstd::arithmetic::div_mod::{
    lemma_fundamental_div_mod, lemma_fundamental_div_mod_converse_div,
    lemma_fundamental_div_mod_converse_mod,
};
use vstd::prelude::*;

use crate::grid::{Grid, GridView};
use crate::pixel::Pixel;

verus! {

/// What the `image` crate's format-sniffing decoder yields for a byte buffer:
/// width, height and the row-major RGBA bytes of the decoded picture, or
/// `None` where the buffer holds no decodable image.  Decoding is pure
/// computation on the buffer, so the outcome is a function of the bytes
/// alone.
pub uninterp spec fn decoded_rgba(bytes: Seq<u8>) -> Option<(u32, u32, Seq<u8>)>;

/// What the `image` crate's PNG encoder yields for a row-major RGBA pixel
/// buffer of the given dimensions: a function of the three arguments alone.
pub uninterp spec fn png_encoding_of(width: u32, height: u32, raw: Seq<u8>) -> Seq<u8>;

/// The first `count` pixels read off a row-major RGBA byte buffer.
pub open spec fn pixels_of_raw(count: nat, raw: Seq<u8>) -> Seq<Pixel> {
    Seq::new(
        count,
        |k: int|
            (Pixel { r: raw[4 * k], g: raw[4 * k + 1], b: raw[4 * k + 2], a: raw[4 * k + 3] }),
    )
}

/// A grid written back out as row-major RGBA bytes.
pub open spec fn raw_of(v: GridView) -> Seq<u8> {
    Seq::new(
        v.pixels.len() * 4,
        |k: int|
            {
                let p = v.pixels[k / 4];
                if k % 4 == 0 {
                    p.r
                } else if k % 4 == 1 {
                    p.g
                } else if k % 4 == 2 {
                    p.b
                } else {
                    p.a
                }
            },
    )
}

/// The grid a byte buffer decodes to, if any.
pub open spec fn grid_of(bytes: Seq<u8>) -> Option<GridView> {
    match decoded_rgba(bytes) {
        Option::None => Option::None,
        Option::Some(t) => Option::Some(
            GridView {
                width: t.0,
                height: t.1,
                pixels: pixels_of_raw((t.0 as int * t.1 as int) as nat, t.2),
            },
        ),
    }
}

/// Relies on `image::io::Reader::with_guessed_format`, `Reader::decode` and
/// `image::DynamicImage::to_rgba8`: the format is sniffed from the buffer's
/// leading bytes, the image decoded and converted to eight-bit RGBA, all of
/// it pure computation on the buffer, deterministic in the bytes alone.  An
/// RGBA buffer holds exactly `width * height * 4` bytes.  A buffer that
/// cannot be sniffed or decoded comes back as `None`.
#[verifier::external_body]
pub(crate) fn decode_rgba(bytes: &Vec<u8>) -> (r: Option<(u32, u32, Vec<u8>)>)
    ensures
        r matches Some(t) ==> decoded_rgba(bytes@) == Some((t.0, t.1, t.2@)) && t.2@.len() == t.0
            as int * t.1 as int * 4,
        r is None ==> decoded_rgba(bytes@) is None,
{
    let reader = match image::io::Reader::new(std::io::Cursor::new(bytes)).with_guessed_format() {
        Ok(reader) => reader,
        Err(_) => return None,
    };
    match reader.decode() {
        Ok(img) => {
            let buf = img.to_rgba8();
            let (w, h) = (buf.width(), buf.height());
            Some((w, h, buf.into_raw()))
        },
        Err(_) => None,
    }
}

/// Relies on `image::ImageBuffer::from_raw` and
/// `image::DynamicImage::write_to` with the PNG format: a buffer of exactly
/// `width * height * 4` bytes is accepted by `from_raw`, and the PNG encoder
/// writes a pure, deterministic encoding of the dimensions and pixel bytes
/// into memory.  The encoder's writer validates exactly two things that can
/// fail here: a zero width and a zero height (eight-bit RGBA is a valid
/// colour/depth pairing, the data length matches the row length times the
/// height by the precondition, and every write lands in an in-memory buffer),
/// so the call succeeds precisely on the grids with at least one pixel.
#[verifier::external_body]
pub(crate) fn encode_png(width: u32, height: u32, raw: Vec<u8>) -> (r: Option<Vec<u8>>)
    requires
        raw@.len() == width as int * height as int * 4,
    ensures
        r is Some == (width > 0 && height > 0),
        r matches Some(v) ==> v@ == png_encoding_of(width, height, raw@),
{
    let buf: image::RgbaImage = match image::ImageBuffer::from_raw(width, height, raw) {
        Some(buf) => buf,
        None => return None,
    };
    let mut out: Vec<u8> = Vec::new();
    match image::DynamicImage::ImageRgba8(buf).write_to(&mut out, image::ImageOutputFormat::Png) {
        Ok(()) => Some(out),
        Err(_) => None,
    }
}

proof fn lemma_times_four(n: int)
    requires
        0 <= n,
    ensures
        (n * 4) / 4 == n,
        (n * 4) % 4 == 0,
{
    lemma_fundamental_div_mod_converse_div(n * 4, 4, n, 0);
    lemma_fundamental_div_mod_converse_mod(n * 4, 4, n, 0);
}

/// Read the grid out of a row-major RGBA byte buffer of exactly the right
/// length.
#[verifier::loop_isolation(false)]
pub(crate) fn grid_from_rgba_exact(width: u32, height: u32, bytes: &Vec<u8>) -> (g: Grid)
    requires
        bytes@.len() == width as int * height as int * 4,
    ensures
        g@ == (GridView {
            width,
            height,
            pixels: pixels_of_raw((width as int * height as int) as nat, bytes@),
        }),
        g.wf(),
{
    let n: usize = bytes.len() / 4;
    proof {
        lemma_times_four(width as int * height as int);
    }
    let mut pixels: Vec<Pixel> = Vec::new();
    let mut k: usize = 0;
    while k < n
        invariant
            k <= n,
            pixels@.len() == k as int,
            forall|m: int|
                0 <= m < k ==> pixels@[m] == pixels_of_raw(n as nat, bytes@)[m],
        decreases n - k,
    {
        let p = Pixel {
            r: bytes[4 * k],
            g: bytes[4 * k + 1],
            b: bytes[4 * k + 2],
            a: bytes[4 * k + 3],
        };
        pixels.push(p);
        k = k + 1;
    }
    proof {
        assert(pixels@ =~= pixels_of_raw(n as nat, bytes@));
    }
    Grid { width, height, pixels }
}

/// The grid that a row-major RGBA byte buffer of the given dimensions holds;
/// `None` when the buffer's length is not `width * height * 4`.
pub fn grid_from_rgba(width: u32, height: u32, bytes: &Vec<u8>) -> (r: Option<Grid>)
    ensures
        r is Some <==> bytes@.len() == width as int * height as int * 4,
        r matches Some(g) ==> g@ == (GridView {
            width,
            height,
            pixels: pixels_of_raw((width as int * height as int) as nat, bytes@),
        }) && g.wf(),
{
    let len = bytes.len();
    proof {
        assert(width as int * height as int <= u64::MAX) by (nonlinear_arith)
            requires
                0 <= width as int <= 0xffffffff,
                0 <= height as int <= 0xffffffff,
        ;
        lemma_times_four(width as int * height as int);
        lemma_fundamental_div_mod(len as int, 4);
    }
    if len % 4 != 0 {
        return None;
    }
    let quarter = len / 4;
    if (quarter as u64) == (width as u64) * (height as u64) {
        Some(grid_from_rgba_exact(width, height, bytes))
    } else {
        None
    }
}

/// Write a grid back out as row-major RGBA bytes.
#[verifier::loop_isolation(false)]
pub fn grid_to_rgba(g: &Grid) -> (r: Vec<u8>)
    requires
        g.wf(),
    ensures
        r@ == raw_of(g@),
{
    let n = g.pixels.len();
    let mut out: Vec<u8> = Vec::new();
    let mut k: usize = 0;
    while k < n
        invariant
            k <= n,
            out@.len() == 4 * k as int,
            forall|m: int| 0 <= m < 4 * k ==> out@[m] == raw_of(g@)[m],
        decreases n - k,
    {
        let p = g.pixels[k];
        out.push(p.r);
        out.push(p.g);
        out.push(p.b);
        out.push(p.a);
        proof {
            assert forall|m: int| 4 * k <= m < 4 * k + 4 implies out@[m] == raw_of(g@)[m] by {
                lemma_fundamental_div_mod_converse_div(m, 4, k as int, m - 4 * (k as int));
                lemma_fundamental_div_mod_converse_mod(m, 4, k as int, m - 4 * (k as int));
            }
        }
        k = k + 1;
    }
    proof {
        assert(out@ =~= raw_of(g@));
    }
    out
}

} // verus!
