//! Pixel grids and verified compositing: placement, clipping, and what every
//! pixel of the result is.

use vstd::arithmetic::div_mod::{
    lemma_fundamental_div_mod, lemma_fundamental_div_mod_converse_div,
    lemma_fundamental_div_mod_converse_mod,
};
use vstd::pervasive::VecAdditionalExecFns;
use vstd::prelude::*;

use crate::pixel::{blend, blend_spec, Pixel};

verus! {

/// The mathematical value of a pixel grid: its dimensions and its pixels in
/// row-major order.
#[verifier::ext_equal]
pub struct GridView {
    pub width: u32,
    pub height: u32,
    pub pixels: Seq<Pixel>,
}

impl GridView {
    /// Row-major storage holds exactly one pixel per point of the grid.
    pub open spec fn wf(self) -> bool {
        self.pixels.len() == self.width as int * self.height as int
    }

    pub open spec fn in_bounds(self, x: int, y: int) -> bool {
        0 <= x < self.width && 0 <= y < self.height
    }

    /// The grid holds at least one pixel.  The PNG format has no picture of
    /// zero width or height, so this decides whether a grid can be encoded.
    pub open spec fn nonempty(self) -> bool {
        self.width > 0 && self.height > 0
    }

    /// The pixel in column `x` of row `y`.
    pub open spec fn pixel_at(self, x: int, y: int) -> Pixel {
        self.pixels[y * self.width as int + x]
    }
}

/// An overlay `layer` placed with its top-left corner at `(x, y)` lies over
/// the base point `(i, j)`.
pub open spec fn covers(layer: GridView, x: u32, y: u32, i: int, j: int) -> bool {
    x <= i < x + layer.width && y <= j < y + layer.height
}

/// The grid that compositing `layer` at `(x, y)` onto `base` yields: the
/// dimensions stay those of `base`, each covered point carries the blend of
/// its old pixel with the overlay pixel over it, every other point keeps its
/// pixel, and overlay pixels that fall outside the base are clipped away.
pub open spec fn composited(base: GridView, layer: GridView, x: u32, y: u32) -> GridView {
    GridView {
        width: base.width,
        height: base.height,
        pixels: Seq::new(
            base.pixels.len(),
            |k: int|
                {
                    let i = k % base.width as int;
                    let j = k / base.width as int;
                    if covers(layer, x, y, i, j) {
                        blend_spec(base.pixels[k], layer.pixel_at(i - x, j - y))
                    } else {
                        base.pixels[k]
                    }
                },
        ),
    }
}

pub(crate) proof fn lemma_row_col(w: int, i: int, j: int)
    requires
        0 <= i < w,
        0 <= j,
    ensures
        (j * w + i) / w == j,
        (j * w + i) % w == i,
{
    lemma_fundamental_div_mod_converse_div(j * w + i, w, j, i);
    lemma_fundamental_div_mod_converse_mod(j * w + i, w, j, i);
}

pub(crate) proof fn lemma_index_bound(w: int, h: int, i: int, j: int)
    requires
        0 <= i < w,
        0 <= j < h,
    ensures
        0 <= j * w + i < w * h,
{
    assert(0 <= j * w + i < w * h) by (nonlinear_arith)
        requires
            0 <= i < w,
            0 <= j < h,
    ;
}

/// Each point of a grid's index range names one row and one column.
pub(crate) proof fn lemma_col_row_of_index(w: int, h: int, k: int)
    requires
        0 < w,
        0 <= k < w * h,
    ensures
        0 <= k % w < w,
        0 <= k / w < h,
        k == w * (k / w) + (k % w),
{
    lemma_fundamental_div_mod(k, w);
    vstd::arithmetic::div_mod::lemma_mod_bound(k, w);
    assert(k / w < h) by (nonlinear_arith)
        requires
            0 < w,
            k < w * h,
            k == w * (k / w) + (k % w),
            0 <= k % w,
    ;
}

/// Clipping and coverage, point by point: compositing keeps the base grid's
/// dimensions; a base point under the overlay carries the blend of the two
/// pixels; every other base point keeps its pixel.  Overlay pixels outside
/// the base answer to no base point at all: they are silently dropped.
pub proof fn lemma_composited_pixel(base: GridView, layer: GridView, x: u32, y: u32, i: int, j: int)
    requires
        base.wf(),
        base.in_bounds(i, j),
    ensures
        composited(base, layer, x, y).width == base.width,
        composited(base, layer, x, y).height == base.height,
        composited(base, layer, x, y).wf(),
        covers(layer, x, y, i, j) ==> composited(base, layer, x, y).pixel_at(i, j) == blend_spec(
            base.pixel_at(i, j),
            layer.pixel_at(i - x, j - y),
        ),
        !covers(layer, x, y, i, j) ==> composited(base, layer, x, y).pixel_at(i, j)
            == base.pixel_at(i, j),
{
    let w = base.width as int;
    let h = base.height as int;
    lemma_index_bound(w, h, i, j);
    lemma_row_col(w, i, j);
}

/// A fully transparent overlay is a no-op: composited anywhere onto a base
/// whose pixels are each fully opaque or fully transparent, it returns the
/// base unchanged.
pub proof fn lemma_transparent_overlay_noop(base: GridView, layer: GridView, x: u32, y: u32)
    requires
        base.wf(),
        layer.wf(),
        forall|k: int| 0 <= k < layer.pixels.len() ==> (#[trigger] layer.pixels[k]).transparent(),
        forall|k: int|
            0 <= k < base.pixels.len() ==> (#[trigger] base.pixels[k]).transparent()
                || base.pixels[k].opaque(),
    ensures
        composited(base, layer, x, y) == base,
{
    let comp = composited(base, layer, x, y);
    let w = base.width as int;
    let h = base.height as int;
    assert forall|k: int| 0 <= k < base.pixels.len() implies comp.pixels[k] == base.pixels[k] by {
        assert(0 < w) by (nonlinear_arith)
            requires
                0 <= k < w * h,
                0 <= w,
                0 <= h,
        ;
        lemma_col_row_of_index(w, h, k);
        let i = k % w;
        let j = k / w;
        if covers(layer, x, y, i, j) {
            lemma_index_bound(layer.width as int, layer.height as int, i - x, j - y);
        }
    }
    assert(comp =~= base);
}

/// Order sensitivity: two overlays placed at the same coordinate, both fully
/// opaque over a base point whose own pixel is fully opaque or fully
/// transparent.  The overlay composited later is the one visible at that
/// point, so swapping the two swaps what is visible, and the two results
/// differ whenever those overlay pixels differ.
pub proof fn lemma_order_sensitivity(
    base: GridView,
    first: GridView,
    second: GridView,
    x: u32,
    y: u32,
    i: int,
    j: int,
)
    requires
        base.wf(),
        base.in_bounds(i, j),
        covers(first, x, y, i, j),
        covers(second, x, y, i, j),
        base.pixel_at(i, j).opaque() || base.pixel_at(i, j).transparent(),
        first.pixel_at(i - x, j - y).opaque(),
        second.pixel_at(i - x, j - y).opaque(),
    ensures
        composited(composited(base, first, x, y), second, x, y).pixel_at(i, j) == second.pixel_at(
            i - x,
            j - y,
        ),
        composited(composited(base, second, x, y), first, x, y).pixel_at(i, j) == first.pixel_at(
            i - x,
            j - y,
        ),
        first.pixel_at(i - x, j - y) != second.pixel_at(i - x, j - y) ==> composited(
            composited(base, first, x, y),
            second,
            x,
            y,
        ) != composited(composited(base, second, x, y), first, x, y),
{
    lemma_composited_pixel(base, first, x, y, i, j);
    lemma_composited_pixel(base, second, x, y, i, j);
    let after_first = composited(base, first, x, y);
    let after_second = composited(base, second, x, y);
    lemma_composited_pixel(after_first, second, x, y, i, j);
    lemma_composited_pixel(after_second, first, x, y, i, j);
}

/// A pixel grid in row-major order, the canvas that overlays are composited
/// onto.
pub struct Grid {
    pub width: u32,
    pub height: u32,
    pub pixels: Vec<Pixel>,
}

impl View for Grid {
    type V = GridView;

    open spec fn view(&self) -> GridView {
        GridView { width: self.width, height: self.height, pixels: self.pixels@ }
    }
}

impl Grid {
    pub open spec fn wf(&self) -> bool {
        self@.wf()
    }

    /// A grid of the given dimensions with every pixel `fill`; `None` when
    /// the grid would hold more pixels than the machine can index.
    #[verifier::loop_isolation(false)]
    pub fn new(width: u32, height: u32, fill: Pixel) -> (r: Option<Grid>)
        ensures
            r is Some <==> width as int * height as int <= usize::MAX,
            r matches Some(g) ==> g.wf() && g@.width == width && g@.height == height && forall|
                k: int,
            | 0 <= k < g@.pixels.len() ==> g@.pixels[k] == fill,
    {
        proof {
            assert(width as int * height as int <= u64::MAX) by (nonlinear_arith)
                requires
                    0 <= width as int <= 0xffffffff,
                    0 <= height as int <= 0xffffffff,
            ;
        }
        let n64: u64 = (width as u64) * (height as u64);
        if n64 > (usize::MAX as u64) {
            return None;
        }
        let n: usize = n64 as usize;
        let mut pixels: Vec<Pixel> = Vec::new();
        let mut k: usize = 0;
        while k < n
            invariant
                k <= n,
                pixels@.len() == k as int,
                forall|m: int| 0 <= m < k ==> pixels@[m] == fill,
            decreases n - k,
        {
            pixels.push(fill);
            k = k + 1;
        }
        Some(Grid { width, height, pixels })
    }

    pub fn width(&self) -> (w: u32)
        ensures
            w == self@.width,
    {
        self.width
    }

    pub fn height(&self) -> (h: u32)
        ensures
            h == self@.height,
    {
        self.height
    }

    /// The pixel at `(x, y)`, or `None` outside the grid.
    pub fn get_pixel(&self, x: u32, y: u32) -> (r: Option<Pixel>)
        requires
            self.wf(),
        ensures
            self@.in_bounds(x as int, y as int) ==> r == Some(self@.pixel_at(x as int, y as int)),
            !self@.in_bounds(x as int, y as int) ==> r is None,
    {
        if x < self.width && y < self.height {
            let len = self.pixels.len();
            proof {
                lemma_index_bound(self.width as int, self.height as int, x as int, y as int);
            }
            let idx: usize = (y as usize) * (self.width as usize) + (x as usize);
            Some(self.pixels[idx])
        } else {
            None
        }
    }

    /// Composite `layer` onto `self` with its top-left corner at `(x, y)`,
    /// clipping whatever falls outside `self`.
    #[verifier::loop_isolation(false)]
    pub fn composite(&mut self, layer: &Grid, x: u32, y: u32)
        requires
            old(self).wf(),
            layer.wf(),
        ensures
            final(self)@ == composited(old(self)@, layer@, x, y),
            final(self).wf(),
    {
        let bw = self.width;
        let bh = self.height;
        let span_w: u32 = if x >= bw {
            0
        } else if layer.width <= bw - x {
            layer.width
        } else {
            bw - x
        };
        let span_h: u32 = if y >= bh {
            0
        } else if layer.height <= bh - y {
            layer.height
        } else {
            bh - y
        };
        let ghost target = composited(old(self)@, layer@, x, y);
        let ghost w = old(self)@.width as int;
        let ghost h = old(self)@.height as int;
        let mut dy: u32 = 0;
        while dy < span_h
            invariant
                dy <= span_h,
                self.width == old(self).width,
                self.height == old(self).height,
                self.pixels@.len() == old(self).pixels@.len(),
                forall|k: int|
                    0 <= k < self.pixels@.len() ==> #[trigger] self.pixels@[k] == (if k / w < y
                        + dy {
                        target.pixels[k]
                    } else {
                        old(self).pixels@[k]
                    }),
            decreases span_h - dy,
        {
            let mut dx: u32 = 0;
            while dx < span_w
                invariant
                    dy < span_h,
                    dx <= span_w,
                    self.width == old(self).width,
                    self.height == old(self).height,
                    self.pixels@.len() == old(self).pixels@.len(),
                    forall|k: int|
                        0 <= k < self.pixels@.len() ==> #[trigger] self.pixels@[k] == (if k / w < y
                            + dy || (k / w == y + dy && x <= k % w < x + dx) {
                            target.pixels[k]
                        } else {
                            old(self).pixels@[k]
                        }),
                decreases span_w - dx,
            {
                let bi = x + dx;
                let bj = y + dy;
                let _len = self.pixels.len();
                let _llen = layer.pixels.len();
                proof {
                    lemma_index_bound(w, h, bi as int, bj as int);
                    lemma_row_col(w, bi as int, bj as int);
                    lemma_index_bound(layer@.width as int, layer@.height as int, dx as int, dy as int);
                    lemma_row_col(layer@.width as int, dx as int, dy as int);
                }
                let idx: usize = (bj as usize) * (bw as usize) + (bi as usize);
                let lidx: usize = (dy as usize) * (layer.width as usize) + (dx as usize);
                let ghost pre = self.pixels@;
                let mixed = blend(self.pixels[idx], layer.pixels[lidx]);
                proof {
                    assert(covers(layer@, x, y, bi as int, bj as int));
                    assert(target.pixels[idx as int] == blend_spec(
                        old(self).pixels@[idx as int],
                        layer@.pixel_at(dx as int, dy as int),
                    ));
                    assert(mixed == target.pixels[idx as int]);
                }
                self.pixels.set(idx, mixed);
                dx = dx + 1;
                proof {
                    assert forall|k: int|
                        0 <= k < self.pixels@.len() implies #[trigger] self.pixels@[k] == (if k / w
                        < y + dy || (k / w == y + dy && x <= k % w < x + dx) {
                        target.pixels[k]
                    } else {
                        old(self).pixels@[k]
                    }) by {
                        lemma_col_row_of_index(w, h, k);
                        if k != idx as int && k / w == y + dy && k % w == x + (dx - 1) {
                            vstd::arithmetic::mul::lemma_mul_is_commutative(w, k / w);
                            assert(k == (k / w) * w + (k % w));
                        }
                    }
                }
            }
            dy = dy + 1;
            proof {
                assert forall|k: int|
                    0 <= k < self.pixels@.len() implies #[trigger] self.pixels@[k] == (if k / w < y
                    + dy {
                    target.pixels[k]
                } else {
                    old(self).pixels@[k]
                }) by {
                    lemma_col_row_of_index(w, h, k);
                    let i = k % w;
                    let j = k / w;
                    if j == y + (dy - 1) && !(x <= i < x + span_w) {
                        assert(!covers(layer@, x, y, i, j));
                    }
                }
            }
        }
        proof {
            assert forall|k: int|
                0 <= k < self.pixels@.len() implies #[trigger] self.pixels@[k]
                == target.pixels[k] by {
                lemma_col_row_of_index(w, h, k);
                let i = k % w;
                let j = k / w;
                if !(j < y + span_h) {
                    assert(!covers(layer@, x, y, i, j));
                }
            }
            assert(self.pixels@ =~= target.pixels);
            assert(self@ =~= target);
        }
    }
}

} // verus!
