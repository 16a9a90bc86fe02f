//! The public call surface: decode a base image, composite overlay
//! instructions onto it in order, and encode the result as PNG.

use vstd::prelude::*;

use crate::codec::{
    decode_rgba, encode_png, grid_from_rgba_exact, grid_of, grid_to_rgba, png_encoding_of, raw_of,
};
use crate::grid::{composited, lemma_transparent_overlay_noop, Grid, GridView};

verus! {

/// Which stage of a request failed: decoding one of the input buffers, or
/// encoding the finished picture as PNG.
#[derive(Clone, Copy, Debug, PartialEq, Eq, Structural)]
pub enum PasteError {
    Decode,
    Encode,
}

/// The byte buffers and coordinate lists of a request's overlay
/// instructions, as mathematical sequences.
pub open spec fn layer_views(layers: Seq<(Vec<u8>, Vec<(u32, u32)>)>) -> Seq<
    (Seq<u8>, Seq<(u32, u32)>),
> {
    Seq::new(layers.len(), |i: int| (layers[i].0@, layers[i].1@))
}

/// Every overlay buffer of the request decodes.
pub open spec fn layers_decodable(layers: Seq<(Seq<u8>, Seq<(u32, u32)>)>) -> bool {
    forall|i: int| 0 <= i < layers.len() ==> grid_of(#[trigger] layers[i].0) is Some
}

/// Every buffer of the request decodes, the base included.
pub open spec fn request_decodable(base: Seq<u8>, layers: Seq<(Seq<u8>, Seq<(u32, u32)>)>) -> bool {
    grid_of(base) is Some && layers_decodable(layers)
}

/// One overlay composited onto `g` at each coordinate of `coords`, in order.
pub open spec fn apply_at(g: GridView, layer: GridView, coords: Seq<(u32, u32)>) -> GridView
    decreases coords.len(),
{
    if coords.len() == 0 {
        g
    } else {
        composited(apply_at(g, layer, coords.drop_last()), layer, coords.last().0, coords.last().1)
    }
}

/// Every overlay instruction applied to `g`, in order; meaningful where each
/// overlay buffer decodes.
pub open spec fn apply_layers(g: GridView, layers: Seq<(Seq<u8>, Seq<(u32, u32)>)>) -> GridView
    decreases layers.len(),
{
    if layers.len() == 0 {
        g
    } else {
        apply_at(
            apply_layers(g, layers.drop_last()),
            grid_of(layers.last().0).unwrap(),
            layers.last().1,
        )
    }
}

/// The grid a whole decodable request composites to.
pub open spec fn composited_grid(base: Seq<u8>, layers: Seq<(Seq<u8>, Seq<(u32, u32)>)>) -> GridView {
    apply_layers(grid_of(base).unwrap(), layers)
}

/// The PNG bytes a whole decodable request returns.
pub open spec fn multi_paste_png(base: Seq<u8>, layers: Seq<(Seq<u8>, Seq<(u32, u32)>)>) -> Seq<
    u8,
> {
    let g = composited_grid(base, layers);
    png_encoding_of(g.width, g.height, raw_of(g))
}

/// Decode one image buffer into a grid; fails exactly on the buffers that do
/// not decode.
pub fn decode_image(bytes: &Vec<u8>) -> (r: Result<Grid, PasteError>)
    ensures
        r matches Ok(g) ==> grid_of(bytes@) == Some(g@) && g.wf(),
        r matches Err(e) ==> grid_of(bytes@) is None && e == PasteError::Decode,
{
    match decode_rgba(bytes) {
        Option::Some((width, height, raw)) => Result::Ok(
            grid_from_rgba_exact(width, height, &raw),
        ),
        Option::None => Result::Err(PasteError::Decode),
    }
}

/// Encode a grid as PNG bytes; succeeds exactly on the grids with at least
/// one pixel (the PNG format has no picture of zero width or height).
pub fn encode_image(g: &Grid) -> (r: Result<Vec<u8>, PasteError>)
    requires
        g.wf(),
    ensures
        r is Ok == g@.nonempty(),
        r matches Ok(v) ==> v@ == png_encoding_of(g@.width, g@.height, raw_of(g@)),
        r matches Err(e) ==> e == PasteError::Encode,
{
    let raw = grid_to_rgba(g);
    match encode_png(g.width, g.height, raw) {
        Option::Some(v) => Result::Ok(v),
        Option::None => Result::Err(PasteError::Encode),
    }
}

/// Compositing never changes a grid's dimensions, so a whole instruction
/// keeps them too.
pub proof fn lemma_apply_at_dims(g: GridView, layer: GridView, coords: Seq<(u32, u32)>)
    ensures
        apply_at(g, layer, coords).width == g.width,
        apply_at(g, layer, coords).height == g.height,
    decreases coords.len(),
{
    if coords.len() != 0 {
        lemma_apply_at_dims(g, layer, coords.drop_last());
    }
}

/// A whole request composites to a grid with the base grid's dimensions.
pub proof fn lemma_apply_layers_dims(g: GridView, layers: Seq<(Seq<u8>, Seq<(u32, u32)>)>)
    ensures
        apply_layers(g, layers).width == g.width,
        apply_layers(g, layers).height == g.height,
    decreases layers.len(),
{
    if layers.len() != 0 {
        lemma_apply_layers_dims(g, layers.drop_last());
        lemma_apply_at_dims(
            apply_layers(g, layers.drop_last()),
            grid_of(layers.last().0).unwrap(),
            layers.last().1,
        );
    }
}

/// Decode `base`, composite each overlay instruction onto it in sequence
/// order (and, within one instruction, in coordinate order), and return the
/// result as PNG bytes.  A buffer that does not decode fails the whole call
/// with `Decode` and nothing of the work escapes.  On a request whose buffers
/// all decode the call succeeds exactly when the base grid has at least one
/// pixel (compositing keeps its dimensions, and only a picture of zero width
/// or height has no PNG encoding); the one other outcome there is `Encode`.
/// Coordinates never fail a call: overlay pixels outside the base are
/// clipped.
#[verifier::loop_isolation(false)]
pub fn multi_paste(base: Vec<u8>, paste_layers: Vec<(Vec<u8>, Vec<(u32, u32)>)>) -> (r: Result<
    Vec<u8>,
    PasteError,
>)
    ensures
        !request_decodable(base@, layer_views(paste_layers@)) ==> r == Err::<
            Vec<u8>,
            PasteError,
        >(PasteError::Decode),
        request_decodable(base@, layer_views(paste_layers@)) ==> r is Ok == grid_of(
            base@,
        ).unwrap().nonempty(),
        r matches Ok(out) ==> request_decodable(base@, layer_views(paste_layers@)) && out@
            == multi_paste_png(base@, layer_views(paste_layers@)),
        request_decodable(base@, layer_views(paste_layers@)) && r is Err ==> r == Err::<
            Vec<u8>,
            PasteError,
        >(PasteError::Encode),
{
    let ghost lv = layer_views(paste_layers@);
    let mut grid = match decode_image(&base) {
        Result::Ok(g) => g,
        Result::Err(e) => {
            return Result::Err(e);
        },
    };
    let ghost g0 = grid@;
    let mut li: usize = 0;
    while li < paste_layers.len()
        invariant
            li <= paste_layers.len(),
            grid.wf(),
            forall|i: int| 0 <= i < li ==> grid_of(#[trigger] lv[i].0) is Some,
            grid@ == apply_layers(g0, lv.take(li as int)),
        decreases paste_layers.len() - li,
    {
        let layer_grid = match decode_image(&paste_layers[li].0) {
            Result::Ok(g) => g,
            Result::Err(e) => {
                assert(lv[li as int].0 == paste_layers@[li as int].0@);
                return Result::Err(e);
            },
        };
        let coords = &paste_layers[li].1;
        let ghost layer_start = grid@;
        let mut ci: usize = 0;
        while ci < coords.len()
            invariant
                ci <= coords@.len(),
                grid.wf(),
                grid@ == apply_at(layer_start, layer_grid@, coords@.take(ci as int)),
            decreases coords.len() - ci,
        {
            let c = coords[ci];
            grid.composite(&layer_grid, c.0, c.1);
            proof {
                assert(coords@.take(ci as int + 1).drop_last() =~= coords@.take(ci as int));
                assert(coords@.take(ci as int + 1).last() == coords@[ci as int]);
            }
            ci = ci + 1;
        }
        proof {
            assert(coords@.take(coords@.len() as int) =~= coords@);
            assert(lv.take(li as int + 1).drop_last() =~= lv.take(li as int));
            assert(lv.take(li as int + 1).last() == lv[li as int]);
            assert(lv[li as int].1 == coords@);
            assert(grid@ == apply_layers(g0, lv.take(li as int + 1)));
        }
        li = li + 1;
    }
    proof {
        assert(lv.take(paste_layers@.len() as int) =~= lv);
        lemma_apply_layers_dims(g0, lv);
    }
    match encode_image(&grid) {
        Result::Ok(v) => Result::Ok(v),
        Result::Err(e) => Result::Err(e),
    }
}

/// Composite one overlay onto `base` at one coordinate and return the result
/// as PNG bytes: the same request, and byte for byte the same answer, as
/// `multi_paste` with the single instruction `(layer, [coordinates])`.
pub fn paste(base: Vec<u8>, layer: Vec<u8>, coordinates: (u32, u32)) -> (r: Result<
    Vec<u8>,
    PasteError,
>)
    ensures
        !request_decodable(base@, seq![(layer@, seq![coordinates])]) ==> r == Err::<
            Vec<u8>,
            PasteError,
        >(PasteError::Decode),
        request_decodable(base@, seq![(layer@, seq![coordinates])]) ==> r is Ok == grid_of(
            base@,
        ).unwrap().nonempty(),
        r matches Ok(out) ==> request_decodable(base@, seq![(layer@, seq![coordinates])]) && out@
            == multi_paste_png(base@, seq![(layer@, seq![coordinates])]),
        request_decodable(base@, seq![(layer@, seq![coordinates])]) && r is Err ==> r == Err::<
            Vec<u8>,
            PasteError,
        >(PasteError::Encode),
{
    let ghost target_layers: Seq<(Seq<u8>, Seq<(u32, u32)>)> = seq![(layer@, seq![coordinates])];
    let mut coords: Vec<(u32, u32)> = Vec::new();
    coords.push(coordinates);
    let mut layers: Vec<(Vec<u8>, Vec<(u32, u32)>)> = Vec::new();
    layers.push((layer, coords));
    proof {
        assert(layer_views(layers@) =~~= target_layers);
    }
    multi_paste(base, layers)
}

/// A `paste` request is its single-instruction `multi_paste` request: both
/// composite to the base grid with the overlay grid composited once at the
/// one coordinate.
pub proof fn lemma_single_layer_request(base: Seq<u8>, overlay: Seq<u8>, c: (u32, u32))
    requires
        grid_of(base) is Some,
        grid_of(overlay) is Some,
    ensures
        composited_grid(base, seq![(overlay, seq![c])]) == composited(
            grid_of(base).unwrap(),
            grid_of(overlay).unwrap(),
            c.0,
            c.1,
        ),
{
    let g0 = grid_of(base).unwrap();
    let lg = grid_of(overlay).unwrap();
    let layers: Seq<(Seq<u8>, Seq<(u32, u32)>)> = seq![(overlay, seq![c])];
    let cs: Seq<(u32, u32)> = seq![c];
    assert(layers.drop_last() =~= Seq::<(Seq<u8>, Seq<(u32, u32)>)>::empty());
    assert(cs.drop_last() =~= Seq::<(u32, u32)>::empty());
    assert(apply_layers(g0, layers.drop_last()) == g0);
    assert(apply_at(g0, lg, cs.drop_last()) == g0);
    assert(apply_at(g0, lg, cs) == composited(g0, lg, c.0, c.1));
}

/// A fully transparent overlay instruction is a no-op: composited at any
/// list of coordinates onto a base whose pixels are each fully opaque or
/// fully transparent, it leaves the base grid exactly as it was.
pub proof fn lemma_transparent_layer_noop(g: GridView, layer: GridView, coords: Seq<(u32, u32)>)
    requires
        g.wf(),
        layer.wf(),
        forall|k: int| 0 <= k < layer.pixels.len() ==> (#[trigger] layer.pixels[k]).transparent(),
        forall|k: int|
            0 <= k < g.pixels.len() ==> (#[trigger] g.pixels[k]).transparent()
                || g.pixels[k].opaque(),
    ensures
        apply_at(g, layer, coords) == g,
    decreases coords.len(),
{
    if coords.len() != 0 {
        lemma_transparent_layer_noop(g, layer, coords.drop_last());
        lemma_transparent_overlay_noop(g, layer, coords.last().0, coords.last().1);
    }
}

} // verus!


