use vstd::prelude::*;
use image::Pixel;
use crate::raster::{Raster, byte_len, lemma_pixel_in_bounds};
use crate::layer::ImageLayer;

verus! {

/// What `image`'s "over" blend makes of a partly transparent source pixel
/// over a destination pixel (both RGBA8, unmultiplied).
pub uninterp spec fn blend_of(dst: Seq<u8>, src: Seq<u8>) -> Seq<u8>;

/// A source pixel over a destination pixel: a fully transparent source leaves
/// the destination, a fully opaque one replaces it, anything between blends.
pub open spec fn over_pixel(dst: Seq<u8>, src: Seq<u8>) -> Seq<u8> {
    if src[3] == 0 {
        dst
    } else if src[3] == 255 {
        src
    } else {
        blend_of(dst, src)
    }
}

/// Relies on `image::Rgba::<u8>::blend` (through `image::Pixel`): it returns
/// early on a zero source alpha, copies a source of full alpha, and otherwise
/// computes source-over compositing from the two pixels alone.
#[verifier::external_body]
fn blend_pixel(dst: [u8; 4], src: [u8; 4]) -> (r: [u8; 4])
    ensures
        r@ == over_pixel(dst@, src@),
        0 < src@[3] < 255 ==> r@ == blend_of(dst@, src@),
{
    let mut bottom = image::Rgba(dst);
    bottom.blend(&image::Rgba(src));
    bottom.0
}

/// The four bytes of pixel `p`.
pub open spec fn pixel_of(s: Seq<u8>, p: int) -> Seq<u8> {
    s.subrange(4 * p, 4 * p + 4)
}

/// Byte `i` of a canvas of width `w` after `top` is laid over it at `(0, 0)`;
/// outside `top`'s footprint the canvas is kept.
pub open spec fn overlaid_byte(canvas: Seq<u8>, w: int, top: Raster, i: int) -> u8 {
    let p = i / 4;
    let x = p % w;
    let y = p / w;
    if x < top.width && y < top.height {
        over_pixel(pixel_of(canvas, p), pixel_of(top.data@, y * top.width + x))[i % 4]
    } else {
        canvas[i]
    }
}

pub open spec fn overlaid(canvas: Seq<u8>, w: int, top: Raster) -> Seq<u8> {
    Seq::new(canvas.len(), |i: int| overlaid_byte(canvas, w, top, i))
}

/// Whether a layer takes part in the composite.
pub open spec fn shows(l: ImageLayer) -> bool {
    l.visible && l.rendered is Some
}

/// `canvas` with the renderings of the shown layers laid over it in order,
/// bottom first.
pub open spec fn composed(layers: Seq<ImageLayer>, w: int, canvas: Seq<u8>) -> Seq<u8>
    decreases layers.len(),
{
    if layers.len() == 0 {
        canvas
    } else {
        let below = composed(layers.drop_last(), w, canvas);
        let l = layers.last();
        if shows(l) {
            overlaid(below, w, l.rendered.unwrap())
        } else {
            below
        }
    }
}

pub open spec fn transparent_bytes(n: int) -> Seq<u8> {
    Seq::new(n as nat, |i: int| 0u8)
}

pub open spec fn is_first_visible(layers: Seq<ImageLayer>, i: int) -> bool {
    &&& 0 <= i < layers.len()
    &&& layers[i].visible
    &&& forall|j: int| 0 <= j < i ==> !(#[trigger] layers[j]).visible
}

/// The flattened export of `layers`, on a canvas the size of the first
/// visible layer.
pub open spec fn flattened(layers: Seq<ImageLayer>, i: int) -> Seq<u8> {
    let w = layers[i].image.width as int;
    let h = layers[i].image.height as int;
    composed(layers, w, transparent_bytes(byte_len(w, h)))
}

fn read_pixel(s: &Vec<u8>, p: usize) -> (r: [u8; 4])
    requires
        4 * p + 4 <= s@.len(),
    ensures
        r@ == pixel_of(s@, p as int),
{
    let _len: usize = s.len();
    let r = [s[4 * p], s[4 * p + 1], s[4 * p + 2], s[4 * p + 3]];
    assert(r@ =~= pixel_of(s@, p as int));
    r
}

/// Lays `top` over a `w` by `h` canvas at `(0, 0)`, clipped to the smaller
/// footprint.
fn overlay(canvas: Vec<u8>, w: u32, h: u32, top: &Raster) -> (r: Vec<u8>)
    requires
        canvas@.len() == byte_len(w as int, h as int),
        top.wf(),
    ensures
        r@ == overlaid(canvas@, w as int, *top),
{
    let ghost target = overlaid(canvas@, w as int, *top);
    let npix: usize = canvas.len() / 4;
    assert(npix == w * h && canvas@.len() == 4 * npix) by (nonlinear_arith)
        requires npix == canvas@.len() / 4, canvas@.len() == 4 * w * h;
    let mut out: Vec<u8> = Vec::new();
    let mut p: usize = 0;
    while p < npix
        invariant
            p <= npix,
            npix == w * h,
            canvas@.len() == 4 * npix,
            top.wf(),
            target == overlaid(canvas@, w as int, *top),
            out@ == target.subrange(0, 4 * p as int),
        decreases npix - p,
    {
        assert(w > 0) by {
            if w == 0 {
                assert(w * h == 0);
            }
        }
        let x: usize = p % (w as usize);
        let y: usize = p / (w as usize);
        let below = read_pixel(&canvas, p);
        let px: [u8; 4];
        if x < top.width as usize && y < top.height as usize {
            proof {
                lemma_pixel_in_bounds(top.width as int, top.height as int, x as int, y as int, 3);
            }
            let _top_len: usize = top.data.len();
            let t = read_pixel(&top.data, y * (top.width as usize) + x);
            px = blend_pixel(below, t);
        } else {
            px = below;
        }
        out.push(px[0]);
        out.push(px[1]);
        out.push(px[2]);
        out.push(px[3]);
        proof {
            assert forall|k: int| 0 <= k < 4 implies #[trigger] out@[4 * p + k] == target[4 * p + k] by {
                vstd::arithmetic::div_mod::lemma_fundamental_div_mod_converse(4 * p + k, 4, p as int, k);
            }
            assert(out@ =~= target.subrange(0, 4 * (p + 1)));
        }
        p += 1;
    }
    assert(out@ =~= target);
    out
}

/// Flattens the shown layers, bottom to top, onto a transparent canvas the size
/// of the first visible layer; `None` (nothing to export) when no layer is visible.
pub fn composite(layers: &Vec<ImageLayer>) -> (r: Option<Raster>)
    requires
        forall|i: int| 0 <= i < layers@.len() ==> (#[trigger] layers@[i]).wf(),
    ensures
        r is None <==> forall|i: int| 0 <= i < layers@.len() ==> !(#[trigger] layers@[i]).visible,
        r matches Some(out) ==> exists|i: int|
            is_first_visible(layers@, i) && out.wf() && out.width == layers@[i].image.width
                && out.height == layers@[i].image.height && out.data@ == #[trigger] flattened(
                layers@,
                i,
            ),
{
    let mut first: usize = 0;
    while first < layers.len() && !layers[first].visible
        invariant
            first <= layers@.len(),
            forall|j: int| 0 <= j < first ==> !(#[trigger] layers@[j]).visible,
        decreases layers@.len() - first,
    {
        first += 1;
    }
    if first == layers.len() {
        return None;
    }
    let w = layers[first].image.width;
    let h = layers[first].image.height;
    let ghost first_i = first as int;
    assert(is_first_visible(layers@, first_i));
    let _first_len: usize = layers[first].image.data.len();
    let canvas = Raster::transparent(w, h);
    let ghost empty = canvas.data@;
    assert(empty =~= transparent_bytes(byte_len(w as int, h as int)));
    let mut data = canvas.data;
    let mut i: usize = 0;
    while i < layers.len()
        invariant
            i <= layers@.len(),
            forall|j: int| 0 <= j < layers@.len() ==> (#[trigger] layers@[j]).wf(),
            data@.len() == byte_len(w as int, h as int),
            data@ == composed(layers@.subrange(0, i as int), w as int, empty),
        decreases layers@.len() - i,
    {
        let ghost prefix = layers@.subrange(0, i + 1);
        assert(prefix.drop_last() =~= layers@.subrange(0, i as int));
        let l = &layers[i];
        if l.visible {
            match &l.rendered {
                Some(top) => {
                    data = overlay(data, w, h, top);
                },
                None => {},
            }
        }
        i += 1;
    }
    assert(layers@.subrange(0, layers@.len() as int) =~= layers@);
    assert(data@ == flattened(layers@, first_i));
    Some(Raster { width: w, height: h, data })
}

/// A composite of one layer whose rendering is fully opaque and the size of
/// its canvas is exactly that rendering.
pub proof fn lemma_single_opaque_layer(l: ImageLayer)
    requires
        l.wf(),
        l.visible,
        l.rendered matches Some(r) && r.width == l.image.width && r.height == l.image.height
            && forall|p: int| 0 <= p < r.width * r.height ==> #[trigger] r.data@[4 * p + 3] == 255,
    ensures
        flattened(seq![l], 0) == l.rendered.unwrap().data@,
{
    let r = l.rendered.unwrap();
    let w = r.width as int;
    let h = r.height as int;
    let s = seq![l];
    assert(s.drop_last() =~= Seq::<ImageLayer>::empty());
    let canvas = transparent_bytes(byte_len(w, h));
    let out = overlaid(canvas, w, r);
    reveal_with_fuel(composed, 2);
    assert(composed(s.drop_last(), w, canvas) == canvas);
    assert(flattened(s, 0) == out);
    assert forall|i: int| 0 <= i < r.data@.len() implies #[trigger] out[i] == r.data@[i] by {
        let p = i / 4;
        let k = i % 4;
        assert(0 <= p < w * h) by (nonlinear_arith)
            requires p == i / 4, 0 <= i < 4 * w * h;
        assert(w > 0) by (nonlinear_arith)
            requires 0 <= p < w * h, h >= 0;
        let x = p % w;
        let y = p / w;
        vstd::arithmetic::div_mod::lemma_fundamental_div_mod(p, w);
        assert(y < h) by (nonlinear_arith)
            requires p == w * y + x, 0 <= x, p < w * h, w > 0;
        assert(y * w + x == p) by (nonlinear_arith)
            requires p == w * y + x;
        assert(4 * p + 4 <= r.data@.len()) by (nonlinear_arith)
            requires 0 <= p < w * h, r.data@.len() == 4 * w * h;
        assert(r.data@[4 * p + 3] == 255);
        assert(pixel_of(r.data@, p)[3] == 255);
        vstd::arithmetic::div_mod::lemma_fundamental_div_mod(i, 4);
    }
    assert(out =~= r.data@);
}

} // verus!
