use vstd::prelude::*;
use crate::raster::Raster;
use crate::adjust::{adjusted, adjust_pixels, OPAQUE};

verus! {

/// One loaded image with its own edit state.
///
/// `cached_rgba` is what the adjustments are computed from; `rendered` is the
/// last fully adjusted result. While `dirty` is false `rendered` is exactly the
/// adjustment of `cached_rgba` under the current settings.
#[derive(Debug)]
pub struct ImageLayer {
    /// The layer's current geometry (replaced by a rotation).
    pub image: Raster,
    /// The pixels as loaded and framed: what a reset goes back to.
    pub original_rgba: Raster,
    /// Input of the adjustment pipeline.
    pub cached_rgba: Option<Raster>,
    /// Output of the adjustment pipeline, once computed.
    pub rendered: Option<Raster>,
    pub visible: bool,
    /// Opacity in thousandths, `0..=1000`.
    pub opacity: u16,
    /// Brightness offset, `-100..=100`.
    pub brightness: i32,
    /// Contrast in percent, `-100..=100`.
    pub contrast: i32,
    pub dirty: bool,
}

/// Whether `r` is the adjustment of `src` under the settings of `l`.
pub open spec fn renders(l: &ImageLayer, src: &Raster, r: &Raster) -> bool {
    r.width == src.width && r.height == src.height && r.data@ == adjusted(
        src.data@,
        l.brightness as int,
        l.contrast as int,
        l.opacity as int,
    )
}

impl ImageLayer {
    pub open spec fn wf(&self) -> bool {
        &&& self.image.wf()
        &&& self.original_rgba.wf()
        &&& self.original_rgba.width == self.original_rgba.height
        &&& self.cached_rgba matches Some(c) ==> c.wf() && c.width == c.height
        &&& self.rendered matches Some(r) ==> r.wf()
        &&& self.opacity <= OPAQUE
        &&& -100 <= self.brightness <= 100
        &&& -100 <= self.contrast <= 100
        &&& !self.dirty ==> self.is_current()
    }

    /// `rendered` is present and matches the current input and settings.
    pub open spec fn is_current(&self) -> bool {
        &&& self.cached_rgba is Some
        &&& self.rendered matches Some(r) && renders(self, &self.cached_rgba.unwrap(), &r)
    }

    /// Everything but the rendered result and the dirty flag is the same.
    pub open spec fn same_edit_state(&self, other: &ImageLayer) -> bool {
        &&& self.image == other.image
        &&& self.original_rgba == other.original_rgba
        &&& self.cached_rgba == other.cached_rgba
        &&& self.visible == other.visible
        &&& self.opacity == other.opacity
        &&& self.brightness == other.brightness
        &&& self.contrast == other.contrast
    }

    /// A fresh layer for an already framed raster: visible, default settings,
    /// its input set to the raster as loaded, and not yet rendered.
    pub fn new(framed: Raster) -> (r: ImageLayer)
        requires
            framed.wf(),
            framed.width == framed.height,
        ensures
            r.wf(),
            r.image == framed,
            r.original_rgba.same_as(&framed),
            r.cached_rgba matches Some(c) && c.same_as(&framed),
            r.rendered is None,
            r.visible,
            r.opacity == OPAQUE,
            r.brightness == 0,
            r.contrast == 0,
            r.dirty,
    {
        let original_rgba = framed.duplicate();
        let cached = framed.duplicate();
        ImageLayer {
            image: framed,
            original_rgba,
            cached_rgba: Some(cached),
            rendered: None,
            visible: true,
            opacity: OPAQUE,
            brightness: 0,
            contrast: 0,
            dirty: true,
        }
    }
}

/// How one recompute pass treats a layer: a dirty layer with an input gets a
/// fresh rendering and is clean afterwards; any other layer passes unchanged.
pub open spec fn recomputed_layer(before: ImageLayer, after: ImageLayer) -> bool {
    if before.dirty && before.cached_rgba is Some {
        &&& !after.dirty
        &&& after.same_edit_state(&before)
        &&& after.rendered matches Some(r) && renders(&after, &before.cached_rgba.unwrap(), &r)
    } else {
        after == before
    }
}

pub open spec fn recomputed(before: Seq<ImageLayer>, after: Seq<ImageLayer>) -> bool {
    &&& after.len() == before.len()
    &&& forall|i: int| 0 <= i < before.len() ==> recomputed_layer(#[trigger] before[i], after[i])
}

pub open spec fn all_wf(layers: Seq<ImageLayer>) -> bool {
    forall|i: int| 0 <= i < layers.len() ==> (#[trigger] layers[i]).wf()
}

/// Refreshes the rendering of every dirty layer from its input and marks it
/// clean; clean layers, and layers without an input, pass through untouched.
pub fn recompute(layers: Vec<ImageLayer>) -> (r: Vec<ImageLayer>)
    requires
        all_wf(layers@),
    ensures
        all_wf(r@),
        recomputed(layers@, r@),
{
    let ghost before = layers@;
    let mut out: Vec<ImageLayer> = Vec::new();
    let mut rest = layers;
    while rest.len() > 0
        invariant
            out@.len() + rest@.len() == before.len(),
            rest@ == before.subrange(out@.len() as int, before.len() as int),
            forall|j: int| 0 <= j < out@.len() ==> recomputed_layer(#[trigger] before[j], out@[j]),
            all_wf(before),
            all_wf(out@),
        decreases rest@.len(),
    {
        let ghost j = out@.len() as int;
        let mut layer = rest.remove(0);
        assert(layer == before[j]);
        if layer.dirty {
            match &layer.cached_rgba {
                Some(src) => {
                    let r = adjust_pixels(src, layer.brightness, layer.contrast, layer.opacity);
                    layer.rendered = Some(r);
                    layer.dirty = false;
                },
                None => {},
            }
        }
        out.push(layer);
        assert(recomputed_layer(before[j], out@[j]));
    }
    assert(out@.len() == before.len());
    out
}

/// A second recompute pass with nothing edited in between leaves every layer,
/// its rendering and its clean flag included, exactly as the first pass did.
pub proof fn lemma_recompute_idempotent(
    first: Seq<ImageLayer>,
    second: Seq<ImageLayer>,
    third: Seq<ImageLayer>,
)
    requires
        recomputed(first, second),
        recomputed(second, third),
    ensures
        third == second,
{
    assert forall|i: int| 0 <= i < second.len() implies #[trigger] third[i] == second[i] by {
        assert(recomputed_layer(first[i], second[i]));
        assert(recomputed_layer(second[i], third[i]));
    }
    assert(third =~= second);
}

} // verus!
