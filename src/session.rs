use vstd::prelude::*;
use crate::raster::{Raster, byte_len, square_side, framed, pad_to_square};
use crate::adjust::{OPAQUE, lemma_default_adjustment_is_identity};
use crate::layer::{ImageLayer, all_wf, recompute, recomputed};
use crate::compositor::{composite, flattened, is_first_visible};

verus! {

/// The editing session: layers in paint order, bottom first.
///
/// Every operation ends with a recompute pass, so between operations each
/// layer's rendering is current.
pub struct ImageApp {
    pub layers: Vec<ImageLayer>,
}

/// Whether every layer is well formed and clean.
pub open spec fn all_clean(layers: Seq<ImageLayer>) -> bool {
    forall|i: int| 0 <= i < layers.len() ==> (#[trigger] layers[i]).wf() && !layers[i].dirty
}

/// The layer `after` is `before` with one edit applied to its settings: the
/// geometry, the reset target, the input and the visibility are kept, the
/// rendering is current.
pub open spec fn settings_edit(before: ImageLayer, after: ImageLayer) -> bool {
    &&& after.wf()
    &&& !after.dirty
    &&& after.image == before.image
    &&& after.original_rgba == before.original_rgba
    &&& after.cached_rgba == before.cached_rgba
    &&& after.visible == before.visible
}

/// All layers but the one at `i` are the same.
pub open spec fn others_kept(before: Seq<ImageLayer>, after: Seq<ImageLayer>, i: int) -> bool {
    &&& after.len() == before.len()
    &&& forall|j: int| 0 <= j < before.len() && j != i ==> after[j] == before[j]
}

pub open spec fn is_top_visible(layers: Seq<ImageLayer>, i: int) -> bool {
    &&& 0 <= i < layers.len()
    &&& layers[i].visible
    &&& forall|j: int| i < j < layers.len() ==> !(#[trigger] layers[j]).visible
}

impl Default for ImageApp {
    fn default() -> (r: Self)
        ensures
            r.wf(),
            r.layers@.len() == 0,
    {
        ImageApp { layers: Vec::new() }
    }
}

impl ImageApp {
    pub open spec fn wf(&self) -> bool {
        all_clean(self.layers@)
    }

    /// Runs one recompute pass over the whole layer set, handing the layers to
    /// it and taking them back.
    fn refresh(&mut self)
        requires
            all_wf(old(self).layers@),
        ensures
            all_wf(final(self).layers@),
            recomputed(old(self).layers@, final(self).layers@),
    {
        let mut layers: Vec<ImageLayer> = Vec::new();
        std::mem::swap(&mut layers, &mut self.layers);
        self.layers = recompute(layers);
    }

    /// Puts `l` back at `i` and recomputes; `l` is the only dirty layer.
    fn put_back(&mut self, i: usize, l: ImageLayer)
        requires
            all_clean(old(self).layers@),
            i <= old(self).layers@.len(),
            l.wf(),
            l.dirty,
            l.cached_rgba is Some,
        ensures
            final(self).wf(),
            final(self).layers@.len() == old(self).layers@.len() + 1,
            forall|j: int| 0 <= j < i ==> final(self).layers@[j] == old(self).layers@[j],
            forall|j: int|
                i < j < final(self).layers@.len() ==> final(self).layers@[j] == old(self).layers@[j
                    - 1],
            !final(self).layers@[i as int].dirty,
            final(self).layers@[i as int].same_edit_state(&l),
            final(self).layers@[i as int].is_current(),
    {
        let ghost before = self.layers@;
        self.layers.insert(i, l);
        let ghost mid = self.layers@;
        assert(mid == before.insert(i as int, l));
        assert(all_wf(mid));
        self.refresh();
        assert(recomputed(mid, self.layers@));
        assert forall|j: int| 0 <= j < self.layers@.len() implies (#[trigger] self.layers@[j]).wf()
            && !self.layers@[j].dirty by {
            assert(crate::layer::recomputed_layer(mid[j], self.layers@[j]));
        }
        assert(crate::layer::recomputed_layer(mid[i as int], self.layers@[i as int]));
        assert forall|j: int| 0 <= j < i implies self.layers@[j] == before[j] by {
            assert(crate::layer::recomputed_layer(mid[j], self.layers@[j]));
        }
        assert forall|j: int| i < j < self.layers@.len() implies self.layers@[j] == before[j - 1] by {
            assert(crate::layer::recomputed_layer(mid[j], self.layers@[j]));
        }
    }

    /// Frames a decoded raster in a square, appends it as the new top layer
    /// with default settings, and renders it.
    pub fn load_layer(&mut self, img: Raster)
        requires
            old(self).wf(),
            img.wf(),
            byte_len(
                square_side(img.width as int, img.height as int),
                square_side(img.width as int, img.height as int),
            ) <= usize::MAX,
        ensures
            final(self).wf(),
            final(self).layers@.len() == old(self).layers@.len() + 1,
            forall|j: int|
                0 <= j < old(self).layers@.len() ==> final(self).layers@[j] == old(self).layers@[j],
            ({
                let l = final(self).layers@.last();
                &&& l.image.width == square_side(img.width as int, img.height as int)
                &&& l.image.height == l.image.width
                &&& l.image.data@ == framed(img.data@, img.width as int, img.height as int)
                &&& l.original_rgba.same_as(&l.image)
                &&& l.cached_rgba matches Some(c) && c.same_as(&l.image)
                &&& l.rendered matches Some(r) && r.same_as(&l.image)
                &&& l.visible
                &&& l.opacity == OPAQUE
                &&& l.brightness == 0
                &&& l.contrast == 0
            }),
    {
        let padded = pad_to_square(&img);
        let layer = ImageLayer::new(padded);
        let n = self.layers.len();
        self.put_back(n, layer);
        proof {
            lemma_default_adjustment_is_identity(self.layers@.last().cached_rgba.unwrap().data@);
        }
    }

    /// Sets the opacity (in thousandths) of layer `i` and re-renders it when the
    /// value changed; tells whether it did.
    pub fn set_opacity(&mut self, i: usize, opacity: u16) -> (changed: bool)
        requires
            old(self).wf(),
            i < old(self).layers@.len(),
            opacity <= OPAQUE,
        ensures
            final(self).wf(),
            changed == (old(self).layers@[i as int].opacity != opacity),
            !changed ==> final(self).layers@ == old(self).layers@,
            others_kept(old(self).layers@, final(self).layers@, i as int),
            settings_edit(old(self).layers@[i as int], final(self).layers@[i as int]),
            final(self).layers@[i as int].opacity == opacity,
            final(self).layers@[i as int].brightness == old(self).layers@[i as int].brightness,
            final(self).layers@[i as int].contrast == old(self).layers@[i as int].contrast,
    {
        if self.layers[i].opacity == opacity {
            return false;
        }
        let mut l = self.layers.remove(i);
        l.opacity = opacity;
        l.dirty = true;
        self.put_back(i, l);
        true
    }

    /// Sets the brightness offset of layer `i` and re-renders it when the value
    /// changed; tells whether it did.
    pub fn set_brightness(&mut self, i: usize, brightness: i32) -> (changed: bool)
        requires
            old(self).wf(),
            i < old(self).layers@.len(),
            -100 <= brightness <= 100,
        ensures
            final(self).wf(),
            changed == (old(self).layers@[i as int].brightness != brightness),
            !changed ==> final(self).layers@ == old(self).layers@,
            others_kept(old(self).layers@, final(self).layers@, i as int),
            settings_edit(old(self).layers@[i as int], final(self).layers@[i as int]),
            final(self).layers@[i as int].opacity == old(self).layers@[i as int].opacity,
            final(self).layers@[i as int].brightness == brightness,
            final(self).layers@[i as int].contrast == old(self).layers@[i as int].contrast,
    {
        if self.layers[i].brightness == brightness {
            return false;
        }
        let mut l = self.layers.remove(i);
        l.brightness = brightness;
        l.dirty = true;
        self.put_back(i, l);
        true
    }

    /// Sets the contrast (in percent) of layer `i` and re-renders it when the
    /// value changed; tells whether it did.
    pub fn set_contrast(&mut self, i: usize, contrast: i32) -> (changed: bool)
        requires
            old(self).wf(),
            i < old(self).layers@.len(),
            -100 <= contrast <= 100,
        ensures
            final(self).wf(),
            changed == (old(self).layers@[i as int].contrast != contrast),
            !changed ==> final(self).layers@ == old(self).layers@,
            others_kept(old(self).layers@, final(self).layers@, i as int),
            settings_edit(old(self).layers@[i as int], final(self).layers@[i as int]),
            final(self).layers@[i as int].opacity == old(self).layers@[i as int].opacity,
            final(self).layers@[i as int].brightness == old(self).layers@[i as int].brightness,
            final(self).layers@[i as int].contrast == contrast,
    {
        if self.layers[i].contrast == contrast {
            return false;
        }
        let mut l = self.layers.remove(i);
        l.contrast = contrast;
        l.dirty = true;
        self.put_back(i, l);
        true
    }

    /// Shows or hides layer `i`; nothing needs rendering again.
    pub fn set_visible(&mut self, i: usize, visible: bool) -> (changed: bool)
        requires
            old(self).wf(),
            i < old(self).layers@.len(),
        ensures
            final(self).wf(),
            changed == (old(self).layers@[i as int].visible != visible),
            others_kept(old(self).layers@, final(self).layers@, i as int),
            final(self).layers@[i as int] == (ImageLayer { visible, ..old(self).layers@[i as int] }),
    {
        let changed = self.layers[i].visible != visible;
        let mut l = self.layers.remove(i);
        l.visible = visible;
        self.layers.insert(i, l);
        assert(self.layers@ =~= old(self).layers@.update(i as int, l));
        changed
    }

    /// The topmost visible layer, if any.
    pub fn top_visible(&self) -> (r: Option<usize>)
        ensures
            r is None <==> forall|j: int| 0 <= j < self.layers@.len() ==> !(#[trigger] self.layers@[j]).visible,
            r matches Some(i) ==> is_top_visible(self.layers@, i as int),
    {
        let mut k: usize = self.layers.len();
        while k > 0
            invariant
                k <= self.layers@.len(),
                forall|j: int| k <= j < self.layers@.len() ==> !(#[trigger] self.layers@[j]).visible,
            decreases k,
        {
            if self.layers[k - 1].visible {
                return Some(k - 1);
            }
            k -= 1;
        }
        None
    }

    /// Gives layer `i` a new geometry (the rotated image), framed square, as
    /// both its image and the input of its adjustments, keeping its settings,
    /// and re-renders it.
    pub fn replace_geometry(&mut self, i: usize, img: Raster)
        requires
            old(self).wf(),
            i < old(self).layers@.len(),
            img.wf(),
            byte_len(
                square_side(img.width as int, img.height as int),
                square_side(img.width as int, img.height as int),
            ) <= usize::MAX,
        ensures
            final(self).wf(),
            others_kept(old(self).layers@, final(self).layers@, i as int),
            ({
                let before = old(self).layers@[i as int];
                let l = final(self).layers@[i as int];
                &&& l.image.width == square_side(img.width as int, img.height as int)
                &&& l.image.height == l.image.width
                &&& l.image.data@ == framed(img.data@, img.width as int, img.height as int)
                &&& l.cached_rgba matches Some(c) && c.same_as(&l.image)
                &&& l.original_rgba == before.original_rgba
                &&& l.visible == before.visible
                &&& l.opacity == before.opacity
                &&& l.brightness == before.brightness
                &&& l.contrast == before.contrast
            }),
    {
        let padded = pad_to_square(&img);
        let cached = padded.duplicate();
        let mut l = self.layers.remove(i);
        l.image = padded;
        l.cached_rgba = Some(cached);
        l.dirty = true;
        self.put_back(i, l);
    }

    /// Restores layer `i` to default settings and its as-loaded pixels, and
    /// re-renders it: the rendering is then exactly those pixels.
    pub fn reset_layer(&mut self, i: usize)
        requires
            old(self).wf(),
            i < old(self).layers@.len(),
        ensures
            final(self).wf(),
            others_kept(old(self).layers@, final(self).layers@, i as int),
            ({
                let before = old(self).layers@[i as int];
                let l = final(self).layers@[i as int];
                &&& l.opacity == OPAQUE
                &&& l.brightness == 0
                &&& l.contrast == 0
                &&& l.image == before.image
                &&& l.original_rgba == before.original_rgba
                &&& l.visible == before.visible
                &&& l.cached_rgba matches Some(c) && c.same_as(&before.original_rgba)
                &&& l.rendered matches Some(r) && r.same_as(&before.original_rgba)
            }),
    {
        let mut l = self.layers.remove(i);
        let cached = l.original_rgba.duplicate();
        l.opacity = OPAQUE;
        l.brightness = 0;
        l.contrast = 0;
        l.cached_rgba = Some(cached);
        l.dirty = true;
        self.put_back(i, l);
        proof {
            lemma_default_adjustment_is_identity(old(self).layers@[i as int].original_rgba.data@);
        }
    }

    /// The flattened export of the visible layers, or `None` when no layer is
    /// visible and there is nothing to write.
    pub fn export(&self) -> (r: Option<Raster>)
        requires
            self.wf(),
        ensures
            r is None <==> forall|j: int| 0 <= j < self.layers@.len() ==> !(#[trigger] self.layers@[j]).visible,
            r matches Some(out) ==> exists|i: int|
                is_first_visible(self.layers@, i) && out.wf() && out.width
                    == self.layers@[i].image.width && out.height == self.layers@[i].image.height
                    && out.data@ == #[trigger] flattened(self.layers@, i),
    {
        composite(&self.layers)
    }
}

} // verus!
