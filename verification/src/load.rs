//! Taking in a decoded image.
use vstd::prelude::*;
use crate::color::{Color, from_rgba_unmultiplied, premultiplied_ok};
use crate::document::{Document, Layer, LayerView, Content, UiState, blank, layers_view, cels_shaped, with_image_loaded};
use crate::grid::blank_cel;
use crate::history::History;
use crate::layers::edited;

verus! {

/// The view state after an image was loaded, with the folder and file name
/// it came from where known.
pub open spec fn loaded_ui(u: UiState, dir: Option<Seq<char>>, file: Option<Seq<char>>) -> UiState {
    UiState {
        unsaved: true,
        canvas_dirty: true,
        texture_stale: true,
        needs_zoom_fit: true,
        export_path: match dir { Some(d) => d, None => u.export_path },
        export_name: match file { Some(f) => f, None => u.export_name },
        ..u
    }
}

/// The view of an optional string.
pub open spec fn opt_view(s: Option<String>) -> Option<Seq<char>> {
    match s {
        Some(v) => Some(v@),
        None => None,
    }
}

/// The pixels of an RGBA8 image (four bytes per pixel, not premultiplied)
/// as egui premultiplies them.
pub fn premultiply_image(rgba: &Vec<u8>, n: usize) -> (px: Vec<Color>)
    requires
        rgba@.len() == 4 * n,
    ensures
        px@.len() == n,
        forall|i: int| 0 <= i < n ==> premultiplied_ok(#[trigger] px@[i], rgba@[4 * i], rgba@[4 * i + 1], rgba@[4 * i + 2], rgba@[4 * i + 3]),
{
    let total: usize = rgba.len();
    let mut px: Vec<Color> = Vec::new();
    let mut i: usize = 0;
    while i < n
        invariant
            rgba@.len() == 4 * n,
            total == 4 * n,
            i <= n,
            px@.len() == i,
            forall|j: int| 0 <= j < i ==> premultiplied_ok(#[trigger] px@[j], rgba@[4 * j], rgba@[4 * j + 1], rgba@[4 * j + 2], rgba@[4 * j + 3]),
        decreases n - i,
    {
        let b: usize = 4 * i;
        let c = from_rgba_unmultiplied(rgba[b], rgba[b + 1], rgba[b + 2], rgba[b + 3]);
        px.push(c);
        i = i + 1;
    }
    px
}

impl Document {
    /// Replaces the image by `pixels` (`w` by `h`, already premultiplied):
    /// one frame, layer 0 holds the image and becomes active, the other
    /// layers are cleared. The export folder and file name follow the
    /// image's when given. The step can be undone.
    pub fn load_pixels(&mut self, w: usize, h: usize, pixels: Vec<Color>, dir: Option<String>, file: Option<String>)
        requires
            old(self).wf(),
            pixels@.len() == w * h,
        ensures
            final(self).wf(),
            final(self).history() == edited(old(self).history(), with_image_loaded(old(self).content(), w as nat, h as nat, pixels@)),
            final(self).ui() == loaded_ui(old(self).ui(), opt_view(dir), opt_view(file)),
    {
        self.push_undo();
        let ghost c0 = self.content();
        let n: usize = pixels.len();
        let mut layers: Vec<Layer> = Vec::new();
        std::mem::swap(&mut layers, &mut self.layers);
        let ghost ls0 = layers@;
        let mut k: usize = 0;
        let mut first: Option<Vec<Color>> = Some(pixels);
        while k < layers.len()
            invariant
                layers@.len() == ls0.len(),
                layers_view(ls0) == c0.layers,
                n == w * h,
                k <= layers@.len(),
                k == 0 ==> first == Some(pixels),
                forall|j: int| 0 <= j < k ==> (#[trigger] layers@[j])@
                    == (LayerView { cels: if j == 0 { seq![pixels@] } else { seq![blank(n as nat)] }, ..ls0[j]@ }),
                forall|j: int| k <= j < layers@.len() ==> #[trigger] layers@[j] == ls0[j],
            decreases ls0.len() - k,
        {
            let cel = if k == 0 {
                match first.take() {
                    Some(p) => p,
                    None => blank_cel(n),
                }
            } else {
                blank_cel(n)
            };
            let ghost cv = cel@;
            assert(k != 0 ==> cv =~= blank(n as nat));
            let mut cels: Vec<Vec<Color>> = Vec::new();
            cels.push(cel);
            layers[k].cels = cels;
            assert(layers@[k as int]@.cels =~= if k == 0 { seq![pixels@] } else { seq![blank(n as nat)] });
            k = k + 1;
        }
        std::mem::swap(&mut layers, &mut self.layers);
        self.frames = 1;
        self.active_frame = 0;
        self.width = w;
        self.height = h;
        self.active_layer = 0;
        self.texture_stale = true;
        self.canvas_dirty = true;
        self.needs_zoom_fit = true;
        match dir {
            Some(d) => { self.export_path = d; },
            None => {},
        }
        match file {
            Some(f) => { self.export_name = f; },
            None => {},
        }
        proof {
            let c = self.content();
            assert(c.layers =~= with_image_loaded(c0, w as nat, h as nat, pixels@).layers);
            assert forall|l: int| 0 <= l < c.layers.len() implies cels_shaped(#[trigger] c.layers[l].cels, c.frames, c.width * c.height) by {
            }
        }
    }

    /// Replaces the image by an RGBA8 image of `w` by `h` pixels (not
    /// premultiplied, row by row), premultiplied as egui does it; otherwise
    /// as `load_pixels`.
    pub fn load_rgba(&mut self, w: usize, h: usize, rgba: &Vec<u8>, dir: Option<String>, file: Option<String>)
        requires
            old(self).wf(),
            w * h <= usize::MAX,
            rgba@.len() == 4 * w * h,
        ensures
            final(self).wf(),
            final(self).history() == edited(old(self).history(), with_image_loaded(old(self).content(), w as nat, h as nat, final(self).cel(0, 0))),
            final(self).ui() == loaded_ui(old(self).ui(), opt_view(dir), opt_view(file)),
            final(self).cel(0, 0).len() == w * h,
            forall|i: int| 0 <= i < w * h ==> premultiplied_ok(#[trigger] final(self).cel(0, 0)[i],
                rgba@[4 * i], rgba@[4 * i + 1], rgba@[4 * i + 2], rgba@[4 * i + 3]),
    {
        let n: usize = w * h;
        assert(4 * w * h == 4 * (w * h)) by (nonlinear_arith);
        let px = premultiply_image(rgba, n);
        let ghost pv = px@;
        self.load_pixels(w, h, px, dir, file);
        proof {
            let c = self.content();
            assert(c.layers[0].cels[0] == pv);
        }
    }
}

} // verus!
