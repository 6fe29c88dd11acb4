//! The document: layers of animation cels, the active layer and frame, the
//! selection state and the undo/redo stacks.
use vstd::prelude::*;
use crate::color::{Color, transparent, from_rgba_unmultiplied, premultiplied_ok};
use crate::grid::blank_cel;

verus! {

/// Undo history keeps at most this many snapshots.
pub const UNDO_LIMIT: usize = 50;

/// A selection rectangle `(x0, y0, x1, y1)`, corners inclusive.
pub type Rect = (i32, i32, i32, i32);

/// A pixel position `(x, y)`.
pub type Point = (i32, i32);

/// One layer: a name, one pixel buffer ("cel") per animation frame, and
/// whether it takes part in compositing.
pub struct Layer {
    pub name: String,
    pub cels: Vec<Vec<Color>>,
    pub visible: bool,
}

/// What a layer holds, as mathematical values.
pub struct LayerView {
    pub name: Seq<char>,
    pub cels: Seq<Seq<Color>>,
    pub visible: bool,
}

impl View for Layer {
    type V = LayerView;

    open spec fn view(&self) -> LayerView {
        LayerView {
            name: self.name@,
            cels: self.cels@.map_values(|c: Vec<Color>| c@),
            visible: self.visible,
        }
    }
}

/// The views of a sequence of layers.
pub open spec fn layers_view(layers: Seq<Layer>) -> Seq<LayerView> {
    layers.map_values(|l: Layer| l@)
}

/// The view of an optional pixel buffer.
pub open spec fn buf_view(b: Option<Vec<Color>>) -> Option<Seq<Color>> {
    match b {
        Some(v) => Some(v@),
        None => None,
    }
}

/// Everything an undo snapshot records of a document.
pub struct Content {
    pub layers: Seq<LayerView>,
    pub active: nat,
    pub frames: nat,
    pub active_frame: nat,
    pub width: nat,
    pub height: nat,
    pub sel: Option<Rect>,
    pub sel_buffer: Option<Seq<Color>>,
    pub sel_buf_w: nat,
    pub sel_buf_h: nat,
    pub pasting: bool,
    pub clipboard: Option<Seq<Color>>,
    pub clip_w: nat,
    pub clip_h: nat,
}

/// `frames` cels of `n` pixels each.
pub open spec fn cels_shaped(cels: Seq<Seq<Color>>, frames: nat, n: nat) -> bool {
    &&& cels.len() == frames
    &&& forall|f: int| 0 <= f < frames ==> #[trigger] cels[f].len() == n
}

/// Every layer has `frames` cels of `n` pixels each.
pub open spec fn layers_shaped(layers: Seq<LayerView>, frames: nat, n: nat) -> bool {
    forall|l: int| 0 <= l < layers.len() ==> cels_shaped(#[trigger] layers[l].cels, frames, n)
}

/// Layers whose cel lists are copies of those of shaped layers, or shaped
/// themselves, are shaped.
pub proof fn lemma_shaped_by_source(new: Seq<LayerView>, old: Seq<LayerView>, frames: nat, n: nat, src: spec_fn(int) -> int)
    requires
        layers_shaped(old, frames, n),
        forall|l: int| 0 <= l < new.len() ==>
            (0 <= src(l) < old.len() && (#[trigger] new[l]).cels == old[src(l)].cels) || cels_shaped(new[l].cels, frames, n),
    ensures
        layers_shaped(new, frames, n),
{
    assert forall|l: int| 0 <= l < new.len() implies cels_shaped(#[trigger] new[l].cels, frames, n) by {
        if !cels_shaped(new[l].cels, frames, n) {
            assert(cels_shaped(old[src(l)].cels, frames, n));
        }
    }
}

/// A buffer of `w` by `h` pixels, if there is one.
pub open spec fn buf_shaped(b: Option<Seq<Color>>, w: nat, h: nat) -> bool {
    match b {
        Some(s) => s.len() == w * h,
        None => true,
    }
}

impl Content {
    /// The shape that every part of the editor relies on.
    pub open spec fn wf(self) -> bool {
        &&& self.layers.len() >= 1
        &&& self.active < self.layers.len()
        &&& self.frames >= 1
        &&& self.active_frame < self.frames
        &&& layers_shaped(self.layers, self.frames, self.width * self.height)
        &&& buf_shaped(self.sel_buffer, self.sel_buf_w, self.sel_buf_h)
        &&& buf_shaped(self.clipboard, self.clip_w, self.clip_h)
    }

    /// Cel `f` of layer `l`.
    pub open spec fn cel(self, l: int, f: int) -> Seq<Color> {
        self.layers[l].cels[f]
    }

    /// This content with cel `f` of layer `l` replaced by `cel`.
    pub open spec fn set_cel(self, l: int, f: int, cel: Seq<Color>) -> Content {
        Content {
            layers: self.layers.update(l, LayerView { cels: self.layers[l].cels.update(f, cel), ..self.layers[l] }),
            ..self
        }
    }

    /// This content with the active cel replaced by `cel`.
    pub open spec fn set_active_cel(self, cel: Seq<Color>) -> Content {
        self.set_cel(self.active as int, self.active_frame as int, cel)
    }

    /// The cel being edited.
    pub open spec fn active_cel(self) -> Seq<Color> {
        self.cel(self.active as int, self.active_frame as int)
    }
}

/// The part of a document that undo snapshots do not record: view and tool
/// state and bookkeeping flags.
pub struct UiState {
    pub name: Seq<char>,
    pub playing: bool,
    pub canvas_dirty: bool,
    pub texture_stale: bool,
    pub sel_start: Option<Point>,
    pub sel_end: Option<Point>,
    pub sel_move_origin: Option<Point>,
    pub sel_move_current: Option<Point>,
    pub sel_texture_stale: bool,
    pub canvas_move_origin: Option<Point>,
    pub canvas_move_current: Option<Point>,
    pub grid: bool,
    pub last_px_primary: Option<Point>,
    pub last_px_secondary: Option<Point>,
    pub unsaved: bool,
    pub export_path: Seq<char>,
    pub export_name: Seq<char>,
    pub needs_zoom_fit: bool,
    pub transforming: bool,
    pub transform_orig_rect: Option<Rect>,
    pub transform_corner: Option<usize>,
}

impl UiState {
    /// The same state with the composite marked for recomputation.
    pub open spec fn dirtied(self) -> UiState {
        UiState { canvas_dirty: true, ..self }
    }
}

/// An undo/redo snapshot of a document.
pub struct Snapshot {
    pub layers: Vec<Layer>,
    pub active: usize,
    pub frames: usize,
    pub active_frame: usize,
    pub width: usize,
    pub height: usize,
    pub sel: Option<Rect>,
    pub sel_buffer: Option<Vec<Color>>,
    pub sel_buf_w: usize,
    pub sel_buf_h: usize,
    pub pasting: bool,
    pub clipboard: Option<Vec<Color>>,
    pub clip_w: usize,
    pub clip_h: usize,
}

impl View for Snapshot {
    type V = Content;

    open spec fn view(&self) -> Content {
        Content {
            layers: layers_view(self.layers@),
            active: self.active as nat,
            frames: self.frames as nat,
            active_frame: self.active_frame as nat,
            width: self.width as nat,
            height: self.height as nat,
            sel: self.sel,
            sel_buffer: buf_view(self.sel_buffer),
            sel_buf_w: self.sel_buf_w as nat,
            sel_buf_h: self.sel_buf_h as nat,
            pasting: self.pasting,
            clipboard: buf_view(self.clipboard),
            clip_w: self.clip_w as nat,
            clip_h: self.clip_h as nat,
        }
    }
}

/// Every snapshot of a stack is well formed.
pub open spec fn stack_wf(s: Seq<Snapshot>) -> bool {
    forall|i: int| 0 <= i < s.len() ==> (#[trigger] s[i])@.wf()
}

/// One image being edited.
pub struct Document {
    pub name: String,
    pub layers: Vec<Layer>,
    pub active_layer: usize,
    pub width: usize,
    pub height: usize,
    pub frames: usize,
    pub active_frame: usize,
    pub playing: bool,
    pub undo_stack: Vec<Snapshot>,
    pub redo_stack: Vec<Snapshot>,
    /// The composite must be recomputed.
    pub canvas_dirty: bool,
    /// The cached canvas texture must be dropped.
    pub texture_stale: bool,
    pub sel: Option<Rect>,
    pub sel_start: Option<Point>,
    pub sel_end: Option<Point>,
    pub sel_move_origin: Option<Point>,
    pub sel_move_current: Option<Point>,
    pub sel_buffer: Option<Vec<Color>>,
    pub sel_buf_w: usize,
    pub sel_buf_h: usize,
    /// The cached texture of the moved selection must be dropped.
    pub sel_texture_stale: bool,
    pub canvas_move_origin: Option<Point>,
    pub canvas_move_current: Option<Point>,
    pub grid: bool,
    pub last_px_primary: Option<Point>,
    pub last_px_secondary: Option<Point>,
    pub unsaved: bool,
    pub export_path: String,
    pub export_name: String,
    pub needs_zoom_fit: bool,
    pub clipboard: Option<Vec<Color>>,
    pub clip_w: usize,
    pub clip_h: usize,
    pub pasting: bool,
    pub transforming: bool,
    pub transform_orig_rect: Option<Rect>,
    pub transform_corner: Option<usize>,
}

/// A cel of `n` transparent pixels.
pub open spec fn blank(n: nat) -> Seq<Color> {
    Seq::new(n, |i: int| transparent())
}

/// The content of a new `w` by `h` document: one visible, transparent layer
/// "Background" with one frame, nothing selected, nothing copied.
pub open spec fn fresh_content(w: nat, h: nat) -> Content {
    Content {
        layers: seq![LayerView { name: "Background"@, cels: seq![blank(w * h)], visible: true }],
        active: 0,
        frames: 1,
        active_frame: 0,
        width: w,
        height: h,
        sel: None,
        sel_buffer: None,
        sel_buf_w: 0,
        sel_buf_h: 0,
        pasting: false,
        clipboard: None,
        clip_w: 0,
        clip_h: 0,
    }
}

/// The view state of a new document called `name`.
pub open spec fn fresh_ui(name: Seq<char>) -> UiState {
    UiState {
        name,
        playing: false,
        canvas_dirty: true,
        texture_stale: false,
        sel_start: None,
        sel_end: None,
        sel_move_origin: None,
        sel_move_current: None,
        sel_texture_stale: false,
        canvas_move_origin: None,
        canvas_move_current: None,
        grid: false,
        last_px_primary: None,
        last_px_secondary: None,
        unsaved: false,
        export_path: Seq::empty(),
        export_name: "pixesh.png"@,
        needs_zoom_fit: true,
        transforming: false,
        transform_orig_rect: None,
        transform_corner: None,
    }
}

/// The content after an image of `w` by `h` pixels `pixels` was loaded:
/// one frame, layer 0 holds the image, every other layer is cleared, and
/// layer 0 becomes active.
pub open spec fn with_image_loaded(c: Content, w: nat, h: nat, pixels: Seq<Color>) -> Content {
    Content {
        layers: Seq::new(c.layers.len(), |l: int| LayerView {
            cels: if l == 0 { seq![pixels] } else { seq![blank(w * h)] },
            ..c.layers[l]
        }),
        frames: 1,
        active_frame: 0,
        active: 0,
        width: w,
        height: h,
        ..c
    }
}

impl Document {
    /// A new `w` by `h` document called `name`.
    pub fn new_sized(name: &str, w: usize, h: usize) -> (d: Document)
        requires
            w * h <= usize::MAX,
        ensures
            d.wf(),
            d.content() == fresh_content(w as nat, h as nat),
            d.ui() == fresh_ui(name@),
            d.undo_stack@.len() == 0,
            d.redo_stack@.len() == 0,
    {
        let cel = blank_cel(w * h);
        assert(cel@ =~= blank(w as nat * h as nat));
        let mut cels: Vec<Vec<Color>> = Vec::new();
        cels.push(cel);
        let mut layers: Vec<Layer> = Vec::new();
        layers.push(Layer { name: String::from_str("Background"), cels, visible: true });
        let d = Document {
            name: String::from_str(name),
            layers,
            active_layer: 0,
            width: w,
            height: h,
            frames: 1,
            active_frame: 0,
            playing: false,
            undo_stack: Vec::new(),
            redo_stack: Vec::new(),
            canvas_dirty: true,
            texture_stale: false,
            sel: None,
            sel_start: None,
            sel_end: None,
            sel_move_origin: None,
            sel_move_current: None,
            sel_buffer: None,
            sel_buf_w: 0,
            sel_buf_h: 0,
            sel_texture_stale: false,
            canvas_move_origin: None,
            canvas_move_current: None,
            grid: false,
            last_px_primary: None,
            last_px_secondary: None,
            unsaved: false,
            export_path: String::new(),
            export_name: String::from_str("pixesh.png"),
            needs_zoom_fit: true,
            clipboard: None,
            clip_w: 0,
            clip_h: 0,
            pasting: false,
            transforming: false,
            transform_orig_rect: None,
            transform_corner: None,
        };
        proof {
            let c = d.content();
            assert(c.layers[0].cels =~= seq![blank(w as nat * h as nat)]);
            assert(c.layers =~= fresh_content(w as nat, h as nat).layers);
            assert(cels_shaped(c.layers[0].cels, 1, w as nat * h as nat));
        }
        d
    }

    /// A new 16 by 16 document called `name`.
    pub fn new(name: &str) -> (d: Document)
        ensures
            d.wf(),
            d.content() == fresh_content(16, 16),
            d.ui() == fresh_ui(name@),
            d.undo_stack@.len() == 0,
            d.redo_stack@.len() == 0,
    {
        Document::new_sized(name, 16, 16)
    }

    /// What an undo snapshot of this document records.
    pub open spec fn content(&self) -> Content {
        Content {
            layers: layers_view(self.layers@),
            active: self.active_layer as nat,
            frames: self.frames as nat,
            active_frame: self.active_frame as nat,
            width: self.width as nat,
            height: self.height as nat,
            sel: self.sel,
            sel_buffer: buf_view(self.sel_buffer),
            sel_buf_w: self.sel_buf_w as nat,
            sel_buf_h: self.sel_buf_h as nat,
            pasting: self.pasting,
            clipboard: buf_view(self.clipboard),
            clip_w: self.clip_w as nat,
            clip_h: self.clip_h as nat,
        }
    }

    /// The view and tool state of this document.
    pub open spec fn ui(&self) -> UiState {
        UiState {
            name: self.name@,
            playing: self.playing,
            canvas_dirty: self.canvas_dirty,
            texture_stale: self.texture_stale,
            sel_start: self.sel_start,
            sel_end: self.sel_end,
            sel_move_origin: self.sel_move_origin,
            sel_move_current: self.sel_move_current,
            sel_texture_stale: self.sel_texture_stale,
            canvas_move_origin: self.canvas_move_origin,
            canvas_move_current: self.canvas_move_current,
            grid: self.grid,
            last_px_primary: self.last_px_primary,
            last_px_secondary: self.last_px_secondary,
            unsaved: self.unsaved,
            export_path: self.export_path@,
            export_name: self.export_name@,
            needs_zoom_fit: self.needs_zoom_fit,
            transforming: self.transforming,
            transform_orig_rect: self.transform_orig_rect,
            transform_corner: self.transform_corner,
        }
    }

    /// Both history stacks are those of `other`.
    pub open spec fn same_history(&self, other: &Document) -> bool {
        self.undo_stack@ == other.undo_stack@ && self.redo_stack@ == other.redo_stack@
    }

    /// The document's invariant: its content is well formed, and so is every
    /// snapshot in its history, which holds at most `UNDO_LIMIT` entries
    /// (undo and redo together).
    pub open spec fn wf(&self) -> bool {
        &&& self.content().wf()
        &&& self.undo_stack@.len() + self.redo_stack@.len() <= UNDO_LIMIT
        &&& stack_wf(self.undo_stack@)
        &&& stack_wf(self.redo_stack@)
    }

    /// Number of pixels of one cel.
    pub open spec fn npix(&self) -> nat {
        self.width as nat * self.height as nat
    }

    /// Cel `f` of layer `l`.
    pub open spec fn cel(&self, l: int, f: int) -> Seq<Color> {
        self.layers@[l].cels@[f]@
    }

    /// The cel being edited: active layer, active frame.
    pub open spec fn active_cel(&self) -> Seq<Color> {
        self.content().active_cel()
    }

    /// Replaces cel `f` of layer `l`; nothing else changes.
    pub fn put_cel(&mut self, l: usize, f: usize, cel: Vec<Color>)
        requires
            old(self).wf(),
            l < old(self).layers@.len(),
            f < old(self).frames,
            cel@.len() == old(self).npix(),
        ensures
            final(self).wf(),
            final(self).content() == old(self).content().set_cel(l as int, f as int, cel@),
            final(self).ui() == old(self).ui(),
            final(self).same_history(old(self)),
    {
        proof { self.lemma_shape(); }
        self.layers[l].cels[f] = cel;
        proof {
            let c = self.content();
            let oc = old(self).content().set_cel(l as int, f as int, cel@);
            assert(c.layers =~= oc.layers) by {
                assert forall|i: int| 0 <= i < c.layers.len() implies #[trigger] c.layers[i] == oc.layers[i] by {
                    if i == l {
                        assert(c.layers[i].cels =~= oc.layers[i].cels);
                    }
                }
            }
            assert(layers_shaped(c.layers, c.frames, c.width * c.height)) by {
                assert forall|i: int| 0 <= i < c.layers.len() implies cels_shaped(#[trigger] c.layers[i].cels, c.frames, c.width * c.height) by {
                    assert(cels_shaped(old(self).content().layers[i].cels, c.frames, c.width * c.height));
                    if i == l {
                        assert forall|g: int| 0 <= g < c.frames implies #[trigger] c.layers[i].cels[g].len() == c.width * c.height by {
                            assert(old(self).content().layers[i].cels[g].len() == c.width * c.height);
                        }
                    }
                }
            }
        }
    }

    /// The pixel count of a well-formed document fits a `usize`, and its
    /// cels are laid out as `content().wf()` says.
    pub proof fn lemma_shape(&self)
        requires
            self.wf(),
        ensures
            self.npix() <= usize::MAX,
            forall|l: int| 0 <= l < self.layers@.len() ==> #[trigger] self.layers@[l].cels@.len() == self.frames,
            forall|l: int, f: int|
                0 <= l < self.layers@.len() && 0 <= f < self.frames ==> #[trigger] self.cel(l, f).len() == self.npix(),
    {
        let c = self.content();
        assert(cels_shaped(c.layers[0].cels, c.frames, self.npix()));
        assert(c.layers[0].cels[0].len() == self.npix());
        assert(self.layers@[0].cels@[0]@.len() == self.layers@[0].cels@[0].len());
        assert forall|l: int| 0 <= l < self.layers@.len() implies #[trigger] self.layers@[l].cels@.len() == self.frames by {
            assert(cels_shaped(c.layers[l].cels, c.frames, self.npix()));
        }
        assert forall|l: int, f: int|
            0 <= l < self.layers@.len() && 0 <= f < self.frames implies #[trigger] self.cel(l, f).len() == self.npix() by {
            assert(cels_shaped(c.layers[l].cels, c.frames, self.npix()));
            assert(c.layers[l].cels[f].len() == self.npix());
            assert(c.layers[l].cels[f] == self.cel(l, f));
        }
    }
}

} // verus!
