//! Layer and frame management.
use vstd::prelude::*;
use crate::color::{Color, transparent};
use crate::compose::top_pixel;
use crate::document::{Document, Layer, LayerView, Content, UiState, blank, layers_view, layers_shaped, cels_shaped, lemma_shaped_by_source};
use crate::grid::{blank_cel, copy_pixels};
use crate::history::{History, hist_push, copy_layer};
use crate::text::{layer_name, new_layer_name, copy_name, copied_layer_name};

verus! {

/// The history after an edit that recorded an undo step and turned the
/// content into `c`.
pub open spec fn edited(h: History, c: Content) -> History {
    History { content: c, ..hist_push(h) }
}

/// The view state after an edit: unsaved, composite to recompute.
pub open spec fn edit_ui(u: UiState) -> UiState {
    UiState { unsaved: true, canvas_dirty: true, ..u }
}

/// The view state after an edit that also drops the canvas texture.
pub open spec fn edit_ui_stale(u: UiState) -> UiState {
    UiState { unsaved: true, canvas_dirty: true, texture_stale: true, ..u }
}

/// A new blank, visible layer "Layer n" (n counting the layers already
/// there) appended at the end of the list, which in the compositing order
/// (layer 0 on top) puts it below all the others, and made active.
pub open spec fn with_layer_added(c: Content) -> Content {
    Content {
        layers: c.layers.push(LayerView {
            name: layer_name(c.layers.len()),
            cels: Seq::new(c.frames, |f: int| blank(c.width * c.height)),
            visible: true,
        }),
        active: c.layers.len(),
        ..c
    }
}

/// Layer `idx` removed; an active index past the end moves to the last layer.
pub open spec fn with_layer_removed(c: Content, idx: int) -> Content {
    let layers = c.layers.remove(idx);
    Content { layers, active: if c.active >= layers.len() { (layers.len() - 1) as nat } else { c.active }, ..c }
}

/// All layers merged into one visible layer "Flattened" whose cels are the
/// flattened frames.
pub open spec fn with_layers_flattened(c: Content) -> Content {
    Content {
        layers: seq![LayerView {
            name: "Flattened"@,
            cels: Seq::new(c.frames, |f: int| Seq::new(c.width * c.height, |i: int| top_pixel(c.layers, f, i, 0))),
            visible: true,
        }],
        active: 0,
        ..c
    }
}

/// A visible copy of layer `idx`, named "<name> copy", inserted right after
/// it in the list (just below it in the compositing order) and made active.
pub open spec fn with_layer_duplicated(c: Content, idx: int) -> Content {
    let src = c.layers[idx];
    let pos = if idx + 1 <= c.layers.len() { idx + 1 } else { c.layers.len() as int };
    Content {
        layers: c.layers.insert(pos, LayerView { name: copy_name(src.name), cels: src.cels, visible: true }),
        active: pos as nat,
        ..c
    }
}

/// The layers in `ls` with `f` applied to every cel list.
pub open spec fn map_cels(ls: Seq<LayerView>, f: spec_fn(Seq<Seq<Color>>) -> Seq<Seq<Color>>) -> Seq<LayerView> {
    ls.map_values(|l: LayerView| LayerView { cels: f(l.cels), ..l })
}

/// A blank frame inserted after the active one, which it then becomes.
pub open spec fn with_frame_added(c: Content) -> Content {
    let n = c.width * c.height;
    let at = c.active_frame + 1;
    Content {
        layers: map_cels(c.layers, |cels: Seq<Seq<Color>>| cels.insert(at as int, blank(n))),
        frames: c.frames + 1,
        active_frame: at,
        ..c
    }
}

/// A copy of the active frame inserted after it, which it then becomes.
pub open spec fn with_frame_duplicated(c: Content) -> Content {
    let af = c.active_frame as int;
    Content {
        layers: map_cels(c.layers, |cels: Seq<Seq<Color>>| cels.insert(af + 1, cels[af])),
        frames: c.frames + 1,
        active_frame: c.active_frame + 1,
        ..c
    }
}

/// The active frame removed; the active index stays, or moves to the new
/// last frame when it fell off the end.
pub open spec fn with_frame_deleted(c: Content) -> Content {
    let af = c.active_frame as int;
    let frames = (c.frames - 1) as nat;
    Content {
        layers: map_cels(c.layers, |cels: Seq<Seq<Color>>| cels.remove(af)),
        frames,
        active_frame: if c.active_frame >= frames { (frames - 1) as nat } else { c.active_frame },
        ..c
    }
}

/// Frame `from` moved to position `to`, which becomes active.
pub open spec fn with_frame_moved(c: Content, from: int, to: int) -> Content {
    Content {
        layers: map_cels(c.layers, |cels: Seq<Seq<Color>>| cels.remove(from).insert(to, cels[from])),
        active_frame: to as nat,
        ..c
    }
}

/// A blank cel list of `frames` cels of `n` pixels.
fn blank_cels(frames: usize, n: usize) -> (v: Vec<Vec<Color>>)
    ensures
        v@.map_values(|c: Vec<Color>| c@) == Seq::new(frames as nat, |f: int| blank(n as nat)),
{
    let mut v: Vec<Vec<Color>> = Vec::new();
    let mut k: usize = 0;
    while k < frames
        invariant
            k <= frames,
            v@.len() == k,
            forall|j: int| 0 <= j < k ==> (#[trigger] v@[j])@ == blank(n as nat),
        decreases frames - k,
    {
        let c = blank_cel(n);
        assert(c@ =~= blank(n as nat));
        v.push(c);
        k = k + 1;
    }
    assert(v@.map_values(|c: Vec<Color>| c@) =~= Seq::new(frames as nat, |f: int| blank(n as nat)));
    v
}

impl Document {
    /// Adds a blank visible layer "Layer n" at the end of the list (below
    /// the others in the compositing order) and makes it active; the step
    /// can be undone.
    pub fn add_layer(&mut self)
        requires
            old(self).wf(),
        ensures
            final(self).wf(),
            final(self).history() == edited(old(self).history(), with_layer_added(old(self).content())),
            final(self).ui() == edit_ui(old(self).ui()),
    {
        self.push_undo();
        proof { self.lemma_shape(); }
        let n: usize = self.width * self.height;
        let name = new_layer_name(self.layers.len());
        let cels = blank_cels(self.frames, n);
        let ghost c0 = self.content();
        let ghost ls0 = self.layers@;
        self.layers.push(Layer { name, cels, visible: true });
        self.active_layer = self.layers.len() - 1;
        self.canvas_dirty = true;
        proof {
            let c = self.content();
            assert(c.layers =~= with_layer_added(c0).layers) by {
                assert forall|i: int| 0 <= i < c.layers.len() implies #[trigger] c.layers[i] == with_layer_added(c0).layers[i] by {
                    if i < ls0.len() {
                        assert(self.layers@[i] == ls0[i]);
                    }
                }
            }
            lemma_shaped_by_source(c.layers, c0.layers, c.frames, c.width * c.height, |l: int| l);
        }
    }

    /// Removes layer `idx` (the last remaining layer stays); the step can
    /// be undone.
    pub fn remove_layer(&mut self, idx: usize)
        requires
            old(self).wf(),
            old(self).layers@.len() > 1 ==> idx < old(self).layers@.len(),
        ensures
            final(self).wf(),
            old(self).layers@.len() <= 1 ==> final(self).history() == old(self).history() && final(self).ui() == old(self).ui(),
            old(self).layers@.len() > 1 ==> {
                &&& final(self).history() == edited(old(self).history(), with_layer_removed(old(self).content(), idx as int))
                &&& final(self).ui() == edit_ui(old(self).ui())
            },
    {
        if self.layers.len() <= 1 {
            return;
        }
        self.push_undo();
        let ghost c0 = self.content();
        let ghost ls0 = self.layers@;
        self.layers.remove(idx);
        if self.active_layer >= self.layers.len() {
            self.active_layer = self.layers.len() - 1;
        }
        self.canvas_dirty = true;
        proof {
            let c = self.content();
            assert(c.layers =~= c0.layers.remove(idx as int));
            lemma_shaped_by_source(c.layers, c0.layers, c.frames, c.width * c.height, |l: int| if l < idx { l } else { l + 1 });
        }
    }

    /// Merges all layers into one visible layer "Flattened" holding the
    /// flattened frames; the step can be undone.
    pub fn flatten_layers(&mut self)
        requires
            old(self).wf(),
        ensures
            final(self).wf(),
            final(self).history() == edited(old(self).history(), with_layers_flattened(old(self).content())),
            final(self).ui() == edit_ui(old(self).ui()),
    {
        self.push_undo();
        let ghost c0 = self.content();
        let mut cels: Vec<Vec<Color>> = Vec::new();
        let mut f: usize = 0;
        while f < self.frames
            invariant
                self.wf(),
                c0 == self.content(),
                f <= self.frames,
                cels@.len() == f,
                forall|g: int| 0 <= g < f ==> (#[trigger] cels@[g])@
                    == Seq::new(c0.width * c0.height, |i: int| top_pixel(c0.layers, g, i, 0)),
            decreases self.frames - f,
        {
            let flat = self.composite_at(f);
            assert(flat@ =~= Seq::new(c0.width * c0.height, |i: int| top_pixel(c0.layers, f as int, i, 0)));
            cels.push(flat);
            f = f + 1;
        }
        self.layers.clear();
        self.layers.push(Layer { name: String::from_str("Flattened"), cels, visible: true });
        self.active_layer = 0;
        self.canvas_dirty = true;
        proof {
            let c = self.content();
            let goal = with_layers_flattened(c0);
            assert(c.layers[0].cels =~= goal.layers[0].cels);
            assert(c.layers =~= goal.layers);
        }
    }

    /// Inserts a visible copy of layer `idx`, named "<name> copy", right
    /// after it in the list (just below it in the compositing order) and
    /// makes it active; the step can be undone.
    pub fn duplicate_layer(&mut self, idx: usize)
        requires
            old(self).wf(),
            idx < old(self).layers@.len(),
        ensures
            final(self).wf(),
            final(self).history() == edited(old(self).history(), with_layer_duplicated(old(self).content(), idx as int)),
            final(self).ui() == edit_ui(old(self).ui()),
    {
        self.push_undo();
        let ghost c0 = self.content();
        let ghost ls0 = self.layers@;
        let src = copy_layer(&self.layers[idx]);
        let dup = Layer { name: copied_layer_name(&self.layers[idx].name), cels: src.cels, visible: true };
        let insert_pos: usize = if idx < self.layers.len() { idx + 1 } else { self.layers.len() };
        self.layers.insert(insert_pos, dup);
        self.active_layer = insert_pos;
        self.canvas_dirty = true;
        proof {
            let c = self.content();
            let goal = with_layer_duplicated(c0, idx as int);
            assert(c.layers =~= goal.layers) by {
                assert forall|l: int| 0 <= l < c.layers.len() implies #[trigger] c.layers[l] == goal.layers[l] by {
                    if l < insert_pos {
                        assert(self.layers@[l] == ls0[l]);
                    } else if l > insert_pos {
                        assert(self.layers@[l] == ls0[l - 1]);
                    }
                }
            }
            lemma_shaped_by_source(c.layers, c0.layers, c.frames, c.width * c.height,
                |l: int| if l < insert_pos { l } else if l > insert_pos { l - 1 } else { idx as int });
        }
    }

    /// Shows a hidden layer or hides a shown one.
    pub fn toggle_layer_visible(&mut self, idx: usize)
        requires
            old(self).wf(),
            idx < old(self).layers@.len(),
        ensures
            final(self).wf(),
            final(self).content() == (Content {
                layers: old(self).content().layers.update(idx as int,
                    LayerView { visible: !old(self).content().layers[idx as int].visible, ..old(self).content().layers[idx as int] }),
                ..old(self).content()
            }),
            final(self).ui() == old(self).ui().dirtied(),
            final(self).same_history(old(self)),
    {
        let ghost c0 = self.content();
        let v = self.layers[idx].visible;
        self.layers[idx].visible = !v;
        self.canvas_dirty = true;
        proof {
            let c = self.content();
            let goal = c0.layers.update(idx as int, LayerView { visible: !c0.layers[idx as int].visible, ..c0.layers[idx as int] });
            assert(c.layers =~= goal);
            lemma_shaped_by_source(c.layers, c0.layers, c.frames, c.width * c.height, |l: int| l);
        }
    }

    /// Shows frame `f`, or the last frame when `f` lies past the end.
    pub fn set_active_frame(&mut self, f: usize)
        requires
            old(self).wf(),
        ensures
            final(self).wf(),
            ({
                let g = if f < old(self).frames - 1 { f } else { (old(self).frames - 1) as usize };
                if g == old(self).active_frame {
                    final(self).content() == old(self).content() && final(self).ui() == old(self).ui()
                } else {
                    &&& final(self).content() == (Content { active_frame: g as nat, ..old(self).content() })
                    &&& final(self).ui() == (UiState { canvas_dirty: true, texture_stale: true, ..old(self).ui() })
                }
            }),
            final(self).same_history(old(self)),
    {
        let last: usize = self.frames - 1;
        let g: usize = if f < last { f } else { last };
        if g == self.active_frame {
            return;
        }
        self.active_frame = g;
        self.canvas_dirty = true;
        self.texture_stale = true;
    }

    /// Shows the frame after the active one, wrapping around to the first
    /// (one tick of playback).
    pub fn advance_frame(&mut self)
        requires
            old(self).wf(),
        ensures
            final(self).wf(),
            final(self).content() == (Content {
                active_frame: ((old(self).active_frame + 1) % (old(self).frames as int)) as nat,
                ..old(self).content()
            }),
            ((old(self).active_frame + 1) % (old(self).frames as int)) as nat == old(self).active_frame
                ==> final(self).ui() == old(self).ui(),
            ((old(self).active_frame + 1) % (old(self).frames as int)) as nat != old(self).active_frame
                ==> final(self).ui() == (UiState { canvas_dirty: true, texture_stale: true, ..old(self).ui() }),
            final(self).same_history(old(self)),
    {
        let next: usize = (self.active_frame + 1) % self.frames;
        self.set_active_frame(next);
    }

    /// Inserts a blank frame after the active one and shows it; the step
    /// can be undone.
    pub fn add_frame_blank(&mut self)
        requires
            old(self).wf(),
            old(self).frames < usize::MAX,
        ensures
            final(self).wf(),
            final(self).history() == edited(old(self).history(), with_frame_added(old(self).content())),
            final(self).ui() == edit_ui_stale(old(self).ui()),
    {
        self.push_undo();
        proof { self.lemma_shape(); }
        let ghost c0 = self.content();
        let n: usize = self.width * self.height;
        let at: usize = self.active_frame + 1;
        let mut layers: Vec<Layer> = Vec::new();
        std::mem::swap(&mut layers, &mut self.layers);
        let ghost ls0 = layers@;
        let mut k: usize = 0;
        while k < layers.len()
            invariant
                layers@.len() == ls0.len(),
                layers_view(ls0) == c0.layers,
                layers_shaped(c0.layers, c0.frames, c0.width * c0.height),
                at == c0.active_frame + 1,
                c0.active_frame < c0.frames,
                n == c0.width * c0.height,
                k <= layers@.len(),
                forall|j: int| 0 <= j < k ==> (#[trigger] layers@[j])@
                    == (LayerView { cels: ls0[j]@.cels.insert(at as int, blank(n as nat)), ..ls0[j]@ }),
                forall|j: int| k <= j < layers@.len() ==> #[trigger] layers@[j] == ls0[j],
            decreases ls0.len() - k,
        {
            assert(cels_shaped(c0.layers[k as int].cels, c0.frames, c0.width * c0.height));
            assert(c0.layers[k as int] == ls0[k as int]@);
            let cel = blank_cel(n);
            assert(cel@ =~= blank(n as nat));
            layers[k].cels.insert(at, cel);
            assert(layers@[k as int]@.cels =~= ls0[k as int]@.cels.insert(at as int, blank(n as nat)));
            k = k + 1;
        }
        std::mem::swap(&mut layers, &mut self.layers);
        self.frames = self.frames + 1;
        self.active_frame = at;
        self.canvas_dirty = true;
        self.texture_stale = true;
        proof {
            let c = self.content();
            let goal = with_frame_added(c0);
            assert(c.layers =~= goal.layers);
            assert forall|l: int| 0 <= l < c.layers.len() implies cels_shaped(#[trigger] c.layers[l].cels, c.frames, c.width * c.height) by {
                assert(cels_shaped(c0.layers[l].cels, c0.frames, c0.width * c0.height));
                assert forall|f: int| 0 <= f < c.frames implies #[trigger] c.layers[l].cels[f].len() == c.width * c.height by {
                    if f < at {
                        assert(c.layers[l].cels[f] == c0.layers[l].cels[f]);
                    } else if f > at {
                        assert(c.layers[l].cels[f] == c0.layers[l].cels[f - 1]);
                    }
                }
            }
        }
    }

    /// Inserts a copy of the active frame after it and shows the copy; the
    /// step can be undone.
    pub fn duplicate_frame(&mut self)
        requires
            old(self).wf(),
            old(self).frames < usize::MAX,
        ensures
            final(self).wf(),
            final(self).history() == edited(old(self).history(), with_frame_duplicated(old(self).content())),
            final(self).ui() == edit_ui_stale(old(self).ui()),
    {
        self.push_undo();
        proof { self.lemma_shape(); }
        let ghost c0 = self.content();
        let af: usize = self.active_frame;
        let mut layers: Vec<Layer> = Vec::new();
        std::mem::swap(&mut layers, &mut self.layers);
        let ghost ls0 = layers@;
        let mut k: usize = 0;
        while k < layers.len()
            invariant
                layers@.len() == ls0.len(),
                layers_view(ls0) == c0.layers,
                layers_shaped(c0.layers, c0.frames, c0.width * c0.height),
                af == c0.active_frame,
                c0.active_frame < c0.frames,
                c0.frames < usize::MAX,
                k <= layers@.len(),
                forall|j: int| 0 <= j < k ==> (#[trigger] layers@[j])@
                    == (LayerView { cels: ls0[j]@.cels.insert(af + 1, ls0[j]@.cels[af as int]), ..ls0[j]@ }),
                forall|j: int| k <= j < layers@.len() ==> #[trigger] layers@[j] == ls0[j],
            decreases ls0.len() - k,
        {
            assert(cels_shaped(c0.layers[k as int].cels, c0.frames, c0.width * c0.height));
            assert(c0.layers[k as int] == ls0[k as int]@);
            let cel = copy_pixels(&layers[k].cels[af]);
            layers[k].cels.insert(af + 1, cel);
            assert(layers@[k as int]@.cels =~= ls0[k as int]@.cels.insert(af + 1, ls0[k as int]@.cels[af as int]));
            k = k + 1;
        }
        std::mem::swap(&mut layers, &mut self.layers);
        self.frames = self.frames + 1;
        self.active_frame = af + 1;
        self.canvas_dirty = true;
        self.texture_stale = true;
        proof {
            let c = self.content();
            let goal = with_frame_duplicated(c0);
            assert(c.layers =~= goal.layers);
            assert forall|l: int| 0 <= l < c.layers.len() implies cels_shaped(#[trigger] c.layers[l].cels, c.frames, c.width * c.height) by {
                assert(cels_shaped(c0.layers[l].cels, c0.frames, c0.width * c0.height));
                assert forall|f: int| 0 <= f < c.frames implies #[trigger] c.layers[l].cels[f].len() == c.width * c.height by {
                    if f <= af {
                        assert(c.layers[l].cels[f] == c0.layers[l].cels[f]);
                    } else if f > af + 1 {
                        assert(c.layers[l].cels[f] == c0.layers[l].cels[f - 1]);
                    } else {
                        assert(c.layers[l].cels[f] == c0.layers[l].cels[af as int]);
                    }
                }
            }
        }
    }

    /// Deletes the active frame (the last remaining frame stays); the step
    /// can be undone.
    pub fn delete_frame(&mut self)
        requires
            old(self).wf(),
        ensures
            final(self).wf(),
            old(self).frames <= 1 ==> final(self).history() == old(self).history() && final(self).ui() == old(self).ui(),
            old(self).frames > 1 ==> {
                &&& final(self).history() == edited(old(self).history(), with_frame_deleted(old(self).content()))
                &&& final(self).ui() == edit_ui_stale(old(self).ui())
            },
    {
        if self.frames <= 1 {
            return;
        }
        self.push_undo();
        proof { self.lemma_shape(); }
        let ghost c0 = self.content();
        let af: usize = self.active_frame;
        let mut layers: Vec<Layer> = Vec::new();
        std::mem::swap(&mut layers, &mut self.layers);
        let ghost ls0 = layers@;
        let mut k: usize = 0;
        while k < layers.len()
            invariant
                layers@.len() == ls0.len(),
                layers_view(ls0) == c0.layers,
                layers_shaped(c0.layers, c0.frames, c0.width * c0.height),
                af == c0.active_frame,
                c0.active_frame < c0.frames,
                k <= layers@.len(),
                forall|j: int| 0 <= j < k ==> (#[trigger] layers@[j])@
                    == (LayerView { cels: ls0[j]@.cels.remove(af as int), ..ls0[j]@ }),
                forall|j: int| k <= j < layers@.len() ==> #[trigger] layers@[j] == ls0[j],
            decreases ls0.len() - k,
        {
            assert(cels_shaped(c0.layers[k as int].cels, c0.frames, c0.width * c0.height));
            assert(c0.layers[k as int] == ls0[k as int]@);
            layers[k].cels.remove(af);
            assert(layers@[k as int]@.cels =~= ls0[k as int]@.cels.remove(af as int));
            k = k + 1;
        }
        std::mem::swap(&mut layers, &mut self.layers);
        self.frames = self.frames - 1;
        if self.active_frame >= self.frames {
            self.active_frame = self.frames - 1;
        }
        self.canvas_dirty = true;
        self.texture_stale = true;
        proof {
            let c = self.content();
            let goal = with_frame_deleted(c0);
            assert(c.layers =~= goal.layers);
            assert forall|l: int| 0 <= l < c.layers.len() implies cels_shaped(#[trigger] c.layers[l].cels, c.frames, c.width * c.height) by {
                assert(cels_shaped(c0.layers[l].cels, c0.frames, c0.width * c0.height));
                assert forall|f: int| 0 <= f < c.frames implies #[trigger] c.layers[l].cels[f].len() == c.width * c.height by {
                    if f < af {
                        assert(c.layers[l].cels[f] == c0.layers[l].cels[f]);
                    } else {
                        assert(c.layers[l].cels[f] == c0.layers[l].cels[f + 1]);
                    }
                }
            }
        }
    }

    /// Moves frame `from` to position `to` and shows it; nothing happens
    /// when the two are equal or either lies past the end. The step can be
    /// undone.
    pub fn move_frame(&mut self, from: usize, to: usize)
        requires
            old(self).wf(),
        ensures
            final(self).wf(),
            (from == to || from >= old(self).frames || to >= old(self).frames)
                ==> final(self).history() == old(self).history() && final(self).ui() == old(self).ui(),
            !(from == to || from >= old(self).frames || to >= old(self).frames) ==> {
                &&& final(self).history() == edited(old(self).history(), with_frame_moved(old(self).content(), from as int, to as int))
                &&& final(self).ui() == edit_ui_stale(old(self).ui())
            },
    {
        if from == to || from >= self.frames || to >= self.frames {
            return;
        }
        self.push_undo();
        proof { self.lemma_shape(); }
        let ghost c0 = self.content();
        let mut layers: Vec<Layer> = Vec::new();
        std::mem::swap(&mut layers, &mut self.layers);
        let ghost ls0 = layers@;
        let mut k: usize = 0;
        while k < layers.len()
            invariant
                layers@.len() == ls0.len(),
                layers_view(ls0) == c0.layers,
                layers_shaped(c0.layers, c0.frames, c0.width * c0.height),
                from < c0.frames && to < c0.frames,
                k <= layers@.len(),
                forall|j: int| 0 <= j < k ==> (#[trigger] layers@[j])@
                    == (LayerView { cels: ls0[j]@.cels.remove(from as int).insert(to as int, ls0[j]@.cels[from as int]), ..ls0[j]@ }),
                forall|j: int| k <= j < layers@.len() ==> #[trigger] layers@[j] == ls0[j],
            decreases ls0.len() - k,
        {
            assert(cels_shaped(c0.layers[k as int].cels, c0.frames, c0.width * c0.height));
            assert(c0.layers[k as int] == ls0[k as int]@);
            let cel = layers[k].cels.remove(from);
            layers[k].cels.insert(to, cel);
            assert(layers@[k as int]@.cels =~= ls0[k as int]@.cels.remove(from as int).insert(to as int, ls0[k as int]@.cels[from as int]));
            k = k + 1;
        }
        std::mem::swap(&mut layers, &mut self.layers);
        self.active_frame = to;
        self.canvas_dirty = true;
        self.texture_stale = true;
        proof {
            let c = self.content();
            let goal = with_frame_moved(c0, from as int, to as int);
            assert(c.layers =~= goal.layers);
            assert forall|l: int| 0 <= l < c.layers.len() implies cels_shaped(#[trigger] c.layers[l].cels, c.frames, c.width * c.height) by {
                assert(cels_shaped(c0.layers[l].cels, c0.frames, c0.width * c0.height));
                let r = c0.layers[l].cels.remove(from as int);
                assert forall|f: int| 0 <= f < c.frames implies #[trigger] c.layers[l].cels[f].len() == c.width * c.height by {
                    if f < to {
                        assert(c.layers[l].cels[f] == r[f]);
                    } else if f > to {
                        assert(c.layers[l].cels[f] == r[f - 1]);
                    }
                    if f < to && f < from || f > to && f - 1 < from {
                    } 
                    assert(forall|g: int| 0 <= g < r.len() ==> (#[trigger] r[g]).len() == c.width * c.height) by {
                        assert forall|g: int| 0 <= g < r.len() implies (#[trigger] r[g]).len() == c.width * c.height by {
                            if g < from {
                                assert(r[g] == c0.layers[l].cels[g]);
                            } else {
                                assert(r[g] == c0.layers[l].cels[g + 1]);
                            }
                        }
                    }
                }
            }
        }
    }

    /// Makes layer `idx` the one being edited.
    pub fn select_layer(&mut self, idx: usize)
        requires
            old(self).wf(),
            idx < old(self).layers@.len(),
        ensures
            final(self).wf(),
            final(self).content() == (Content { active: idx as nat, ..old(self).content() }),
            final(self).ui() == old(self).ui(),
            final(self).same_history(old(self)),
    {
        self.active_layer = idx;
    }
}

impl Document {
    /// Moves the active frame one place earlier (nothing happens for the
    /// first frame).
    pub fn move_frame_earlier(&mut self)
        requires
            old(self).wf(),
        ensures
            final(self).wf(),
            old(self).active_frame == 0 ==> final(self).history() == old(self).history() && final(self).ui() == old(self).ui(),
            old(self).active_frame > 0 ==> {
                &&& final(self).history() == edited(old(self).history(),
                        with_frame_moved(old(self).content(), old(self).active_frame as int, old(self).active_frame - 1))
                &&& final(self).ui() == edit_ui_stale(old(self).ui())
            },
    {
        if self.active_frame > 0 {
            let f: usize = self.active_frame;
            self.move_frame(f, f - 1);
        }
    }

    /// Moves the active frame one place later (nothing happens for the last
    /// frame).
    pub fn move_frame_later(&mut self)
        requires
            old(self).wf(),
        ensures
            final(self).wf(),
            old(self).active_frame + 1 >= old(self).frames ==> final(self).history() == old(self).history() && final(self).ui() == old(self).ui(),
            old(self).active_frame + 1 < old(self).frames ==> {
                &&& final(self).history() == edited(old(self).history(),
                        with_frame_moved(old(self).content(), old(self).active_frame as int, old(self).active_frame + 1))
                &&& final(self).ui() == edit_ui_stale(old(self).ui())
            },
    {
        if self.active_frame + 1 < self.frames {
            let f: usize = self.active_frame;
            self.move_frame(f, f + 1);
        }
    }

    /// Play/Pause: flips playback.
    pub fn toggle_playing(&mut self)
        requires
            old(self).wf(),
        ensures
            final(self).wf(),
            final(self).history() == old(self).history(),
            final(self).ui() == (UiState { playing: !old(self).playing, canvas_dirty: true, ..old(self).ui() }),
    {
        self.playing = !self.playing;
        self.canvas_dirty = true;
    }

    /// Stop: ends playback and goes back to the first frame.
    pub fn stop_playing(&mut self)
        requires
            old(self).wf(),
        ensures
            final(self).wf(),
            final(self).same_history(old(self)),
            old(self).active_frame == 0 ==> final(self).content() == old(self).content()
                && final(self).ui() == (UiState { playing: false, ..old(self).ui() }),
            old(self).active_frame != 0 ==> final(self).content() == (Content { active_frame: 0, ..old(self).content() })
                && final(self).ui() == (UiState { playing: false, canvas_dirty: true, texture_stale: true, ..old(self).ui() }),
    {
        self.playing = false;
        self.set_active_frame(0);
    }

    /// Shows or hides the pixel grid.
    pub fn toggle_grid(&mut self)
        requires
            old(self).wf(),
        ensures
            final(self).wf(),
            final(self).history() == old(self).history(),
            final(self).ui() == (UiState { grid: !old(self).grid, ..old(self).ui() }),
    {
        self.grid = !self.grid;
    }
}

/// The content with the active frame of every layer made transparent.
pub open spec fn with_frame_cleared(c: Content) -> Content {
    let af = c.active_frame as int;
    Content {
        layers: c.layers.map_values(|l: LayerView| LayerView { cels: l.cels.update(af, blank(c.width * c.height)), ..l }),
        ..c
    }
}

/// The layers of `c` with the active frame of the first `l` made
/// transparent.
pub open spec fn partly_cleared(c: Content, l: int) -> Seq<LayerView> {
    Seq::new(c.layers.len(), |j: int| if j < l {
        LayerView { cels: c.layers[j].cels.update(c.active_frame as int, blank(c.width * c.height)), ..c.layers[j] }
    } else {
        c.layers[j]
    })
}

impl Document {
    /// The toolbar's mirror buttons: an undo step, then the active cel is
    /// mirrored left to right (`horizontal`) or top to bottom.
    pub fn mirror_with_undo(&mut self, horizontal: bool)
        requires
            old(self).wf(),
        ensures
            final(self).wf(),
            final(self).history() == edited(old(self).history(), old(self).content().set_active_cel(
                if horizontal {
                    crate::paint::mirrored_h(old(self).active_cel(), old(self).width as int)
                } else {
                    crate::paint::mirrored_v(old(self).active_cel(), old(self).width as int, old(self).height as int)
                })),
            final(self).ui() == edit_ui(old(self).ui()),
    {
        self.push_undo();
        if horizontal {
            self.mirror_horizontal();
        } else {
            self.mirror_vertical();
        }
    }

    /// The toolbar's clear button: an undo step, then the active frame of
    /// every layer becomes transparent.
    pub fn clear_canvas(&mut self)
        requires
            old(self).wf(),
        ensures
            final(self).wf(),
            final(self).history() == edited(old(self).history(), with_frame_cleared(old(self).content())),
            final(self).ui() == edit_ui(old(self).ui()),
    {
        self.push_undo();
        proof { self.lemma_shape(); }
        let ghost c0 = self.content();
        let ghost h0 = self.history();
        let n: usize = self.layers.len();
        let f: usize = self.active_frame;
        let mut l: usize = 0;
        assert(partly_cleared(c0, 0) =~= c0.layers);
        while l < n
            invariant
                self.wf(),
                n == self.layers@.len(),
                f == self.active_frame,
                self.npix() == c0.width * c0.height,
                self.npix() <= usize::MAX,
                l <= n,
                self.history().undo == h0.undo && self.history().redo == h0.redo,
                self.ui() == (UiState { unsaved: true, ..old(self).ui() }),
                self.content() == (Content { layers: partly_cleared(c0, l as int), ..c0 }),
            decreases n - l,
        {
            let cel = blank_cel(self.width * self.height);
            self.put_cel(l, f, cel);
            proof {
                assert(cel@ =~= blank(c0.width * c0.height));
                assert(self.content().layers =~= partly_cleared(c0, l + 1));
            }
            l = l + 1;
        }
        self.canvas_dirty = true;
        proof {
            assert(self.content().layers =~= with_frame_cleared(c0).layers);
            assert(self.content() == with_frame_cleared(c0));
        }
    }
}

/// Adding a blank frame puts an all-transparent cel into every layer right
/// after the frame that was active, keeps every other cel in order, and
/// makes the new frame active.
pub proof fn law_add_frame_after_active(c: Content)
    requires
        c.wf(),
    ensures
        ({
            let d = with_frame_added(c);
            let af = c.active_frame as int;
            &&& d.frames == c.frames + 1
            &&& d.active_frame == c.active_frame + 1
            &&& d.layers.len() == c.layers.len()
            &&& forall|l: int| 0 <= l < c.layers.len() ==> {
                &&& (#[trigger] d.layers[l]).name == c.layers[l].name
                &&& d.layers[l].visible == c.layers[l].visible
                &&& d.layers[l].cels.len() == d.frames
                &&& forall|f: int| 0 <= f < d.frames ==> #[trigger] d.layers[l].cels[f] == if f <= af {
                        c.layers[l].cels[f]
                    } else if f == af + 1 {
                        Seq::new(c.width * c.height, |i: int| transparent())
                    } else {
                        c.layers[l].cels[f - 1]
                    }
            }
        }),
{
    let d = with_frame_added(c);
    assert forall|l: int| 0 <= l < c.layers.len() implies {
        &&& (#[trigger] d.layers[l]).name == c.layers[l].name
        &&& d.layers[l].visible == c.layers[l].visible
        &&& d.layers[l].cels.len() == d.frames
        &&& forall|f: int| 0 <= f < d.frames ==> #[trigger] d.layers[l].cels[f] == if f <= c.active_frame as int {
                c.layers[l].cels[f]
            } else if f == c.active_frame as int + 1 {
                Seq::new(c.width * c.height, |i: int| transparent())
            } else {
                c.layers[l].cels[f - 1]
            }
    } by {
        assert(cels_shaped(c.layers[l].cels, c.frames, c.width * c.height));
        assert(blank(c.width * c.height) =~= Seq::new(c.width * c.height, |i: int| transparent()));
    }
}

/// Duplicating a frame puts a copy of the active cel of every layer right
/// after it, keeps every other cel in order, and makes the copy active.
pub proof fn law_duplicate_frame_after_active(c: Content)
    requires
        c.wf(),
    ensures
        ({
            let d = with_frame_duplicated(c);
            let af = c.active_frame as int;
            &&& d.frames == c.frames + 1
            &&& d.active_frame == c.active_frame + 1
            &&& d.layers.len() == c.layers.len()
            &&& forall|l: int| 0 <= l < c.layers.len() ==> {
                &&& (#[trigger] d.layers[l]).name == c.layers[l].name
                &&& d.layers[l].visible == c.layers[l].visible
                &&& d.layers[l].cels.len() == d.frames
                &&& forall|f: int| 0 <= f < d.frames ==> #[trigger] d.layers[l].cels[f] == if f <= af {
                        c.layers[l].cels[f]
                    } else if f == af + 1 {
                        c.layers[l].cels[af]
                    } else {
                        c.layers[l].cels[f - 1]
                    }
            }
        }),
{
    let d = with_frame_duplicated(c);
    assert forall|l: int| 0 <= l < c.layers.len() implies {
        &&& (#[trigger] d.layers[l]).name == c.layers[l].name
        &&& d.layers[l].visible == c.layers[l].visible
        &&& d.layers[l].cels.len() == d.frames
        &&& forall|f: int| 0 <= f < d.frames ==> #[trigger] d.layers[l].cels[f] == if f <= c.active_frame as int {
                c.layers[l].cels[f]
            } else if f == c.active_frame as int + 1 {
                c.layers[l].cels[c.active_frame as int]
            } else {
                c.layers[l].cels[f - 1]
            }
    } by {
        assert(cels_shaped(c.layers[l].cels, c.frames, c.width * c.height));
    }
}

/// Deleting a frame (of two or more) drops the active cel of every layer and
/// keeps the others in order; the same index stays active, or the new last
/// frame when the last one was deleted.
pub proof fn law_delete_frame_drops_active(c: Content)
    requires
        c.wf(),
        c.frames > 1,
    ensures
        ({
            let d = with_frame_deleted(c);
            let af = c.active_frame as int;
            &&& d.frames == c.frames - 1
            &&& d.active_frame == if af < c.frames - 1 { af } else { c.frames - 2 }
            &&& d.layers.len() == c.layers.len()
            &&& forall|l: int| 0 <= l < c.layers.len() ==> {
                &&& (#[trigger] d.layers[l]).name == c.layers[l].name
                &&& d.layers[l].visible == c.layers[l].visible
                &&& d.layers[l].cels.len() == d.frames
                &&& forall|f: int| 0 <= f < d.frames ==> #[trigger] d.layers[l].cels[f]
                        == if f < af { c.layers[l].cels[f] } else { c.layers[l].cels[f + 1] }
            }
        }),
{
    let d = with_frame_deleted(c);
    assert forall|l: int| 0 <= l < c.layers.len() implies {
        &&& (#[trigger] d.layers[l]).name == c.layers[l].name
        &&& d.layers[l].visible == c.layers[l].visible
        &&& d.layers[l].cels.len() == d.frames
        &&& forall|f: int| 0 <= f < d.frames ==> #[trigger] d.layers[l].cels[f]
                == if f < c.active_frame as int { c.layers[l].cels[f] } else { c.layers[l].cels[f + 1] }
    } by {
        assert(cels_shaped(c.layers[l].cels, c.frames, c.width * c.height));
    }
}

/// Moving frame `from` to `to` takes its cel out of every layer and puts it
/// back at `to`, the frames in between shifting by one toward the gap; `to`
/// becomes active.
pub proof fn law_move_frame_reorders(c: Content, from: int, to: int)
    requires
        c.wf(),
        0 <= from < c.frames,
        0 <= to < c.frames,
    ensures
        ({
            let d = with_frame_moved(c, from, to);
            &&& d.frames == c.frames
            &&& d.active_frame == to
            &&& d.layers.len() == c.layers.len()
            &&& forall|l: int| 0 <= l < c.layers.len() ==> {
                &&& (#[trigger] d.layers[l]).name == c.layers[l].name
                &&& d.layers[l].visible == c.layers[l].visible
                &&& d.layers[l].cels.len() == c.frames
                &&& forall|f: int| 0 <= f < c.frames ==> #[trigger] d.layers[l].cels[f] == if f == to {
                        c.layers[l].cels[from]
                    } else if from < to && from <= f < to {
                        c.layers[l].cels[f + 1]
                    } else if to < from && to < f <= from {
                        c.layers[l].cels[f - 1]
                    } else {
                        c.layers[l].cels[f]
                    }
            }
        }),
{
    let d = with_frame_moved(c, from, to);
    assert forall|l: int| 0 <= l < c.layers.len() implies {
        &&& (#[trigger] d.layers[l]).name == c.layers[l].name
        &&& d.layers[l].visible == c.layers[l].visible
        &&& d.layers[l].cels.len() == c.frames
        &&& forall|f: int| 0 <= f < c.frames ==> #[trigger] d.layers[l].cels[f] == if f == to {
                c.layers[l].cels[from]
            } else if from < to && from <= f < to {
                c.layers[l].cels[f + 1]
            } else if to < from && to < f <= from {
                c.layers[l].cels[f - 1]
            } else {
                c.layers[l].cels[f]
            }
    } by {
        assert(cels_shaped(c.layers[l].cels, c.frames, c.width * c.height));
    }
}

/// Adding a layer keeps every layer where it was and appends one: visible,
/// named "Layer n" for the n layers there before, transparent in every
/// frame; the new layer is the active one.
pub proof fn law_add_layer_appends(c: Content)
    requires
        c.wf(),
    ensures
        ({
            let d = with_layer_added(c);
            let n = c.layers.len();
            &&& d.layers.len() == n + 1
            &&& forall|l: int| 0 <= l < n ==> #[trigger] d.layers[l] == c.layers[l]
            &&& d.layers[n as int].name == "Layer "@ + crate::text::decimal(n)
            &&& d.layers[n as int].visible
            &&& d.layers[n as int].cels.len() == c.frames
            &&& forall|f: int, i: int| 0 <= f < c.frames && 0 <= i < c.width * c.height ==>
                    #[trigger] d.layers[n as int].cels[f][i] == transparent() && d.layers[n as int].cels[f].len() == c.width * c.height
            &&& d.active == n
            &&& d.frames == c.frames && d.active_frame == c.active_frame
        }),
{
}

/// Removing layer `idx` (of two or more) keeps the others in order; the
/// active index stays unless it fell off the end, then it is the last layer.
pub proof fn law_remove_layer_keeps_others(c: Content, idx: int)
    requires
        c.wf(),
        c.layers.len() > 1,
        0 <= idx < c.layers.len(),
    ensures
        ({
            let d = with_layer_removed(c, idx);
            &&& d.layers.len() == c.layers.len() - 1
            &&& forall|l: int| 0 <= l < d.layers.len() ==> #[trigger] d.layers[l] == if l < idx { c.layers[l] } else { c.layers[l + 1] }
            &&& d.active == if c.active < c.layers.len() - 1 { c.active as int } else { c.layers.len() - 2 }
            &&& d.frames == c.frames && d.active_frame == c.active_frame
        }),
{
}

/// Duplicating layer `idx` inserts a visible copy of its cels, named after
/// it with " copy", right after it; the others keep their order and the
/// copy is active.
pub proof fn law_duplicate_layer_after_source(c: Content, idx: int)
    requires
        c.wf(),
        0 <= idx < c.layers.len(),
    ensures
        ({
            let d = with_layer_duplicated(c, idx);
            &&& d.layers.len() == c.layers.len() + 1
            &&& forall|l: int| 0 <= l <= idx ==> #[trigger] d.layers[l] == c.layers[l]
            &&& d.layers[idx + 1].cels == c.layers[idx].cels
            &&& d.layers[idx + 1].name == c.layers[idx].name + " copy"@
            &&& d.layers[idx + 1].visible
            &&& forall|l: int| idx + 1 < l < d.layers.len() ==> #[trigger] d.layers[l] == c.layers[l - 1]
            &&& d.active == idx + 1
        }),
{
}

/// Moving a frame back where it came from restores every layer's frames,
/// with the frame that moved active again: moving the active frame
/// earlier and then later (or later and then earlier) changes nothing.
pub proof fn law_move_frame_back(c: Content, from: int, to: int)
    requires
        c.wf(),
        0 <= from < c.frames,
        0 <= to < c.frames,
    ensures
        ({
            let d = with_frame_moved(with_frame_moved(c, from, to), to, from);
            &&& d.layers == c.layers
            &&& d.active_frame == from
            &&& d.frames == c.frames
        }),
{
    let m = with_frame_moved(c, from, to);
    let d = with_frame_moved(m, to, from);
    assert forall|l: int| 0 <= l < c.layers.len() implies #[trigger] d.layers[l] == c.layers[l] by {
        let cels = c.layers[l].cels;
        assert(cels_shaped(cels, c.frames, c.width * c.height));
        let moved = cels.remove(from).insert(to, cels[from]);
        assert(m.layers[l].cels == moved);
        assert(moved[to] == cels[from]);
        assert(moved.remove(to) =~= cels.remove(from));
        assert(cels.remove(from).insert(from, cels[from]) =~= cels);
        assert(d.layers[l].cels =~= cels);
    }
    assert(d.layers =~= c.layers);
}

} // verus!
