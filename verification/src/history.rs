//! Undo and redo: whole-document snapshots on two stacks.
use vstd::prelude::*;
use crate::color::Color;
use crate::document::{Document, Layer, Snapshot, Content, UiState, UNDO_LIMIT, layers_view, buf_view, stack_wf};
use crate::grid::copy_pixels;

verus! {

/// A document's content with both history stacks, as values.
pub struct History {
    pub content: Content,
    pub undo: Seq<Content>,
    pub redo: Seq<Content>,
}

/// The contents that a stack of snapshots records.
pub open spec fn stack_view(s: Seq<Snapshot>) -> Seq<Content> {
    s.map_values(|x: Snapshot| x@)
}

/// A stack trimmed to `UNDO_LIMIT` entries by dropping its oldest one.
pub open spec fn capped(s: Seq<Content>) -> Seq<Content> {
    if s.len() > UNDO_LIMIT { s.subrange(1, s.len() as int) } else { s }
}

/// Recording an undo step: the current content goes on the undo stack (the
/// oldest entry falls off past the limit) and the redo stack empties.
pub open spec fn hist_push(h: History) -> History {
    History { content: h.content, undo: capped(h.undo.push(h.content)), redo: Seq::empty() }
}

/// Undo: the newest undo entry becomes the content, and the content goes on
/// the redo stack. Nothing happens when there is nothing to undo.
pub open spec fn hist_undo(h: History) -> History {
    if h.undo.len() == 0 {
        h
    } else {
        History { content: h.undo.last(), undo: h.undo.drop_last(), redo: h.redo.push(h.content) }
    }
}

/// Redo: the newest redo entry becomes the content, and the content goes on
/// the undo stack. Nothing happens when there is nothing to redo.
pub open spec fn hist_redo(h: History) -> History {
    if h.redo.len() == 0 {
        h
    } else {
        History { content: h.redo.last(), undo: h.undo.push(h.content), redo: h.redo.drop_last() }
    }
}

/// What restoring a snapshot does to the view state: every in-progress
/// selection drag is dropped and the cached textures are invalidated.
pub open spec fn restored_ui(u: UiState) -> UiState {
    UiState {
        canvas_dirty: true,
        texture_stale: true,
        sel_texture_stale: true,
        sel_start: None,
        sel_end: None,
        sel_move_origin: None,
        sel_move_current: None,
        ..u
    }
}

/// A copy of a layer.
pub fn copy_layer(l: &Layer) -> (res: Layer)
    ensures
        res@ == l@,
{
    let mut cels: Vec<Vec<Color>> = Vec::new();
    let mut k: usize = 0;
    while k < l.cels.len()
        invariant
            k <= l.cels@.len(),
            cels@.len() == k,
            forall|j: int| 0 <= j < k ==> (#[trigger] cels@[j])@ == l.cels@[j]@,
        decreases l.cels@.len() - k,
    {
        cels.push(copy_pixels(&l.cels[k]));
        k = k + 1;
    }
    let res = Layer { name: l.name.clone(), cels, visible: l.visible };
    assert(res@.cels =~= l@.cels);
    res
}

/// A copy of a sequence of layers.
pub fn copy_layers(ls: &Vec<Layer>) -> (res: Vec<Layer>)
    ensures
        layers_view(res@) == layers_view(ls@),
{
    let mut out: Vec<Layer> = Vec::new();
    let mut k: usize = 0;
    while k < ls.len()
        invariant
            k <= ls@.len(),
            out@.len() == k,
            forall|j: int| 0 <= j < k ==> (#[trigger] out@[j])@ == ls@[j]@,
        decreases ls@.len() - k,
    {
        out.push(copy_layer(&ls[k]));
        k = k + 1;
    }
    assert(layers_view(out@) =~= layers_view(ls@));
    out
}

/// A copy of an optional pixel buffer.
pub fn copy_buf(b: &Option<Vec<Color>>) -> (res: Option<Vec<Color>>)
    ensures
        buf_view(res) == buf_view(*b),
{
    match b {
        Some(v) => Some(copy_pixels(v)),
        None => None,
    }
}

impl Document {
    /// This document's content and history, as values.
    pub open spec fn history(&self) -> History {
        History { content: self.content(), undo: stack_view(self.undo_stack@), redo: stack_view(self.redo_stack@) }
    }

    /// A snapshot of the current content.
    pub fn snapshot(&self) -> (s: Snapshot)
        ensures
            s@ == self.content(),
    {
        Snapshot {
            layers: copy_layers(&self.layers),
            active: self.active_layer,
            frames: self.frames,
            active_frame: self.active_frame,
            width: self.width,
            height: self.height,
            sel: self.sel,
            sel_buffer: copy_buf(&self.sel_buffer),
            sel_buf_w: self.sel_buf_w,
            sel_buf_h: self.sel_buf_h,
            pasting: self.pasting,
            clipboard: copy_buf(&self.clipboard),
            clip_w: self.clip_w,
            clip_h: self.clip_h,
        }
    }

    /// Records an undo step before an edit: the current content goes on the
    /// undo stack, the redo stack empties, and the document counts as
    /// unsaved.
    pub fn push_undo(&mut self)
        requires
            old(self).wf(),
        ensures
            final(self).wf(),
            final(self).history() == hist_push(old(self).history()),
            final(self).ui() == (UiState { unsaved: true, ..old(self).ui() }),
    {
        self.unsaved = true;
        let s = self.snapshot();
        let ghost snap = s;
        let ghost u0 = self.undo_stack@;
        self.undo_stack.push(s);
        self.redo_stack.clear();
        if self.undo_stack.len() > UNDO_LIMIT {
            self.undo_stack.remove(0);
            assert(self.undo_stack@ =~= u0.push(snap).subrange(1, u0.len() + 1 as int));
        }
        assert(stack_view(self.undo_stack@) =~= capped(stack_view(u0).push(old(self).content())));
        assert(stack_view(self.redo_stack@) =~= Seq::<Content>::empty());
        assert(stack_wf(self.undo_stack@)) by {
            assert forall|i: int| 0 <= i < self.undo_stack@.len() implies (#[trigger] self.undo_stack@[i])@.wf() by {
                if self.undo_stack@[i] != snap {
                    assert(stack_view(self.undo_stack@)[i] == self.undo_stack@[i]@);
                }
            }
        }
    }

    /// Replaces the content with that of a snapshot, clamping the active layer
    /// into range, and drops every in-progress selection drag.
    fn restore_snapshot(&mut self, state: Snapshot)
        requires
            state@.wf(),
        ensures
            final(self).content() == state@,
            final(self).ui() == restored_ui(old(self).ui()),
            final(self).same_history(old(self)),
    {
        self.width = state.width;
        self.height = state.height;
        self.layers = state.layers;
        let last: usize = if self.layers.len() == 0 { 0 } else { self.layers.len() - 1 };
        self.active_layer = if state.active < last { state.active } else { last };
        self.frames = state.frames;
        self.active_frame = state.active_frame;
        self.sel = state.sel;
        self.sel_buffer = state.sel_buffer;
        self.sel_buf_w = state.sel_buf_w;
        self.sel_buf_h = state.sel_buf_h;
        self.pasting = state.pasting;
        self.clipboard = state.clipboard;
        self.clip_w = state.clip_w;
        self.clip_h = state.clip_h;
        self.sel_texture_stale = true;
        self.sel_move_origin = None;
        self.sel_move_current = None;
        self.sel_start = None;
        self.sel_end = None;
        self.texture_stale = true;
        self.canvas_dirty = true;
    }

    /// Undoes the last recorded step, if there is one; the current content
    /// goes on the redo stack.
    pub fn undo(&mut self)
        requires
            old(self).wf(),
        ensures
            final(self).wf(),
            final(self).history() == hist_undo(old(self).history()),
            old(self).undo_stack@.len() == 0 ==> final(self).ui() == old(self).ui(),
            old(self).undo_stack@.len() > 0 ==> final(self).ui() == restored_ui(old(self).ui()),
    {
        if self.undo_stack.len() == 0 {
            return;
        }
        let ghost u0 = self.undo_stack@;
        let ghost r0 = self.redo_stack@;
        let state = self.undo_stack.pop().unwrap();
        assert(stack_view(u0)[u0.len() - 1] == state@);
        let cur = self.snapshot();
        self.redo_stack.push(cur);
        self.restore_snapshot(state);
        assert(stack_view(self.undo_stack@) =~= stack_view(u0).drop_last());
        assert(stack_view(self.redo_stack@) =~= stack_view(r0).push(old(self).content()));
        assert(stack_wf(self.undo_stack@)) by {
            assert forall|i: int| 0 <= i < self.undo_stack@.len() implies (#[trigger] self.undo_stack@[i])@.wf() by {
                assert(self.undo_stack@[i] == u0[i]);
            }
        }
        assert(stack_wf(self.redo_stack@)) by {
            assert forall|i: int| 0 <= i < self.redo_stack@.len() implies (#[trigger] self.redo_stack@[i])@.wf() by {
                if i < r0.len() {
                    assert(self.redo_stack@[i] == r0[i]);
                }
            }
        }
    }

    /// Redoes the last undone step, if there is one; the current content
    /// goes on the undo stack.
    pub fn redo(&mut self)
        requires
            old(self).wf(),
        ensures
            final(self).wf(),
            final(self).history() == hist_redo(old(self).history()),
            old(self).redo_stack@.len() == 0 ==> final(self).ui() == old(self).ui(),
            old(self).redo_stack@.len() > 0 ==> final(self).ui() == restored_ui(old(self).ui()),
    {
        if self.redo_stack.len() == 0 {
            return;
        }
        let ghost u0 = self.undo_stack@;
        let ghost r0 = self.redo_stack@;
        let state = self.redo_stack.pop().unwrap();
        assert(stack_view(r0)[r0.len() - 1] == state@);
        let cur = self.snapshot();
        self.undo_stack.push(cur);
        self.restore_snapshot(state);
        assert(stack_view(self.redo_stack@) =~= stack_view(r0).drop_last());
        assert(stack_view(self.undo_stack@) =~= stack_view(u0).push(old(self).content()));
        assert(stack_wf(self.redo_stack@)) by {
            assert forall|i: int| 0 <= i < self.redo_stack@.len() implies (#[trigger] self.redo_stack@[i])@.wf() by {
                assert(self.redo_stack@[i] == r0[i]);
            }
        }
        assert(stack_wf(self.undo_stack@)) by {
            assert forall|i: int| 0 <= i < self.undo_stack@.len() implies (#[trigger] self.undo_stack@[i])@.wf() by {
                if i < u0.len() {
                    assert(self.undo_stack@[i] == u0[i]);
                }
            }
        }
    }
}

/// Undo after recording a step brings back the content recorded, whatever
/// edit came in between (an edit changes the content and leaves the stacks).
pub proof fn law_undo_reverts_edit(h: History, edited: Content)
    ensures
        hist_undo(History { content: edited, ..hist_push(h) }).content == h.content,
{
    let p = hist_push(h);
    let s = h.undo.push(h.content);
    assert(s.last() == h.content);
    if s.len() > UNDO_LIMIT {
        assert(capped(s).last() == s.last());
    }
}

/// Redo right after undo restores the document and both stacks exactly.
pub proof fn law_redo_after_undo(h: History)
    requires
        h.undo.len() > 0,
    ensures
        hist_redo(hist_undo(h)) == h,
{
    assert(h.undo.drop_last().push(h.undo.last()) =~= h.undo);
    assert(h.redo.push(h.content).drop_last() =~= h.redo);
}

/// Undo right after redo restores the document and both stacks exactly.
pub proof fn law_undo_after_redo(h: History)
    requires
        h.redo.len() > 0,
    ensures
        hist_undo(hist_redo(h)) == h,
{
    assert(h.redo.drop_last().push(h.redo.last()) =~= h.redo);
    assert(h.undo.push(h.content).drop_last() =~= h.undo);
}

/// Recording a step empties the redo stack: nothing undone before an edit
/// can be redone after it.
pub proof fn law_push_clears_redo(h: History)
    ensures
        hist_push(h).redo.len() == 0,
        hist_redo(hist_push(h)) == hist_push(h),
{
}

/// The history never holds more than `UNDO_LIMIT` steps, undo and redo
/// together, whatever is recorded, undone or redone.
pub proof fn law_history_bounded(h: History)
    requires
        h.undo.len() + h.redo.len() <= UNDO_LIMIT,
    ensures
        hist_push(h).undo.len() + hist_push(h).redo.len() <= UNDO_LIMIT,
        hist_undo(h).undo.len() + hist_undo(h).redo.len() <= UNDO_LIMIT,
        hist_redo(h).undo.len() + hist_redo(h).redo.len() <= UNDO_LIMIT,
{
}

} // verus!
