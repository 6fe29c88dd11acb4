//! What one frame of pointer input on the canvas does, tool by tool: the
//! brush and eraser strokes, fill clicks, selection and move drags, and the
//! right-button eraser.
use vstd::prelude::*;
use crate::color::{Color, transparent};
use crate::document::{Document, Content, UiState, Point};
use crate::editor::Tool;
use crate::fill::flood_filled;
use crate::grid::{at, on_canvas};
use crate::history::{History, hist_push};
use crate::layers::edited;
use crate::line::line_trace;
use crate::paint::{stamped, line_painted, in_sel, brush_half};
use crate::select::{in_rect, checkered, pasted, shifted, checker_rect, paste_buffer, shift_cel};
use crate::compose::display_pixel;
use crate::grid::{lemma_index_in_bounds, lemma_index_injective, lemma_index_decompose};
use crate::tools::{grabbed_content, sel_move_content, sel_move_dirty, drag_rect, with_all_shifted};

verus! {

/// A document as values: its content with both history stacks, and its view
/// state.
pub struct DocState {
    pub h: History,
    pub ui: UiState,
}

impl Document {
    /// This document as values.
    pub open spec fn state(&self) -> DocState {
        DocState { h: self.history(), ui: self.ui() }
    }
}

/// What the pointer did over the canvas during one frame.
#[derive(Clone, Copy, Debug)]
pub struct PointerInput {
    /// The canvas pixel under the pointer, when it is over the canvas.
    pub pixel: Option<Point>,
    pub primary_down: bool,
    pub secondary_down: bool,
    pub clicked_primary: bool,
    pub clicked_secondary: bool,
    pub drag_started: bool,
    pub drag_stopped: bool,
    pub dragged_primary: bool,
    pub dragged_secondary: bool,
    /// A button went down on the canvas and is still held.
    pub pressed_on: bool,
}

/// The state with the view state replaced.
pub open spec fn with_ui(s: DocState, ui: UiState) -> DocState {
    DocState { h: s.h, ui }
}

/// The state with the content replaced, history stacks kept.
pub open spec fn with_content(s: DocState, c: Content) -> DocState {
    DocState { h: History { content: c, ..s.h }, ui: s.ui }
}

/// The last brush position of the primary button forgotten.
pub open spec fn forget_primary(s: DocState) -> DocState {
    with_ui(s, UiState { last_px_primary: None, ..s.ui })
}

/// The last brush position of the secondary button forgotten.
pub open spec fn forget_secondary(s: DocState) -> DocState {
    with_ui(s, UiState { last_px_secondary: None, ..s.ui })
}

/// Brush press at `p`: an undo step, one stamp, and `p` remembered.
pub open spec fn brush_press_step(s: DocState, p: Point, color: Color, brush: usize) -> DocState {
    let c = s.h.content;
    DocState {
        h: edited(s.h, c.set_active_cel(stamped(c.active_cel(), c.width as int, c.sel, p.0 as int, p.1 as int, brush as int, color))),
        ui: UiState { unsaved: true, canvas_dirty: true, last_px_primary: Some(p), ..s.ui },
    }
}

/// The active cel after a brush stroke to `p` from `last` (a single stamp
/// when there is no last position).
pub open spec fn stroke_cel(c: Content, last: Option<Point>, p: Point, brush: usize, color: Color) -> Seq<Color> {
    match last {
        Some(l) => line_painted(c.active_cel(), c.width as int, c.sel, line_trace(l.0 as int, l.1 as int, p.0 as int, p.1 as int),
            brush as int, color),
        None => stamped(c.active_cel(), c.width as int, c.sel, p.0 as int, p.1 as int, brush as int, color),
    }
}

/// Brush drag to `p`: a stroke from the last position, and `p` remembered.
pub open spec fn brush_drag_step(s: DocState, p: Point, color: Color, brush: usize) -> DocState {
    let c = s.h.content;
    DocState {
        h: History { content: c.set_active_cel(stroke_cel(c, s.ui.last_px_primary, p, brush, color)), ..s.h },
        ui: UiState { canvas_dirty: true, last_px_primary: Some(p), ..s.ui },
    }
}

/// A flood fill from `p` with `new` changes something.
pub open spec fn fill_changes(c: Content, p: Point, new: Color) -> bool {
    &&& on_canvas(c.width as int, c.height as int, p.0 as int, p.1 as int)
    &&& in_sel(c.sel, p.0 as int, p.1 as int)
    &&& at(c.active_cel(), c.width as int, p.0 as int, p.1 as int) != new
}

/// Fill click at `p`: an undo step and a flood fill.
pub open spec fn fill_step(s: DocState, p: Point, color: Color) -> DocState {
    let c = s.h.content;
    if fill_changes(c, p, color) {
        DocState {
            h: edited(s.h, c.set_active_cel(flood_filled(c.active_cel(), c.width as int, c.height as int, c.sel,
                p.0 as int, p.1 as int, color))),
            ui: UiState { unsaved: true, canvas_dirty: true, ..s.ui },
        }
    } else {
        DocState { h: edited(s.h, c), ui: UiState { unsaved: true, ..s.ui } }
    }
}

/// A press at `p` lands on the canvas inside the selection.
pub open spec fn grabs_at(c: Content, p: Point) -> bool {
    c.sel is Some && in_rect(c.sel->0, p.0 as int, p.1 as int) && on_canvas(c.width as int, c.height as int, p.0 as int, p.1 as int)
}

/// A press inside the selection: a paste starts moving; otherwise an undo
/// step is recorded and the selected pixels are taken up (see
/// `grabbed_content`).
pub open spec fn grab_step(s: DocState, p: Point) -> DocState {
    let c = s.h.content;
    if c.pasting {
        with_ui(s, UiState { sel_move_origin: Some(p), sel_move_current: None, ..s.ui })
    } else {
        DocState {
            h: edited(s.h, grabbed_content(c)),
            ui: UiState { unsaved: true, sel_move_origin: Some(p), sel_move_current: None, ..s.ui },
        }
    }
}

/// Select-tool press at `p`: grabs the selection, or starts a new one.
#[verifier::opaque]
pub open spec fn select_press_step(s: DocState, p: Point) -> DocState {
    let c = s.h.content;
    if grabs_at(c, p) {
        grab_step(s, p)
    } else {
        DocState {
            h: History { content: Content { sel: None, sel_buffer: None, ..c }, ..s.h },
            ui: UiState { sel_start: Some(p), sel_end: Some(p), sel_move_origin: None, sel_move_current: None,
                sel_texture_stale: true, ..s.ui },
        }
    }
}

/// Move-tool press at `p`: grabs the selection, or starts a canvas move.
#[verifier::opaque]
pub open spec fn move_press_step(s: DocState, p: Point) -> DocState {
    if grabs_at(s.h.content, p) {
        grab_step(s, p)
    } else {
        with_ui(s, UiState { canvas_move_origin: Some(p), canvas_move_current: None, ..s.ui })
    }
}

/// Select-tool drag to `p`: follows a selection move, or else stretches the
/// selection being drawn.
#[verifier::opaque]
pub open spec fn select_drag_step(s: DocState, p: Point) -> DocState {
    if s.ui.sel_move_origin is Some {
        with_ui(s, UiState { sel_move_current: Some(p), ..s.ui })
    } else if s.ui.sel_start is Some {
        with_ui(s, UiState { sel_end: Some(p), ..s.ui })
    } else {
        s
    }
}

/// Move-tool drag to `p`: follows a selection move, or else a canvas move.
#[verifier::opaque]
pub open spec fn move_drag_step(s: DocState, p: Point) -> DocState {
    if s.ui.sel_move_origin is Some {
        with_ui(s, UiState { sel_move_current: Some(p), ..s.ui })
    } else if s.ui.canvas_move_origin is Some {
        with_ui(s, UiState { canvas_move_current: Some(p), ..s.ui })
    } else {
        s
    }
}

/// The end of a selection move (see `sel_move_content`).
pub open spec fn finish_move_step(s: DocState) -> DocState {
    let c = s.h.content;
    DocState {
        h: History { content: sel_move_content(c, s.ui.sel_move_origin->0, s.ui.sel_move_current), ..s.h },
        ui: UiState {
            sel_move_origin: None,
            sel_move_current: None,
            sel_texture_stale: true,
            canvas_dirty: s.ui.canvas_dirty || sel_move_dirty(c, s.ui.sel_move_current),
            ..s.ui
        },
    }
}

/// Select-tool release: ends a selection move, or else turns the drawn
/// rectangle into the selection.
#[verifier::opaque]
pub open spec fn select_release_step(s: DocState) -> DocState {
    let c = s.h.content;
    if s.ui.sel_move_origin is Some {
        finish_move_step(s)
    } else {
        DocState {
            h: History {
                content: Content {
                    sel: if s.ui.sel_start is Some && s.ui.sel_end is Some {
                        drag_rect(s.ui.sel_start->0, s.ui.sel_end->0, c.width as int, c.height as int)
                    } else {
                        c.sel
                    },
                    ..c
                },
                ..s.h
            },
            ui: UiState { sel_start: None, sel_end: None, ..s.ui },
        }
    }
}

/// Move-tool release: ends a selection move, or else moves the active frame
/// of every layer by the dragged distance.
#[verifier::opaque]
pub open spec fn move_release_step(s: DocState) -> DocState {
    if s.ui.sel_move_origin is Some {
        let f = finish_move_step(s);
        with_ui(f, UiState { canvas_move_origin: None, canvas_move_current: None, ..f.ui })
    } else {
        let moves = s.ui.canvas_move_origin is Some && s.ui.canvas_move_current is Some
            && s.ui.canvas_move_origin != s.ui.canvas_move_current;
        if moves {
            let o = s.ui.canvas_move_origin->0;
            let p = s.ui.canvas_move_current->0;
            DocState {
                h: edited(s.h, with_all_shifted(s.h.content, p.0 - o.0, p.1 - o.1)),
                ui: UiState { unsaved: true, canvas_dirty: true, canvas_move_origin: None, canvas_move_current: None, ..s.ui },
            }
        } else {
            with_ui(s, UiState { canvas_move_origin: None, canvas_move_current: None, ..s.ui })
        }
    }
}

/// Fill tool: a primary click on a pixel fills from there.
#[verifier::opaque]
pub open spec fn fill_tool_step(s: DocState, inp: PointerInput, color: Color) -> DocState {
    match inp.pixel {
        Some(p) if inp.clicked_primary => fill_step(s, p, color),
        _ => s,
    }
}

/// Select tool: a press (or a button held down with no selection being
/// drawn), then a drag, then a release.
#[verifier::opaque]
pub open spec fn select_tool_step(s: DocState, inp: PointerInput) -> DocState {
    let a = match inp.pixel {
        Some(p) if inp.drag_started || (inp.pressed_on && s.ui.sel_start is None) => select_press_step(s, p),
        _ => s,
    };
    let b = match inp.pixel {
        Some(p) if inp.dragged_primary => select_drag_step(a, p),
        _ => a,
    };
    if inp.drag_stopped { select_release_step(b) } else { b }
}

/// Move tool: a press, then a drag, then a release.
#[verifier::opaque]
pub open spec fn move_tool_step(s: DocState, inp: PointerInput) -> DocState {
    let a = match inp.pixel {
        Some(p) if inp.drag_started => move_press_step(s, p),
        _ => s,
    };
    let b = match inp.pixel {
        Some(p) if inp.dragged_primary => move_drag_step(a, p),
        _ => a,
    };
    if inp.drag_stopped { move_release_step(b) } else { b }
}

/// Brush-like tools painting with `paint`: a press starts a stroke when
/// none is under way, and a drag continues it (a drag off the canvas
/// breaks it).
#[verifier::opaque]
pub open spec fn brush_tool_step(s: DocState, inp: PointerInput, paint: Color, brush: usize) -> DocState {
    let a = match inp.pixel {
        Some(p) if s.ui.last_px_primary is None && inp.primary_down => brush_press_step(s, p, paint, brush),
        _ => s,
    };
    if inp.dragged_primary {
        match inp.pixel {
            Some(p) => brush_drag_step(a, p, paint, brush),
            None => forget_primary(a),
        }
    } else {
        a
    }
}

/// What the current tool does with the primary button. The eyedropper
/// leaves the document alone; the eraser paints transparency; every other
/// tool paints with `color` like the brush.
pub open spec fn tool_step(s: DocState, tool: Tool, inp: PointerInput, color: Color, brush: usize) -> DocState {
    match tool {
        Tool::Eyedropper => s,
        Tool::Fill => fill_tool_step(s, inp, color),
        Tool::Select => select_tool_step(s, inp),
        Tool::Move => move_tool_step(s, inp),
        Tool::Eraser => brush_tool_step(s, inp, transparent(), brush),
        _ => brush_tool_step(s, inp, color, brush),
    }
}

/// The eyedropper leaves the document's content and history alone.
pub proof fn lemma_tool_step_eyedropper(s: DocState, inp: PointerInput, color: Color, brush: usize)
    ensures
        primary_step(s, Tool::Eyedropper, inp, color, brush).h == s.h,
{
}

/// The primary-button part of a frame: the remembered positions of buttons
/// that are up are forgotten, then the tool acts.
pub open spec fn primary_step(s: DocState, tool: Tool, inp: PointerInput, color: Color, brush: usize) -> DocState {
    tool_step(buttons_up_step(s, inp), tool, inp, color, brush)
}

/// The remembered brush positions of buttons that are up are forgotten.
pub open spec fn buttons_up_step(s: DocState, inp: PointerInput) -> DocState {
    with_ui(s, UiState {
        last_px_primary: if inp.primary_down { s.ui.last_px_primary } else { None },
        last_px_secondary: if inp.secondary_down { s.ui.last_px_secondary } else { None },
        ..s.ui
    })
}

/// Right-button drag to `p`: the first step of a stroke records an undo
/// step; the stroke erases from the last position, and `p` is remembered.
pub open spec fn erase_drag_step(s: DocState, p: Point, brush: usize) -> DocState {
    let s1 = if s.ui.last_px_secondary is None {
        DocState { h: hist_push(s.h), ui: UiState { unsaved: true, ..s.ui } }
    } else {
        s
    };
    let c = s1.h.content;
    DocState {
        h: History { content: c.set_active_cel(stroke_cel(c, s1.ui.last_px_secondary, p, brush, transparent())), ..s1.h },
        ui: UiState { canvas_dirty: true, last_px_secondary: Some(p), ..s1.ui },
    }
}

/// Right click at `p`: an undo step and one eraser stamp.
pub open spec fn erase_click_step(s: DocState, p: Point, brush: usize) -> DocState {
    let c = s.h.content;
    DocState {
        h: edited(s.h, c.set_active_cel(stamped(c.active_cel(), c.width as int, c.sel, p.0 as int, p.1 as int, brush as int,
            transparent()))),
        ui: UiState { unsaved: true, canvas_dirty: true, ..s.ui },
    }
}

/// Both remembered brush positions forgotten.
pub open spec fn forget_both(s: DocState) -> DocState {
    with_ui(s, UiState { last_px_primary: None, last_px_secondary: None, ..s.ui })
}

/// The secondary-button part of a frame: the right-button eraser, and the
/// end of a drag forgetting both brush positions.
pub open spec fn secondary_step(s: DocState, inp: PointerInput, brush: usize) -> DocState {
    let a = if inp.dragged_secondary {
        match inp.pixel {
            Some(p) => erase_drag_step(s, p, brush),
            None => forget_secondary(s),
        }
    } else {
        s
    };
    let b = match inp.pixel {
        Some(p) if inp.clicked_secondary => erase_click_step(a, p, brush),
        _ => a,
    };
    if inp.drag_stopped { forget_both(b) } else { b }
}

/// A whole frame of pointer input. While a dialog is open the canvas only
/// notices the end of a drag.
pub open spec fn canvas_step(s: DocState, tool: Tool, inp: PointerInput, dialog_open: bool, color: Color, brush: usize) -> DocState {
    if dialog_open {
        if inp.drag_stopped { forget_both(s) } else { s }
    } else {
        secondary_step(primary_step(s, tool, inp, color, brush), inp, brush)
    }
}

impl Document {
    /// The selection and move tools work in 32-bit coordinates: they need
    /// the canvas and the move buffer to fit them.
    pub open spec fn pointer_ok(&self, tool: Tool) -> bool {
        (tool == Tool::Select || tool == Tool::Move) ==> self.dims_fit_i32()
    }

    /// Whether `dims_fit_i32` holds.
    pub fn fits_i32(&self) -> (r: bool)
        ensures
            r == self.dims_fit_i32(),
    {
        self.width <= 0x7fff_ffff && self.height <= 0x7fff_ffff && self.sel_buf_w <= 0x7fff_ffff && self.sel_buf_h <= 0x7fff_ffff
    }

    /// Whether `pointer_ok` holds for `tool`.
    pub fn pointer_ready(&self, tool: Tool) -> (r: bool)
        ensures
            r == self.pointer_ok(tool),
    {
        !(tool == Tool::Select || tool == Tool::Move) || self.fits_i32()
    }

    /// Whether `paste_clipboard` may be called: the canvas, the move buffer
    /// and the clipboard fit 32-bit coordinates.
    pub fn paste_ready(&self) -> (r: bool)
        ensures
            r == (self.dims_fit_i32() && self.clip_w <= i32::MAX && self.clip_h <= i32::MAX),
    {
        self.fits_i32() && self.clip_w <= 0x7fff_ffff && self.clip_h <= 0x7fff_ffff
    }

    /// Fill tool (see `fill_tool_step`).
    fn fill_tool(&mut self, inp: PointerInput, color: Color)
        requires
            old(self).wf(),
        ensures
            final(self).wf(),
            final(self).state() == fill_tool_step(old(self).state(), inp, color),
    {
        proof {
            reveal(fill_tool_step);
        }
        match inp.pixel {
            Some(p) => {
                if inp.clicked_primary {
                    self.handle_fill(p.0, p.1, color);
                }
            },
            None => {},
        }
    }

    /// Select-tool press at `p` (see `select_press_step`).
    fn select_press(&mut self, p: Point)
        requires
            old(self).wf(),
            old(self).dims_fit_i32(),
        ensures
            final(self).wf(),
            final(self).dims_fit_i32(),
            final(self).state() == select_press_step(old(self).state(), p),
    {
        proof {
            reveal(select_press_step);
        }
        self.handle_select_press(p.0, p.1);
    }

    /// Move-tool press at `p` (see `move_press_step`).
    fn move_press(&mut self, p: Point)
        requires
            old(self).wf(),
            old(self).dims_fit_i32(),
        ensures
            final(self).wf(),
            final(self).dims_fit_i32(),
            final(self).state() == move_press_step(old(self).state(), p),
    {
        proof {
            reveal(move_press_step);
        }
        self.handle_move_press(p.0, p.1);
    }

    /// Select-tool drag to `p` (see `select_drag_step`).
    fn select_drag(&mut self, p: Point)
        requires
            old(self).wf(),
            old(self).dims_fit_i32(),
        ensures
            final(self).wf(),
            final(self).dims_fit_i32(),
            final(self).state() == select_drag_step(old(self).state(), p),
    {
        proof {
            reveal(select_drag_step);
        }
        self.handle_select_drag(p.0, p.1);
    }

    /// Move-tool drag to `p` (see `move_drag_step`).
    fn move_drag(&mut self, p: Point)
        requires
            old(self).wf(),
            old(self).dims_fit_i32(),
        ensures
            final(self).wf(),
            final(self).dims_fit_i32(),
            final(self).state() == move_drag_step(old(self).state(), p),
    {
        proof {
            reveal(move_drag_step);
        }
        self.handle_move_drag(p.0, p.1);
    }

    /// Select-tool release (see `select_release_step`).
    fn select_release(&mut self)
        requires
            old(self).wf(),
            old(self).dims_fit_i32(),
        ensures
            final(self).wf(),
            final(self).state() == select_release_step(old(self).state()),
    {
        proof {
            reveal(select_release_step);
        }
        self.handle_select_release();
    }

    /// Move-tool release (see `move_release_step`).
    fn move_release(&mut self)
        requires
            old(self).wf(),
            old(self).dims_fit_i32(),
        ensures
            final(self).wf(),
            final(self).state() == move_release_step(old(self).state()),
    {
        proof {
            reveal(move_release_step);
        }
        self.handle_move_release();
    }

    /// Select tool (see `select_tool_step`).
    fn select_tool(&mut self, inp: PointerInput)
        requires
            old(self).wf(),
            old(self).pointer_ok(Tool::Select),
        ensures
            final(self).wf(),
            final(self).state() == select_tool_step(old(self).state(), inp),
    {
        proof {
            reveal(select_tool_step);
        }
        match inp.pixel {
            Some(p) => {
                if inp.drag_started || (inp.pressed_on && self.sel_start.is_none()) {
                    self.select_press(p);
                }
            },
            None => {},
        }
        match inp.pixel {
            Some(p) => {
                if inp.dragged_primary {
                    self.select_drag(p);
                }
            },
            None => {},
        }
        if inp.drag_stopped {
            self.select_release();
        }
    }

    /// Move tool (see `move_tool_step`).
    fn move_tool(&mut self, inp: PointerInput)
        requires
            old(self).wf(),
            old(self).pointer_ok(Tool::Move),
        ensures
            final(self).wf(),
            final(self).state() == move_tool_step(old(self).state(), inp),
    {
        proof {
            reveal(move_tool_step);
        }
        match inp.pixel {
            Some(p) => {
                if inp.drag_started {
                    self.move_press(p);
                }
            },
            None => {},
        }
        match inp.pixel {
            Some(p) => {
                if inp.dragged_primary {
                    self.move_drag(p);
                }
            },
            None => {},
        }
        if inp.drag_stopped {
            self.move_release();
        }
    }

    /// Brush-like tools (see `brush_tool_step`).
    fn brush_tool(&mut self, inp: PointerInput, paint: Color, brush: usize)
        requires
            old(self).wf(),
            brush <= i32::MAX,
        ensures
            final(self).wf(),
            final(self).state() == brush_tool_step(old(self).state(), inp, paint, brush),
    {
        proof {
            reveal(brush_tool_step);
        }
        match inp.pixel {
            Some(p) => {
                if self.last_px_primary.is_none() && inp.primary_down {
                    self.handle_brush_press(p.0, p.1, paint, brush);
                }
            },
            None => {},
        }
        if inp.dragged_primary {
            match inp.pixel {
                Some(p) => self.handle_brush_drag(p.0, p.1, paint, brush),
                None => {
                    self.last_px_primary = None;
                },
            }
        }
    }

    /// Forgets the remembered positions of buttons that are up.
    fn buttons_up(&mut self, tool: Tool, inp: PointerInput)
        requires
            old(self).wf(),
            old(self).pointer_ok(tool),
        ensures
            final(self).wf(),
            final(self).pointer_ok(tool),
            final(self).state() == buttons_up_step(old(self).state(), inp),
    {
        if !inp.primary_down {
            self.last_px_primary = None;
        }
        if !inp.secondary_down {
            self.last_px_secondary = None;
        }
    }

    /// The primary-button part of a frame of pointer input (see
    /// `primary_step`).
    pub fn pointer_primary(&mut self, tool: Tool, inp: PointerInput, color: Color, brush: usize)
        requires
            old(self).wf(),
            brush <= i32::MAX,
            old(self).pointer_ok(tool),
        ensures
            final(self).wf(),
            final(self).state() == primary_step(old(self).state(), tool, inp, color, brush),
    {
        self.buttons_up(tool, inp);
        match tool {
            Tool::Eyedropper => {},
            Tool::Fill => self.fill_tool(inp, color),
            Tool::Select => self.select_tool(inp),
            Tool::Move => self.move_tool(inp),
            Tool::Eraser => self.brush_tool(inp, Color::transparent(), brush),
            _ => self.brush_tool(inp, color, brush),
        }
    }

    /// Right-button drag to `p` (see `erase_drag_step`).
    fn erase_drag(&mut self, p: Point, brush: usize)
        requires
            old(self).wf(),
            brush <= i32::MAX,
        ensures
            final(self).wf(),
            final(self).state() == erase_drag_step(old(self).state(), p, brush),
    {
        if self.last_px_secondary.is_none() {
            self.push_undo();
        }
        match self.last_px_secondary {
            Some(last) => self.paint_line(last.0, last.1, p.0, p.1, Color::transparent(), brush),
            None => self.paint_pixel(p.0, p.1, Color::transparent(), brush),
        }
        self.last_px_secondary = Some(p);
    }

    /// Right click at `p` (see `erase_click_step`).
    fn erase_click(&mut self, p: Point, brush: usize)
        requires
            old(self).wf(),
            brush <= i32::MAX,
        ensures
            final(self).wf(),
            final(self).state() == erase_click_step(old(self).state(), p, brush),
    {
        self.push_undo();
        self.paint_pixel(p.0, p.1, Color::transparent(), brush);
    }

    /// The secondary-button part of a frame of pointer input (see
    /// `secondary_step`).
    pub fn pointer_secondary(&mut self, inp: PointerInput, brush: usize)
        requires
            old(self).wf(),
            brush <= i32::MAX,
        ensures
            final(self).wf(),
            final(self).state() == secondary_step(old(self).state(), inp, brush),
    {
        if inp.dragged_secondary {
            match inp.pixel {
                Some(p) => self.erase_drag(p, brush),
                None => {
                    self.last_px_secondary = None;
                },
            }
        }
        match inp.pixel {
            Some(p) => {
                if inp.clicked_secondary {
                    self.erase_click(p, brush);
                }
            },
            None => {},
        }
        if inp.drag_stopped {
            self.last_px_primary = None;
            self.last_px_secondary = None;
        }
    }

    /// Pointer input while a dialog is open: only the end of a drag is
    /// noticed, and both brush positions are forgotten.
    pub fn pointer_blocked(&mut self, inp: PointerInput)
        requires
            old(self).wf(),
        ensures
            final(self).wf(),
            final(self).state() == (if inp.drag_stopped { forget_both(old(self).state()) } else { old(self).state() }),
    {
        if inp.drag_stopped {
            self.last_px_primary = None;
            self.last_px_secondary = None;
        }
    }
}

/// What the canvas shows of a document before any move preview: the active
/// frame flattened over the transparency checkerboard.
pub open spec fn display_view(d: &Document) -> Seq<Color> {
    let w = d.width as int;
    Seq::new(d.npix(), |i: int| display_pixel(d.flat_pixel(d.active_frame as int, i), i % w, i / w))
}

/// The preview of a selection move in progress: the place the selection
/// left shows the checkerboard, and the moved pixels are drawn where the
/// pointer has taken them.
pub open spec fn sel_preview(v: Seq<Color>, c: Content, u: UiState) -> Seq<Color> {
    match (c.sel_buffer, u.sel_move_origin, u.sel_move_current, c.sel) {
        (Some(buf), Some(o), Some(cur), Some(r)) => pasted(checkered(v, c.width as int, r), c.width as int, buf,
            c.sel_buf_w as int, c.sel_buf_h as int, r.0 + (cur.0 - o.0), r.1 + (cur.1 - o.1)),
        _ => v,
    }
}

/// The preview of a canvas move in progress: everything shown moves with
/// the pointer.
pub open spec fn move_preview(v: Seq<Color>, c: Content, u: UiState) -> Seq<Color> {
    match (u.canvas_move_origin, u.canvas_move_current) {
        (Some(o), Some(cur)) => if cur != o {
            shifted(v, c.width as int, c.height as int, cur.0 - o.0, cur.1 - o.1)
        } else {
            v
        },
        _ => v,
    }
}

impl Document {
    /// The canvas must be drawn again: its content changed, or a move is
    /// being previewed.
    pub fn needs_redraw(&self) -> (res: bool)
        ensures
            res == (self.canvas_dirty || self.sel_move_current is Some || self.canvas_move_current is Some),
    {
        self.canvas_dirty || self.sel_move_current.is_some() || self.canvas_move_current.is_some()
    }

    /// The canvas was drawn: it stays dirty only while a move is being
    /// previewed.
    pub fn mark_drawn(&mut self)
        ensures
            final(self).state() == with_ui(old(self).state(), UiState {
                canvas_dirty: old(self).canvas_dirty && (old(self).sel_move_current is Some || old(self).canvas_move_current is Some),
                ..old(self).ui()
            }),
            final(self).wf() == old(self).wf(),
    {
        if self.sel_move_current.is_none() && self.canvas_move_current.is_none() {
            self.canvas_dirty = false;
        }
    }

    /// What the canvas shows: the flattened active frame over the
    /// checkerboard, with the previews of a selection move and of a canvas
    /// move in progress.
    pub fn canvas_view(&self) -> (out: Vec<Color>)
        requires
            self.wf(),
            self.dims_fit_i32(),
        ensures
            out@ == move_preview(sel_preview(display_view(self), self.content(), self.ui()), self.content(), self.ui()),
    {
        proof { self.lemma_shape(); }
        let w: usize = self.width;
        let h: usize = self.height;
        let mut v = self.composite_display();
        proof {
            let wi = w as int;
            let hi = h as int;
            assert forall|i: int| 0 <= i < v@.len() implies #[trigger] v@[i] == display_view(self)[i] by {
                if wi == 0 {
                    assert(wi * hi == 0) by (nonlinear_arith)
                        requires wi == 0;
                }
                lemma_index_decompose(wi, hi, i);
                let x = i % wi;
                let y = i / wi;
                assert(at(v@, wi, x, y) == display_pixel(self.flat_pixel(self.active_frame as int, y * wi + x), x, y));
            }
            assert(v@ =~= display_view(self));
        }
        match (&self.sel_buffer, self.sel_move_origin, self.sel_move_current, self.sel) {
            (Some(buf), Some(o), Some(cur), Some(r)) => {
                checker_rect(&mut v, w, h, r);
                let dx: i128 = cur.0 as i128 - o.0 as i128;
                let dy: i128 = cur.1 as i128 - o.1 as i128;
                paste_buffer(&mut v, w, h, buf, self.sel_buf_w, self.sel_buf_h, r.0 as i128 + dx, r.1 as i128 + dy);
            },
            _ => {},
        }
        match (self.canvas_move_origin, self.canvas_move_current) {
            (Some(o), Some(cur)) => {
                if o.0 != cur.0 || o.1 != cur.1 {
                    let dx: i64 = cur.0 as i64 - o.0 as i64;
                    let dy: i64 = cur.1 as i64 - o.1 as i64;
                    v = shift_cel(&v, w, h, dx, dy);
                }
            },
            _ => {},
        }
        v
    }
}

/// A rectangle `(x0, y0, x1, y1)` in pixel coordinates, corners inclusive,
/// wide enough for coordinates moved by a drag.
pub type WideRect = (i64, i64, i64, i64);

/// The rectangle outlined on the canvas: the selection, or else the one
/// being drawn (clamped to the canvas), moved along while a selection move
/// is under way.
pub open spec fn outline_spec(c: Content, u: UiState) -> Option<(int, int, int, int)> {
    let base: Option<(int, int, int, int)> = match c.sel {
        Some(r) => Some((r.0 as int, r.1 as int, r.2 as int, r.3 as int)),
        None => match (u.sel_start, u.sel_end) {
            (Some(s), Some(e)) => {
                let lx = if s.0 < e.0 { s.0 as int } else { e.0 as int };
                let ly = if s.1 < e.1 { s.1 as int } else { e.1 as int };
                let hx = if s.0 > e.0 { s.0 as int } else { e.0 as int };
                let hy = if s.1 > e.1 { s.1 as int } else { e.1 as int };
                Some((
                    if lx > 0 { lx } else { 0 },
                    if ly > 0 { ly } else { 0 },
                    if hx < c.width - 1 { hx } else { c.width - 1 },
                    if hy < c.height - 1 { hy } else { c.height - 1 },
                ))
            },
            _ => None,
        },
    };
    match (base, u.sel_move_origin, u.sel_move_current) {
        (Some(r), Some(o), Some(cur)) => {
            let dx = cur.0 - o.0;
            let dy = cur.1 - o.1;
            Some((r.0 + dx, r.1 + dy, r.2 + dx, r.3 + dy))
        },
        _ => base,
    }
}

/// The square the brush cursor covers at `(px, py)` on a `w` by `h` canvas,
/// as `(x0, y0, x1, y1)` with `x1`, `y1` exclusive, clipped to the canvas.
pub open spec fn cursor_spec(px: int, py: int, b: int, w: int, h: int) -> (int, int, int, int) {
    let half = brush_half(b);
    (
        if px - half > 0 { px - half } else { 0 },
        if py - half > 0 { py - half } else { 0 },
        if px - half + b < w { px - half + b } else { w },
        if py - half + b < h { py - half + b } else { h },
    )
}

/// `cursor_spec` computed.
pub fn brush_cursor(px: i32, py: i32, b: usize, w: usize, h: usize) -> (r: WideRect)
    requires
        b <= i32::MAX,
        w <= i32::MAX,
        h <= i32::MAX,
    ensures
        (r.0 as int, r.1 as int, r.2 as int, r.3 as int) == cursor_spec(px as int, py as int, b as int, w as int, h as int),
{
    let bi: i64 = b as i64;
    let half: i64 = if bi <= 0 { 0 } else { (bi - 1) / 2 };
    let x0: i64 = px as i64 - half;
    let y0: i64 = py as i64 - half;
    (
        if x0 > 0 { x0 } else { 0 },
        if y0 > 0 { y0 } else { 0 },
        if x0 + bi < w as i64 { x0 + bi } else { w as i64 },
        if y0 + bi < h as i64 { y0 + bi } else { h as i64 },
    )
}

impl Document {
    /// The rectangle to outline on the canvas (see `outline_spec`).
    pub fn outline_rect(&self) -> (r: Option<WideRect>)
        requires
            self.dims_fit_i32(),
        ensures
            match (r, outline_spec(self.content(), self.ui())) {
                (Some(a), Some(b)) => (a.0 as int, a.1 as int, a.2 as int, a.3 as int) == b,
                (None, None) => true,
                _ => false,
            },
    {
        let base: Option<WideRect> = match self.sel {
            Some(r) => Some((r.0 as i64, r.1 as i64, r.2 as i64, r.3 as i64)),
            None => match (self.sel_start, self.sel_end) {
                (Some(s), Some(e)) => {
                    let lx: i64 = if s.0 < e.0 { s.0 as i64 } else { e.0 as i64 };
                    let ly: i64 = if s.1 < e.1 { s.1 as i64 } else { e.1 as i64 };
                    let hx: i64 = if s.0 > e.0 { s.0 as i64 } else { e.0 as i64 };
                    let hy: i64 = if s.1 > e.1 { s.1 as i64 } else { e.1 as i64 };
                    let mw: i64 = self.width as i64 - 1;
                    let mh: i64 = self.height as i64 - 1;
                    Some((
                        if lx > 0 { lx } else { 0 },
                        if ly > 0 { ly } else { 0 },
                        if hx < mw { hx } else { mw },
                        if hy < mh { hy } else { mh },
                    ))
                },
                _ => None,
            },
        };
        match (base, self.sel_move_origin, self.sel_move_current) {
            (Some(r), Some(o), Some(cur)) => {
                let dx: i64 = cur.0 as i64 - o.0 as i64;
                let dy: i64 = cur.1 as i64 - o.1 as i64;
                Some((r.0 + dx, r.1 + dy, r.2 + dx, r.3 + dy))
            },
            _ => base,
        }
    }
}

/// A brush stroke (a press and any number of drags) records one undo step:
/// undoing after it brings back the content from before the press.
pub proof fn law_stroke_undone_at_once(s: DocState, p: Point, drags: Seq<Point>, color: Color, brush: usize)
    ensures
        crate::history::hist_undo(stroke_state(brush_press_step(s, p, color, brush), drags, color, brush).h).content == s.h.content,
{
    lemma_drags_keep_undo(brush_press_step(s, p, color, brush), drags, color, brush);
}

/// The state after dragging the brush through `drags` in order.
pub open spec fn stroke_state(s: DocState, drags: Seq<Point>, color: Color, brush: usize) -> DocState
    decreases drags.len(),
{
    if drags.len() == 0 {
        s
    } else {
        brush_drag_step(stroke_state(s, drags.drop_last(), color, brush), drags.last(), color, brush)
    }
}

proof fn lemma_drags_keep_undo(s: DocState, drags: Seq<Point>, color: Color, brush: usize)
    ensures
        stroke_state(s, drags, color, brush).h.undo == s.h.undo,
    decreases drags.len(),
{
    if drags.len() > 0 {
        lemma_drags_keep_undo(s, drags.drop_last(), color, brush);
    }
}

/// The eraser is the brush painting transparency, and every tool other
/// than the eyedropper, fill, select, move and eraser paints like the brush.
pub proof fn law_eraser_is_transparent_brush(s: DocState, inp: PointerInput, color: Color, brush: usize)
    ensures
        tool_step(s, Tool::Eraser, inp, color, brush) == tool_step(s, Tool::Brush, inp, transparent(), brush),
        tool_step(s, Tool::Text, inp, color, brush) == tool_step(s, Tool::Brush, inp, color, brush),
        tool_step(s, Tool::Eyedropper, inp, color, brush) == s,
{
}

} // verus!
