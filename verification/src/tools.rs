//! What the canvas tools do with pointer presses, drags and releases.
use vstd::prelude::*;
use crate::color::{Color, transparent};
use crate::document::{Document, Layer, LayerView, Content, UiState, Rect, Point, layers_view, cels_shaped};
use crate::fill::flood_filled;
use crate::grid::{copy_pixels, at, on_canvas};
use crate::history::History;
use crate::layers::edited;
use crate::line::line_trace;
use crate::paint::{stamped, line_painted};
use crate::select::{in_rect, cleared, pasted, shifted, clear_rect, paste_buffer, shift_cel, clip_rect, clip_to_canvas};
use crate::transform::CelMap;

verus! {

/// The pixels of rectangle `r` of a `w` by `h` cel, row by row.
pub open spec fn rect_pixels(cel: Seq<Color>, w: int, h: int, r: Rect) -> Seq<Color> {
    CelMap::Crop { ow: w as usize, oh: h as usize, sx: r.0 as usize, sy: r.1 as usize,
        nw: (r.2 - r.0 + 1) as usize, nh: (r.3 - r.1 + 1) as usize }.apply_spec(cel)
}

/// The selection after its contents moved by `(dx, dy)`: the moved
/// buffer's rectangle clipped to the canvas, or none when nothing of it is
/// left on the canvas.
pub open spec fn moved_rect(sel: Rect, bw: int, bh: int, dx: int, dy: int, w: int, h: int) -> Option<Rect> {
    let nx0 = sel.0 + dx;
    let ny0 = sel.1 + dy;
    let cl = if nx0 > 0 { nx0 } else { 0 };
    let ct = if ny0 > 0 { ny0 } else { 0 };
    let cr = if nx0 + bw - 1 < w - 1 { nx0 + bw - 1 } else { w - 1 };
    let cb = if ny0 + bh - 1 < h - 1 { ny0 + bh - 1 } else { h - 1 };
    if cl <= cr && ct <= cb { Some((cl as i32, ct as i32, cr as i32, cb as i32)) } else { None }
}

/// A pending selection move (or paste) is carried out: `true` when the
/// canvas changed.
pub open spec fn sel_move_dirty(c: Content, current: Option<Point>) -> bool {
    (current is Some && c.sel is Some) || (c.pasting && c.sel_buffer is Some && c.sel is Some)
}

/// The content after a selection move that started at `origin` ends with
/// the pointer at `current` (none when it never moved). A moved selection
/// leaves transparency behind (unless it was being pasted) and lands with
/// its buffer at the new place; an unmoved paste lands where it is. The
/// buffer is emptied, and a paste ends with no selection.
pub open spec fn sel_move_content(c: Content, origin: Point, current: Option<Point>) -> Content {
    let wp = c.pasting;
    let w = c.width as int;
    let h = c.height as int;
    let c1 = if current is Some && c.sel is Some {
        let s = c.sel->0;
        let cur = current->0;
        let dx = cur.0 - origin.0;
        let dy = cur.1 - origin.1;
        let moved = match c.sel_buffer {
            Some(buf) => c.set_active_cel(pasted(
                if wp { c.active_cel() } else { cleared(c.active_cel(), w, s) },
                w, buf, c.sel_buf_w as int, c.sel_buf_h as int, s.0 + dx, s.1 + dy)),
            None => c,
        };
        Content { sel: moved_rect(s, c.sel_buf_w as int, c.sel_buf_h as int, dx, dy, w, h), ..moved }
    } else if wp && c.sel_buffer is Some && c.sel is Some {
        let s = c.sel->0;
        c.set_active_cel(pasted(c.active_cel(), w, c.sel_buffer->0, c.sel_buf_w as int, c.sel_buf_h as int, s.0 as int, s.1 as int))
    } else {
        c
    };
    let c2 = Content { sel_buffer: None, ..c1 };
    if wp { Content { sel: None, pasting: false, ..c2 } } else { c2 }
}

/// The content after a canvas move by `(dx, dy)`: the active frame of
/// every layer shifts.
pub open spec fn with_all_shifted(c: Content, dx: int, dy: int) -> Content {
    let af = c.active_frame as int;
    Content {
        layers: c.layers.map_values(|l: LayerView| LayerView {
            cels: l.cels.update(af, shifted(l.cels[af], c.width as int, c.height as int, dx, dy)),
            ..l
        }),
        ..c
    }
}

/// `v` held between 0 and `m` (taking `m` when `m` is negative).
pub open spec fn clamp_to(v: int, m: int) -> int {
    let lo = if v > 0 { v } else { 0 };
    if lo < m { lo } else { m }
}

/// The selection rectangle spanned by a drag from `s` to `e`, clamped to the
/// canvas; a drag that stays on one pixel selects nothing.
pub open spec fn drag_rect(s: Point, e: Point, w: int, h: int) -> Option<Rect> {
    let mw = w - 1;
    let mh = h - 1;
    let x0 = clamp_to(if s.0 < e.0 { s.0 as int } else { e.0 as int }, mw);
    let y0 = clamp_to(if s.1 < e.1 { s.1 as int } else { e.1 as int }, mh);
    let x1 = clamp_to(if s.0 > e.0 { s.0 as int } else { e.0 as int }, mw);
    let y1 = clamp_to(if s.1 > e.1 { s.1 as int } else { e.1 as int }, mh);
    if x0 != x1 || y0 != y1 { Some((x0 as i32, y0 as i32, x1 as i32, y1 as i32)) } else { None }
}

/// The content once a press on the canvas inside the selection has taken
/// up the selected pixels: the selection shrinks to its part on the canvas,
/// and those pixels of the active cel fill the move buffer.
pub open spec fn grabbed_content(c: Content) -> Content {
    let r = clip_rect(c.sel->0, c.width as int, c.height as int)->0;
    Content {
        sel: Some(r),
        sel_buffer: Some(rect_pixels(c.active_cel(), c.width as int, c.height as int, r)),
        sel_buf_w: (r.2 - r.0 + 1) as nat,
        sel_buf_h: (r.3 - r.1 + 1) as nat,
        ..c
    }
}

/// A pending paste has pixels to land.
pub open spec fn paste_lands(c: Content) -> bool {
    c.sel_buffer is Some && c.sel is Some
}

/// The content after a pending paste is placed where it lies: its pixels
/// land on the active cel, and the paste, its buffer and the selection end.
pub open spec fn paste_landed(c: Content) -> Content {
    let c1 = if paste_lands(c) {
        c.set_active_cel(pasted(c.active_cel(), c.width as int, c.sel_buffer->0, c.sel_buf_w as int, c.sel_buf_h as int,
            (c.sel->0).0 as int, (c.sel->0).1 as int))
    } else {
        c
    };
    Content { sel: None, pasting: false, sel_buffer: None, ..c1 }
}

/// The view state after a pending paste is placed.
pub open spec fn landed_ui(c: Content, u: UiState) -> UiState {
    UiState { sel_move_origin: None, sel_move_current: None, sel_texture_stale: true, canvas_dirty: u.canvas_dirty || paste_lands(c), ..u }
}

/// Where a `c`-wide paste starts on a `w`-wide canvas to be centred (the
/// half of the difference, rounded toward zero).
pub open spec fn centred(w: int, c: int) -> int {
    if w >= c { (w - c) / 2 } else { -((c - w) / 2) }
}

/// The rectangle of a `cw` by `ch` paste centred on a `w` by `h` canvas.
pub open spec fn paste_rect(w: int, h: int, cw: int, ch: int) -> Rect {
    let x0 = centred(w, cw);
    let y0 = centred(h, ch);
    (x0 as i32, y0 as i32, (x0 + cw - 1) as i32, (y0 + ch - 1) as i32)
}

/// `moved_rect` computed.
fn moved_rect_exec(s: Rect, bw: usize, bh: usize, dx: i128, dy: i128, w: usize, h: usize) -> (r: Option<Rect>)
    requires
        w <= i32::MAX,
        h <= i32::MAX,
        bw <= i32::MAX,
        bh <= i32::MAX,
        -0x1_0000_0000 <= dx <= 0x1_0000_0000,
        -0x1_0000_0000 <= dy <= 0x1_0000_0000,
    ensures
        r == moved_rect(s, bw as int, bh as int, dx as int, dy as int, w as int, h as int),
{
    let nx0: i128 = s.0 as i128 + dx;
    let ny0: i128 = s.1 as i128 + dy;
    let cw: i128 = w as i128;
    let ch: i128 = h as i128;
    let cl: i128 = if nx0 > 0 { nx0 } else { 0 };
    let ct: i128 = if ny0 > 0 { ny0 } else { 0 };
    let cr: i128 = if nx0 + bw as i128 - 1 < cw - 1 { nx0 + bw as i128 - 1 } else { cw - 1 };
    let cb: i128 = if ny0 + bh as i128 - 1 < ch - 1 { ny0 + bh as i128 - 1 } else { ch - 1 };
    if cl <= cr && ct <= cb { Some((cl as i32, ct as i32, cr as i32, cb as i32)) } else { None }
}

/// `clamp_to` computed.
fn clamp_exec(v: i64, m: i64) -> (r: i64)
    ensures
        r == clamp_to(v as int, m as int),
{
    let lo: i64 = if v > 0 { v } else { 0 };
    if lo < m { lo } else { m }
}

impl Document {
    /// The canvas and the selection buffer are small enough for the tools'
    /// 32-bit coordinates.
    pub open spec fn dims_fit_i32(&self) -> bool {
        &&& self.width <= i32::MAX
        &&& self.height <= i32::MAX
        &&& self.sel_buf_w <= i32::MAX
        &&& self.sel_buf_h <= i32::MAX
    }

    /// A press at `(px, py)` lands on the canvas inside the selection.
    pub open spec fn grabs(&self, px: i32, py: i32) -> bool {
        &&& self.sel is Some
        &&& in_rect(self.sel->0, px as int, py as int)
        &&& on_canvas(self.width as int, self.height as int, px as int, py as int)
    }

    /// Brush press: records an undo step, stamps the brush, and remembers
    /// the position for the drag that follows.
    pub fn handle_brush_press(&mut self, px: i32, py: i32, color: Color, brush: usize)
        requires
            old(self).wf(),
            brush <= i32::MAX,
        ensures
            final(self).wf(),
            final(self).history() == edited(old(self).history(), old(self).content().set_active_cel(
                stamped(old(self).active_cel(), old(self).width as int, old(self).sel, px as int, py as int, brush as int, color))),
            final(self).ui() == (UiState { unsaved: true, canvas_dirty: true, last_px_primary: Some((px, py)), ..old(self).ui() }),
    {
        self.push_undo();
        self.paint_pixel(px, py, color, brush);
        self.last_px_primary = Some((px, py));
    }

    /// Brush drag to `(px, py)`: draws a line from the last position (or
    /// stamps once when there is none) and remembers the new position.
    pub fn handle_brush_drag(&mut self, px: i32, py: i32, color: Color, brush: usize)
        requires
            old(self).wf(),
            brush <= i32::MAX,
        ensures
            final(self).wf(),
            final(self).same_history(old(self)),
            final(self).content() == old(self).content().set_active_cel(match old(self).last_px_primary {
                Some(last) => line_painted(old(self).active_cel(), old(self).width as int, old(self).sel,
                    line_trace(last.0 as int, last.1 as int, px as int, py as int), brush as int, color),
                None => stamped(old(self).active_cel(), old(self).width as int, old(self).sel, px as int, py as int, brush as int, color),
            }),
            final(self).ui() == (UiState { canvas_dirty: true, last_px_primary: Some((px, py)), ..old(self).ui() }),
    {
        match self.last_px_primary {
            Some(last) => self.paint_line(last.0, last.1, px, py, color, brush),
            None => self.paint_pixel(px, py, color, brush),
        }
        self.last_px_primary = Some((px, py));
    }

    /// Fill click: records an undo step and flood-fills from `(px, py)`.
    pub fn handle_fill(&mut self, px: i32, py: i32, color: Color)
        requires
            old(self).wf(),
        ensures
            final(self).wf(),
            old(self).fill_applies(px as int, py as int, color) ==> {
                &&& final(self).history() == edited(old(self).history(), old(self).content().set_active_cel(
                    flood_filled(old(self).active_cel(), old(self).width as int, old(self).height as int, old(self).sel,
                        px as int, py as int, color)))
                &&& final(self).ui() == (UiState { unsaved: true, canvas_dirty: true, ..old(self).ui() })
            },
            !old(self).fill_applies(px as int, py as int, color) ==> {
                &&& final(self).history() == edited(old(self).history(), old(self).content())
                &&& final(self).ui() == (UiState { unsaved: true, ..old(self).ui() })
            },
    {
        self.push_undo();
        self.flood_fill(px, py, color);
    }

    /// Ends any selection move: no origin, no current position, no buffer.
    pub fn clear_move_state(&mut self)
        requires
            old(self).wf(),
        ensures
            final(self).wf(),
            final(self).content() == (Content { sel_buffer: None, ..old(self).content() }),
            final(self).ui() == (UiState { sel_move_origin: None, sel_move_current: None, sel_texture_stale: true, ..old(self).ui() }),
            final(self).same_history(old(self)),
    {
        self.sel_move_origin = None;
        self.sel_move_current = None;
        self.sel_buffer = None;
        self.sel_texture_stale = true;
    }

    /// Drops the selection and any selection in progress.
    pub fn deselect(&mut self)
        requires
            old(self).wf(),
        ensures
            final(self).wf(),
            final(self).content() == (Content { sel: None, sel_buffer: None, ..old(self).content() }),
            final(self).ui() == (UiState { sel_start: None, sel_end: None, sel_move_origin: None, sel_move_current: None,
                sel_texture_stale: true, ..old(self).ui() }),
            final(self).same_history(old(self)),
    {
        self.sel = None;
        self.sel_start = None;
        self.sel_end = None;
        self.clear_move_state();
    }

    /// A press inside the selection: a paste being placed starts moving;
    /// otherwise an undo step is recorded and the selected pixels of the
    /// active cel are copied into the move buffer.
    fn grab_selection(&mut self, px: i32, py: i32)
        requires
            old(self).wf(),
            old(self).grabs(px, py),
        ensures
            final(self).wf(),
            old(self).pasting ==> {
                &&& final(self).history() == old(self).history()
                &&& final(self).ui() == (UiState { sel_move_origin: Some((px, py)), sel_move_current: None, ..old(self).ui() })
            },
            !old(self).pasting ==> {
                &&& final(self).history() == edited(old(self).history(), grabbed_content(old(self).content()))
                &&& final(self).ui() == (UiState { unsaved: true, sel_move_origin: Some((px, py)), sel_move_current: None, ..old(self).ui() })
            },
    {
        if self.pasting {
            self.sel_move_origin = Some((px, py));
            self.sel_move_current = None;
            return;
        }
        let r0: Rect = match self.sel { Some(r) => r, None => (0, 0, 0, 0) };
        let r: Rect = match clip_to_canvas(r0, self.width, self.height) {
            Some(q) => q,
            None => (0, 0, 0, 0),
        };
        assert(in_rect(r0, px as int, py as int));
        self.push_undo();
        proof { self.lemma_shape(); }
        let sw: usize = (r.2 as i64 - r.0 as i64 + 1) as usize;
        let sh: usize = (r.3 as i64 - r.1 as i64 + 1) as usize;
        proof {
            assert(sw * sh <= self.width * self.height) by (nonlinear_arith)
                requires sw <= self.width, sh <= self.height;
        }
        let m = CelMap::Crop { ow: self.width, oh: self.height, sx: r.0 as usize, sy: r.1 as usize, nw: sw, nh: sh };
        let buf = m.apply(&self.layers[self.active_layer].cels[self.active_frame]);
        proof {
            assert(buf@.len() == sw * sh);
        }
        self.sel = Some(r);
        self.sel_buffer = Some(buf);
        self.sel_buf_w = sw;
        self.sel_buf_h = sh;
        self.sel_move_origin = Some((px, py));
        self.sel_move_current = None;
    }

    /// Select-tool press at `(px, py)`: inside the selection it starts
    /// moving it (see `grab_selection`); elsewhere it drops the selection
    /// and starts a new one there.
    pub fn handle_select_press(&mut self, px: i32, py: i32)
        requires
            old(self).wf(),
        ensures
            final(self).wf(),
            old(self).grabs(px, py) && old(self).pasting ==> {
                &&& final(self).history() == old(self).history()
                &&& final(self).ui() == (UiState { sel_move_origin: Some((px, py)), sel_move_current: None, ..old(self).ui() })
            },
            old(self).grabs(px, py) && !old(self).pasting ==> {
                &&& final(self).history() == edited(old(self).history(), grabbed_content(old(self).content()))
                &&& final(self).ui() == (UiState { unsaved: true, sel_move_origin: Some((px, py)), sel_move_current: None, ..old(self).ui() })
            },
            !old(self).grabs(px, py) ==> {
                &&& final(self).history() == (History {
                        content: Content { sel: None, sel_buffer: None, ..old(self).content() },
                        ..old(self).history()
                    })
                &&& final(self).ui() == (UiState { sel_start: Some((px, py)), sel_end: Some((px, py)), sel_move_origin: None,
                        sel_move_current: None, sel_texture_stale: true, ..old(self).ui() })
            },
    {
        let inside: bool = match self.sel {
            Some((x0, y0, x1, y1)) => px >= x0 && px <= x1 && py >= y0 && py <= y1 && px >= 0 && py >= 0
                && (px as u64) < (self.width as u64) && (py as u64) < (self.height as u64),
            None => false,
        };
        if inside {
            self.grab_selection(px, py);
            return;
        }
        self.sel = None;
        self.sel_start = Some((px, py));
        self.sel_end = Some((px, py));
        self.clear_move_state();
    }

    /// Move-tool press at `(px, py)`: inside the selection it starts moving
    /// it (see `grab_selection`); elsewhere it starts moving the canvas.
    pub fn handle_move_press(&mut self, px: i32, py: i32)
        requires
            old(self).wf(),
        ensures
            final(self).wf(),
            old(self).grabs(px, py) && old(self).pasting ==> {
                &&& final(self).history() == old(self).history()
                &&& final(self).ui() == (UiState { sel_move_origin: Some((px, py)), sel_move_current: None, ..old(self).ui() })
            },
            old(self).grabs(px, py) && !old(self).pasting ==> {
                &&& final(self).history() == edited(old(self).history(), grabbed_content(old(self).content()))
                &&& final(self).ui() == (UiState { unsaved: true, sel_move_origin: Some((px, py)), sel_move_current: None, ..old(self).ui() })
            },
            !old(self).grabs(px, py) ==> {
                &&& final(self).history() == old(self).history()
                &&& final(self).ui() == (UiState { canvas_move_origin: Some((px, py)), canvas_move_current: None, ..old(self).ui() })
            },
    {
        let inside: bool = match self.sel {
            Some((x0, y0, x1, y1)) => px >= x0 && px <= x1 && py >= y0 && py <= y1 && px >= 0 && py >= 0
                && (px as u64) < (self.width as u64) && (py as u64) < (self.height as u64),
            None => false,
        };
        if inside {
            self.grab_selection(px, py);
            return;
        }
        self.canvas_move_origin = Some((px, py));
        self.canvas_move_current = None;
    }

    /// Select-tool drag to `(px, py)`: follows a selection move, or else
    /// extends the selection being drawn.
    pub fn handle_select_drag(&mut self, px: i32, py: i32)
        requires
            old(self).wf(),
        ensures
            final(self).wf(),
            final(self).history() == old(self).history(),
            final(self).ui() == if old(self).sel_move_origin is Some {
                UiState { sel_move_current: Some((px, py)), ..old(self).ui() }
            } else if old(self).sel_start is Some {
                UiState { sel_end: Some((px, py)), ..old(self).ui() }
            } else {
                old(self).ui()
            },
    {
        if self.sel_move_origin.is_some() {
            self.sel_move_current = Some((px, py));
            return;
        }
        if self.sel_start.is_some() {
            self.sel_end = Some((px, py));
        }
    }

    /// Move-tool drag to `(px, py)`: follows a selection move, or else a
    /// canvas move.
    pub fn handle_move_drag(&mut self, px: i32, py: i32)
        requires
            old(self).wf(),
        ensures
            final(self).wf(),
            final(self).history() == old(self).history(),
            final(self).ui() == if old(self).sel_move_origin is Some {
                UiState { sel_move_current: Some((px, py)), ..old(self).ui() }
            } else if old(self).canvas_move_origin is Some {
                UiState { canvas_move_current: Some((px, py)), ..old(self).ui() }
            } else {
                old(self).ui()
            },
    {
        if self.sel_move_origin.is_some() {
            self.sel_move_current = Some((px, py));
            return;
        }
        if self.canvas_move_origin.is_some() {
            self.canvas_move_current = Some((px, py));
        }
    }

    /// Ends a selection move (see `sel_move_content`).
    #[verifier::spinoff_prover]
    fn finish_selection_move(&mut self)
        requires
            old(self).wf(),
            old(self).dims_fit_i32(),
            (old(self).sel_move_origin is Some),
        ensures
            final(self).wf(),
            final(self).history() == (History {
                content: sel_move_content(old(self).content(), old(self).sel_move_origin->0, old(self).sel_move_current),
                ..old(self).history()
            }),
            final(self).ui() == (UiState {
                sel_move_origin: None,
                sel_move_current: None,
                sel_texture_stale: true,
                canvas_dirty: old(self).canvas_dirty || sel_move_dirty(old(self).content(), old(self).sel_move_current),
                ..old(self).ui()
            }),
    {
        let ghost c0 = self.content();
        let was_pasting: bool = self.pasting;
        let origin: Point = match self.sel_move_origin { Some(o) => o, None => (0, 0) };
        let current = self.sel_move_current;
        let sel = self.sel;
        match (current, sel) {
            (Some(cur), Some(s)) => {
                self.land_move(s, origin, cur);
            },
            _ => {
                if was_pasting {
                    self.land_paste();
                } else {
                    assert(sel_move_dirty(c0, current) == false);
                }
            },
        }
        let ghost c1 = self.content();
        self.clear_move_state();
        if was_pasting {
            self.sel = None;
            self.pasting = false;
        }
        proof {
            let c2 = Content { sel_buffer: None, ..c1 };
            assert(self.content() == if was_pasting { Content { sel: None, pasting: false, ..c2 } } else { c2 });
        }
    }

    /// Lands a moved selection: its buffer goes to the new place (leaving
    /// transparency behind unless it is a paste) and the selection follows.
    #[verifier::spinoff_prover]
    #[verifier::rlimit(30)]
    fn land_move(&mut self, s: Rect, origin: Point, cur: Point)
        requires
            old(self).wf(),
            old(self).dims_fit_i32(),
            old(self).sel == Some(s),
            old(self).sel_move_origin is Some,
            old(self).sel_move_current == Some(cur),
        ensures
            final(self).wf(),
            ({
                let c = old(self).content();
                let dx = cur.0 - origin.0;
                let dy = cur.1 - origin.1;
                let moved = match c.sel_buffer {
                    Some(buf) => c.set_active_cel(pasted(
                        if c.pasting { c.active_cel() } else { cleared(c.active_cel(), c.width as int, s) },
                        c.width as int, buf, c.sel_buf_w as int, c.sel_buf_h as int, s.0 + dx, s.1 + dy)),
                    None => c,
                };
                final(self).content() == (Content {
                    sel: moved_rect(s, c.sel_buf_w as int, c.sel_buf_h as int, dx, dy, c.width as int, c.height as int),
                    sel_buffer: None,
                    ..moved
                })
            }),
            final(self).ui() == old(self).ui().dirtied(),
            final(self).same_history(old(self)),
    {
        let was_pasting: bool = self.pasting;
        let dx: i128 = cur.0 as i128 - origin.0 as i128;
        let dy: i128 = cur.1 as i128 - origin.1 as i128;
        let b = self.sel_buffer.take();
        match b {
            Some(buf) => {
                let clear: Option<Rect> = if was_pasting { None } else { Some(s) };
                self.paste_into_active(&buf, clear, s.0 as i128 + dx, s.1 as i128 + dy);
            },
            None => {},
        }
        let ns = moved_rect_exec(s, self.sel_buf_w, self.sel_buf_h, dx, dy, self.width, self.height);
        self.sel = ns;
        self.canvas_dirty = true;
    }

    /// Lands a paste that was not moved, where it lies.
    fn land_paste(&mut self)
        requires
            old(self).wf(),
        ensures
            final(self).wf(),
            ({
                let c = old(self).content();
                let landed = c.sel_buffer is Some && c.sel is Some;
                &&& landed ==> final(self).content() == (Content { sel_buffer: None, ..c.set_active_cel(pasted(c.active_cel(), c.width as int,
                        c.sel_buffer->0, c.sel_buf_w as int, c.sel_buf_h as int, (c.sel->0).0 as int, (c.sel->0).1 as int)) })
                &&& !landed ==> final(self).content() == (Content { sel_buffer: None, ..c })
                &&& landed ==> final(self).ui() == old(self).ui().dirtied()
                &&& !landed ==> final(self).ui() == old(self).ui()
            }),
            final(self).same_history(old(self)),
    {
        let sel = self.sel;
        let b = self.sel_buffer.take();
        match (b, sel) {
            (Some(buf), Some(s)) => {
                self.paste_into_active(&buf, None, s.0 as i128, s.1 as i128);
            },
            _ => {},
        }
    }

    /// Pastes a `sel_buf_w` by `sel_buf_h` buffer into the active cel at
    /// `(nx0, ny0)`, after clearing the rectangle `clear` when there is one.
    fn paste_into_active(&mut self, buf: &Vec<Color>, clear: Option<Rect>, nx0: i128, ny0: i128)
        requires
            old(self).wf(),
            buf@.len() == old(self).sel_buf_w * old(self).sel_buf_h,
            -0x1_0000_0000_0000_0000 <= nx0 <= 0x1_0000_0000_0000_0000,
            -0x1_0000_0000_0000_0000 <= ny0 <= 0x1_0000_0000_0000_0000,
        ensures
            final(self).wf(),
            final(self).content() == old(self).content().set_active_cel(pasted(
                match clear {
                    Some(r) => cleared(old(self).active_cel(), old(self).width as int, r),
                    None => old(self).active_cel(),
                },
                old(self).width as int, buf@, old(self).sel_buf_w as int, old(self).sel_buf_h as int, nx0 as int, ny0 as int)),
            final(self).ui() == old(self).ui().dirtied(),
            final(self).same_history(old(self)),
    {
        proof { self.lemma_shape(); }
        let l: usize = self.active_layer;
        let f: usize = self.active_frame;
        let w: usize = self.width;
        let h: usize = self.height;
        let mut cel = copy_pixels(&self.layers[l].cels[f]);
        match clear {
            Some(r) => clear_rect(&mut cel, w, h, r),
            None => {},
        }
        paste_buffer(&mut cel, w, h, buf, self.sel_buf_w, self.sel_buf_h, nx0, ny0);
        self.put_cel(l, f, cel);
        self.canvas_dirty = true;
    }

    /// Places a paste where it lies and ends pasting; nothing happens when
    /// no paste is pending.
    #[verifier::spinoff_prover]
    pub fn commit_pending_paste(&mut self)
        requires
            old(self).wf(),
            old(self).dims_fit_i32(),
        ensures
            final(self).wf(),
            !old(self).pasting ==> final(self).history() == old(self).history() && final(self).ui() == old(self).ui(),
            old(self).pasting ==> {
                &&& final(self).history() == (History { content: paste_landed(old(self).content()), ..old(self).history() })
                &&& final(self).ui() == landed_ui(old(self).content(), old(self).ui())
            },
    {
        if !self.pasting {
            return;
        }
        proof { self.lemma_shape(); }
        let ghost c0 = self.content();
        let l: usize = self.active_layer;
        let f: usize = self.active_frame;
        let b = self.sel_buffer.take();
        match (b, self.sel) {
            (Some(buf), Some(s)) => {
                let mut cel = copy_pixels(&self.layers[l].cels[f]);
                paste_buffer(&mut cel, self.width, self.height, &buf, self.sel_buf_w, self.sel_buf_h, s.0 as i128, s.1 as i128);
                self.put_cel(l, f, cel);
                self.canvas_dirty = true;
            },
            _ => {},
        }
        self.pasting = false;
        self.sel = None;
        self.clear_move_state();
        proof {
            let landed = c0.sel_buffer is Some && c0.sel is Some;
            let c1 = if landed {
                c0.set_active_cel(pasted(c0.active_cel(), c0.width as int, c0.sel_buffer->0, c0.sel_buf_w as int, c0.sel_buf_h as int,
                    (c0.sel->0).0 as int, (c0.sel->0).1 as int))
            } else {
                c0
            };
            assert(self.content() =~= Content { sel: None, pasting: false, sel_buffer: None, ..c1 });
        }
    }

    /// Select-tool release: ends a selection move, or else turns the drawn
    /// rectangle into the selection (see `drag_rect`).
    #[verifier::spinoff_prover]
    pub fn handle_select_release(&mut self)
        requires
            old(self).wf(),
            old(self).dims_fit_i32(),
        ensures
            final(self).wf(),
            old(self).sel_move_origin is Some ==> {
                &&& final(self).history() == (History {
                        content: sel_move_content(old(self).content(), old(self).sel_move_origin->0, old(self).sel_move_current),
                        ..old(self).history()
                    })
                &&& final(self).ui() == (UiState {
                        sel_move_origin: None,
                        sel_move_current: None,
                        sel_texture_stale: true,
                        canvas_dirty: old(self).canvas_dirty || sel_move_dirty(old(self).content(), old(self).sel_move_current),
                        ..old(self).ui()
                    })
            },
            old(self).sel_move_origin is None ==> {
                &&& final(self).history() == (History {
                        content: Content {
                            sel: if old(self).sel_start is Some && old(self).sel_end is Some {
                                drag_rect(old(self).sel_start->0, old(self).sel_end->0, old(self).width as int, old(self).height as int)
                            } else {
                                old(self).sel
                            },
                            ..old(self).content()
                        },
                        ..old(self).history()
                    })
                &&& final(self).ui() == (UiState { sel_start: None, sel_end: None, ..old(self).ui() })
            },
    {
        if self.sel_move_origin.is_some() {
            self.finish_selection_move();
            return;
        }
        match (self.sel_start, self.sel_end) {
            (Some(s), Some(e)) => {
                let mw: i64 = self.width as i64 - 1;
                let mh: i64 = self.height as i64 - 1;
                let x0: i64 = clamp_exec(if s.0 < e.0 { s.0 } else { e.0 } as i64, mw);
                let y0: i64 = clamp_exec(if s.1 < e.1 { s.1 } else { e.1 } as i64, mh);
                let x1: i64 = clamp_exec(if s.0 > e.0 { s.0 } else { e.0 } as i64, mw);
                let y1: i64 = clamp_exec(if s.1 > e.1 { s.1 } else { e.1 } as i64, mh);
                if x0 != x1 || y0 != y1 {
                    self.sel = Some((x0 as i32, y0 as i32, x1 as i32, y1 as i32));
                } else {
                    self.sel = None;
                }
            },
            _ => {},
        }
        self.sel_start = None;
        self.sel_end = None;
    }

    /// Move-tool release: ends a selection move, or else moves the active
    /// frame of every layer by the dragged distance (an undo step is
    /// recorded unless the distance is zero).
    #[verifier::spinoff_prover]
    pub fn handle_move_release(&mut self)
        requires
            old(self).wf(),
            old(self).dims_fit_i32(),
        ensures
            final(self).wf(),
            old(self).sel_move_origin is Some ==> {
                &&& final(self).history() == (History {
                        content: sel_move_content(old(self).content(), old(self).sel_move_origin->0, old(self).sel_move_current),
                        ..old(self).history()
                    })
                &&& final(self).ui() == (UiState {
                        sel_move_origin: None,
                        sel_move_current: None,
                        sel_texture_stale: true,
                        canvas_dirty: old(self).canvas_dirty || sel_move_dirty(old(self).content(), old(self).sel_move_current),
                        canvas_move_origin: None,
                        canvas_move_current: None,
                        ..old(self).ui()
                    })
            },
            old(self).sel_move_origin is None ==> {
                let moves = old(self).canvas_move_origin is Some && old(self).canvas_move_current is Some
                    && old(self).canvas_move_origin != old(self).canvas_move_current;
                &&& moves ==> {
                    let o = old(self).canvas_move_origin->0;
                    let c = old(self).canvas_move_current->0;
                    &&& final(self).history() == edited(old(self).history(),
                            with_all_shifted(old(self).content(), c.0 - o.0, c.1 - o.1))
                    &&& final(self).ui() == (UiState { unsaved: true, canvas_dirty: true, canvas_move_origin: None,
                            canvas_move_current: None, ..old(self).ui() })
                }
                &&& !moves ==> {
                    &&& final(self).history() == old(self).history()
                    &&& final(self).ui() == (UiState { canvas_move_origin: None, canvas_move_current: None, ..old(self).ui() })
                }
            },
    {
        if self.sel_move_origin.is_some() {
            self.finish_selection_move();
            self.canvas_move_origin = None;
            self.canvas_move_current = None;
            return;
        }
        match (self.canvas_move_origin, self.canvas_move_current) {
            (Some(o), Some(c)) => {
                let dx: i64 = c.0 as i64 - o.0 as i64;
                let dy: i64 = c.1 as i64 - o.1 as i64;
                if dx == 0 && dy == 0 {
                    self.canvas_move_origin = None;
                    self.canvas_move_current = None;
                    return;
                }
                self.push_undo();
                self.shift_all(dx, dy);
                proof {
                    assert(o != c);
                }
            },
            _ => {},
        }
        self.canvas_move_origin = None;
        self.canvas_move_current = None;
    }

    /// Moves the active frame of every layer by `(dx, dy)`.
    fn shift_all(&mut self, dx: i64, dy: i64)
        requires
            old(self).wf(),
        ensures
            final(self).wf(),
            final(self).content() == with_all_shifted(old(self).content(), dx as int, dy as int),
            final(self).ui() == old(self).ui().dirtied(),
            final(self).same_history(old(self)),
    {
        proof { self.lemma_shape(); }
        let ghost c0 = self.content();
        let af: usize = self.active_frame;
        let w: usize = self.width;
        let h: usize = self.height;
        let mut layers: Vec<Layer> = Vec::new();
        std::mem::swap(&mut layers, &mut self.layers);
        let ghost ls0 = layers@;
        let mut k: usize = 0;
        while k < layers.len()
            invariant
                layers@.len() == ls0.len(),
                layers_view(ls0) == c0.layers,
                crate::document::layers_shaped(c0.layers, c0.frames, c0.width * c0.height),
                af == c0.active_frame,
                c0.active_frame < c0.frames,
                w == c0.width && h == c0.height,
                k <= layers@.len(),
                forall|j: int| 0 <= j < k ==> (#[trigger] layers@[j])@ == (LayerView {
                    cels: ls0[j]@.cels.update(af as int, shifted(ls0[j]@.cels[af as int], w as int, h as int, dx as int, dy as int)),
                    ..ls0[j]@
                }),
                forall|j: int| k <= j < layers@.len() ==> #[trigger] layers@[j] == ls0[j],
            decreases ls0.len() - k,
        {
            assert(cels_shaped(c0.layers[k as int].cels, c0.frames, c0.width * c0.height));
            assert(c0.layers[k as int] == ls0[k as int]@);
            assert(ls0[k as int]@.cels[af as int] == ls0[k as int].cels@[af as int]@);
            let nc = shift_cel(&layers[k].cels[af], w, h, dx, dy);
            layers[k].cels[af] = nc;
            assert(layers@[k as int]@.cels =~= ls0[k as int]@.cels.update(af as int,
                shifted(ls0[k as int]@.cels[af as int], w as int, h as int, dx as int, dy as int)));
            k = k + 1;
        }
        std::mem::swap(&mut layers, &mut self.layers);
        self.canvas_dirty = true;
        proof {
            let c = self.content();
            assert(c.layers =~= with_all_shifted(c0, dx as int, dy as int).layers);
            assert forall|l: int| 0 <= l < c.layers.len() implies cels_shaped(#[trigger] c.layers[l].cels, c.frames, c.width * c.height) by {
                assert(cels_shaped(c0.layers[l].cels, c0.frames, c0.width * c0.height));
            }
        }
    }

    /// Makes the selected pixels of the active cel transparent and drops the
    /// selection; nothing happens without a selection. The step can be
    /// undone.
    pub fn delete_selection(&mut self)
        requires
            old(self).wf(),
        ensures
            final(self).wf(),
            old(self).sel is None ==> final(self).history() == old(self).history() && final(self).ui() == old(self).ui(),
            old(self).sel is Some ==> {
                &&& final(self).history() == edited(old(self).history(), Content {
                        sel: None,
                        sel_buffer: None,
                        ..old(self).content().set_active_cel(cleared(old(self).active_cel(), old(self).width as int, old(self).sel->0))
                    })
                &&& final(self).ui() == (UiState { unsaved: true, canvas_dirty: true, sel_move_origin: None, sel_move_current: None,
                        sel_texture_stale: true, ..old(self).ui() })
            },
    {
        match self.sel {
            None => {},
            Some(r) => {
                self.push_undo();
                proof { self.lemma_shape(); }
                let l: usize = self.active_layer;
                let f: usize = self.active_frame;
                let mut cel = copy_pixels(&self.layers[l].cels[f]);
                clear_rect(&mut cel, self.width, self.height, r);
                self.put_cel(l, f, cel);
                self.canvas_dirty = true;
                self.sel = None;
                self.clear_move_state();
            },
        }
    }
}

impl Document {
    /// Copies the selected pixels of the active cel (the part of the
    /// selection on the canvas) to the clipboard; nothing happens without a
    /// selection on the canvas.
    pub fn copy_selection(&mut self)
        requires
            old(self).wf(),
        ensures
            final(self).wf(),
            final(self).ui() == old(self).ui(),
            ({
                let c = old(self).content();
                let part = match c.sel { Some(r) => clip_rect(r, c.width as int, c.height as int), None => None };
                match part {
                    None => final(self).history() == old(self).history(),
                    Some(r) => final(self).history() == (History {
                        content: Content {
                            clipboard: Some(rect_pixels(c.active_cel(), c.width as int, c.height as int, r)),
                            clip_w: (r.2 - r.0 + 1) as nat,
                            clip_h: (r.3 - r.1 + 1) as nat,
                            ..c
                        },
                        ..old(self).history()
                    }),
                }
            }),
    {
        let part: Option<Rect> = match self.sel {
            Some(r0) => clip_to_canvas(r0, self.width, self.height),
            None => None,
        };
        match part {
            None => {},
            Some(r) => {
                proof { self.lemma_shape(); }
                let sw: usize = (r.2 as i64 - r.0 as i64 + 1) as usize;
                let sh: usize = (r.3 as i64 - r.1 as i64 + 1) as usize;
                proof {
                    assert(sw * sh <= self.width * self.height) by (nonlinear_arith)
                        requires sw <= self.width, sh <= self.height;
                }
                let m = CelMap::Crop { ow: self.width, oh: self.height, sx: r.0 as usize, sy: r.1 as usize, nw: sw, nh: sh };
                let buf = m.apply(&self.layers[self.active_layer].cels[self.active_frame]);
                self.clipboard = Some(buf);
                self.clip_w = sw;
                self.clip_h = sh;
            },
        }
    }

    /// Pastes the clipboard as a floating selection centred on the canvas,
    /// ready to be moved: a paste still pending is placed first, and an undo
    /// step is recorded. Nothing happens when the clipboard is empty.
    #[verifier::spinoff_prover]
    pub fn paste_clipboard(&mut self)
        requires
            old(self).wf(),
            old(self).dims_fit_i32(),
            old(self).clip_w <= i32::MAX,
            old(self).clip_h <= i32::MAX,
        ensures
            final(self).wf(),
            ({
                let c = old(self).content();
                let empty = c.clipboard is None || c.clip_w == 0 || c.clip_h == 0;
                let c1 = if c.pasting { paste_landed(c) } else { c };
                let u1 = if c.pasting { landed_ui(c, old(self).ui()) } else { old(self).ui() };
                &&& empty ==> final(self).history() == old(self).history() && final(self).ui() == old(self).ui()
                &&& !empty ==> {
                    &&& final(self).history() == edited(History { content: c1, ..old(self).history() }, Content {
                            sel: Some(paste_rect(c.width as int, c.height as int, c.clip_w as int, c.clip_h as int)),
                            sel_buffer: c.clipboard,
                            sel_buf_w: c.clip_w,
                            sel_buf_h: c.clip_h,
                            pasting: true,
                            ..c1
                        })
                    &&& final(self).ui() == (UiState { unsaved: true, canvas_dirty: true, sel_texture_stale: true, ..u1 })
                }
            }),
    {
        if self.clip_w == 0 || self.clip_h == 0 {
            return;
        }
        let clip = match &self.clipboard {
            Some(b) => copy_pixels(b),
            None => { return; },
        };
        self.commit_pending_paste();
        self.push_undo();
        let w: i64 = self.width as i64;
        let h: i64 = self.height as i64;
        let cw: i64 = self.clip_w as i64;
        let ch: i64 = self.clip_h as i64;
        let x0: i64 = if w >= cw { (w - cw) / 2 } else { -((cw - w) / 2) };
        let y0: i64 = if h >= ch { (h - ch) / 2 } else { -((ch - h) / 2) };
        self.sel = Some((x0 as i32, y0 as i32, (x0 + cw - 1) as i32, (y0 + ch - 1) as i32));
        self.sel_buffer = Some(clip);
        self.sel_buf_w = self.clip_w;
        self.sel_buf_h = self.clip_h;
        self.pasting = true;
        self.canvas_dirty = true;
        self.sel_texture_stale = true;
    }
}

/// A paste is centred: it is exactly as large as the clipboard, and the
/// space left above it and below it (left and right of it) differs by at
/// most one pixel, with the odd pixel below (right); when the clipboard
/// fits, its top left corner is at half the leftover height (width).
pub proof fn law_paste_centred(w: int, h: int, cw: int, ch: int)
    requires
        0 <= w <= i32::MAX,
        0 <= h <= i32::MAX,
        1 <= cw <= i32::MAX,
        1 <= ch <= i32::MAX,
    ensures
        ({
            let r = paste_rect(w, h, cw, ch);
            let (x0, y0, x1, y1) = (r.0 as int, r.1 as int, r.2 as int, r.3 as int);
            &&& x1 - x0 + 1 == cw
            &&& y1 - y0 + 1 == ch
            &&& -1 <= (w - 1 - x1) - x0 <= 1
            &&& -1 <= (h - 1 - y1) - y0 <= 1
            &&& w >= cw ==> x0 == (w - cw) / 2 && 0 <= (w - 1 - x1) - x0 <= 1
            &&& h >= ch ==> y0 == (h - ch) / 2 && 0 <= (h - 1 - y1) - y0 <= 1
        }),
{
}

/// A drag between two pixels of the canvas selects the rectangle they span,
/// corners included, whichever way the drag went; a drag that ends where
/// it started selects nothing.
pub proof fn law_drag_spans(s: Point, e: Point, w: int, h: int)
    requires
        on_canvas(w, h, s.0 as int, s.1 as int),
        on_canvas(w, h, e.0 as int, e.1 as int),
    ensures
        (drag_rect(s, e, w, h) is None) <==> s == e,
        s != e ==> drag_rect(s, e, w, h) == Some((
            if s.0 < e.0 { s.0 } else { e.0 },
            if s.1 < e.1 { s.1 } else { e.1 },
            if s.0 < e.0 { e.0 } else { s.0 },
            if s.1 < e.1 { e.1 } else { s.1 },
        )),
{
}

} // verus!
