//! The editor around the documents: tabs, the current tool and color, the
//! recently picked colors, and which dialog is open.
use vstd::prelude::*;
use crate::color::{Color, transparent};
use crate::compose::top_pixel;
use crate::document::{Document, Content, UiState, layers_view};
use crate::grid::{on_canvas, lemma_index_in_bounds};
use crate::transform::{crop_ok, CelMap, with_cels_mapped};
use crate::layers::{edited, edit_ui_stale};
use crate::canvas::{PointerInput, canvas_step};

verus! {

/// The drawing tools.
#[derive(Clone, Copy, PartialEq, Eq, Structural, Debug)]
pub enum Tool {
    Brush,
    Eraser,
    Fill,
    Eyedropper,
    Select,
    Move,
    Text,
}

impl Tool {
    /// The tool's name as the status bar shows it.
    pub open spec fn label_spec(self) -> Seq<char> {
        match self {
            Tool::Brush => "Brush"@,
            Tool::Eraser => "Eraser"@,
            Tool::Fill => "Fill"@,
            Tool::Eyedropper => "Dropper"@,
            Tool::Select => "Select"@,
            Tool::Move => "Move"@,
            Tool::Text => "Text"@,
        }
    }

    /// See `label_spec`.
    pub fn label(&self) -> (s: &'static str)
        ensures
            s@ == self.label_spec(),
    {
        match self {
            Tool::Brush => "Brush",
            Tool::Eraser => "Eraser",
            Tool::Fill => "Fill",
            Tool::Eyedropper => "Dropper",
            Tool::Select => "Select",
            Tool::Move => "Move",
            Tool::Text => "Text",
        }
    }
}

/// Which dialogs are open.
#[derive(Clone, Copy, PartialEq, Eq, Structural, Debug)]
pub struct Dialogs {
    pub show_resize: bool,
    pub show_export: bool,
    pub show_brush: bool,
    pub show_panels: bool,
    pub show_settings: bool,
    pub show_scale: bool,
    pub show_quit: bool,
    pub show_text: bool,
    pub show_welcome: bool,
}

impl Dialogs {
    /// A dialog that blocks the canvas is open (the brush size dialog does
    /// not count).
    pub open spec fn open_spec(self) -> bool {
        self.show_resize || self.show_export || self.show_panels || self.show_settings || self.show_scale
            || self.show_quit || self.show_text || self.show_welcome
    }

    /// Whether a dialog that blocks the canvas is open.
    pub fn dialog_open(&self) -> (res: bool)
        ensures
            res == self.open_spec(),
    {
        self.show_resize || self.show_export || self.show_panels || self.show_settings || self.show_scale
            || self.show_quit || self.show_text || self.show_welcome
    }

    /// Escape closes every dialog but the text and welcome dialogs.
    pub fn close_on_escape(&mut self)
        ensures
            *final(self) == (Dialogs {
                show_resize: false,
                show_export: false,
                show_brush: false,
                show_panels: false,
                show_settings: false,
                show_scale: false,
                show_quit: false,
                ..*old(self)
            }),
    {
        self.show_resize = false;
        self.show_export = false;
        self.show_brush = false;
        self.show_panels = false;
        self.show_settings = false;
        self.show_scale = false;
        self.show_quit = false;
    }
}

/// One open document with the view state the caller keeps beside it.
pub struct Tab<V> {
    pub doc: Document,
    pub view: V,
}

/// The whole editor state that decides what edits do.
pub struct Editor<V> {
    pub tabs: Vec<Tab<V>>,
    pub active_tab: usize,
    pub tool: Tool,
    pub tool_saved: Option<Tool>,
    pub tool_saved_shift: Option<Tool>,
    pub color: Color,
    pub color_history: Vec<Color>,
    pub dialogs: Dialogs,
    /// Brush size in pixels.
    pub brush: usize,
    /// The sizes shown in the resize and scale dialogs.
    pub resize_w: usize,
    pub resize_h: usize,
    pub scale_w: usize,
    pub scale_h: usize,
    /// The user already declined to quit during the current close request.
    pub close_handled: bool,
}

/// Most recently picked colors kept.
pub const HISTORY_LIMIT: usize = 4;

/// The test that keeps every color but `c`.
pub open spec fn other_than(c: Color) -> spec_fn(Color) -> bool {
    |x: Color| x != c
}

/// The color history after picking `c`: `c` moves to the end (any earlier
/// copy is dropped), and the oldest entry falls off past the limit.
pub open spec fn recorded(h: Seq<Color>, c: Color) -> Seq<Color> {
    let f = h.filter(other_than(c)).push(c);
    if f.len() > HISTORY_LIMIT { f.drop_first() } else { f }
}

/// Tool and saved tool after the Alt key is found held (or not): holding
/// Alt switches to the eyedropper and remembers the tool; letting go brings
/// the remembered tool back.
pub open spec fn alt_step(tool: Tool, saved: Option<Tool>, held: bool) -> (Tool, Option<Tool>) {
    if held && saved is None {
        (Tool::Eyedropper, Some(tool))
    } else if !held {
        match saved {
            Some(t) => (t, None),
            None => (tool, None),
        }
    } else {
        (tool, saved)
    }
}

/// The new active tab after closing tab `idx` of `n` (more than one).
pub open spec fn active_after_close(n: int, active: int, idx: int) -> int {
    if active >= n - 1 { n - 2 } else if active > idx { active - 1 } else { active }
}

impl<V> Editor<V> {
    /// Every tab holds a well-formed document, and the active tab exists.
    pub open spec fn wf(&self) -> bool {
        &&& self.tabs@.len() >= 1
        &&& self.active_tab < self.tabs@.len()
        &&& forall|i: int| 0 <= i < self.tabs@.len() ==> (#[trigger] self.tabs@[i]).doc.wf()
    }

    /// The document being edited.
    pub open spec fn active_doc(&self) -> Document {
        self.tabs@[self.active_tab as int].doc
    }

    /// A new editor with one untitled 16 by 16 document, black as the color
    /// and the brush as the tool; the welcome dialog shows when asked for.
    pub fn new(view: V, show_welcome: bool) -> (e: Editor<V>)
        ensures
            e.wf(),
            e.tabs@.len() == 1,
            e.tabs@[0].doc.content() == crate::document::fresh_content(16, 16),
            e.tabs@[0].doc.ui() == crate::document::fresh_ui("Untitled"@),
            e.tabs@[0].doc.undo_stack@.len() == 0 && e.tabs@[0].doc.redo_stack@.len() == 0,
            e.tabs@[0].view == view,
            e.active_tab == 0,
            e.tool == Tool::Brush,
            e.tool_saved is None && e.tool_saved_shift is None,
            e.color == (Color { r: 0, g: 0, b: 0, a: 255 }),
            e.color_history@.len() == 0,
            e.brush == 1,
            e.resize_w == 64 && e.resize_h == 64 && e.scale_w == 64 && e.scale_h == 64,
            !e.close_handled,
            e.dialogs == (Dialogs {
                show_resize: false, show_export: false, show_brush: false, show_panels: false, show_settings: false,
                show_scale: false, show_quit: false, show_text: false, show_welcome,
            }),
    {
        let mut tabs: Vec<Tab<V>> = Vec::new();
        tabs.push(Tab { doc: Document::new("Untitled"), view });
        Editor {
            tabs,
            active_tab: 0,
            tool: Tool::Brush,
            tool_saved: None,
            tool_saved_shift: None,
            color: Color::from_rgba_premultiplied(0, 0, 0, 255),
            color_history: Vec::new(),
            dialogs: Dialogs {
                show_resize: false, show_export: false, show_brush: false, show_panels: false, show_settings: false,
                show_scale: false, show_quit: false, show_text: false, show_welcome,
            },
            brush: 1,
            resize_w: 64,
            resize_h: 64,
            scale_w: 64,
            scale_h: 64,
            close_handled: false,
        }
    }

    /// Whether some open document has unsaved changes.
    pub fn any_unsaved(&self) -> (res: bool)
        ensures
            res == exists|i: int| 0 <= i < self.tabs@.len() && (#[trigger] self.tabs@[i]).doc.unsaved,
    {
        let mut i: usize = 0;
        while i < self.tabs.len()
            invariant
                i <= self.tabs@.len(),
                forall|j: int| 0 <= j < i ==> !(#[trigger] self.tabs@[j]).doc.unsaved,
            decreases self.tabs@.len() - i,
        {
            if self.tabs[i].doc.unsaved {
                return true;
            }
            i = i + 1;
        }
        false
    }

    /// Closes tab `idx`; closing the last one leaves a fresh untitled
    /// document (with the view `fresh`) in its place.
    pub fn close_tab(&mut self, idx: usize, fresh: V)
        requires
            old(self).wf(),
            old(self).tabs@.len() > 1 ==> idx < old(self).tabs@.len(),
        ensures
            final(self).wf(),
            old(self).tabs@.len() <= 1 ==> {
                &&& final(self).tabs@.len() == 1
                &&& final(self).tabs@[0].doc.content() == crate::document::fresh_content(16, 16)
                &&& final(self).tabs@[0].doc.ui() == crate::document::fresh_ui("Untitled"@)
                &&& final(self).tabs@[0].doc.undo_stack@.len() == 0 && final(self).tabs@[0].doc.redo_stack@.len() == 0
                &&& final(self).tabs@[0].view == fresh
                &&& final(self).active_tab == 0
            },
            old(self).tabs@.len() > 1 ==> {
                &&& final(self).tabs@ == old(self).tabs@.remove(idx as int)
                &&& final(self).active_tab == active_after_close(old(self).tabs@.len() as int, old(self).active_tab as int, idx as int)
            },
            final(self).tool == old(self).tool && final(self).tool_saved == old(self).tool_saved,
            final(self).color == old(self).color && final(self).color_history@ == old(self).color_history@,
            final(self).dialogs == old(self).dialogs,
    {
        if self.tabs.len() <= 1 {
            self.tabs[0] = Tab { doc: Document::new("Untitled"), view: fresh };
            self.active_tab = 0;
            return;
        }
        let ghost t0 = self.tabs@;
        self.tabs.remove(idx);
        if self.active_tab >= self.tabs.len() {
            self.active_tab = self.tabs.len() - 1;
        } else if self.active_tab > idx {
            self.active_tab = self.active_tab - 1;
        }
        assert forall|i: int| 0 <= i < self.tabs@.len() implies (#[trigger] self.tabs@[i]).doc.wf() by {
            if i < idx {
                assert(self.tabs@[i] == t0[i]);
            } else {
                assert(self.tabs@[i] == t0[i + 1]);
            }
        }
    }

    /// Switches to the next tab, wrapping around (with one tab nothing
    /// changes).
    pub fn next_tab(&mut self)
        requires
            old(self).wf(),
        ensures
            final(self).wf(),
            final(self).tabs@ == old(self).tabs@,
            final(self).active_tab == if old(self).tabs@.len() > 1 {
                ((old(self).active_tab + 1) % (old(self).tabs@.len() as int)) as usize
            } else {
                old(self).active_tab
            },
            final(self).tool == old(self).tool && final(self).tool_saved == old(self).tool_saved,
            final(self).color == old(self).color && final(self).color_history@ == old(self).color_history@,
            final(self).dialogs == old(self).dialogs,
    {
        let n: usize = self.tabs.len();
        if n > 1 {
            self.active_tab = (self.active_tab + 1) % n;
        }
    }

    /// Opens `doc` in a new tab, which becomes active.
    pub fn push_tab(&mut self, doc: Document, view: V)
        requires
            old(self).wf(),
            doc.wf(),
            old(self).tabs@.len() < usize::MAX,
        ensures
            final(self).wf(),
            final(self).tabs@ == old(self).tabs@.push(Tab { doc, view }),
            final(self).active_tab == old(self).tabs@.len(),
            final(self).tool == old(self).tool && final(self).tool_saved == old(self).tool_saved,
            final(self).color == old(self).color && final(self).color_history@ == old(self).color_history@,
            final(self).dialogs == old(self).dialogs,
    {
        let ghost t0 = self.tabs@;
        self.tabs.push(Tab { doc, view });
        self.active_tab = self.tabs.len() - 1;
        assert forall|i: int| 0 <= i < self.tabs@.len() implies (#[trigger] self.tabs@[i]).doc.wf() by {
            if i < t0.len() {
                assert(self.tabs@[i] == t0[i]);
            }
        }
    }

    /// Opens a newly created `doc` in a new tab, zoomed to fit.
    pub fn new_tab(&mut self, doc: Document, view: V)
        requires
            old(self).wf(),
            doc.wf(),
            old(self).tabs@.len() < usize::MAX,
        ensures
            final(self).wf(),
            final(self).tabs@.len() == old(self).tabs@.len() + 1,
            final(self).tabs@.drop_last() == old(self).tabs@,
            final(self).tabs@.last().doc.content() == doc.content(),
            final(self).tabs@.last().doc.ui() == (UiState { needs_zoom_fit: true, ..doc.ui() }),
            final(self).tabs@.last().doc.same_history(&doc),
            final(self).tabs@.last().view == view,
            final(self).active_tab == old(self).tabs@.len(),
            final(self).tool == old(self).tool && final(self).tool_saved == old(self).tool_saved,
            final(self).color == old(self).color && final(self).color_history@ == old(self).color_history@,
            final(self).dialogs == old(self).dialogs,
    {
        let mut doc = doc;
        doc.needs_zoom_fit = true;
        self.push_tab(doc, view);
        assert(self.tabs@.drop_last() =~= old(self).tabs@);
    }

    /// Applies the state of the Alt key: see `alt_step`.
    pub fn alt_eyedropper(&mut self, held: bool)
        ensures
            (final(self).tool, final(self).tool_saved) == alt_step(old(self).tool, old(self).tool_saved, held),
            final(self).tabs@ == old(self).tabs@,
            final(self).active_tab == old(self).active_tab,
            final(self).color == old(self).color && final(self).color_history@ == old(self).color_history@,
            final(self).dialogs == old(self).dialogs,
            final(self).tool_saved_shift == old(self).tool_saved_shift,
    {
        if held && self.tool_saved.is_none() {
            self.tool_saved = Some(self.tool);
            self.tool = Tool::Eyedropper;
        } else if !held {
            match self.tool_saved.take() {
                Some(saved) => { self.tool = saved; },
                None => {},
            }
        }
    }

    /// Remembers a picked color: see `recorded`.
    pub fn record_color(&mut self, c: Color)
        ensures
            final(self).color_history@ == recorded(old(self).color_history@, c),
            final(self).tabs@ == old(self).tabs@,
            final(self).active_tab == old(self).active_tab,
            final(self).color == old(self).color,
            final(self).tool == old(self).tool && final(self).tool_saved == old(self).tool_saved,
            final(self).tool_saved_shift == old(self).tool_saved_shift,
            final(self).dialogs == old(self).dialogs && final(self).brush == old(self).brush,
    {
        let ghost h0 = self.color_history@;
        let mut kept: Vec<Color> = Vec::new();
        let mut i: usize = 0;
        while i < self.color_history.len()
            invariant
                self.color_history@ == h0,
                i <= h0.len(),
                kept@ == h0.subrange(0, i as int).filter(other_than(c)),
            decreases h0.len() - i,
        {
            let x = self.color_history[i];
            proof {
                assert(h0.subrange(0, i + 1) =~= h0.subrange(0, i as int).push(x));
                h0.subrange(0, i as int).lemma_filter_push(x, other_than(c));
            }
            if x != c {
                kept.push(x);
            }
            i = i + 1;
        }
        assert(h0.subrange(0, h0.len() as int) =~= h0);
        kept.push(c);
        if kept.len() > HISTORY_LIMIT {
            kept.remove(0);
            assert(kept@ =~= h0.filter(other_than(c)).push(c).drop_first());
        }
        self.color_history = kept;
    }

    /// The eyedropper at `(px, py)` of the active document: on the canvas it
    /// picks the flattened color of the active frame there, makes it the
    /// current color and, unless it is transparent, records it. Off the
    /// canvas nothing happens.
    pub fn eyedrop(&mut self, px: i32, py: i32) -> (picked: Option<Color>)
        requires
            old(self).wf(),
        ensures
            final(self).wf(),
            final(self).tabs@ == old(self).tabs@,
            final(self).active_tab == old(self).active_tab,
            final(self).tool == old(self).tool && final(self).tool_saved == old(self).tool_saved,
            final(self).tool_saved_shift == old(self).tool_saved_shift,
            final(self).dialogs == old(self).dialogs && final(self).brush == old(self).brush,
            ({
                let d = old(self).active_doc();
                if on_canvas(d.width as int, d.height as int, px as int, py as int) {
                    let c = d.flat_pixel(d.active_frame as int, py * d.width + px);
                    &&& picked == Some(c)
                    &&& final(self).color == c
                    &&& final(self).color_history@ == if c != transparent() {
                        recorded(old(self).color_history@, c)
                    } else {
                        old(self).color_history@
                    }
                } else {
                    &&& picked is None
                    &&& final(self).color == old(self).color
                    &&& final(self).color_history@ == old(self).color_history@
                }
            }),
    {
        let t: usize = self.active_tab;
        let w: usize = self.tabs[t].doc.width;
        let h: usize = self.tabs[t].doc.height;
        if px < 0 || py < 0 || (px as u64) >= (w as u64) || (py as u64) >= (h as u64) {
            return None;
        }
        let x: usize = px as usize;
        let y: usize = py as usize;
        assert(self.tabs@[t as int].doc.wf());
        proof {
            self.tabs@[t as int].doc.lemma_shape();
            lemma_index_in_bounds(w as int, h as int, x as int, y as int);
        }
        let flat = self.tabs[t].doc.composite();
        let c = flat[y * w + x];
        self.color = c;
        if !c.is_transparent() {
            self.record_color(c);
        }
        Some(c)
    }

    /// One frame of pointer input over the canvas of the active document:
    /// the document changes as `canvas_step` says, and an eyedropper click
    /// on a pixel picks its color (see `eyedrop`).
    pub fn canvas_input(&mut self, inp: PointerInput)
        requires
            old(self).wf(),
            !old(self).dialogs.open_spec() ==> old(self).brush <= i32::MAX
                && old(self).active_doc().pointer_ok(old(self).tool),
        ensures
            final(self).wf(),
            final(self).tabs@.len() == old(self).tabs@.len(),
            forall|i: int| 0 <= i < old(self).tabs@.len() && i != old(self).active_tab ==> #[trigger] final(self).tabs@[i] == old(self).tabs@[i],
            final(self).tabs@[old(self).active_tab as int].view == old(self).tabs@[old(self).active_tab as int].view,
            final(self).active_doc().state() == canvas_step(old(self).active_doc().state(), old(self).tool, inp,
                old(self).dialogs.open_spec(), old(self).color, old(self).brush),
            final(self).active_tab == old(self).active_tab,
            final(self).tool == old(self).tool && final(self).tool_saved == old(self).tool_saved,
            final(self).tool_saved_shift == old(self).tool_saved_shift,
            final(self).dialogs == old(self).dialogs && final(self).brush == old(self).brush,
            ({
                let d = old(self).active_doc();
                let picks = old(self).tool == Tool::Eyedropper && !old(self).dialogs.open_spec() && inp.clicked_primary
                    && inp.pixel is Some && on_canvas(d.width as int, d.height as int, (inp.pixel->0).0 as int, (inp.pixel->0).1 as int);
                if picks {
                    let c = d.flat_pixel(d.active_frame as int, (inp.pixel->0).1 * d.width + (inp.pixel->0).0);
                    &&& final(self).color == c
                    &&& final(self).color_history@ == if c != transparent() {
                        recorded(old(self).color_history@, c)
                    } else {
                        old(self).color_history@
                    }
                } else {
                    &&& final(self).color == old(self).color
                    &&& final(self).color_history@ == old(self).color_history@
                }
            }),
    {
        let t: usize = self.active_tab;
        let ghost t0 = self.tabs@;
        assert(self.tabs@[t as int].doc.wf());
        if self.dialogs.dialog_open() {
            self.tabs[t].doc.pointer_blocked(inp);
        } else {
            let tool = self.tool;
            let color = self.color;
            let brush: usize = self.brush;
            self.tabs[t].doc.pointer_primary(tool, inp, color, brush);
            let ghost t1 = self.tabs@;
            proof {
                assert forall|i: int| 0 <= i < self.tabs@.len() implies (#[trigger] self.tabs@[i]).doc.wf() by {
                    if i != t {
                        assert(self.tabs@[i] == t0[i]);
                    }
                }
            }
            if tool == Tool::Eyedropper && inp.clicked_primary {
                match inp.pixel {
                    Some(p) => {
                        proof {
                            crate::canvas::lemma_tool_step_eyedropper(t0[t as int].doc.state(), inp, color, brush);
                            assert(t1[t as int].doc.content() == t0[t as int].doc.content());
                        }
                        let _ = self.eyedrop(p.0, p.1);
                    },
                    None => {},
                }
            }
            assert(self.tabs@[t as int].doc.wf());
            self.tabs[t].doc.pointer_secondary(inp, brush);
        }
        assert forall|i: int| 0 <= i < self.tabs@.len() implies (#[trigger] self.tabs@[i]).doc.wf() by {
            if i != t {
                assert(self.tabs@[i] == t0[i]);
            }
        }
    }

    /// Ctrl+S: unless a dialog is open, opens the export dialog, naming the
    /// file "pixesh.png" when the active document has no export name.
    pub fn open_export(&mut self)
        requires
            old(self).wf(),
        ensures
            final(self).wf(),
            old(self).dialogs.open_spec() ==> *final(self) == *old(self),
            !old(self).dialogs.open_spec() ==> {
                let d = old(self).active_doc();
                let e = final(self).active_doc();
                &&& final(self).dialogs == (Dialogs { show_export: true, ..old(self).dialogs })
                &&& final(self).tabs@.len() == old(self).tabs@.len()
                &&& forall|i: int| 0 <= i < old(self).tabs@.len() && i != old(self).active_tab ==> #[trigger] final(self).tabs@[i] == old(self).tabs@[i]
                &&& final(self).tabs@[old(self).active_tab as int].view == old(self).tabs@[old(self).active_tab as int].view
                &&& e.history() == d.history()
                &&& e.ui() == if d.export_name@.len() == 0 { UiState { export_name: "pixesh.png"@, ..d.ui() } } else { d.ui() }
                &&& *final(self) == (Editor { tabs: final(self).tabs, dialogs: final(self).dialogs, ..*old(self) })
            },
    {
        if self.dialogs.dialog_open() {
            return;
        }
        let t: usize = self.active_tab;
        let ghost t0 = self.tabs@;
        assert(self.tabs@[t as int].doc.wf());
        if self.tabs[t].doc.export_name.unicode_len() == 0 {
            self.tabs[t].doc.export_name = String::from_str("pixesh.png");
        }
        self.dialogs.show_export = true;
        assert forall|i: int| 0 <= i < self.tabs@.len() implies (#[trigger] self.tabs@[i]).doc.wf() by {
            if i != t {
                assert(self.tabs@[i] == t0[i]);
            }
        }
    }

    /// Ctrl+R: unless a dialog is open, opens the resize dialog with the
    /// active document's size.
    pub fn open_resize(&mut self)
        requires
            old(self).wf(),
        ensures
            old(self).dialogs.open_spec() ==> *final(self) == *old(self),
            !old(self).dialogs.open_spec() ==> *final(self) == (Editor {
                resize_w: old(self).active_doc().width,
                resize_h: old(self).active_doc().height,
                dialogs: Dialogs { show_resize: true, ..old(self).dialogs },
                ..*old(self)
            }),
    {
        if !self.dialogs.dialog_open() {
            let t: usize = self.active_tab;
            self.resize_w = self.tabs[t].doc.width;
            self.resize_h = self.tabs[t].doc.height;
            self.dialogs.show_resize = true;
        }
    }

    /// Ctrl+I: unless a dialog is open, opens the scale dialog with the
    /// active document's size.
    pub fn open_scale(&mut self)
        requires
            old(self).wf(),
        ensures
            old(self).dialogs.open_spec() ==> *final(self) == *old(self),
            !old(self).dialogs.open_spec() ==> *final(self) == (Editor {
                scale_w: old(self).active_doc().width,
                scale_h: old(self).active_doc().height,
                dialogs: Dialogs { show_scale: true, ..old(self).dialogs },
                ..*old(self)
            }),
    {
        if !self.dialogs.dialog_open() {
            let t: usize = self.active_tab;
            self.scale_w = self.tabs[t].doc.width;
            self.scale_h = self.tabs[t].doc.height;
            self.dialogs.show_scale = true;
        }
    }

    /// Ctrl+W: unless a dialog is open, shows the panels dialog.
    pub fn toggle_panels(&mut self)
        ensures
            old(self).dialogs.open_spec() ==> *final(self) == *old(self),
            !old(self).dialogs.open_spec() ==> *final(self) == (Editor {
                dialogs: Dialogs { show_panels: !old(self).dialogs.show_panels, ..old(self).dialogs },
                ..*old(self)
            }),
    {
        if !self.dialogs.dialog_open() {
            self.dialogs.show_panels = !self.dialogs.show_panels;
        }
    }

    /// Ctrl+H: unless a dialog is open, shows the settings dialog.
    pub fn toggle_settings(&mut self)
        ensures
            old(self).dialogs.open_spec() ==> *final(self) == *old(self),
            !old(self).dialogs.open_spec() ==> *final(self) == (Editor {
                dialogs: Dialogs { show_settings: !old(self).dialogs.show_settings, ..old(self).dialogs },
                ..*old(self)
            }),
    {
        if !self.dialogs.dialog_open() {
            self.dialogs.show_settings = !self.dialogs.show_settings;
        }
    }

    /// Ctrl+B: unless a dialog is open, shows the brush size dialog.
    pub fn open_brush_dialog(&mut self)
        ensures
            old(self).dialogs.open_spec() ==> *final(self) == *old(self),
            !old(self).dialogs.open_spec() ==> *final(self) == (Editor {
                dialogs: Dialogs { show_brush: true, ..old(self).dialogs },
                ..*old(self)
            }),
    {
        if !self.dialogs.dialog_open() {
            self.dialogs.show_brush = true;
        }
    }

    /// Applies the resize dialog: the active document is resized to the
    /// chosen size unless that is its size already, and the dialog closes.
    #[verifier::spinoff_prover]
    #[verifier::rlimit(40)]
    pub fn apply_resize(&mut self)
        requires
            old(self).wf(),
            old(self).resize_w * old(self).resize_h <= usize::MAX,
        ensures
            final(self).wf(),
            final(self).dialogs == (Dialogs { show_resize: false, ..old(self).dialogs }),
            final(self).tabs@.len() == old(self).tabs@.len(),
            forall|i: int| 0 <= i < old(self).tabs@.len() && i != old(self).active_tab ==> #[trigger] final(self).tabs@[i] == old(self).tabs@[i],
            final(self).tabs@[old(self).active_tab as int].view == old(self).tabs@[old(self).active_tab as int].view,
            ({
                let d = old(self).active_doc();
                let e = final(self).active_doc();
                if old(self).resize_w != d.width || old(self).resize_h != d.height {
                    &&& e.history() == edited(d.history(), with_cels_mapped(d.content(),
                            CelMap::Resize { ow: d.width, oh: d.height, nw: old(self).resize_w, nh: old(self).resize_h }))
                    &&& e.ui() == edit_ui_stale(d.ui())
                } else {
                    e.history() == d.history() && e.ui() == d.ui()
                }
            }),
            *final(self) == (Editor { tabs: final(self).tabs, dialogs: final(self).dialogs, ..*old(self) }),
    {
        let t: usize = self.active_tab;
        let ghost t0 = self.tabs@;
        assert(self.tabs@[t as int].doc.wf());
        let (w, h) = (self.resize_w, self.resize_h);
        if w != self.tabs[t].doc.width || h != self.tabs[t].doc.height {
            self.tabs[t].doc.resize_canvas(w, h);
        }
        self.dialogs.show_resize = false;
        assert forall|i: int| 0 <= i < self.tabs@.len() implies (#[trigger] self.tabs@[i]).doc.wf() by {
            if i != t {
                assert(self.tabs@[i] == t0[i]);
            }
        }
    }

    /// Applies the scale dialog: the active document is scaled to the chosen
    /// size unless that is its size already, and the dialog closes.
    #[verifier::spinoff_prover]
    #[verifier::rlimit(40)]
    pub fn apply_scale(&mut self)
        requires
            old(self).wf(),
            old(self).scale_w * old(self).scale_h <= usize::MAX,
            old(self).scale_w > 0 && old(self).scale_h > 0 ==> old(self).active_doc().width >= 1 && old(self).active_doc().height >= 1,
        ensures
            final(self).wf(),
            final(self).dialogs == (Dialogs { show_scale: false, ..old(self).dialogs }),
            final(self).tabs@.len() == old(self).tabs@.len(),
            forall|i: int| 0 <= i < old(self).tabs@.len() && i != old(self).active_tab ==> #[trigger] final(self).tabs@[i] == old(self).tabs@[i],
            final(self).tabs@[old(self).active_tab as int].view == old(self).tabs@[old(self).active_tab as int].view,
            ({
                let d = old(self).active_doc();
                let e = final(self).active_doc();
                let sw = old(self).scale_w;
                let sh = old(self).scale_h;
                if (sw != d.width || sh != d.height) && sw > 0 && sh > 0 {
                    &&& e.history() == edited(d.history(), with_cels_mapped(d.content(),
                            CelMap::Scale { ow: d.width, oh: d.height, nw: sw, nh: sh }))
                    &&& e.ui() == edit_ui_stale(d.ui())
                } else {
                    e.history() == d.history() && e.ui() == d.ui()
                }
            }),
            *final(self) == (Editor { tabs: final(self).tabs, dialogs: final(self).dialogs, ..*old(self) }),
    {
        let t: usize = self.active_tab;
        let ghost t0 = self.tabs@;
        assert(self.tabs@[t as int].doc.wf());
        let (w, h) = (self.scale_w, self.scale_h);
        if w != self.tabs[t].doc.width || h != self.tabs[t].doc.height {
            self.tabs[t].doc.scale_image(w, h);
        }
        self.dialogs.show_scale = false;
        assert forall|i: int| 0 <= i < self.tabs@.len() implies (#[trigger] self.tabs@[i]).doc.wf() by {
            if i != t {
                assert(self.tabs@[i] == t0[i]);
            }
        }
    }

    /// Shift+scroll (or scroll in the brush dialog): the brush grows or
    /// shrinks by one pixel, between 1 and the larger side of the canvas.
    pub fn brush_scroll(&mut self, grow: bool)
        requires
            old(self).wf(),
            old(self).active_doc().width >= 1 || old(self).active_doc().height >= 1,
        ensures
            ({
                let d = old(self).active_doc();
                let m = if d.width > d.height { d.width as int } else { d.height as int };
                let b = if grow { old(self).brush + 1 } else { old(self).brush - 1 };
                let c = if b < 1 { 1 } else if b > m { m } else { b };
                *final(self) == (Editor { brush: c as usize, ..*old(self) })
            }),
    {
        let t: usize = self.active_tab;
        let m: usize = if self.tabs[t].doc.width > self.tabs[t].doc.height { self.tabs[t].doc.width } else { self.tabs[t].doc.height };
        let b: usize = self.brush;
        let c: usize = if grow {
            if b >= m { m } else { b + 1 }
        } else {
            if b <= 2 { 1 } else if b - 1 > m { m } else { b - 1 }
        };
        self.brush = c;
    }

    /// Enter: unless a dialog is open, crops the active document to its
    /// selection (see `Document::crop_to_selection`).
    pub fn crop_on_enter(&mut self)
        requires
            old(self).wf(),
            old(self).active_doc().sel is Some ==> crop_ok(old(self).active_doc().sel->0,
                old(self).active_doc().width as int, old(self).active_doc().height as int),
        ensures
            final(self).wf(),
            old(self).dialogs.open_spec() || old(self).active_doc().sel is None ==> *final(self) == *old(self),
            !old(self).dialogs.open_spec() && old(self).active_doc().sel is Some ==> {
                let d = old(self).active_doc();
                let e = final(self).active_doc();
                let m = crate::transform::crop_map(d.sel->0, d.width, d.height);
                &&& e.history() == edited(d.history(), Content { sel: None, ..with_cels_mapped(d.content(), m) })
                &&& e.ui() == (UiState { sel_start: None, sel_end: None, ..edit_ui_stale(d.ui()) })
                &&& final(self).tabs@.len() == old(self).tabs@.len()
                &&& forall|i: int| 0 <= i < old(self).tabs@.len() && i != old(self).active_tab ==> #[trigger] final(self).tabs@[i] == old(self).tabs@[i]
                &&& final(self).tabs@[old(self).active_tab as int].view == old(self).tabs@[old(self).active_tab as int].view
                &&& *final(self) == (Editor { tabs: final(self).tabs, ..*old(self) })
            },
    {
        let t: usize = self.active_tab;
        if self.dialogs.dialog_open() || self.tabs[t].doc.sel.is_none() {
            return;
        }
        let ghost t0 = self.tabs@;
        assert(self.tabs@[t as int].doc.wf());
        self.tabs[t].doc.crop_to_selection();
        assert forall|i: int| 0 <= i < self.tabs@.len() implies (#[trigger] self.tabs@[i]).doc.wf() by {
            if i != t {
                assert(self.tabs@[i] == t0[i]);
            }
        }
    }

    /// A request to close the window: with unsaved work, and unless the
    /// user already declined during this request or is being asked, the
    /// quit dialog opens and the close is held back (the result says
    /// whether to hold it back). Once the request is over, the user may be
    /// asked again.
    pub fn close_requested(&mut self, requested: bool) -> (hold: bool)
        ensures
            ({
                let ask = requested && (exists|i: int| 0 <= i < old(self).tabs@.len() && (#[trigger] old(self).tabs@[i]).doc.unsaved)
                    && !old(self).dialogs.show_quit && !old(self).close_handled;
                &&& hold == ask
                &&& *final(self) == (Editor {
                        dialogs: Dialogs { show_quit: old(self).dialogs.show_quit || ask, ..old(self).dialogs },
                        close_handled: old(self).close_handled && requested,
                        ..*old(self)
                    })
            }),
    {
        let mut hold = false;
        if requested && !self.dialogs.show_quit && !self.close_handled && self.any_unsaved() {
            self.dialogs.show_quit = true;
            hold = true;
        }
        if !requested {
            self.close_handled = false;
        }
        hold
    }

    /// "Cancel" in the quit dialog: the dialog closes and this close request
    /// is not asked about again.
    pub fn cancel_quit(&mut self)
        ensures
            *final(self) == (Editor {
                dialogs: Dialogs { show_quit: false, ..old(self).dialogs },
                close_handled: true,
                ..*old(self)
            }),
    {
        self.dialogs.show_quit = false;
        self.close_handled = true;
    }

    /// After an export: the active document counts as saved and the export
    /// dialog closes.
    pub fn finish_export(&mut self)
        requires
            old(self).wf(),
        ensures
            final(self).wf(),
            final(self).dialogs == (Dialogs { show_export: false, ..old(self).dialogs }),
            final(self).tabs@.len() == old(self).tabs@.len(),
            forall|i: int| 0 <= i < old(self).tabs@.len() && i != old(self).active_tab ==> #[trigger] final(self).tabs@[i] == old(self).tabs@[i],
            final(self).tabs@[old(self).active_tab as int].view == old(self).tabs@[old(self).active_tab as int].view,
            final(self).active_doc().history() == old(self).active_doc().history(),
            final(self).active_doc().ui() == (UiState { unsaved: false, ..old(self).active_doc().ui() }),
            *final(self) == (Editor { tabs: final(self).tabs, dialogs: final(self).dialogs, ..*old(self) }),
    {
        let t: usize = self.active_tab;
        let ghost t0 = self.tabs@;
        assert(self.tabs@[t as int].doc.wf());
        self.tabs[t].doc.unsaved = false;
        self.dialogs.show_export = false;
        assert forall|i: int| 0 <= i < self.tabs@.len() implies (#[trigger] self.tabs@[i]).doc.wf() by {
            if i != t {
                assert(self.tabs@[i] == t0[i]);
            }
        }
    }

    /// Whether `canvas_input` may be called.
    pub fn canvas_ready(&self) -> (r: bool)
        requires
            self.wf(),
        ensures
            r == (!self.dialogs.open_spec() ==> self.brush <= i32::MAX && self.active_doc().pointer_ok(self.tool)),
    {
        self.dialogs.dialog_open() || (self.brush <= 0x7fff_ffff && self.tabs[self.active_tab].doc.pointer_ready(self.tool))
    }

    /// Whether `apply_resize` may be called: the chosen size fits in memory.
    pub fn resize_ready(&self) -> (r: bool)
        ensures
            r == (self.resize_w * self.resize_h <= usize::MAX),
    {
        self.resize_w.checked_mul(self.resize_h).is_some()
    }

    /// Whether `apply_scale` may be called: the chosen size fits in memory,
    /// and a canvas with no pixels is not scaled up.
    pub fn scale_ready(&self) -> (r: bool)
        requires
            self.wf(),
        ensures
            r == (self.scale_w * self.scale_h <= usize::MAX && (self.scale_w > 0 && self.scale_h > 0
                ==> self.active_doc().width >= 1 && self.active_doc().height >= 1)),
    {
        let d = &self.tabs[self.active_tab].doc;
        self.scale_w.checked_mul(self.scale_h).is_some()
            && (!(self.scale_w > 0 && self.scale_h > 0) || (d.width >= 1 && d.height >= 1))
    }

    /// Whether `brush_scroll` may be called: the canvas has a side.
    pub fn brush_scroll_ready(&self) -> (r: bool)
        requires
            self.wf(),
        ensures
            r == (self.active_doc().width >= 1 || self.active_doc().height >= 1),
    {
        let d = &self.tabs[self.active_tab].doc;
        d.width >= 1 || d.height >= 1
    }

    /// Whether `crop_on_enter` may be called: a selection crops to a
    /// non-empty part of the canvas.
    pub fn crop_ready(&self) -> (r: bool)
        requires
            self.wf(),
        ensures
            r == (self.active_doc().sel is Some ==> crop_ok(self.active_doc().sel->0,
                self.active_doc().width as int, self.active_doc().height as int)),
    {
        let d = &self.tabs[self.active_tab].doc;
        match d.sel {
            Some(s) => crate::transform::crop_fits(s, d.width, d.height),
            None => true,
        }
    }

    /// Escape: closes the dialogs (see `Dialogs::close_on_escape`) when one
    /// blocks the canvas, and otherwise drops the active document's
    /// selection.
    pub fn escape(&mut self)
        requires
            old(self).wf(),
        ensures
            final(self).wf(),
            old(self).dialogs.open_spec() ==> {
                &&& final(self).tabs@ == old(self).tabs@
                &&& final(self).dialogs == (Dialogs {
                        show_resize: false, show_export: false, show_brush: false, show_panels: false,
                        show_settings: false, show_scale: false, show_quit: false, ..old(self).dialogs
                    })
            },
            !old(self).dialogs.open_spec() ==> {
                let d = old(self).active_doc();
                let e = final(self).active_doc();
                &&& final(self).dialogs == old(self).dialogs
                &&& final(self).tabs@.len() == old(self).tabs@.len()
                &&& forall|i: int| 0 <= i < old(self).tabs@.len() && i != old(self).active_tab ==> #[trigger] final(self).tabs@[i] == old(self).tabs@[i]
                &&& e.content() == (Content { sel: None, sel_buffer: None, ..d.content() })
                &&& e.ui() == (UiState { sel_start: None, sel_end: None, sel_move_origin: None, sel_move_current: None,
                        sel_texture_stale: true, ..d.ui() })
                &&& e.same_history(&d)
                &&& final(self).tabs@[old(self).active_tab as int].view == old(self).tabs@[old(self).active_tab as int].view
            },
            final(self).active_tab == old(self).active_tab,
            final(self).tool == old(self).tool && final(self).tool_saved == old(self).tool_saved,
            final(self).color == old(self).color && final(self).color_history@ == old(self).color_history@,
    {
        if self.dialogs.dialog_open() {
            self.dialogs.close_on_escape();
        } else {
            let t: usize = self.active_tab;
            let ghost t0 = self.tabs@;
            assert(self.tabs@[t as int].doc.wf());
            self.tabs[t].doc.deselect();
            assert forall|i: int| 0 <= i < self.tabs@.len() implies (#[trigger] self.tabs@[i]).doc.wf() by {
                if i != t {
                    assert(self.tabs@[i] == t0[i]);
                }
            }
        }
    }
}

/// Pressing Alt and letting it go again brings back the tool in use before.
pub proof fn law_alt_round_trip(tool: Tool)
    ensures
        ({
            let (t1, s1) = alt_step(tool, None, true);
            alt_step(t1, s1, false) == (tool, None::<Tool>)
        }),
{
}

/// Dropping `c` from a list without repeats leaves a list without repeats
/// that does not hold `c` and is no longer.
proof fn lemma_filter_other(h: Seq<Color>, c: Color)
    requires
        h.no_duplicates(),
    ensures
        h.filter(other_than(c)).no_duplicates(),
        !h.filter(other_than(c)).contains(c),
        h.filter(other_than(c)).len() <= h.len(),
    decreases h.len(),
{
    reveal(Seq::filter);
    let p = other_than(c);
    if h.len() > 0 {
        let t = h.drop_last();
        let l = h.last();
        assert(t.no_duplicates()) by {
            assert forall|i: int, j: int| 0 <= i < t.len() && 0 <= j < t.len() && i != j implies t[i] != t[j] by {
                assert(t[i] == h[i] && t[j] == h[j]);
            }
        }
        lemma_filter_other(t, c);
        let ft = t.filter(p);
        assert(h.filter(p) == if p(l) { ft.push(l) } else { ft });
        if p(l) {
            assert(!ft.contains(l)) by {
                if ft.contains(l) {
                    t.lemma_filter_contains_rev(p, l);
                    let k = choose|k: int| 0 <= k < t.len() && t[k] == l;
                    assert(h[k] == h[h.len() - 1]);
                }
            }
            let g = ft.push(l);
            assert forall|i: int, j: int| 0 <= i < g.len() && 0 <= j < g.len() && i != j implies g[i] != g[j] by {
                if i < ft.len() && j < ft.len() {
                    assert(g[i] == ft[i] && g[j] == ft[j]);
                } else if i < ft.len() {
                    assert(g[i] == ft[i]);
                } else {
                    assert(g[j] == ft[j]);
                }
            }
            assert(!g.contains(c)) by {
                if g.contains(c) {
                    let k = choose|k: int| 0 <= k < g.len() && g[k] == c;
                    if k < ft.len() {
                        assert(ft[k] == c);
                    }
                }
            }
        }
    }
}

/// The color history never holds a color twice, never holds more than
/// `HISTORY_LIMIT` colors, and ends with the color just picked.
pub proof fn law_history_distinct(h: Seq<Color>, c: Color)
    requires
        h.no_duplicates(),
        h.len() <= HISTORY_LIMIT,
    ensures
        recorded(h, c).no_duplicates(),
        recorded(h, c).len() <= HISTORY_LIMIT,
        recorded(h, c).last() == c,
{
    let f = h.filter(other_than(c));
    lemma_filter_other(h, c);
    let g = f.push(c);
    assert(g.no_duplicates()) by {
        assert forall|i: int, j: int| 0 <= i < g.len() && 0 <= j < g.len() && i != j implies g[i] != g[j] by {
            if i < f.len() && j < f.len() {
                assert(g[i] == f[i] && g[j] == f[j]);
            } else if i < f.len() {
                assert(g[i] == f[i]);
            } else {
                assert(g[j] == f[j]);
            }
        }
    }
    if g.len() > HISTORY_LIMIT {
        let d = g.drop_first();
        assert forall|i: int, j: int| 0 <= i < d.len() && 0 <= j < d.len() && i != j implies d[i] != d[j] by {
            assert(d[i] == g[i + 1] && d[j] == g[j + 1]);
        }
    }
}

/// Closing a tab other than the active one keeps the same document active;
/// after closing the active tab some tab of the rest is active.
pub proof fn law_close_keeps_active<T>(tabs: Seq<T>, active: int, idx: int)
    requires
        tabs.len() > 1,
        0 <= active < tabs.len(),
        0 <= idx < tabs.len(),
    ensures
        0 <= active_after_close(tabs.len() as int, active, idx) < tabs.len() - 1,
        active != idx ==> tabs.remove(idx)[active_after_close(tabs.len() as int, active, idx)] == tabs[active],
{
}

/// The color history after a pick still holds every color it held but the
/// picked one, except the oldest when the list was full and the pick new.
pub proof fn law_history_keeps_others(h: Seq<Color>, c: Color, x: Color)
    requires
        h.no_duplicates(),
        h.len() <= HISTORY_LIMIT,
        h.contains(x),
        x != c,
        !(h.len() == HISTORY_LIMIT && !h.contains(c) && x == h[0]),
    ensures
        recorded(h, c).contains(x),
{
    let f = h.filter(other_than(c));
    broadcast use vstd::seq_lib::group_filter_ensures;
    let k = choose|k: int| 0 <= k < h.len() && h[k] == x;
    assert(other_than(c)(h[k]));
    assert(f.contains(x));
    let g = f.push(c);
    let j = choose|j: int| 0 <= j < f.len() && f[j] == x;
    assert(g[j] == x);
    if g.len() > HISTORY_LIMIT {
        lemma_filter_other(h, c);
        assert(f.len() == HISTORY_LIMIT);
        assert(f.len() <= h.len());
        if h.contains(c) {
            let kc = choose|kc: int| 0 <= kc < h.len() && h[kc] == c;
            assert(!f.contains(c));
            lemma_filter_len_lt(h, c, kc);
        }
        lemma_filter_first(h, c);
        assert(j != 0);
        assert(g.drop_first()[j - 1] == x);
    }
}

/// Dropping `c` from a list that holds it leaves a shorter list.
proof fn lemma_filter_len_lt(h: Seq<Color>, c: Color, kc: int)
    requires
        0 <= kc < h.len(),
        h[kc] == c,
    ensures
        h.filter(other_than(c)).len() < h.len(),
    decreases h.len(),
{
    reveal(Seq::filter);
    let t = h.drop_last();
    t.lemma_filter_len(other_than(c));
    if kc < h.len() - 1 {
        assert(t[kc] == c);
        lemma_filter_len_lt(t, c, kc);
    }
}

/// When nothing is dropped from a list, its first element stays first.
proof fn lemma_filter_first(h: Seq<Color>, c: Color)
    requires
        h.len() > 0,
        h[0] != c,
    ensures
        h.filter(other_than(c)).len() > 0,
        h.filter(other_than(c))[0] == h[0],
    decreases h.len(),
{
    reveal(Seq::filter);
    if h.len() > 1 {
        let t = h.drop_last();
        lemma_filter_first(t, c);
    }
}

} // verus!
