//! Changing the canvas size: resize (keep pixels, pad or cut), crop to the
//! selection, and nearest-neighbour scaling.
use vstd::prelude::*;
use crate::color::{Color, transparent};
use crate::document::{Document, Layer, LayerView, Content, Rect, UiState, layers_view, layers_shaped, cels_shaped};
use crate::grid::{at, on_canvas, lemma_index_in_bounds};
use crate::history::History;
use crate::layers::{edited, edit_ui_stale};

verus! {

/// A change of canvas size, as applied to each cel.
pub enum CelMap {
    /// Keep pixel `(x, y)` where it lies in both sizes, transparent elsewhere.
    Resize { ow: usize, oh: usize, nw: usize, nh: usize },
    /// Keep the `nw` by `nh` rectangle whose top left corner is `(sx, sy)`.
    Crop { ow: usize, oh: usize, sx: usize, sy: usize, nw: usize, nh: usize },
    /// Nearest-neighbour sampling of the old `ow` by `oh` cel.
    Scale { ow: usize, oh: usize, nw: usize, nh: usize },
}

impl CelMap {
    /// Width of the new cels.
    pub open spec fn new_w(self) -> nat {
        match self {
            CelMap::Resize { nw, .. } => nw as nat,
            CelMap::Crop { nw, .. } => nw as nat,
            CelMap::Scale { nw, .. } => nw as nat,
        }
    }

    /// Height of the new cels.
    pub open spec fn new_h(self) -> nat {
        match self {
            CelMap::Resize { nh, .. } => nh as nat,
            CelMap::Crop { nh, .. } => nh as nat,
            CelMap::Scale { nh, .. } => nh as nat,
        }
    }

    /// Where the map can be applied to cels of `n` pixels.
    pub open spec fn valid(self, n: nat) -> bool {
        &&& self.new_w() * self.new_h() <= usize::MAX
        &&& match self {
            CelMap::Resize { ow, oh, .. } => n == ow * oh,
            CelMap::Crop { ow, oh, sx, sy, nw, nh } => n == ow * oh && sx + nw <= ow && sy + nh <= oh,
            CelMap::Scale { ow, oh, .. } => n == ow * oh && ow >= 1 && oh >= 1,
        }
    }

    /// Pixel `(x, y)` of the new cel.
    pub open spec fn pixel(self, old: Seq<Color>, x: int, y: int) -> Color {
        match self {
            CelMap::Resize { ow, oh, .. } => if x < ow && y < oh { at(old, ow as int, x, y) } else { transparent() },
            CelMap::Crop { ow, sx, sy, .. } => at(old, ow as int, sx + x, sy + y),
            CelMap::Scale { ow, oh, nw, nh } => at(old, ow as int, scale_src(x, ow as int, nw as int), scale_src(y, oh as int, nh as int)),
        }
    }

    /// The new cel made from `old`.
    pub open spec fn apply_spec(self, old: Seq<Color>) -> Seq<Color> {
        Seq::new(self.new_w() * self.new_h(), |i: int| self.pixel(old, i % (self.new_w() as int), i / (self.new_w() as int)))
    }

    /// Computes pixel `(x, y)` of the new cel.
    fn pixel_at(&self, old: &Vec<Color>, x: usize, y: usize) -> (c: Color)
        requires
            self.valid(old@.len()),
            x < self.new_w(),
            y < self.new_h(),
        ensures
            c == self.pixel(old@, x as int, y as int),
    {
        let n: usize = old.len();
        match self {
            CelMap::Resize { ow, oh, .. } => {
                if x < *ow && y < *oh {
                    proof { lemma_index_in_bounds(*ow as int, *oh as int, x as int, y as int); }
                    old[y * *ow + x]
                } else {
                    Color::transparent()
                }
            },
            CelMap::Crop { ow, oh, sx, sy, nw, nh } => {
                proof { lemma_index_in_bounds(*ow as int, *oh as int, (*sx + x) as int, (*sy + y) as int); }
                old[(*sy + y) * *ow + (*sx + x)]
            },
            CelMap::Scale { ow, oh, nw, nh } => {
                let sx: usize = scale_index(x, *ow, *nw);
                let sy: usize = scale_index(y, *oh, *nh);
                proof { lemma_index_in_bounds(*ow as int, *oh as int, sx as int, sy as int); }
                old[sy * *ow + sx]
            },
        }
    }

    /// Builds the new cel from `old`, row by row.
    pub fn apply(&self, old: &Vec<Color>) -> (out: Vec<Color>)
        requires
            self.valid(old@.len()),
        ensures
            out@ == self.apply_spec(old@),
    {
        let nw: usize = match self { CelMap::Resize { nw, .. } => *nw, CelMap::Crop { nw, .. } => *nw, CelMap::Scale { nw, .. } => *nw };
        let nh: usize = match self { CelMap::Resize { nh, .. } => *nh, CelMap::Crop { nh, .. } => *nh, CelMap::Scale { nh, .. } => *nh };
        let mut out: Vec<Color> = Vec::new();
        let mut y: usize = 0;
        while y < nh
            invariant
                self.valid(old@.len()),
                nw == self.new_w() && nh == self.new_h(),
                nw * nh <= usize::MAX,
                y <= nh,
                out@.len() == y * nw,
                forall|xx: int, yy: int| 0 <= xx < nw && 0 <= yy < y ==> #[trigger] at(out@, nw as int, xx, yy) == self.pixel(old@, xx, yy),
            decreases nh - y,
        {
            let mut x: usize = 0;
            while x < nw
                invariant
                    self.valid(old@.len()),
                    nw == self.new_w() && nh == self.new_h(),
                    nw * nh <= usize::MAX,
                    y < nh,
                    x <= nw,
                    out@.len() == y * nw + x,
                    forall|xx: int, yy: int| 0 <= xx < nw && 0 <= yy < y ==> #[trigger] at(out@, nw as int, xx, yy) == self.pixel(old@, xx, yy),
                    forall|xx: int| 0 <= xx < x ==> #[trigger] at(out@, nw as int, xx, y as int) == self.pixel(old@, xx, y as int),
                decreases nw - x,
            {
                proof { lemma_index_in_bounds(nw as int, nh as int, x as int, y as int); }
                let c = self.pixel_at(old, x, y);
                let ghost before = out@;
                out.push(c);
                assert forall|xx: int, yy: int| 0 <= xx < nw && 0 <= yy < y implies #[trigger] at(out@, nw as int, xx, yy) == self.pixel(old@, xx, yy) by {
                    lemma_index_in_bounds(nw as int, y as int, xx, yy);
                    assert(nw as int * y == y * nw as int) by (nonlinear_arith);
                    assert(at(out@, nw as int, xx, yy) == at(before, nw as int, xx, yy));
                }
                assert forall|xx: int| 0 <= xx < x + 1 implies #[trigger] at(out@, nw as int, xx, y as int) == self.pixel(old@, xx, y as int) by {
                    if xx < x {
                        assert(at(out@, nw as int, xx, y as int) == at(before, nw as int, xx, y as int));
                    }
                }
                x = x + 1;
            }
            assert(out@.len() == (y + 1) * nw) by (nonlinear_arith)
                requires out@.len() == y * nw + nw;
            y = y + 1;
        }
        assert(out@ =~= self.apply_spec(old@)) by {
            assert(nh * nw == nw * nh) by (nonlinear_arith);
            assert forall|i: int| 0 <= i < out@.len() implies #[trigger] out@[i] == self.apply_spec(old@)[i] by {
                crate::grid::lemma_index_decompose(nw as int, nh as int, i);
                assert(at(out@, nw as int, i % nw as int, i / nw as int) == out@[i]);
            }
        }
        out
    }
}

/// The source coordinate sampled for destination coordinate `d` when `old`
/// pixels are spread over `new` (nearest neighbour, clamped to the last one).
pub open spec fn scale_src(d: int, old: int, new: int) -> int {
    let s = d * old / new;
    if s < old - 1 { s } else { old - 1 }
}

/// `scale_src` computed.
fn scale_index(d: usize, old: usize, new: usize) -> (s: usize)
    requires
        d < new,
        old >= 1,
    ensures
        s == scale_src(d as int, old as int, new as int),
        s < old,
{
    assert((d as u128) * (old as u128) <= 0xffff_ffff_ffff_ffff * 0xffff_ffff_ffff_ffffu128) by (nonlinear_arith)
        requires d as u128 <= 0xffff_ffff_ffff_ffff, old as u128 <= 0xffff_ffff_ffff_ffff;
    let p: u128 = d as u128 * old as u128;
    assert(p == d * old) by (nonlinear_arith) requires p == d as u128 * old as u128;
    let q: u128 = p / (new as u128);
    let last: usize = old - 1;
    if q < last as u128 { q as usize } else { last }
}

/// Every cel of every layer mapped by `m`.
pub open spec fn map_all(ls: Seq<LayerView>, m: CelMap) -> Seq<LayerView> {
    ls.map_values(|l: LayerView| LayerView { cels: l.cels.map_values(|c: Seq<Color>| m.apply_spec(c)), ..l })
}

/// The content with every cel mapped by `m` to the new size.
pub open spec fn with_cels_mapped(c: Content, m: CelMap) -> Content {
    Content { layers: map_all(c.layers, m), width: m.new_w(), height: m.new_h(), ..c }
}

/// The pixel rectangle `(sx, sy, ex, ey)`, corners inclusive, that cropping
/// to `sel` keeps on a `w` by `h` canvas: the selection's corners sorted,
/// the start clamped at 0 and the end (taken as an unsigned index) at the
/// last column or row.
pub open spec fn crop_box(sel: Rect, w: int, h: int) -> (int, int, int, int) {
    let (x0, y0, x1, y1) = sel;
    let lo_x: int = if x0 < x1 { x0 as int } else { x1 as int };
    let lo_y: int = if y0 < y1 { y0 as int } else { y1 as int };
    let hi_x: i32 = if x0 > x1 { x0 } else { x1 };
    let hi_y: i32 = if y0 > y1 { y0 } else { y1 };
    let sx = if lo_x > 0 { lo_x } else { 0 };
    let sy = if lo_y > 0 { lo_y } else { 0 };
    let ex = if (hi_x as usize) < w - 1 { (hi_x as usize) as int } else { w - 1 };
    let ey = if (hi_y as usize) < h - 1 { (hi_y as usize) as int } else { h - 1 };
    (sx, sy, ex, ey)
}

/// Cropping to `sel` is defined: the canvas is not empty and the kept
/// rectangle is not empty.
pub open spec fn crop_ok(sel: Rect, w: int, h: int) -> bool {
    let (sx, sy, ex, ey) = crop_box(sel, w, h);
    w >= 1 && h >= 1 && sx <= ex && sy <= ey
}

/// The crop that `crop_to_selection` applies for `sel`.
pub open spec fn crop_map(sel: Rect, w: usize, h: usize) -> CelMap {
    let (sx, sy, ex, ey) = crop_box(sel, w as int, h as int);
    CelMap::Crop { ow: w, oh: h, sx: sx as usize, sy: sy as usize, nw: (ex - sx + 1) as usize, nh: (ey - sy + 1) as usize }
}

/// Computes `crop_map`.
fn crop_map_exec(sel: Rect, w: usize, h: usize) -> (m: CelMap)
    requires
        crop_ok(sel, w as int, h as int),
        w * h <= usize::MAX,
    ensures
        m == crop_map(sel, w, h),
        m.valid(w as nat * h as nat),
{
    let (x0, y0, x1, y1) = sel;
    let lo_x: i32 = if x0 < x1 { x0 } else { x1 };
    let lo_y: i32 = if y0 < y1 { y0 } else { y1 };
    let hi_x: i32 = if x0 > x1 { x0 } else { x1 };
    let hi_y: i32 = if y0 > y1 { y0 } else { y1 };
    let sx: usize = if lo_x > 0 { lo_x as usize } else { 0 };
    let sy: usize = if lo_y > 0 { lo_y as usize } else { 0 };
    let hx: usize = hi_x as usize;
    let hy: usize = hi_y as usize;
    let ex: usize = if hx < w - 1 { hx } else { w - 1 };
    let ey: usize = if hy < h - 1 { hy } else { h - 1 };
    let new_w: usize = ex - sx + 1;
    let new_h: usize = ey - sy + 1;
    assert(new_w * new_h <= w * h) by (nonlinear_arith)
        requires new_w <= w, new_h <= h;
    CelMap::Crop { ow: w, oh: h, sx, sy, nw: new_w, nh: new_h }
}

/// Whether `crop_ok` holds: the crop box of `sel` is a non-empty part of
/// the canvas.
pub fn crop_fits(sel: Rect, w: usize, h: usize) -> (r: bool)
    ensures
        r == crop_ok(sel, w as int, h as int),
{
    if w < 1 || h < 1 {
        return false;
    }
    let (x0, y0, x1, y1) = sel;
    let lo_x: i32 = if x0 < x1 { x0 } else { x1 };
    let lo_y: i32 = if y0 < y1 { y0 } else { y1 };
    let hi_x: i32 = if x0 > x1 { x0 } else { x1 };
    let hi_y: i32 = if y0 > y1 { y0 } else { y1 };
    let sx: usize = if lo_x > 0 { lo_x as usize } else { 0 };
    let sy: usize = if lo_y > 0 { lo_y as usize } else { 0 };
    let hx: usize = hi_x as usize;
    let hy: usize = hi_y as usize;
    let ex: usize = if hx < w - 1 { hx } else { w - 1 };
    let ey: usize = if hy < h - 1 { hy } else { h - 1 };
    sx <= ex && sy <= ey
}

impl Document {
    /// Crops the canvas to the selection and clears the selection; nothing
    /// happens without a selection. The step can be undone.
    pub fn crop_to_selection(&mut self)
        requires
            old(self).wf(),
            old(self).sel is Some ==> crop_ok(old(self).sel->0, old(self).width as int, old(self).height as int),
        ensures
            final(self).wf(),
            old(self).sel is None ==> final(self).history() == old(self).history() && final(self).ui() == old(self).ui(),
            old(self).sel is Some ==> {
                let m = crop_map(old(self).sel->0, old(self).width, old(self).height);
                &&& final(self).history() == edited(old(self).history(),
                        Content { sel: None, ..with_cels_mapped(old(self).content(), m) })
                &&& final(self).ui() == (UiState { sel_start: None, sel_end: None, ..edit_ui_stale(old(self).ui()) })
            },
    {
        match self.sel {
            None => {},
            Some(sel) => {
                proof { self.lemma_shape(); }
                let m = crop_map_exec(sel, self.width, self.height);
                self.map_cels(&m);
                self.sel = None;
                self.sel_start = None;
                self.sel_end = None;
            },
        }
    }

    /// Applies `m` to every cel and takes on its new size; records an undo
    /// step first.
    fn map_cels(&mut self, m: &CelMap)
        requires
            old(self).wf(),
            m.valid(old(self).npix()),
        ensures
            final(self).wf(),
            final(self).history() == edited(old(self).history(), with_cels_mapped(old(self).content(), *m)),
            final(self).ui() == edit_ui_stale(old(self).ui()),
    {
        self.push_undo();
        proof { self.lemma_shape(); }
        let ghost c0 = self.content();
        let mut layers: Vec<Layer> = Vec::new();
        std::mem::swap(&mut layers, &mut self.layers);
        let ghost ls0 = layers@;
        let mut k: usize = 0;
        while k < layers.len()
            invariant
                layers@.len() == ls0.len(),
                layers_view(ls0) == c0.layers,
                layers_shaped(c0.layers, c0.frames, c0.width * c0.height),
                m.valid(c0.width * c0.height),
                k <= layers@.len(),
                forall|j: int| 0 <= j < k ==> (#[trigger] layers@[j])@
                    == (LayerView { cels: ls0[j]@.cels.map_values(|c: Seq<Color>| m.apply_spec(c)), ..ls0[j]@ }),
                forall|j: int| k <= j < layers@.len() ==> #[trigger] layers@[j] == ls0[j],
            decreases ls0.len() - k,
        {
            assert(cels_shaped(c0.layers[k as int].cels, c0.frames, c0.width * c0.height));
            assert(c0.layers[k as int] == ls0[k as int]@);
            let mut cels: Vec<Vec<Color>> = Vec::new();
            let mut f: usize = 0;
            while f < layers[k].cels.len()
                invariant
                    layers@.len() == ls0.len(),
                    k < layers@.len(),
                    layers@[k as int] == ls0[k as int],
                    cels_shaped(ls0[k as int]@.cels, c0.frames, c0.width * c0.height),
                    m.valid(c0.width * c0.height),
                    f <= ls0[k as int].cels@.len(),
                    cels@.len() == f,
                    forall|g: int| 0 <= g < f ==> (#[trigger] cels@[g])@ == m.apply_spec(ls0[k as int].cels@[g]@),
                decreases ls0[k as int].cels@.len() - f,
            {
                assert(ls0[k as int]@.cels[f as int] == ls0[k as int].cels@[f as int]@);
                let nc = m.apply(&layers[k].cels[f]);
                cels.push(nc);
                f = f + 1;
            }
            layers[k].cels = cels;
            assert(layers@[k as int]@.cels =~= ls0[k as int]@.cels.map_values(|c: Seq<Color>| m.apply_spec(c)));
            k = k + 1;
        }
        std::mem::swap(&mut layers, &mut self.layers);
        let nw: usize = match m { CelMap::Resize { nw, .. } => *nw, CelMap::Crop { nw, .. } => *nw, CelMap::Scale { nw, .. } => *nw };
        let nh: usize = match m { CelMap::Resize { nh, .. } => *nh, CelMap::Crop { nh, .. } => *nh, CelMap::Scale { nh, .. } => *nh };
        self.width = nw;
        self.height = nh;
        self.texture_stale = true;
        self.canvas_dirty = true;
        proof {
            let c = self.content();
            assert(c.layers =~= map_all(c0.layers, *m));
            assert forall|l: int| 0 <= l < c.layers.len() implies cels_shaped(#[trigger] c.layers[l].cels, c.frames, c.width * c.height) by {
                assert(cels_shaped(c0.layers[l].cels, c0.frames, c0.width * c0.height));
            }
        }
    }

    /// Changes the canvas to `new_w` by `new_h`: pixels keep their position,
    /// those outside the new size are cut, new ones are transparent. The
    /// step can be undone.
    pub fn resize_canvas(&mut self, new_w: usize, new_h: usize)
        requires
            old(self).wf(),
            new_w * new_h <= usize::MAX,
        ensures
            final(self).wf(),
            final(self).history() == edited(old(self).history(), with_cels_mapped(old(self).content(),
                CelMap::Resize { ow: old(self).width, oh: old(self).height, nw: new_w, nh: new_h })),
            final(self).ui() == edit_ui_stale(old(self).ui()),
    {
        let m = CelMap::Resize { ow: self.width, oh: self.height, nw: new_w, nh: new_h };
        self.map_cels(&m);
    }

    /// Scales the image to `new_w` by `new_h` by nearest-neighbour sampling;
    /// nothing happens when either is zero. The step can be undone.
    pub fn scale_image(&mut self, new_w: usize, new_h: usize)
        requires
            old(self).wf(),
            new_w * new_h <= usize::MAX,
            new_w > 0 && new_h > 0 ==> old(self).width >= 1 && old(self).height >= 1,
        ensures
            final(self).wf(),
            new_w == 0 || new_h == 0 ==> final(self).history() == old(self).history() && final(self).ui() == old(self).ui(),
            new_w > 0 && new_h > 0 ==> {
                &&& final(self).history() == edited(old(self).history(), with_cels_mapped(old(self).content(),
                    CelMap::Scale { ow: old(self).width, oh: old(self).height, nw: new_w, nh: new_h }))
                &&& final(self).ui() == edit_ui_stale(old(self).ui())
            },
    {
        if new_w == 0 || new_h == 0 {
            return;
        }
        let m = CelMap::Scale { ow: self.width, oh: self.height, nw: new_w, nh: new_h };
        self.map_cels(&m);
    }
}

/// Pixel `(x, y)` of a mapped cel, read at its row-major index, is the
/// pixel that the map picks for `(x, y)`.
proof fn lemma_at_mapped(m: CelMap, old: Seq<Color>, x: int, y: int)
    requires
        on_canvas(m.new_w() as int, m.new_h() as int, x, y),
    ensures
        at(m.apply_spec(old), m.new_w() as int, x, y) == m.pixel(old, x, y),
        m.apply_spec(old).len() == m.new_w() * m.new_h(),
{
    let w = m.new_w() as int;
    let h = m.new_h() as int;
    let i = y * w + x;
    lemma_index_in_bounds(w, h, x, y);
    crate::grid::lemma_index_decompose(w, h, i);
    crate::grid::lemma_index_injective(w, h, i % w, i / w, x, y);
}

/// Resizing keeps every pixel at its place: a pixel of the new canvas that
/// lies on the old one is the old pixel there, and one beyond the old
/// canvas is transparent.
pub proof fn law_resize_keeps_position(old: Seq<Color>, ow: usize, oh: usize, nw: usize, nh: usize, x: int, y: int)
    requires
        old.len() == ow * oh,
        on_canvas(nw as int, nh as int, x, y),
    ensures
        ({
            let out = (CelMap::Resize { ow, oh, nw, nh }).apply_spec(old);
            &&& out.len() == nw * nh
            &&& x < ow && y < oh ==> at(out, nw as int, x, y) == at(old, ow as int, x, y)
            &&& !(x < ow && y < oh) ==> at(out, nw as int, x, y) == transparent()
        }),
{
    lemma_at_mapped(CelMap::Resize { ow, oh, nw, nh }, old, x, y);
}

/// Resizing to the size the canvas already has changes no pixel.
pub proof fn law_resize_same_size(old: Seq<Color>, w: usize, h: usize)
    requires
        old.len() == w * h,
    ensures
        (CelMap::Resize { ow: w, oh: h, nw: w, nh: h }).apply_spec(old) == old,
{
    let m = CelMap::Resize { ow: w, oh: h, nw: w, nh: h };
    let out = m.apply_spec(old);
    assert forall|i: int| 0 <= i < old.len() implies #[trigger] out[i] == old[i] by {
        assert(w > 0) by (nonlinear_arith) requires 0 <= i < w * h;
        crate::grid::lemma_index_decompose(w as int, h as int, i);
        lemma_at_mapped(m, old, i % (w as int), i / (w as int));
    }
    assert(out =~= old);
}

/// Cropping to a selection that lies on the canvas keeps exactly the
/// selected rectangle, whichever corner the selection was started from:
/// the new canvas is as wide and as high as the selection, and its pixel
/// `(x, y)` is the old pixel `(x, y)` places right of and below the
/// selection's top left corner.
pub proof fn law_crop_keeps_selection(old: Seq<Color>, w: usize, h: usize, sel: Rect, x: int, y: int)
    requires
        old.len() == w * h,
        w * h <= usize::MAX,
        0 <= sel.0 < w && 0 <= sel.2 < w,
        0 <= sel.1 < h && 0 <= sel.3 < h,
    ensures
        ({
            let (x0, y0, x1, y1) = sel;
            let left = if x0 < x1 { x0 as int } else { x1 as int };
            let top = if y0 < y1 { y0 as int } else { y1 as int };
            let right = if x0 < x1 { x1 as int } else { x0 as int };
            let bottom = if y0 < y1 { y1 as int } else { y0 as int };
            let m = crop_map(sel, w, h);
            &&& crop_ok(sel, w as int, h as int)
            &&& m.valid(old.len())
            &&& m.new_w() == right - left + 1
            &&& m.new_h() == bottom - top + 1
            &&& crop_map((x1, y1, x0, y0), w, h) == m
            &&& on_canvas(m.new_w() as int, m.new_h() as int, x, y) ==>
                at(m.apply_spec(old), m.new_w() as int, x, y) == at(old, w as int, left + x, top + y)
        }),
{
    let m = crop_map(sel, w, h);
    let (x0, y0, x1, y1) = sel;
    assert((x0 as usize) as int == x0 && (x1 as usize) as int == x1);
    assert((y0 as usize) as int == y0 && (y1 as usize) as int == y1);
    assert(crop_ok(sel, w as int, h as int));
    assert(crop_map((x1, y1, x0, y0), w, h) == m);
    let left = if x0 < x1 { x0 as int } else { x1 as int };
    let top = if y0 < y1 { y0 as int } else { y1 as int };
    let right = if x0 < x1 { x1 as int } else { x0 as int };
    let bottom = if y0 < y1 { y1 as int } else { y0 as int };
    assert(m == CelMap::Crop { ow: w, oh: h, sx: left as usize, sy: top as usize,
        nw: (right - left + 1) as usize, nh: (bottom - top + 1) as usize });
    assert(m.new_w() == right - left + 1);
    assert(m.new_h() == bottom - top + 1);
    assert(m.new_w() * m.new_h() <= w * h) by (nonlinear_arith)
        requires m.new_w() <= w, m.new_h() <= h;
    assert(m.valid(old.len()));
    if on_canvas(m.new_w() as int, m.new_h() as int, x, y) {
        lemma_at_mapped(m, old, x, y);
        assert(at(m.apply_spec(old), m.new_w() as int, x, y) == at(old, w as int, left + x, top + y));
    }
}

/// Scaling up by a whole factor `k` turns every pixel into a `k` by `k`
/// block: pixel `(x, y)` of the scaled canvas is old pixel
/// `(x / k, y / k)`; with `k` = 1 every pixel stays where it was.
pub proof fn law_scale_by_factor(old: Seq<Color>, ow: usize, oh: usize, k: usize, x: int, y: int)
    requires
        old.len() == ow * oh,
        ow >= 1,
        oh >= 1,
        k >= 1,
        k * ow <= usize::MAX,
        k * oh <= usize::MAX,
        on_canvas(k * ow, k * oh, x, y),
    ensures
        ({
            let m = CelMap::Scale { ow, oh, nw: (k * ow) as usize, nh: (k * oh) as usize };
            at(m.apply_spec(old), k * ow, x, y) == at(old, ow as int, x / (k as int), y / (k as int))
        }),
{
    let m = CelMap::Scale { ow, oh, nw: (k * ow) as usize, nh: (k * oh) as usize };
    lemma_at_mapped(m, old, x, y);
    lemma_scale_src_factor(x, ow as int, k as int);
    lemma_scale_src_factor(y, oh as int, k as int);
}

/// Sampling `d` of `k * n` new pixels from `n` old ones picks `d / k`.
proof fn lemma_scale_src_factor(d: int, n: int, k: int)
    requires
        n >= 1,
        k >= 1,
        0 <= d < k * n,
    ensures
        scale_src(d, n, k * n) == d / k,
        0 <= d / k < n,
{
    let q = d / k;
    let r = d % k;
    vstd::arithmetic::div_mod::lemma_fundamental_div_mod(d, k);
    assert(0 <= r < k) by (nonlinear_arith) requires k >= 1, r == d % k;
    assert(d * n == q * (k * n) + r * n) by (nonlinear_arith)
        requires d == k * q + r;
    assert(0 <= r * n < k * n) by (nonlinear_arith)
        requires 0 <= r < k, n >= 1;
    vstd::arithmetic::div_mod::lemma_fundamental_div_mod_converse(d * n, k * n, q, r * n);
    assert(0 <= q < n) by (nonlinear_arith)
        requires d == k * q + r, 0 <= r < k, 0 <= d < k * n, k >= 1;
}

} // verus!
