//! Flattening the layers of a frame into one image.
use vstd::prelude::*;
use crate::color::{Color, transparent, mix, mix_spec};
use crate::document::{Document, LayerView, layers_view};
use crate::grid::{at, on_canvas, blank_cel, lemma_index_in_bounds};

verus! {

/// Pixel `i` of frame `f` as the layers show it: the first visible layer,
/// counting from `l`, whose pixel there is not transparent gives it; where
/// there is none, the pixel is transparent. Layer 0 lies on top.
pub open spec fn top_pixel(layers: Seq<LayerView>, f: int, i: int, l: int) -> Color
    decreases layers.len() - l,
{
    if l < 0 || l >= layers.len() {
        transparent()
    } else if layers[l].visible && layers[l].cels[f][i] != transparent() {
        layers[l].cels[f][i]
    } else {
        top_pixel(layers, f, i, l + 1)
    }
}

/// The light or dark square of the transparency checkerboard at `(x, y)`.
pub open spec fn checker(x: int, y: int) -> Color {
    if (x + y) % 2 == 0 {
        Color { r: 200, g: 200, b: 200, a: 255 }
    } else {
        Color { r: 180, g: 180, b: 180, a: 255 }
    }
}

/// How the canvas shows pixel `c` at `(x, y)`: transparent pixels show the
/// checkerboard, translucent ones are laid over it, opaque ones as they are.
pub open spec fn display_pixel(c: Color, x: int, y: int) -> Color {
    let cb = checker(x, y);
    if c == transparent() {
        cb
    } else if c.a < 255 {
        Color {
            r: mix_spec(c.r as int, cb.r as int, c.a as int) as u8,
            g: mix_spec(c.g as int, cb.g as int, c.a as int) as u8,
            b: mix_spec(c.b as int, cb.b as int, c.a as int) as u8,
            a: 255,
        }
    } else {
        c
    }
}

/// How a timeline thumbnail shows pixel `c` at `(x, y)`: pixels with zero
/// alpha show the checkerboard, others are kept.
pub open spec fn thumb_pixel(c: Color, x: int, y: int) -> Color {
    if c.a == 0 { checker(x, y) } else { c }
}

/// The checkerboard square at `(x, y)`.
pub fn checker_at(x: usize, y: usize) -> (c: Color)
    ensures
        c == checker(x as int, y as int),
{
    let parity: usize = x % 2 + y % 2;
    assert((x % 2 + y % 2) % 2 == (x + y) % 2) by (nonlinear_arith);
    if parity % 2 == 0 { Color::from_gray(200) } else { Color::from_gray(180) }
}

impl Document {
    /// The flattened pixel `i` of frame `f`.
    pub open spec fn flat_pixel(&self, f: int, i: int) -> Color {
        if 0 <= f < self.frames {
            top_pixel(layers_view(self.layers@), f, i, 0)
        } else {
            transparent()
        }
    }

    /// Flattens frame `frame`: each pixel comes from the topmost visible
    /// layer that is not transparent there. A frame past the end gives a
    /// transparent image.
    pub fn composite_at(&self, frame: usize) -> (out: Vec<Color>)
        requires
            self.wf(),
        ensures
            out@.len() == self.npix(),
            forall|i: int| 0 <= i < self.npix() ==> #[trigger] out@[i] == self.flat_pixel(frame as int, i),
    {
        proof { self.lemma_shape(); }
        let n: usize = self.width * self.height;
        let mut out = blank_cel(n);
        if self.layers.len() == 0 || frame >= self.frames {
            return out;
        }
        let ghost lv = layers_view(self.layers@);
        let mut l: usize = self.layers.len();
        while l > 0
            invariant
                self.wf(),
                n == self.npix(),
                frame < self.frames,
                lv == layers_view(self.layers@),
                l <= self.layers@.len(),
                out@.len() == n,
                forall|i: int| 0 <= i < n ==> #[trigger] out@[i] == top_pixel(lv, frame as int, i, l as int),
            decreases l,
        {
            l = l - 1;
            proof { self.lemma_shape(); }
            assert(self.cel(l as int, frame as int).len() == n);
            if self.layers[l].visible {
                let cel = &self.layers[l].cels[frame];
                assert(lv[l as int] == self.layers@[l as int]@);
                assert(lv[l as int].cels[frame as int] == cel@);
                let mut i: usize = 0;
                while i < n
                    invariant
                        self.wf(),
                        n == self.npix(),
                        frame < self.frames,
                        lv == layers_view(self.layers@),
                        l < self.layers@.len(),
                        self.layers@[l as int].visible,
                        cel@ == self.cel(l as int, frame as int),
                        lv[l as int].cels[frame as int] == cel@,
                        cel@.len() == n,
                        i <= n,
                        out@.len() == n,
                        forall|j: int| 0 <= j < i ==> #[trigger] out@[j] == top_pixel(lv, frame as int, j, l as int),
                        forall|j: int| i <= j < n ==> #[trigger] out@[j] == top_pixel(lv, frame as int, j, l + 1),
                    decreases n - i,
                {
                    let p = cel[i];
                    if !p.is_transparent() {
                        out.set(i, p);
                    }
                    i = i + 1;
                }
            } else {
                assert forall|i: int| 0 <= i < n implies #[trigger] out@[i] == top_pixel(lv, frame as int, i, l as int) by {
                    assert(out@[i] == top_pixel(lv, frame as int, i, l + 1));
                }
            }
        }
        out
    }

    /// Flattens the active frame.
    pub fn composite(&self) -> (out: Vec<Color>)
        requires
            self.wf(),
        ensures
            out@.len() == self.npix(),
            forall|i: int| 0 <= i < self.npix() ==> #[trigger] out@[i] == self.flat_pixel(self.active_frame as int, i),
    {
        self.composite_at(self.active_frame)
    }

    /// The flattened pixel `i` of frame `f`, found by walking the layers from
    /// the top down.
    fn top_pixel_at(&self, f: usize, i: usize) -> (c: Color)
        requires
            self.wf(),
            f < self.frames,
            i < self.npix(),
        ensures
            c == self.flat_pixel(f as int, i as int),
    {
        let ghost lv = layers_view(self.layers@);
        let mut l: usize = 0;
        while l < self.layers.len()
            invariant
                self.wf(),
                f < self.frames,
                i < self.npix(),
                lv == layers_view(self.layers@),
                l <= self.layers@.len(),
                top_pixel(lv, f as int, i as int, 0) == top_pixel(lv, f as int, i as int, l as int),
            decreases self.layers@.len() - l,
        {
            proof { self.lemma_shape(); }
            assert(self.cel(l as int, f as int).len() == self.npix());
            if self.layers[l].visible {
                let p = self.layers[l].cels[f][i];
                assert(lv[l as int] == self.layers@[l as int]@);
                assert(lv[l as int].cels[f as int] == self.cel(l as int, f as int));
                if !p.is_transparent() {
                    return p;
                }
            }
            l = l + 1;
        }
        Color::transparent()
    }

    /// What the canvas shows: the active frame flattened and laid over the
    /// transparency checkerboard.
    pub fn composite_display(&self) -> (out: Vec<Color>)
        requires
            self.wf(),
        ensures
            out@.len() == self.npix(),
            forall|x: int, y: int|
                on_canvas(self.width as int, self.height as int, x, y) ==> #[trigger] at(out@, self.width as int, x, y)
                    == display_pixel(self.flat_pixel(self.active_frame as int, y * self.width + x), x, y),
    {
        proof { self.lemma_shape(); }
        let w: usize = self.width;
        let h: usize = self.height;
        let mut out: Vec<Color> = Vec::new();
        let mut y: usize = 0;
        while y < h
            invariant
                self.wf(),
                w == self.width,
                h == self.height,
                self.npix() <= usize::MAX,
                y <= h,
                out@.len() == y * w,
                forall|xx: int, yy: int|
                    0 <= xx < w && 0 <= yy < y ==> #[trigger] at(out@, w as int, xx, yy)
                        == display_pixel(self.flat_pixel(self.active_frame as int, yy * w + xx), xx, yy),
            decreases h - y,
        {
            let mut x: usize = 0;
            while x < w
                invariant
                    self.wf(),
                    w == self.width,
                    h == self.height,
                    self.npix() <= usize::MAX,
                    y < h,
                    x <= w,
                    out@.len() == y * w + x,
                    forall|xx: int, yy: int|
                        0 <= xx < w && 0 <= yy < y ==> #[trigger] at(out@, w as int, xx, yy)
                            == display_pixel(self.flat_pixel(self.active_frame as int, yy * w + xx), xx, yy),
                    forall|xx: int| 0 <= xx < x ==> #[trigger] at(out@, w as int, xx, y as int)
                        == display_pixel(self.flat_pixel(self.active_frame as int, y * w + xx), xx, y as int),
                decreases w - x,
            {
                proof { lemma_index_in_bounds(w as int, h as int, x as int, y as int); }
                let idx: usize = y * w + x;
                let c = self.top_pixel_at(self.active_frame, idx);
                let cb = checker_at(x, y);
                let shown = if c.is_transparent() {
                    cb
                } else if c.a < 255 {
                    Color::from_rgba_premultiplied(mix(c.r, cb.r, c.a), mix(c.g, cb.g, c.a), mix(c.b, cb.b, c.a), 255)
                } else {
                    c
                };
                let ghost before = out@;
                out.push(shown);
                assert forall|xx: int, yy: int|
                    0 <= xx < w && 0 <= yy < y implies #[trigger] at(out@, w as int, xx, yy)
                        == display_pixel(self.flat_pixel(self.active_frame as int, yy * w + xx), xx, yy) by {
                    lemma_index_in_bounds(w as int, y as int, xx, yy);
                    assert(w as int * y == y * w as int) by (nonlinear_arith);
                    assert(at(out@, w as int, xx, yy) == at(before, w as int, xx, yy));
                }
                assert forall|xx: int| 0 <= xx < x + 1 implies #[trigger] at(out@, w as int, xx, y as int)
                    == display_pixel(self.flat_pixel(self.active_frame as int, y * w + xx), xx, y as int) by {
                    if xx < x {
                        assert(at(out@, w as int, xx, y as int) == at(before, w as int, xx, y as int));
                    }
                }
                x = x + 1;
            }
            proof {
                assert(out@.len() == (y + 1) * w) by (nonlinear_arith)
                    requires out@.len() == y * w + w;
            }
            y = y + 1;
        }
        assert(h * w == w * h) by (nonlinear_arith);
        out
    }

    /// The picture of frame `f` for the timeline: flattened, with the
    /// checkerboard wherever alpha is zero.
    pub fn thumbnail(&self, f: usize) -> (out: Vec<Color>)
        requires
            self.wf(),
        ensures
            out@.len() == self.npix(),
            forall|x: int, y: int|
                on_canvas(self.width as int, self.height as int, x, y) ==> #[trigger] at(out@, self.width as int, x, y)
                    == thumb_pixel(self.flat_pixel(f as int, y * self.width + x), x, y),
    {
        proof { self.lemma_shape(); }
        let flat = self.composite_at(f);
        let w: usize = self.width;
        let h: usize = self.height;
        let mut out: Vec<Color> = Vec::new();
        let mut y: usize = 0;
        while y < h
            invariant
                self.wf(),
                w == self.width,
                h == self.height,
                self.npix() <= usize::MAX,
                flat@.len() == self.npix(),
                forall|i: int| 0 <= i < self.npix() ==> #[trigger] flat@[i] == self.flat_pixel(f as int, i),
                y <= h,
                out@.len() == y * w,
                forall|xx: int, yy: int|
                    0 <= xx < w && 0 <= yy < y ==> #[trigger] at(out@, w as int, xx, yy)
                        == thumb_pixel(self.flat_pixel(f as int, yy * w + xx), xx, yy),
            decreases h - y,
        {
            let mut x: usize = 0;
            while x < w
                invariant
                    self.wf(),
                    w == self.width,
                    h == self.height,
                    self.npix() <= usize::MAX,
                    flat@.len() == self.npix(),
                    forall|i: int| 0 <= i < self.npix() ==> #[trigger] flat@[i] == self.flat_pixel(f as int, i),
                    y < h,
                    x <= w,
                    out@.len() == y * w + x,
                    forall|xx: int, yy: int|
                        0 <= xx < w && 0 <= yy < y ==> #[trigger] at(out@, w as int, xx, yy)
                            == thumb_pixel(self.flat_pixel(f as int, yy * w + xx), xx, yy),
                    forall|xx: int| 0 <= xx < x ==> #[trigger] at(out@, w as int, xx, y as int)
                        == thumb_pixel(self.flat_pixel(f as int, y * w + xx), xx, y as int),
                decreases w - x,
            {
                proof { lemma_index_in_bounds(w as int, h as int, x as int, y as int); }
                let c = flat[y * w + x];
                let shown = if c.a == 0 { checker_at(x, y) } else { c };
                let ghost before = out@;
                out.push(shown);
                assert forall|xx: int, yy: int|
                    0 <= xx < w && 0 <= yy < y implies #[trigger] at(out@, w as int, xx, yy)
                        == thumb_pixel(self.flat_pixel(f as int, yy * w + xx), xx, yy) by {
                    lemma_index_in_bounds(w as int, y as int, xx, yy);
                    assert(w as int * y == y * w as int) by (nonlinear_arith);
                    assert(at(out@, w as int, xx, yy) == at(before, w as int, xx, yy));
                }
                assert forall|xx: int| 0 <= xx < x + 1 implies #[trigger] at(out@, w as int, xx, y as int)
                    == thumb_pixel(self.flat_pixel(f as int, y * w + xx), xx, y as int) by {
                    if xx < x {
                        assert(at(out@, w as int, xx, y as int) == at(before, w as int, xx, y as int));
                    }
                }
                x = x + 1;
            }
            proof {
                assert(out@.len() == (y + 1) * w) by (nonlinear_arith)
                    requires out@.len() == y * w + w;
            }
            y = y + 1;
        }
        assert(h * w == w * h) by (nonlinear_arith);
        out
    }
}

/// A layer whose pixel `i` of frame `f` shows: visible and not transparent.
pub open spec fn shows(layers: Seq<LayerView>, f: int, i: int, l: int) -> bool {
    layers[l].visible && layers[l].cels[f][i] != transparent()
}

proof fn lemma_top_from(layers: Seq<LayerView>, f: int, i: int, s: int)
    requires
        0 <= s <= layers.len(),
    ensures
        forall|l: int| s <= l < layers.len() && shows(layers, f, i, l)
            && (forall|k: int| s <= k < l ==> !shows(layers, f, i, k)) ==> top_pixel(layers, f, i, s) == layers[l].cels[f][i],
        (forall|k: int| s <= k < layers.len() ==> !shows(layers, f, i, k)) ==> top_pixel(layers, f, i, s) == transparent(),
    decreases layers.len() - s,
{
    if s < layers.len() {
        lemma_top_from(layers, f, i, s + 1);
        if shows(layers, f, i, s) {
            assert(top_pixel(layers, f, i, s) == layers[s].cels[f][i]);
        } else {
            assert(top_pixel(layers, f, i, s) == top_pixel(layers, f, i, s + 1));
            assert forall|l: int| s <= l < layers.len() && shows(layers, f, i, l)
                && (forall|k: int| s <= k < l ==> !shows(layers, f, i, k)) implies top_pixel(layers, f, i, s) == layers[l].cels[f][i] by {
                assert(l != s);
                assert forall|k: int| s + 1 <= k < l implies !shows(layers, f, i, k) by {}
            }
        }
    }
}

/// Compositing shows, at every pixel, the first layer (lowest index, the
/// topmost) that is visible and not transparent there, and transparency
/// where there is none: hidden layers and transparent pixels never show.
pub proof fn law_topmost_visible_wins(layers: Seq<LayerView>, f: int, i: int, l: int)
    ensures
        0 <= l < layers.len() && shows(layers, f, i, l) && (forall|k: int| 0 <= k < l ==> !shows(layers, f, i, k))
            ==> top_pixel(layers, f, i, 0) == layers[l].cels[f][i],
        (forall|k: int| 0 <= k < layers.len() ==> !shows(layers, f, i, k)) ==> top_pixel(layers, f, i, 0) == transparent(),
{
    lemma_top_from(layers, f, i, 0);
}

/// On the canvas a transparent pixel shows the checkerboard (light grey 200
/// where `x + y` is even, dark grey 180 where odd, so neighbours differ), an
/// opaque pixel shows as it is, and nothing shown is see-through.
pub proof fn law_display_checkerboard(c: Color, x: int, y: int)
    ensures
        display_pixel(c, x, y).a == 255,
        c == transparent() && (x + y) % 2 == 0 ==> display_pixel(c, x, y) == (Color { r: 200, g: 200, b: 200, a: 255 }),
        c == transparent() && (x + y) % 2 != 0 ==> display_pixel(c, x, y) == (Color { r: 180, g: 180, b: 180, a: 255 }),
        c == transparent() ==> display_pixel(c, x, y) != display_pixel(c, x + 1, y) && display_pixel(c, x, y) != display_pixel(c, x, y + 1),
        c.a == 255 ==> display_pixel(c, x, y) == c,
{
}

} // verus!
