//! Brush strokes: square stamps, Bresenham lines, flood fill, mirroring.
use vstd::prelude::*;
use crate::color::{Color, transparent};
use crate::document::{Document, Rect};
use crate::fill::{flood_filled, fill_cel};
use crate::grid::{at, on_canvas, copy_pixels, lemma_index_in_bounds, lemma_index_injective, lemma_index_decompose};
use crate::line::{line_trace, trace_from, span_x, span_y, dir, line_err, line_measure, steps_x, steps_y,
    lemma_trace_unfold, lemma_dir_mul, lemma_trace_single, lemma_err_step};

verus! {

/// How far a brush of size `b` reaches left of (and above) its center.
pub open spec fn brush_half(b: int) -> int {
    if b <= 0 { 0 } else { (b - 1) / 2 }
}

/// A `b` by `b` brush stamped at `(cx, cy)` covers `(x, y)`.
pub open spec fn stamp_covers(cx: int, cy: int, b: int, x: int, y: int) -> bool {
    let half = brush_half(b);
    cx - half <= x < cx - half + b && cy - half <= y < cy - half + b
}

/// `(x, y)` may be painted under the selection `sel` (anywhere when there
/// is none; inside the rectangle, corners included, when there is one).
pub open spec fn in_sel(sel: Option<Rect>, x: int, y: int) -> bool {
    match sel {
        Some((x0, y0, x1, y1)) => x0 <= x <= x1 && y0 <= y <= y1,
        None => true,
    }
}

/// Whether `sel` allows painting `(x, y)`.
pub fn sel_allows(sel: Option<Rect>, x: i64, y: i64) -> (res: bool)
    ensures
        res == in_sel(sel, x as int, y as int),
{
    match sel {
        Some((x0, y0, x1, y1)) => x0 as i64 <= x && x <= x1 as i64 && y0 as i64 <= y && y <= y1 as i64,
        None => true,
    }
}

/// The `w`-wide cel `old` after a brush of size `b` in `color` was stamped
/// at `(cx, cy)` under the selection `sel`.
pub open spec fn stamped(old: Seq<Color>, w: int, sel: Option<Rect>, cx: int, cy: int, b: int, color: Color) -> Seq<Color> {
    Seq::new(old.len(), |i: int|
        if stamp_covers(cx, cy, b, i % w, i / w) && in_sel(sel, i % w, i / w) { color } else { old[i] })
}

/// Stamps a `b` by `b` brush centered at `(cx, cy)` into a `w` by `h` cel:
/// every covered pixel that lies on the canvas and inside `sel` becomes
/// `color`.
pub fn stamp(cel: &mut Vec<Color>, w: usize, h: usize, sel: Option<Rect>, cx: i64, cy: i64, b: usize, color: Color)
    requires
        old(cel)@.len() == w * h,
        w > 0,
        b <= i32::MAX,
        i32::MIN - i32::MAX <= cx <= i32::MAX + i32::MAX,
        i32::MIN - i32::MAX <= cy <= i32::MAX + i32::MAX,
    ensures
        final(cel)@ == stamped(old(cel)@, w as int, sel, cx as int, cy as int, b as int, color),
{
    let ghost orig = cel@;
    let n: usize = cel.len();
    let bi: i64 = b as i64;
    let half: i64 = if bi == 0 { 0 } else { (bi - 1) / 2 };
    assert(half == brush_half(b as int));
    let mut dy: usize = 0;
    while dy < b
        invariant
            cel@.len() == w * h,
            n == w * h,
            w > 0,
            b <= i32::MAX,
            bi == b,
            half == brush_half(b as int),
            0 <= half <= b,
            i32::MIN - i32::MAX <= cx <= i32::MAX + i32::MAX,
            i32::MIN - i32::MAX <= cy <= i32::MAX + i32::MAX,
            dy <= b,
            forall|x: int, y: int| on_canvas(w as int, h as int, x, y) ==> #[trigger] at(cel@, w as int, x, y) ==
                if stamp_covers(cx as int, cy as int, b as int, x, y) && y < cy - half + dy && in_sel(sel, x, y) {
                    color
                } else {
                    at(orig, w as int, x, y)
                },
        decreases b - dy,
    {
        let mut dx: usize = 0;
        while dx < b
            invariant
                cel@.len() == w * h,
                n == w * h,
                w > 0,
                b <= i32::MAX,
                bi == b,
                half == brush_half(b as int),
                0 <= half <= b,
                i32::MIN - i32::MAX <= cx <= i32::MAX + i32::MAX,
                i32::MIN - i32::MAX <= cy <= i32::MAX + i32::MAX,
                dy < b,
                dx <= b,
                forall|x: int, y: int| on_canvas(w as int, h as int, x, y) ==> #[trigger] at(cel@, w as int, x, y) ==
                    if stamp_covers(cx as int, cy as int, b as int, x, y) && in_sel(sel, x, y) && (y < cy - half + dy
                        || (y == cy - half + dy && x < cx - half + dx)) {
                        color
                    } else {
                        at(orig, w as int, x, y)
                    },
            decreases b - dx,
        {
            let x: i64 = cx + dx as i64 - half;
            let y: i64 = cy + dy as i64 - half;
            if x >= 0 && y >= 0 && (x as u64) < (w as u64) && (y as u64) < (h as u64) && sel_allows(sel, x, y) {
                let xu: usize = x as usize;
                let yu: usize = y as usize;
                proof { lemma_index_in_bounds(w as int, h as int, xu as int, yu as int); }
                let ghost before = cel@;
                cel[yu * w + xu] = color;
                assert forall|x2: int, y2: int| on_canvas(w as int, h as int, x2, y2) implies #[trigger] at(cel@, w as int, x2, y2) ==
                    if stamp_covers(cx as int, cy as int, b as int, x2, y2) && in_sel(sel, x2, y2) && (y2 < cy - half + dy
                        || (y2 == cy - half + dy && x2 < cx - half + dx + 1)) {
                        color
                    } else {
                        at(orig, w as int, x2, y2)
                    } by {
                    lemma_index_in_bounds(w as int, h as int, x2, y2);
                    if x2 != xu || y2 != yu {
                        if y2 * w + x2 == yu * w + xu {
                            lemma_index_injective(w as int, h as int, x2, y2, xu as int, yu as int);
                        }
                        assert(at(cel@, w as int, x2, y2) == at(before, w as int, x2, y2));
                    }
                }
            }
            dx = dx + 1;
        }
        dy = dy + 1;
    }
    assert(cel@ =~= stamped(orig, w as int, sel, cx as int, cy as int, b as int, color)) by {
        assert forall|i: int| 0 <= i < cel@.len() implies #[trigger] cel@[i]
            == stamped(orig, w as int, sel, cx as int, cy as int, b as int, color)[i] by {
            lemma_index_decompose(w as int, h as int, i);
            assert(at(cel@, w as int, i % w as int, i / w as int) == cel@[i]);
        }
    }
}

/// Some stamp centered on a point of `pts` covers `(x, y)`.
pub open spec fn covered_by(pts: Seq<(int, int)>, b: int, x: int, y: int) -> bool {
    exists|k: int| 0 <= k < pts.len() && #[trigger] stamp_covers(pts[k].0, pts[k].1, b, x, y)
}

/// The `w`-wide cel `old` after a brush of size `b` in `color` was stamped
/// at every point of `pts` under the selection `sel`.
pub open spec fn line_painted(old: Seq<Color>, w: int, sel: Option<Rect>, pts: Seq<(int, int)>, b: int, color: Color) -> Seq<Color> {
    Seq::new(old.len(), |i: int|
        if covered_by(pts, b, i % w, i / w) && in_sel(sel, i % w, i / w) { color } else { old[i] })
}

/// Stamping one more point extends the painted set by that point.
pub proof fn lemma_stamp_push(old: Seq<Color>, w: int, sel: Option<Rect>, pts: Seq<(int, int)>, p: (int, int), b: int, color: Color)
    ensures
        stamped(line_painted(old, w, sel, pts, b, color), w, sel, p.0, p.1, b, color)
            == line_painted(old, w, sel, pts.push(p), b, color),
{
    let lhs = stamped(line_painted(old, w, sel, pts, b, color), w, sel, p.0, p.1, b, color);
    let rhs = line_painted(old, w, sel, pts.push(p), b, color);
    assert forall|i: int| 0 <= i < old.len() implies #[trigger] lhs[i] == rhs[i] by {
        let x = i % w;
        let y = i / w;
        let q = pts.push(p);
        if stamp_covers(p.0, p.1, b, x, y) {
            assert(q[pts.len() as int] == p);
            assert(covered_by(q, b, x, y));
        } else if covered_by(pts, b, x, y) {
            let k = choose|k: int| 0 <= k < pts.len() && #[trigger] stamp_covers(pts[k].0, pts[k].1, b, x, y);
            assert(q[k] == pts[k]);
            assert(covered_by(q, b, x, y));
        } else {
            if covered_by(q, b, x, y) {
                let k = choose|k: int| 0 <= k < q.len() && #[trigger] stamp_covers(q[k].0, q[k].1, b, x, y);
                if k < pts.len() {
                    assert(q[k] == pts[k]);
                } else {
                    assert(q[k] == p);
                }
            }
        }
    }
    assert(lhs =~= rhs);
}

/// Nothing painted leaves the cel as it was.
pub proof fn lemma_painted_none(old: Seq<Color>, w: int, sel: Option<Rect>, b: int, color: Color)
    ensures
        line_painted(old, w, sel, Seq::empty(), b, color) == old,
{
    assert(line_painted(old, w, sel, Seq::empty(), b, color) =~= old);
}

impl Document {
    /// Stamps the brush (a `brush` by `brush` square) in `color` at
    /// `(px, py)` on the active cel, inside the canvas and the selection.
    pub fn paint_pixel(&mut self, px: i32, py: i32, color: Color, brush: usize)
        requires
            old(self).wf(),
            brush <= i32::MAX,
        ensures
            final(self).wf(),
            final(self).content() == old(self).content().set_active_cel(
                stamped(old(self).active_cel(), old(self).width as int, old(self).sel, px as int, py as int, brush as int, color)),
            final(self).ui() == old(self).ui().dirtied(),
            final(self).same_history(old(self)),
    {
        proof { self.lemma_shape(); }
        let l: usize = self.active_layer;
        let f: usize = self.active_frame;
        let w: usize = self.width;
        let h: usize = self.height;
        let mut cel = copy_pixels(&self.layers[l].cels[f]);
        if w > 0 && h > 0 {
            stamp(&mut cel, w, h, self.sel, px as i64, py as i64, brush, color);
        } else {
            assert(w * h == 0) by (nonlinear_arith) requires w == 0 || h == 0;
            assert(cel@ =~= stamped(self.active_cel(), w as int, self.sel, px as int, py as int, brush as int, color));
        }
        self.put_cel(l, f, cel);
        self.canvas_dirty = true;
    }

    /// Flood-fills the active cel with `new` from `(px, py)`: the pixels
    /// reachable from there through edge-sharing pixels of the start pixel's
    /// color, inside the canvas and the selection, turn `new`. Nothing
    /// happens when the start lies off the canvas or outside the selection,
    /// or already has the color `new`.
    pub fn flood_fill(&mut self, px: i32, py: i32, new: Color)
        requires
            old(self).wf(),
        ensures
            final(self).wf(),
            final(self).same_history(old(self)),
            old(self).fill_applies(px as int, py as int, new) ==> {
                &&& final(self).content() == old(self).content().set_active_cel(
                    flood_filled(old(self).active_cel(), old(self).width as int, old(self).height as int, old(self).sel,
                        px as int, py as int, new))
                &&& final(self).ui() == old(self).ui().dirtied()
            },
            !old(self).fill_applies(px as int, py as int, new) ==> {
                &&& final(self).content() == old(self).content()
                &&& final(self).ui() == old(self).ui()
            },
    {
        proof { self.lemma_shape(); }
        let l: usize = self.active_layer;
        let f: usize = self.active_frame;
        let w: usize = self.width;
        let h: usize = self.height;
        if px < 0 || py < 0 || (px as u64) >= (w as u64) || (py as u64) >= (h as u64) {
            return;
        }
        let x: usize = px as usize;
        let y: usize = py as usize;
        if !crate::fill::sel_allows_at(self.sel, x, y) {
            return;
        }
        proof { lemma_index_in_bounds(w as int, h as int, x as int, y as int); }
        if self.layers[l].cels[f][y * w + x] == new {
            return;
        }
        let mut cel = copy_pixels(&self.layers[l].cels[f]);
        fill_cel(&mut cel, w, h, self.sel, x, y, new);
        self.put_cel(l, f, cel);
        self.canvas_dirty = true;
    }

    /// Whether a flood fill from `(px, py)` with `new` changes anything:
    /// the start lies on the canvas and inside the selection, and its color
    /// is not `new`.
    pub open spec fn fill_applies(&self, px: int, py: int, new: Color) -> bool {
        &&& on_canvas(self.width as int, self.height as int, px, py)
        &&& in_sel(self.sel, px, py)
        &&& at(self.active_cel(), self.width as int, px, py) != new
    }

    /// Mirrors the active cel left to right.
    pub fn mirror_horizontal(&mut self)
        requires
            old(self).wf(),
        ensures
            final(self).wf(),
            final(self).content() == old(self).content().set_active_cel(mirrored_h(old(self).active_cel(), old(self).width as int)),
            final(self).ui() == old(self).ui().dirtied(),
            final(self).same_history(old(self)),
    {
        proof { self.lemma_shape(); }
        let l: usize = self.active_layer;
        let f: usize = self.active_frame;
        let mut cel = copy_pixels(&self.layers[l].cels[f]);
        mirror_cel_h(&mut cel, self.width, self.height);
        self.put_cel(l, f, cel);
        self.canvas_dirty = true;
    }

    /// Mirrors the active cel top to bottom.
    pub fn mirror_vertical(&mut self)
        requires
            old(self).wf(),
        ensures
            final(self).wf(),
            final(self).content() == old(self).content().set_active_cel(
                mirrored_v(old(self).active_cel(), old(self).width as int, old(self).height as int)),
            final(self).ui() == old(self).ui().dirtied(),
            final(self).same_history(old(self)),
    {
        proof { self.lemma_shape(); }
        let l: usize = self.active_layer;
        let f: usize = self.active_frame;
        let mut cel = copy_pixels(&self.layers[l].cels[f]);
        mirror_cel_v(&mut cel, self.width, self.height);
        self.put_cel(l, f, cel);
        self.canvas_dirty = true;
    }

    /// Draws a Bresenham line from `(x0, y0)` to `(x1, y1)` with the brush:
    /// the brush is stamped at every pixel of `line_trace`, so consecutive
    /// pointer positions join without gaps.
    pub fn paint_line(&mut self, x0: i32, y0: i32, x1: i32, y1: i32, color: Color, brush: usize)
        requires
            old(self).wf(),
            brush <= i32::MAX,
        ensures
            final(self).wf(),
            final(self).content() == old(self).content().set_active_cel(
                line_painted(old(self).active_cel(), old(self).width as int, old(self).sel,
                    line_trace(x0 as int, y0 as int, x1 as int, y1 as int), brush as int, color)),
            final(self).ui() == old(self).ui().dirtied(),
            final(self).same_history(old(self)),
    {
        proof { self.lemma_shape(); }
        let l: usize = self.active_layer;
        let f: usize = self.active_frame;
        let w: usize = self.width;
        let h: usize = self.height;
        let sel = self.sel;
        let mut cel = copy_pixels(&self.layers[l].cels[f]);
        let ghost orig = cel@;
        let ghost trace = line_trace(x0 as int, y0 as int, x1 as int, y1 as int);
        if w == 0 || h == 0 {
            assert(w * h == 0) by (nonlinear_arith) requires w == 0 || h == 0;
            assert(cel@ =~= line_painted(orig, w as int, sel, trace, brush as int, color));
        } else {
            let ax: i64 = x0 as i64;
            let ay: i64 = y0 as i64;
            let bx: i64 = x1 as i64;
            let by: i64 = y1 as i64;
            let dx: i64 = if ax <= bx { bx - ax } else { ax - bx };
            let dyabs: i64 = if ay <= by { by - ay } else { ay - by };
            let dy: i64 = -dyabs;
            let sx: i64 = if ax < bx { 1 } else { -1 };
            let sy: i64 = if ay < by { 1 } else { -1 };
            let mut err: i128 = (dx + dy) as i128;
            let mut cx: i64 = ax;
            let mut cy: i64 = ay;
            let ghost mut i: int = 0;
            let ghost mut j: int = 0;
            let ghost mut done: Seq<(int, int)> = Seq::empty();
            proof {
                assert(dx == span_x(x0 as int, x1 as int));
                assert(dyabs == span_y(y0 as int, y1 as int));
                assert(trace == done + trace_from(x0 as int, y0 as int, x1 as int, y1 as int, 0, 0));
                lemma_painted_none(orig, w as int, sel, brush as int, color);
                lemma_dir_mul(x0 as int, x1 as int, 0);
                lemma_dir_mul(y0 as int, y1 as int, 0);
                lemma_err_step(dx as int, dyabs as int, 0, 0);
            }
            loop
                invariant_except_break
                    cel@.len() == w * h,
                    w > 0,
                    brush <= i32::MAX,
                    dx == span_x(x0 as int, x1 as int),
                    dyabs == span_y(y0 as int, y1 as int),
                    dy == -dyabs,
                    sx == dir(x0 as int, x1 as int),
                    sy == dir(y0 as int, y1 as int),
                    ax == x0 && ay == y0 && bx == x1 && by == y1,
                    0 <= i <= dx,
                    0 <= j <= dyabs,
                    cx == x0 + dir(x0 as int, x1 as int) * i,
                    cy == y0 + dir(y0 as int, y1 as int) * j,
                    err == line_err(dx as int, dyabs as int, i, j),
                    trace == done + trace_from(x0 as int, y0 as int, x1 as int, y1 as int, i, j),
                    cel@ == line_painted(orig, w as int, sel, done, brush as int, color),
                ensures
                    cel@.len() == w * h,
                    cel@ == line_painted(orig, w as int, sel, trace, brush as int, color),
                decreases line_measure(dx as int, dyabs as int, i, j),
            {
                proof {
                    lemma_dir_mul(x0 as int, x1 as int, i);
                    lemma_dir_mul(y0 as int, y1 as int, j);
                    lemma_trace_unfold(x0 as int, y0 as int, x1 as int, y1 as int, i, j);
                }
                stamp(&mut cel, w, h, sel, cx, cy, brush, color);
                proof {
                    lemma_stamp_push(orig, w as int, sel, done, (cx as int, cy as int), brush as int, color);
                    done = done.push((cx as int, cy as int));
                }
                if cx == bx && cy == by {
                    proof {
                        assert(i == dx && j == dyabs);
                        assert(trace_from(x0 as int, y0 as int, x1 as int, y1 as int, i, j) == seq![(cx as int, cy as int)]);
                        assert(trace =~= done);
                    }
                    break;
                }
                proof {
                    let t = trace_from(x0 as int, y0 as int, x1 as int, y1 as int, i, j);
                    assert(!(i == dx && j == dyabs));
                    let i2 = if steps_x(dx as int, dyabs as int, i, j) { i + 1 } else { i };
                    let j2 = if steps_y(dx as int, dyabs as int, i, j) { j + 1 } else { j };
                    assert(trace =~= done + trace_from(x0 as int, y0 as int, x1 as int, y1 as int, i2, j2));
                    let e = line_err(dx as int, dyabs as int, i, j);
                    assert(0 <= dx * (1 + j) <= dx * (1 + dyabs)) by (nonlinear_arith)
                        requires 0 <= dx, 0 <= j <= dyabs;
                    assert(0 <= dyabs * (1 + i) <= dyabs * (1 + dx)) by (nonlinear_arith)
                        requires 0 <= dyabs, 0 <= i <= dx;
                    assert(dx * (1 + dyabs) <= 0x1_0000_0000 * 0x1_0000_0001) by (nonlinear_arith)
                        requires 0 <= dx <= 0x1_0000_0000, 0 <= dyabs <= 0x1_0000_0000;
                    assert(dyabs * (1 + dx) <= 0x1_0000_0000 * 0x1_0000_0001) by (nonlinear_arith)
                        requires 0 <= dyabs <= 0x1_0000_0000, 0 <= dx <= 0x1_0000_0000;
                }
                let e2: i128 = 2 * err;
                let ghost i0: int = i;
                let ghost j0: int = j;
                if e2 >= dy as i128 {
                    err = err + dy as i128;
                    cx = cx + sx;
                    proof { i = i + 1; }
                }
                if e2 <= dx as i128 {
                    err = err + dx as i128;
                    cy = cy + sy;
                    proof { j = j + 1; }
                }
                proof {
                    lemma_err_step(dx as int, dyabs as int, i0, j0);
                    lemma_err_step(dx as int, dyabs as int, i0 + 1, j0);
                    lemma_dir_mul(x0 as int, x1 as int, i);
                    lemma_dir_mul(y0 as int, y1 as int, j);
                }
            }
        }
        self.put_cel(l, f, cel);
        self.canvas_dirty = true;
    }
}

/// The cel mirrored left to right.
pub open spec fn mirrored_h(old: Seq<Color>, w: int) -> Seq<Color> {
    Seq::new(old.len(), |i: int| at(old, w, w - 1 - i % w, i / w))
}

/// The cel mirrored top to bottom.
pub open spec fn mirrored_v(old: Seq<Color>, w: int, h: int) -> Seq<Color> {
    Seq::new(old.len(), |i: int| at(old, w, i % w, h - 1 - i / w))
}

/// Mirrors a `w` by `h` cel left to right, in place.
pub fn mirror_cel_h(cel: &mut Vec<Color>, w: usize, h: usize)
    requires
        old(cel)@.len() == w * h,
    ensures
        final(cel)@ == mirrored_h(old(cel)@, w as int),
{
    let ghost orig = cel@;
    let ghost wi = w as int;
    let ghost hi = h as int;
    let n: usize = cel.len();
    let mut y: usize = 0;
    while y < h
        invariant
            cel@.len() == w * h,
            n == w * h,
            wi == w && hi == h,
            y <= h,
            forall|xx: int, yy: int| on_canvas(wi, hi, xx, yy) ==> #[trigger] at(cel@, wi, xx, yy)
                == if yy < y { at(orig, wi, wi - 1 - xx, yy) } else { at(orig, wi, xx, yy) },
        decreases h - y,
    {
        let mut x: usize = 0;
        while x < w / 2
            invariant
                cel@.len() == w * h,
                n == w * h,
                wi == w && hi == h,
                y < h,
                x <= w / 2,
                forall|xx: int, yy: int| on_canvas(wi, hi, xx, yy) ==> #[trigger] at(cel@, wi, xx, yy)
                    == if yy < y || (yy == y && (xx < x || xx > wi - 1 - x)) {
                        at(orig, wi, wi - 1 - xx, yy)
                    } else {
                        at(orig, wi, xx, yy)
                    },
            decreases w / 2 - x,
        {
            let xr: usize = w - 1 - x;
            proof {
                lemma_index_in_bounds(wi, hi, x as int, y as int);
                lemma_index_in_bounds(wi, hi, xr as int, y as int);
            }
            let a: usize = y * w + x;
            let b: usize = y * w + xr;
            let ghost before = cel@;
            let ca = cel[a];
            let cb = cel[b];
            assert(ca == at(before, wi, x as int, y as int));
            assert(cb == at(before, wi, xr as int, y as int));
            assert(a != b);
            cel[a] = cb;
            cel[b] = ca;
            assert(cel@[a as int] == cb && cel@[b as int] == ca);
            assert forall|xx: int, yy: int| on_canvas(wi, hi, xx, yy) implies #[trigger] at(cel@, wi, xx, yy)
                == if yy < y || (yy == y && (xx < x + 1 || xx > wi - 1 - (x + 1))) {
                    at(orig, wi, wi - 1 - xx, yy)
                } else {
                    at(orig, wi, xx, yy)
                } by {
                lemma_index_in_bounds(wi, hi, xx, yy);
                if yy * wi + xx == a {
                    lemma_index_injective(wi, hi, xx, yy, x as int, y as int);
                } else if yy * wi + xx == b {
                    lemma_index_injective(wi, hi, xx, yy, xr as int, y as int);
                } else {
                    assert(at(cel@, wi, xx, yy) == at(before, wi, xx, yy));
                    if yy == y && xx == x {
                        assert(false);
                    }
                    if yy == y && xx == xr {
                        assert(false);
                    }
                }
            }
            x = x + 1;
        }
        assert forall|xx: int, yy: int| on_canvas(wi, hi, xx, yy) implies #[trigger] at(cel@, wi, xx, yy)
            == if yy < y + 1 { at(orig, wi, wi - 1 - xx, yy) } else { at(orig, wi, xx, yy) } by {
            if yy == y && !(xx < x || xx > wi - 1 - x) {
                // the middle column of an odd width maps to itself
                assert(xx == wi - 1 - xx);
            }
        }
        y = y + 1;
    }
    assert(cel@ =~= mirrored_h(orig, wi)) by {
        assert forall|i: int| 0 <= i < cel@.len() implies #[trigger] cel@[i] == mirrored_h(orig, wi)[i] by {
            if wi > 0 {
                lemma_index_decompose(wi, hi, i);
                assert(at(cel@, wi, i % wi, i / wi) == cel@[i]);
            } else {
                assert(wi * hi == 0) by (nonlinear_arith) requires wi == 0;
            }
        }
    }
}

/// Mirrors a `w` by `h` cel top to bottom, in place.
pub fn mirror_cel_v(cel: &mut Vec<Color>, w: usize, h: usize)
    requires
        old(cel)@.len() == w * h,
    ensures
        final(cel)@ == mirrored_v(old(cel)@, w as int, h as int),
{
    let ghost orig = cel@;
    let ghost wi = w as int;
    let ghost hi = h as int;
    let n: usize = cel.len();
    let mut y: usize = 0;
    while y < h / 2
        invariant
            cel@.len() == w * h,
            n == w * h,
            wi == w && hi == h,
            y <= h / 2,
            forall|xx: int, yy: int| on_canvas(wi, hi, xx, yy) ==> #[trigger] at(cel@, wi, xx, yy)
                == if yy < y || yy > hi - 1 - y { at(orig, wi, xx, hi - 1 - yy) } else { at(orig, wi, xx, yy) },
        decreases h / 2 - y,
    {
        let yr: usize = h - 1 - y;
        let mut x: usize = 0;
        while x < w
            invariant
                cel@.len() == w * h,
                n == w * h,
                wi == w && hi == h,
                y < h / 2,
                yr == h - 1 - y,
                x <= w,
                forall|xx: int, yy: int| on_canvas(wi, hi, xx, yy) ==> #[trigger] at(cel@, wi, xx, yy)
                    == if yy < y || yy > hi - 1 - y || ((yy == y || yy == yr) && xx < x) {
                        at(orig, wi, xx, hi - 1 - yy)
                    } else {
                        at(orig, wi, xx, yy)
                    },
            decreases w - x,
        {
            proof {
                lemma_index_in_bounds(wi, hi, x as int, y as int);
                lemma_index_in_bounds(wi, hi, x as int, yr as int);
            }
            let a: usize = y * w + x;
            let b: usize = yr * w + x;
            let ghost before = cel@;
            let ca = cel[a];
            let cb = cel[b];
            assert(ca == at(before, wi, x as int, y as int));
            assert(cb == at(before, wi, x as int, yr as int));
            assert(a != b) by {
                if a == b {
                    lemma_index_injective(wi, hi, x as int, y as int, x as int, yr as int);
                }
            }
            cel[a] = cb;
            cel[b] = ca;
            assert(cel@[a as int] == cb && cel@[b as int] == ca);
            assert forall|xx: int, yy: int| on_canvas(wi, hi, xx, yy) implies #[trigger] at(cel@, wi, xx, yy)
                == if yy < y || yy > hi - 1 - y || ((yy == y || yy == yr) && xx < x + 1) {
                    at(orig, wi, xx, hi - 1 - yy)
                } else {
                    at(orig, wi, xx, yy)
                } by {
                lemma_index_in_bounds(wi, hi, xx, yy);
                if yy * wi + xx == a {
                    lemma_index_injective(wi, hi, xx, yy, x as int, y as int);
                } else if yy * wi + xx == b {
                    lemma_index_injective(wi, hi, xx, yy, x as int, yr as int);
                } else {
                    assert(at(cel@, wi, xx, yy) == at(before, wi, xx, yy));
                    if xx == x && yy == y {
                        assert(false);
                    }
                    if xx == x && yy == yr {
                        assert(false);
                    }
                }
            }
            x = x + 1;
        }
        y = y + 1;
    }
    assert(cel@ =~= mirrored_v(orig, wi, hi)) by {
        assert forall|i: int| 0 <= i < cel@.len() implies #[trigger] cel@[i] == mirrored_v(orig, wi, hi)[i] by {
            if wi > 0 {
                lemma_index_decompose(wi, hi, i);
                assert(at(cel@, wi, i % wi, i / wi) == cel@[i]);
                let yy = i / wi;
                if !(yy < y || yy > hi - 1 - y) {
                    // the middle row of an odd height maps to itself
                    assert(yy == hi - 1 - yy);
                }
            } else {
                assert(wi * hi == 0) by (nonlinear_arith) requires wi == 0;
            }
        }
    }
}

/// Mirroring left to right twice gives the cel back.
pub proof fn lemma_mirror_h_twice(c: Seq<Color>, w: int, h: int)
    requires
        c.len() == w * h,
        0 <= w,
        0 <= h,
    ensures
        mirrored_h(mirrored_h(c, w), w) == c,
{
    let m = mirrored_h(c, w);
    let mm = mirrored_h(m, w);
    assert forall|i: int| 0 <= i < c.len() implies #[trigger] mm[i] == c[i] by {
        assert(w > 0) by (nonlinear_arith) requires 0 <= i < w * h, 0 <= w, 0 <= h;
        lemma_index_decompose(w, h, i);
        let x = i % w;
        let y = i / w;
        let j = y * w + (w - 1 - x);
        crate::grid::lemma_index_in_bounds(w, h, w - 1 - x, y);
        assert(j % w == w - 1 - x && j / w == y) by {
            crate::grid::lemma_index_decompose(w, h, j);
            lemma_index_injective(w, h, j % w, j / w, w - 1 - x, y);
        }
    }
    assert(mm =~= c);
}

/// Mirroring top to bottom twice gives the cel back.
pub proof fn lemma_mirror_v_twice(c: Seq<Color>, w: int, h: int)
    requires
        c.len() == w * h,
        0 <= w,
        0 <= h,
    ensures
        mirrored_v(mirrored_v(c, w, h), w, h) == c,
{
    let m = mirrored_v(c, w, h);
    let mm = mirrored_v(m, w, h);
    assert forall|i: int| 0 <= i < c.len() implies #[trigger] mm[i] == c[i] by {
        assert(w > 0) by (nonlinear_arith) requires 0 <= i < w * h, 0 <= w, 0 <= h;
        lemma_index_decompose(w, h, i);
        let x = i % w;
        let y = i / w;
        let j = (h - 1 - y) * w + x;
        crate::grid::lemma_index_in_bounds(w, h, x, h - 1 - y);
        assert(j % w == x && j / w == h - 1 - y) by {
            crate::grid::lemma_index_decompose(w, h, j);
            lemma_index_injective(w, h, j % w, j / w, x, h - 1 - y);
        }
    }
    assert(mm =~= c);
}

/// A line from a point to itself paints exactly what one brush stamp there
/// paints.
pub proof fn lemma_line_to_itself(old: Seq<Color>, w: int, sel: Option<Rect>, x: int, y: int, b: int, color: Color)
    ensures
        line_painted(old, w, sel, line_trace(x, y, x, y), b, color) == stamped(old, w, sel, x, y, b, color),
{
    lemma_trace_single(x, y);
    lemma_painted_none(old, w, sel, b, color);
    lemma_stamp_push(old, w, sel, Seq::empty(), (x, y), b, color);
    assert(Seq::<(int, int)>::empty().push((x, y)) =~= seq![(x, y)]);
}

/// A brush of size `b` covers a `b` by `b` square around its center: for
/// an odd size the center is in the middle, for an even size the extra
/// column and row lie right of and below it.
pub proof fn law_brush_square(cx: int, cy: int, b: int, x: int, y: int)
    requires
        b >= 1,
    ensures
        b % 2 == 1 ==> (stamp_covers(cx, cy, b, x, y) <==>
            (cx - (b - 1) / 2 <= x <= cx + (b - 1) / 2 && cy - (b - 1) / 2 <= y <= cy + (b - 1) / 2)),
        b % 2 == 0 ==> (stamp_covers(cx, cy, b, x, y) <==>
            (cx - (b / 2 - 1) <= x <= cx + b / 2 && cy - (b / 2 - 1) <= y <= cy + b / 2)),
{
}

/// A stamp paints exactly the pixels of the canvas that the brush covers and
/// the selection allows, and leaves every other pixel as it was.
pub proof fn law_stamp_paints_covered(old: Seq<Color>, w: int, h: int, sel: Option<Rect>, cx: int, cy: int, b: int,
    color: Color, x: int, y: int)
    requires
        old.len() == w * h,
        on_canvas(w, h, x, y),
    ensures
        at(stamped(old, w, sel, cx, cy, b, color), w, x, y)
            == if stamp_covers(cx, cy, b, x, y) && in_sel(sel, x, y) { color } else { at(old, w, x, y) },
{
    lemma_index_in_bounds(w, h, x, y);
    let i = y * w + x;
    lemma_index_decompose(w, h, i);
    lemma_index_injective(w, h, i % w, i / w, x, y);
}

/// Pixel `(x, y)` of a cel mirrored left to right is the old pixel
/// `(w - 1 - x, y)`, and of one mirrored top to bottom the old pixel
/// `(x, h - 1 - y)`; the cel keeps its size.
pub proof fn law_mirror_moves_pixels(old: Seq<Color>, w: int, h: int, x: int, y: int)
    requires
        old.len() == w * h,
        on_canvas(w, h, x, y),
    ensures
        mirrored_h(old, w).len() == old.len(),
        mirrored_v(old, w, h).len() == old.len(),
        at(mirrored_h(old, w), w, x, y) == at(old, w, w - 1 - x, y),
        at(mirrored_v(old, w, h), w, x, y) == at(old, w, x, h - 1 - y),
{
    lemma_index_in_bounds(w, h, x, y);
    let i = y * w + x;
    lemma_index_decompose(w, h, i);
    lemma_index_injective(w, h, i % w, i / w, x, y);
}

/// Mirroring twice the same way gives back the cel.
pub proof fn law_mirror_twice(old: Seq<Color>, w: int, h: int)
    requires
        0 <= w,
        0 <= h,
        old.len() == w * h,
    ensures
        mirrored_h(mirrored_h(old, w), w) == old,
        mirrored_v(mirrored_v(old, w, h), w, h) == old,
{
    let once_h = mirrored_h(old, w);
    let once_v = mirrored_v(old, w, h);
    assert forall|i: int| 0 <= i < old.len() implies #[trigger] mirrored_h(once_h, w)[i] == old[i]
        && mirrored_v(once_v, w, h)[i] == old[i] by {
        assert(w > 0) by (nonlinear_arith) requires 0 <= i < w * h, 0 <= w, 0 <= h;
        lemma_index_decompose(w, h, i);
        let (x, y) = (i % w, i / w);
        law_mirror_moves_pixels(once_h, w, h, x, y);
        law_mirror_moves_pixels(old, w, h, w - 1 - x, y);
        law_mirror_moves_pixels(once_v, w, h, x, y);
        law_mirror_moves_pixels(old, w, h, x, h - 1 - y);
    }
    assert(mirrored_h(once_h, w) =~= old);
    assert(mirrored_v(once_v, w, h) =~= old);
}

} // verus!
