//! Pixel work of the selection and move tools: clearing a rectangle,
//! pasting a buffer, shifting a whole cel.
use vstd::prelude::*;
use crate::color::{Color, transparent};
use crate::document::Rect;
use crate::compose::{checker, checker_at};
use crate::grid::{at, on_canvas, lemma_index_in_bounds, lemma_index_injective, lemma_index_decompose};

verus! {

/// The rectangle lies on a `w` by `h` canvas, corners in order.
pub open spec fn rect_on_canvas(r: Rect, w: int, h: int) -> bool {
    0 <= r.0 <= r.2 < w && 0 <= r.1 <= r.3 < h
}

/// `(x, y)` lies in the rectangle, corners included.
pub open spec fn in_rect(r: Rect, x: int, y: int) -> bool {
    r.0 <= x <= r.2 && r.1 <= y <= r.3
}

/// The cel with the rectangle `r` made transparent.
pub open spec fn cleared(cel: Seq<Color>, w: int, r: Rect) -> Seq<Color> {
    Seq::new(cel.len(), |i: int| if in_rect(r, i % w, i / w) { transparent() } else { cel[i] })
}

/// The cel with the rectangle `r` showing the transparency checkerboard.
pub open spec fn checkered(cel: Seq<Color>, w: int, r: Rect) -> Seq<Color> {
    Seq::new(cel.len(), |i: int| if in_rect(r, i % w, i / w) { checker(i % w, i / w) } else { cel[i] })
}

/// The pixel of a `bw` by `bh` buffer placed with its top left corner at
/// `(nx0, ny0)` that lands on `(x, y)`, if there is one.
pub open spec fn buffer_at(buf: Seq<Color>, bw: int, bh: int, nx0: int, ny0: int, x: int, y: int) -> Option<Color> {
    let bx = x - nx0;
    let by = y - ny0;
    if 0 <= bx < bw && 0 <= by < bh { Some(buf[by * bw + bx]) } else { None }
}

/// The cel with the buffer pasted at `(nx0, ny0)`: the buffer's
/// transparent pixels let the cel show through, and what falls off the
/// canvas is dropped.
pub open spec fn pasted(cel: Seq<Color>, w: int, buf: Seq<Color>, bw: int, bh: int, nx0: int, ny0: int) -> Seq<Color> {
    Seq::new(cel.len(), |i: int|
        match buffer_at(buf, bw, bh, nx0, ny0, i % w, i / w) {
            Some(c) => if c != transparent() { c } else { cel[i] },
            None => cel[i],
        })
}

/// The cel moved by `(dx, dy)`: pixels that are not transparent move,
/// what falls off is dropped, and the rest is transparent.
pub open spec fn shifted(cel: Seq<Color>, w: int, h: int, dx: int, dy: int) -> Seq<Color> {
    Seq::new(cel.len(), |i: int| {
        let sx = i % w - dx;
        let sy = i / w - dy;
        if on_canvas(w, h, sx, sy) && at(cel, w, sx, sy) != transparent() { at(cel, w, sx, sy) } else { transparent() }
    })
}

/// Makes the rectangle `r`, which lies on the canvas, of a `w` by `h` cel
/// transparent.
fn clear_rect_on(cel: &mut Vec<Color>, w: usize, h: usize, r: Rect)
    requires
        old(cel)@.len() == w * h,
        rect_on_canvas(r, w as int, h as int),
    ensures
        final(cel)@ == cleared(old(cel)@, w as int, r),
{
    let ghost orig = cel@;
    let ghost wi = w as int;
    let ghost hi = h as int;
    let n: usize = cel.len();
    let (x0, y0, x1, y1) = r;
    let mut y: i64 = y0 as i64;
    while y <= y1 as i64
        invariant
            cel@.len() == w * h,
            n == w * h,
            wi == w && hi == h,
            rect_on_canvas(r, wi, hi),
            r == (x0, y0, x1, y1),
            y0 <= y <= y1 + 1,
            forall|xx: int, yy: int| on_canvas(wi, hi, xx, yy) ==> #[trigger] at(cel@, wi, xx, yy)
                == if in_rect(r, xx, yy) && yy < y { transparent() } else { at(orig, wi, xx, yy) },
        decreases y1 + 1 - y,
    {
        let mut x: i64 = x0 as i64;
        while x <= x1 as i64
            invariant
                cel@.len() == w * h,
                n == w * h,
                wi == w && hi == h,
                rect_on_canvas(r, wi, hi),
                r == (x0, y0, x1, y1),
                y0 <= y <= y1,
                x0 <= x <= x1 + 1,
                forall|xx: int, yy: int| on_canvas(wi, hi, xx, yy) ==> #[trigger] at(cel@, wi, xx, yy)
                    == if in_rect(r, xx, yy) && (yy < y || (yy == y && xx < x)) { transparent() } else { at(orig, wi, xx, yy) },
            decreases x1 + 1 - x,
        {
            let xu: usize = x as usize;
            let yu: usize = y as usize;
            proof { lemma_index_in_bounds(wi, hi, xu as int, yu as int); }
            let ghost before = cel@;
            cel[yu * w + xu] = Color::transparent();
            assert forall|xx: int, yy: int| on_canvas(wi, hi, xx, yy) implies #[trigger] at(cel@, wi, xx, yy)
                == if in_rect(r, xx, yy) && (yy < y || (yy == y && xx < x + 1)) { transparent() } else { at(orig, wi, xx, yy) } by {
                lemma_index_in_bounds(wi, hi, xx, yy);
                if xx != xu || yy != yu {
                    if yy * wi + xx == yu * wi + xu {
                        lemma_index_injective(wi, hi, xx, yy, xu as int, yu as int);
                    }
                    assert(at(cel@, wi, xx, yy) == at(before, wi, xx, yy));
                }
            }
            x = x + 1;
        }
        y = y + 1;
    }
    assert(cel@ =~= cleared(orig, wi, r)) by {
        assert forall|i: int| 0 <= i < cel@.len() implies #[trigger] cel@[i] == cleared(orig, wi, r)[i] by {
            lemma_index_decompose(wi, hi, i);
            assert(at(cel@, wi, i % wi, i / wi) == cel@[i]);
        }
    }
}

/// Paints the rectangle `r`, which lies on the canvas, of a `w` by `h` cel
/// with the transparency checkerboard.
fn checker_rect_on(cel: &mut Vec<Color>, w: usize, h: usize, r: Rect)
    requires
        old(cel)@.len() == w * h,
        rect_on_canvas(r, w as int, h as int),
    ensures
        final(cel)@ == checkered(old(cel)@, w as int, r),
{
    let ghost orig = cel@;
    let ghost wi = w as int;
    let ghost hi = h as int;
    let n: usize = cel.len();
    let (x0, y0, x1, y1) = r;
    let mut y: i64 = y0 as i64;
    while y <= y1 as i64
        invariant
            cel@.len() == w * h,
            n == w * h,
            wi == w && hi == h,
            rect_on_canvas(r, wi, hi),
            r == (x0, y0, x1, y1),
            y0 <= y <= y1 + 1,
            forall|xx: int, yy: int| on_canvas(wi, hi, xx, yy) ==> #[trigger] at(cel@, wi, xx, yy)
                == if in_rect(r, xx, yy) && yy < y { checker(xx, yy) } else { at(orig, wi, xx, yy) },
        decreases y1 + 1 - y,
    {
        let mut x: i64 = x0 as i64;
        while x <= x1 as i64
            invariant
                cel@.len() == w * h,
                n == w * h,
                wi == w && hi == h,
                rect_on_canvas(r, wi, hi),
                r == (x0, y0, x1, y1),
                y0 <= y <= y1,
                x0 <= x <= x1 + 1,
                forall|xx: int, yy: int| on_canvas(wi, hi, xx, yy) ==> #[trigger] at(cel@, wi, xx, yy)
                    == if in_rect(r, xx, yy) && (yy < y || (yy == y && xx < x)) { checker(xx, yy) } else { at(orig, wi, xx, yy) },
            decreases x1 + 1 - x,
        {
            let xu: usize = x as usize;
            let yu: usize = y as usize;
            proof { lemma_index_in_bounds(wi, hi, xu as int, yu as int); }
            let ghost before = cel@;
            let cb = checker_at(xu, yu);
            cel[yu * w + xu] = cb;
            assert forall|xx: int, yy: int| on_canvas(wi, hi, xx, yy) implies #[trigger] at(cel@, wi, xx, yy)
                == if in_rect(r, xx, yy) && (yy < y || (yy == y && xx < x + 1)) { checker(xx, yy) } else { at(orig, wi, xx, yy) } by {
                lemma_index_in_bounds(wi, hi, xx, yy);
                if xx != xu || yy != yu {
                    if yy * wi + xx == yu * wi + xu {
                        lemma_index_injective(wi, hi, xx, yy, xu as int, yu as int);
                    }
                    assert(at(cel@, wi, xx, yy) == at(before, wi, xx, yy));
                }
            }
            x = x + 1;
        }
        y = y + 1;
    }
    assert(cel@ =~= checkered(orig, wi, r)) by {
        assert forall|i: int| 0 <= i < cel@.len() implies #[trigger] cel@[i] == checkered(orig, wi, r)[i] by {
            lemma_index_decompose(wi, hi, i);
            assert(at(cel@, wi, i % wi, i / wi) == cel@[i]);
        }
    }
}

/// The part of rectangle `r` that lies on a `w` by `h` canvas, if any.
pub open spec fn clip_rect(r: Rect, w: int, h: int) -> Option<Rect> {
    let x0 = if r.0 > 0 { r.0 as int } else { 0 };
    let y0 = if r.1 > 0 { r.1 as int } else { 0 };
    let x1 = if r.2 < w - 1 { r.2 as int } else { w - 1 };
    let y1 = if r.3 < h - 1 { r.3 as int } else { h - 1 };
    if x0 <= x1 && y0 <= y1 { Some((x0 as i32, y0 as i32, x1 as i32, y1 as i32)) } else { None }
}

/// `clip_rect` computed; the clipped rectangle lies on the canvas and holds
/// the same canvas pixels as `r`.
pub fn clip_to_canvas(r: Rect, w: usize, h: usize) -> (c: Option<Rect>)
    ensures
        c == clip_rect(r, w as int, h as int),
        c matches Some(q) ==> rect_on_canvas(q, w as int, h as int),
        forall|x: int, y: int| on_canvas(w as int, h as int, x, y) ==> (#[trigger] in_rect(r, x, y) <==> match c {
            Some(q) => in_rect(q, x, y),
            None => false,
        }),
{
    let mw: i128 = w as i128 - 1;
    let mh: i128 = h as i128 - 1;
    let x0: i128 = if r.0 > 0 { r.0 as i128 } else { 0 };
    let y0: i128 = if r.1 > 0 { r.1 as i128 } else { 0 };
    let x1: i128 = if (r.2 as i128) < mw { r.2 as i128 } else { mw };
    let y1: i128 = if (r.3 as i128) < mh { r.3 as i128 } else { mh };
    if x0 <= x1 && y0 <= y1 {
        Some((x0 as i32, y0 as i32, x1 as i32, y1 as i32))
    } else {
        None
    }
}

/// Makes the part of rectangle `r` that lies on a `w` by `h` cel
/// transparent.
pub fn clear_rect(cel: &mut Vec<Color>, w: usize, h: usize, r: Rect)
    requires
        old(cel)@.len() == w * h,
    ensures
        final(cel)@ == cleared(old(cel)@, w as int, r),
{
    let ghost orig = cel@;
    let c = clip_to_canvas(r, w, h);
    match c {
        Some(q) => clear_rect_on(cel, w, h, q),
        None => {},
    }
    proof {
        let wi = w as int;
        let hi = h as int;
        assert forall|i: int| 0 <= i < cel@.len() implies #[trigger] cel@[i] == cleared(orig, wi, r)[i] by {
            if wi == 0 {
                assert(wi * hi == 0) by (nonlinear_arith)
                    requires wi == 0;
            }
            lemma_index_decompose(wi, hi, i);
            assert(in_rect(r, i % wi, i / wi) == match c { Some(q) => in_rect(q, i % wi, i / wi), None => false });
        }
        assert(cel@ =~= cleared(orig, wi, r));
    }
}

/// Paints the part of rectangle `r` that lies on a `w` by `h` cel with the
/// transparency checkerboard.
pub fn checker_rect(cel: &mut Vec<Color>, w: usize, h: usize, r: Rect)
    requires
        old(cel)@.len() == w * h,
    ensures
        final(cel)@ == checkered(old(cel)@, w as int, r),
{
    let ghost orig = cel@;
    let c = clip_to_canvas(r, w, h);
    match c {
        Some(q) => checker_rect_on(cel, w, h, q),
        None => {},
    }
    proof {
        let wi = w as int;
        let hi = h as int;
        assert forall|i: int| 0 <= i < cel@.len() implies #[trigger] cel@[i] == checkered(orig, wi, r)[i] by {
            if wi == 0 {
                assert(wi * hi == 0) by (nonlinear_arith)
                    requires wi == 0;
            }
            lemma_index_decompose(wi, hi, i);
            assert(in_rect(r, i % wi, i / wi) == match c { Some(q) => in_rect(q, i % wi, i / wi), None => false });
        }
        assert(cel@ =~= checkered(orig, wi, r));
    }
}

/// Pastes a `bw` by `bh` buffer onto a `w` by `h` cel with its top left
/// corner at `(nx0, ny0)`.
pub fn paste_buffer(cel: &mut Vec<Color>, w: usize, h: usize, buf: &Vec<Color>, bw: usize, bh: usize, nx0: i128, ny0: i128)
    requires
        old(cel)@.len() == w * h,
        buf@.len() == bw * bh,
        -0x1_0000_0000_0000_0000 <= nx0 <= 0x1_0000_0000_0000_0000,
        -0x1_0000_0000_0000_0000 <= ny0 <= 0x1_0000_0000_0000_0000,
    ensures
        final(cel)@ == pasted(old(cel)@, w as int, buf@, bw as int, bh as int, nx0 as int, ny0 as int),
{
    let ghost orig = cel@;
    let ghost wi = w as int;
    let ghost hi = h as int;
    let n: usize = cel.len();
    let bn: usize = buf.len();
    let mut yy: usize = 0;
    while yy < bh
        invariant
            cel@.len() == w * h,
            n == w * h,
            buf@.len() == bw * bh,
            bn == bw * bh,
            wi == w && hi == h,
            -0x1_0000_0000_0000_0000 <= nx0 <= 0x1_0000_0000_0000_0000,
            -0x1_0000_0000_0000_0000 <= ny0 <= 0x1_0000_0000_0000_0000,
            yy <= bh,
            forall|x: int, y: int| on_canvas(wi, hi, x, y) ==> #[trigger] at(cel@, wi, x, y)
                == match buffer_at(buf@, bw as int, bh as int, nx0 as int, ny0 as int, x, y) {
                    Some(c) => if c != transparent() && y - ny0 < yy { c } else { at(orig, wi, x, y) },
                    None => at(orig, wi, x, y),
                },
        decreases bh - yy,
    {
        let mut xx: usize = 0;
        while xx < bw
            invariant
                cel@.len() == w * h,
                n == w * h,
                buf@.len() == bw * bh,
                bn == bw * bh,
                wi == w && hi == h,
                -0x1_0000_0000_0000_0000 <= nx0 <= 0x1_0000_0000_0000_0000,
                -0x1_0000_0000_0000_0000 <= ny0 <= 0x1_0000_0000_0000_0000,
                yy < bh,
                xx <= bw,
                forall|x: int, y: int| on_canvas(wi, hi, x, y) ==> #[trigger] at(cel@, wi, x, y)
                    == match buffer_at(buf@, bw as int, bh as int, nx0 as int, ny0 as int, x, y) {
                        Some(c) => if c != transparent() && (y - ny0 < yy || (y - ny0 == yy && x - nx0 < xx)) { c } else { at(orig, wi, x, y) },
                        None => at(orig, wi, x, y),
                    },
            decreases bw - xx,
        {
            proof { lemma_index_in_bounds(bw as int, bh as int, xx as int, yy as int); }
            let src = buf[yy * bw + xx];
            let px: i128 = nx0 + xx as i128;
            let py: i128 = ny0 + yy as i128;
            if !src.is_transparent() && px >= 0 && py >= 0 && px < w as i128 && py < h as i128 {
                let xu: usize = px as usize;
                let yu: usize = py as usize;
                proof { lemma_index_in_bounds(wi, hi, xu as int, yu as int); }
                let ghost before = cel@;
                cel[yu * w + xu] = src;
                assert forall|x: int, y: int| on_canvas(wi, hi, x, y) implies #[trigger] at(cel@, wi, x, y)
                    == match buffer_at(buf@, bw as int, bh as int, nx0 as int, ny0 as int, x, y) {
                        Some(c) => if c != transparent() && (y - ny0 < yy || (y - ny0 == yy && x - nx0 < xx + 1)) { c } else { at(orig, wi, x, y) },
                        None => at(orig, wi, x, y),
                    } by {
                    lemma_index_in_bounds(wi, hi, x, y);
                    if x != xu || y != yu {
                        if y * wi + x == yu * wi + xu {
                            lemma_index_injective(wi, hi, x, y, xu as int, yu as int);
                        }
                        assert(at(cel@, wi, x, y) == at(before, wi, x, y));
                    }
                }
            } else {
                assert forall|x: int, y: int| on_canvas(wi, hi, x, y) implies #[trigger] at(cel@, wi, x, y)
                    == match buffer_at(buf@, bw as int, bh as int, nx0 as int, ny0 as int, x, y) {
                        Some(c) => if c != transparent() && (y - ny0 < yy || (y - ny0 == yy && x - nx0 < xx + 1)) { c } else { at(orig, wi, x, y) },
                        None => at(orig, wi, x, y),
                    } by {
                    if x - nx0 == xx && y - ny0 == yy {
                        assert(buffer_at(buf@, bw as int, bh as int, nx0 as int, ny0 as int, x, y) == Some(src));
                    }
                }
            }
            xx = xx + 1;
        }
        yy = yy + 1;
    }
    assert(cel@ =~= pasted(orig, wi, buf@, bw as int, bh as int, nx0 as int, ny0 as int)) by {
        assert forall|i: int| 0 <= i < cel@.len() implies #[trigger] cel@[i]
            == pasted(orig, wi, buf@, bw as int, bh as int, nx0 as int, ny0 as int)[i] by {
            lemma_index_decompose(wi, hi, i);
            assert(at(cel@, wi, i % wi, i / wi) == cel@[i]);
            assert(at(orig, wi, i % wi, i / wi) == orig[i]);
        }
    }
}

/// The `w` by `h` cel moved by `(dx, dy)`.
pub fn shift_cel(cel: &Vec<Color>, w: usize, h: usize, dx: i64, dy: i64) -> (out: Vec<Color>)
    requires
        cel@.len() == w * h,
    ensures
        out@ == shifted(cel@, w as int, h as int, dx as int, dy as int),
{
    let ghost wi = w as int;
    let ghost hi = h as int;
    let n: usize = cel.len();
    let mut out: Vec<Color> = Vec::new();
    let mut y: usize = 0;
    while y < h
        invariant
            cel@.len() == w * h,
            n == w * h,
            wi == w && hi == h,
            y <= h,
            out@.len() == y * w,
            forall|xx: int, yy: int| 0 <= xx < w && 0 <= yy < y ==> #[trigger] at(out@, wi, xx, yy)
                == shifted(cel@, wi, hi, dx as int, dy as int)[yy * wi + xx],
        decreases h - y,
    {
        let mut x: usize = 0;
        while x < w
            invariant
                cel@.len() == w * h,
                n == w * h,
                wi == w && hi == h,
                y < h,
                x <= w,
                out@.len() == y * w + x,
                forall|xx: int, yy: int| 0 <= xx < w && 0 <= yy < y ==> #[trigger] at(out@, wi, xx, yy)
                    == shifted(cel@, wi, hi, dx as int, dy as int)[yy * wi + xx],
                forall|xx: int| 0 <= xx < x ==> #[trigger] at(out@, wi, xx, y as int)
                    == shifted(cel@, wi, hi, dx as int, dy as int)[y * wi + xx],
            decreases w - x,
        {
            proof { lemma_index_in_bounds(wi, hi, x as int, y as int); }
            let sx: i128 = x as i128 - dx as i128;
            let sy: i128 = y as i128 - dy as i128;
            let c = if sx >= 0 && sy >= 0 && sx < w as i128 && sy < h as i128 {
                let sxu: usize = sx as usize;
                let syu: usize = sy as usize;
                proof { lemma_index_in_bounds(wi, hi, sxu as int, syu as int); }
                let p = cel[syu * w + sxu];
                if !p.is_transparent() { p } else { Color::transparent() }
            } else {
                Color::transparent()
            };
            proof {
                let i = y * wi + x;
                lemma_index_decompose(wi, hi, i);
                lemma_index_injective(wi, hi, i % wi, i / wi, x as int, y as int);
            }
            let ghost before = out@;
            out.push(c);
            assert forall|xx: int, yy: int| 0 <= xx < w && 0 <= yy < y implies #[trigger] at(out@, wi, xx, yy)
                == shifted(cel@, wi, hi, dx as int, dy as int)[yy * wi + xx] by {
                lemma_index_in_bounds(wi, y as int, xx, yy);
                assert(wi * y == y * wi) by (nonlinear_arith);
                assert(at(out@, wi, xx, yy) == at(before, wi, xx, yy));
            }
            assert forall|xx: int| 0 <= xx < x + 1 implies #[trigger] at(out@, wi, xx, y as int)
                == shifted(cel@, wi, hi, dx as int, dy as int)[y * wi + xx] by {
                if xx < x {
                    assert(at(out@, wi, xx, y as int) == at(before, wi, xx, y as int));
                }
            }
            x = x + 1;
        }
        assert(out@.len() == (y + 1) * w) by (nonlinear_arith)
            requires out@.len() == y * w + w;
        y = y + 1;
    }
    assert(out@ =~= shifted(cel@, wi, hi, dx as int, dy as int)) by {
        assert(hi * wi == wi * hi) by (nonlinear_arith);
        assert forall|i: int| 0 <= i < out@.len() implies #[trigger] out@[i] == shifted(cel@, wi, hi, dx as int, dy as int)[i] by {
            lemma_index_decompose(wi, hi, i);
            assert(at(out@, wi, i % wi, i / wi) == out@[i]);
        }
    }
    out
}

/// Shifting a cel by `(dx, dy)` shows at each pixel what was `dx` columns
/// left and `dy` rows up of it, and transparency where that lies off the
/// canvas.
pub proof fn law_shift_moves_pixels(cel: Seq<Color>, w: int, h: int, dx: int, dy: int, x: int, y: int)
    requires
        cel.len() == w * h,
        on_canvas(w, h, x, y),
    ensures
        at(shifted(cel, w, h, dx, dy), w, x, y)
            == if on_canvas(w, h, x - dx, y - dy) { at(cel, w, x - dx, y - dy) } else { transparent() },
{
    lemma_index_in_bounds(w, h, x, y);
    let i = y * w + x;
    lemma_index_decompose(w, h, i);
    lemma_index_injective(w, h, i % w, i / w, x, y);
}

/// Clipping keeps exactly the canvas pixels of the rectangle.
pub proof fn law_clip_keeps_canvas_part(r: Rect, w: int, h: int, x: int, y: int)
    requires
        0 <= w <= i32::MAX,
        0 <= h <= i32::MAX,
        on_canvas(w, h, x, y),
    ensures
        in_rect(r, x, y) <==> (clip_rect(r, w, h) matches Some(q) && in_rect(q, x, y)),
        clip_rect(r, w, h) matches Some(q) ==> rect_on_canvas(q, w, h),
{
}

/// Deleting a selection makes exactly its pixels transparent; pasting a
/// buffer with its top left corner at `(nx0, ny0)` puts buffer pixel
/// `(x - nx0, y - ny0)` on pixel `(x, y)` where that pixel of the buffer
/// exists and is not transparent, and leaves every other pixel as it was.
pub proof fn law_clear_and_paste(cel: Seq<Color>, w: int, h: int, r: Rect, buf: Seq<Color>, bw: int, bh: int,
    nx0: int, ny0: int, x: int, y: int)
    requires
        cel.len() == w * h,
        on_canvas(w, h, x, y),
    ensures
        at(cleared(cel, w, r), w, x, y) == if in_rect(r, x, y) { transparent() } else { at(cel, w, x, y) },
        at(pasted(cel, w, buf, bw, bh, nx0, ny0), w, x, y) == if 0 <= x - nx0 < bw && 0 <= y - ny0 < bh
            && buf[(y - ny0) * bw + (x - nx0)] != transparent() {
            buf[(y - ny0) * bw + (x - nx0)]
        } else {
            at(cel, w, x, y)
        },
{
    lemma_index_in_bounds(w, h, x, y);
    let i = y * w + x;
    lemma_index_decompose(w, h, i);
    lemma_index_injective(w, h, i % w, i / w, x, y);
}

} // verus!
