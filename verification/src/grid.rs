//! Pixel addressing: cels are row-major, pixel `(x, y)` of a `w`-wide cel
//! stands at index `y * w + x`.
use vstd::prelude::*;
use crate::color::{Color, transparent};

verus! {

/// The pixel `(x, y)` of a `w`-wide cel.
pub open spec fn at(s: Seq<Color>, w: int, x: int, y: int) -> Color {
    s[y * w + x]
}

/// `(x, y)` lies on a `w` by `h` canvas.
pub open spec fn on_canvas(w: int, h: int, x: int, y: int) -> bool {
    0 <= x < w && 0 <= y < h
}

/// The index of an on-canvas pixel lies inside the cel.
pub proof fn lemma_index_in_bounds(w: int, h: int, x: int, y: int)
    requires
        on_canvas(w, h, x, y),
    ensures
        0 <= y * w + x < w * h,
        y * w <= y * w + x,
{
    assert(0 <= y * w) by (nonlinear_arith)
        requires 0 <= y, 0 <= w;
    assert(y * w + w <= w * h) by (nonlinear_arith)
        requires 0 <= y < h, 0 <= w;
}

/// Distinct on-canvas pixels have distinct indices.
pub proof fn lemma_index_injective(w: int, h: int, x1: int, y1: int, x2: int, y2: int)
    requires
        on_canvas(w, h, x1, y1),
        on_canvas(w, h, x2, y2),
        y1 * w + x1 == y2 * w + x2,
    ensures
        x1 == x2 && y1 == y2,
{
    if y1 < y2 {
        assert(y1 * w + w <= y2 * w) by (nonlinear_arith)
            requires y1 < y2, 0 <= w;
    } else if y2 < y1 {
        assert(y2 * w + w <= y1 * w) by (nonlinear_arith)
            requires y2 < y1, 0 <= w;
    }
}

/// Every index of a cel is the index of one on-canvas pixel.
pub proof fn lemma_index_decompose(w: int, h: int, i: int)
    requires
        0 <= i < w * h,
        0 < w,
    ensures
        on_canvas(w, h, i % w, i / w),
        i == (i / w) * w + i % w,
{
    assert(i == (i / w) * w + i % w) by (nonlinear_arith)
        requires 0 < w;
    assert(0 <= i % w < w) by (nonlinear_arith)
        requires 0 < w;
    assert(0 <= i / w) by (nonlinear_arith)
        requires 0 < w, 0 <= i;
    assert(i / w < h) by (nonlinear_arith)
        requires 0 < w, 0 <= i < w * h;
}

/// A cel of `n` transparent pixels.
pub fn blank_cel(n: usize) -> (v: Vec<Color>)
    ensures
        v@.len() == n,
        forall|i: int| 0 <= i < n ==> #[trigger] v@[i] == transparent(),
{
    let mut v: Vec<Color> = Vec::new();
    let mut i: usize = 0;
    while i < n
        invariant
            i <= n,
            v@.len() == i,
            forall|j: int| 0 <= j < i ==> #[trigger] v@[j] == transparent(),
        decreases n - i,
    {
        v.push(Color::transparent());
        i = i + 1;
    }
    v
}

/// A copy of a pixel buffer.
pub fn copy_pixels(src: &Vec<Color>) -> (v: Vec<Color>)
    ensures
        v@ == src@,
{
    let mut v: Vec<Color> = Vec::new();
    let mut i: usize = 0;
    while i < src.len()
        invariant
            i <= src@.len(),
            v@ == src@.subrange(0, i as int),
        decreases src@.len() - i,
    {
        v.push(src[i]);
        i = i + 1;
    }
    assert(src@.subrange(0, src@.len() as int) =~= src@);
    v
}

} // verus!
