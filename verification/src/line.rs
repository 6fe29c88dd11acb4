//! The pixels of a Bresenham line, and what they are known to satisfy.
//!
//! The walk from `(x0, y0)` to `(x1, y1)` is described by how many steps it
//! has taken along each axis, `i` horizontally and `j` vertically; its error
//! term is then `dx * (1 + j) - dy * (1 + i)` with `dx = |x1 - x0|` and
//! `dy = |y1 - y0|`.
use vstd::prelude::*;

verus! {

/// Horizontal distance.
pub open spec fn span_x(x0: int, x1: int) -> int {
    if x0 <= x1 { x1 - x0 } else { x0 - x1 }
}

/// Vertical distance.
pub open spec fn span_y(y0: int, y1: int) -> int {
    if y0 <= y1 { y1 - y0 } else { y0 - y1 }
}

/// Horizontal direction of travel.
pub open spec fn dir(a: int, b: int) -> int {
    if a < b { 1 } else { -1 }
}

/// Moving `i` steps in direction `dir(a, b)`.
pub proof fn lemma_dir_mul(a: int, b: int, i: int)
    ensures
        dir(a, b) * i == if a < b { i } else { -i },
{
    if a < b {
        assert(dir(a, b) * i == i) by (nonlinear_arith) requires dir(a, b) == 1;
    } else {
        assert(dir(a, b) * i == -i) by (nonlinear_arith) requires dir(a, b) == -1;
    }
}

/// The error term after `i` horizontal and `j` vertical steps.
pub open spec fn line_err(dx: int, dy: int, i: int, j: int) -> int {
    dx * (1 + j) - dy * (1 + i)
}

/// How a step along each axis changes the error term.
pub proof fn lemma_err_step(dx: int, dy: int, i: int, j: int)
    ensures
        line_err(dx, dy, i + 1, j) == line_err(dx, dy, i, j) - dy,
        line_err(dx, dy, i, j + 1) == line_err(dx, dy, i, j) + dx,
        line_err(dx, dy, 0, 0) == dx - dy,
{
    assert(dx * (1 + j) - dy * (1 + (i + 1)) == dx * (1 + j) - dy * (1 + i) - dy) by (nonlinear_arith);
    assert(dx * (1 + (j + 1)) - dy * (1 + i) == dx * (1 + j) - dy * (1 + i) + dx) by (nonlinear_arith);
}

/// Whether the next step moves horizontally.
pub open spec fn steps_x(dx: int, dy: int, i: int, j: int) -> bool {
    2 * line_err(dx, dy, i, j) >= -dy
}

/// Whether the next step moves vertically.
pub open spec fn steps_y(dx: int, dy: int, i: int, j: int) -> bool {
    2 * line_err(dx, dy, i, j) <= dx
}

/// A step never overshoots the end point and always moves.
pub proof fn lemma_line_step(dx: int, dy: int, i: int, j: int)
    requires
        0 <= i <= dx,
        0 <= j <= dy,
        !(i == dx && j == dy),
    ensures
        steps_x(dx, dy, i, j) ==> i < dx,
        steps_y(dx, dy, i, j) ==> j < dy,
        steps_x(dx, dy, i, j) || steps_y(dx, dy, i, j),
{
    let e = line_err(dx, dy, i, j);
    assert(e == dx + dx * j - dy - dy * i) by (nonlinear_arith)
        requires e == dx * (1 + j) - dy * (1 + i);
    if steps_x(dx, dy, i, j) && i == dx {
        // then j == dy, which is excluded
        assert(dx * j <= dx * dy) by (nonlinear_arith)
            requires 0 <= dx, j <= dy;
        if j < dy {
            assert(dx * j + dx <= dx * dy) by (nonlinear_arith)
                requires 0 <= dx, j < dy;
            assert(dy * i == dy * dx) by (nonlinear_arith)
                requires i == dx;
            assert(dy <= 0);
        }
    }
    if steps_y(dx, dy, i, j) && j == dy {
        if i < dx {
            assert(dy * i + dy <= dy * dx) by (nonlinear_arith)
                requires 0 <= dy, i < dx;
            assert(dx * j == dx * dy) by (nonlinear_arith)
                requires j == dy;
            assert(dx <= 0);
        }
    }
}

/// The walk measured by steps still to take.
pub open spec fn line_measure(dx: int, dy: int, i: int, j: int) -> int {
    (dx - i) + (dy - j)
}

/// The points of the walk from the state `(i, j)` on, its end point last.
pub open spec fn trace_from(x0: int, y0: int, x1: int, y1: int, i: int, j: int) -> Seq<(int, int)>
    decreases line_measure(span_x(x0, x1), span_y(y0, y1), i, j) when
        0 <= i <= span_x(x0, x1) && 0 <= j <= span_y(y0, y1)
{
    let dx = span_x(x0, x1);
    let dy = span_y(y0, y1);
    let p = (x0 + dir(x0, x1) * i, y0 + dir(y0, y1) * j);
    if i == dx && j == dy {
        seq![p]
    } else {
        proof { lemma_line_step(dx, dy, i, j); }
        let i2 = if steps_x(dx, dy, i, j) { i + 1 } else { i };
        let j2 = if steps_y(dx, dy, i, j) { j + 1 } else { j };
        seq![p] + trace_from(x0, y0, x1, y1, i2, j2)
    }
}

/// The pixels of the line from `(x0, y0)` to `(x1, y1)`, in drawing order.
pub open spec fn line_trace(x0: int, y0: int, x1: int, y1: int) -> Seq<(int, int)> {
    trace_from(x0, y0, x1, y1, 0, 0)
}

/// Two points are equal or neighbours (diagonals included).
pub open spec fn touching(p: (int, int), q: (int, int)) -> bool {
    -1 <= p.0 - q.0 <= 1 && -1 <= p.1 - q.1 <= 1
}

/// One step of the walk, unfolded.
pub proof fn lemma_trace_unfold(x0: int, y0: int, x1: int, y1: int, i: int, j: int)
    requires
        0 <= i <= span_x(x0, x1),
        0 <= j <= span_y(y0, y1),
    ensures
        trace_from(x0, y0, x1, y1, i, j).len() >= 1,
        trace_from(x0, y0, x1, y1, i, j)[0] == (x0 + dir(x0, x1) * i, y0 + dir(y0, y1) * j),
        i == span_x(x0, x1) && j == span_y(y0, y1) ==> trace_from(x0, y0, x1, y1, i, j).len() == 1,
        !(i == span_x(x0, x1) && j == span_y(y0, y1)) ==> {
            let dx = span_x(x0, x1);
            let dy = span_y(y0, y1);
            let i2 = if steps_x(dx, dy, i, j) { i + 1 } else { i };
            let j2 = if steps_y(dx, dy, i, j) { j + 1 } else { j };
            &&& 0 <= i2 <= dx
            &&& 0 <= j2 <= dy
            &&& i2 <= i + 1 && j2 <= j + 1
            &&& line_measure(dx, dy, i2, j2) < line_measure(dx, dy, i, j)
            &&& trace_from(x0, y0, x1, y1, i, j) == seq![(x0 + dir(x0, x1) * i, y0 + dir(y0, y1) * j)]
                + trace_from(x0, y0, x1, y1, i2, j2)
        },
{
    if !(i == span_x(x0, x1) && j == span_y(y0, y1)) {
        lemma_line_step(span_x(x0, x1), span_y(y0, y1), i, j);
    }
}

/// Every walk ends at the end point, and each point touches the next.
pub proof fn lemma_trace_shape(x0: int, y0: int, x1: int, y1: int, i: int, j: int)
    requires
        0 <= i <= span_x(x0, x1),
        0 <= j <= span_y(y0, y1),
    ensures
        trace_from(x0, y0, x1, y1, i, j).last() == (x1, y1),
        forall|k: int| 0 <= k < trace_from(x0, y0, x1, y1, i, j).len() - 1 ==>
            touching(#[trigger] trace_from(x0, y0, x1, y1, i, j)[k], trace_from(x0, y0, x1, y1, i, j)[k + 1]),
    decreases line_measure(span_x(x0, x1), span_y(y0, y1), i, j),
{
    let dx = span_x(x0, x1);
    let dy = span_y(y0, y1);
    lemma_trace_unfold(x0, y0, x1, y1, i, j);
    let t = trace_from(x0, y0, x1, y1, i, j);
    lemma_dir_mul(x0, x1, i);
    lemma_dir_mul(y0, y1, j);
    if i == dx && j == dy {
        assert(x0 + dir(x0, x1) * i == x1);
        assert(y0 + dir(y0, y1) * j == y1);
    } else {
        let i2 = if steps_x(dx, dy, i, j) { i + 1 } else { i };
        let j2 = if steps_y(dx, dy, i, j) { j + 1 } else { j };
        lemma_trace_shape(x0, y0, x1, y1, i2, j2);
        lemma_trace_unfold(x0, y0, x1, y1, i2, j2);
        lemma_dir_mul(x0, x1, i2);
        lemma_dir_mul(y0, y1, j2);
        let rest = trace_from(x0, y0, x1, y1, i2, j2);
        assert(t.len() == rest.len() + 1);
        assert(t[t.len() - 1] == rest[rest.len() - 1]);
        assert forall|k: int| 0 <= k < t.len() - 1 implies touching(#[trigger] t[k], t[k + 1]) by {
            if k == 0 {
                assert(t[1] == rest[0]);
            } else {
                assert(t[k] == rest[k - 1]);
                assert(t[k + 1] == rest[k]);
            }
        }
    }
}

/// The line from a point to itself is that point.
pub proof fn lemma_trace_single(x0: int, y0: int)
    ensures
        line_trace(x0, y0, x0, y0) == seq![(x0, y0)],
{
    lemma_trace_unfold(x0, y0, x0, y0, 0, 0);
}

/// Every line starts at its start point, ends at its end point, and has no
/// gaps: each of its pixels touches the next one.
pub proof fn lemma_line_trace(x0: int, y0: int, x1: int, y1: int)
    ensures
        line_trace(x0, y0, x1, y1).len() >= 1,
        line_trace(x0, y0, x1, y1)[0] == (x0, y0),
        line_trace(x0, y0, x1, y1).last() == (x1, y1),
        forall|k: int| 0 <= k < line_trace(x0, y0, x1, y1).len() - 1 ==>
            touching(#[trigger] line_trace(x0, y0, x1, y1)[k], line_trace(x0, y0, x1, y1)[k + 1]),
{
    lemma_trace_unfold(x0, y0, x1, y1, 0, 0);
    lemma_trace_shape(x0, y0, x1, y1, 0, 0);
}

/// While the line is at least as wide as it is tall, every step moves one
/// pixel horizontally: from the state `(i, j)` the walk has `dx - i + 1`
/// points, the `k`-th `k` columns further on.
proof fn lemma_trace_wide(x0: int, y0: int, x1: int, y1: int, i: int, j: int)
    requires
        span_y(y0, y1) <= span_x(x0, x1),
        0 <= i <= span_x(x0, x1),
        0 <= j <= span_y(y0, y1),
        2 * line_err(span_x(x0, x1), span_y(y0, y1), i, j) >= -span_y(y0, y1),
    ensures
        trace_from(x0, y0, x1, y1, i, j).len() == span_x(x0, x1) - i + 1,
        forall|k: int| 0 <= k < trace_from(x0, y0, x1, y1, i, j).len() ==>
            (#[trigger] trace_from(x0, y0, x1, y1, i, j)[k]).0 == x0 + dir(x0, x1) * (i + k),
    decreases line_measure(span_x(x0, x1), span_y(y0, y1), i, j),
{
    let dx = span_x(x0, x1);
    let dy = span_y(y0, y1);
    lemma_trace_unfold(x0, y0, x1, y1, i, j);
    let t = trace_from(x0, y0, x1, y1, i, j);
    if !(i == dx && j == dy) {
        lemma_line_step(dx, dy, i, j);
        let i2 = i + 1;
        let j2 = if steps_y(dx, dy, i, j) { j + 1 } else { j };
        lemma_err_step(dx, dy, i, j);
        lemma_err_step(dx, dy, i + 1, j);
        assert(2 * line_err(dx, dy, i2, j2) >= -dy);
        lemma_trace_wide(x0, y0, x1, y1, i2, j2);
        let rest = trace_from(x0, y0, x1, y1, i2, j2);
        assert forall|k: int| 0 <= k < t.len() implies (#[trigger] t[k]).0 == x0 + dir(x0, x1) * (i + k) by {
            if k > 0 {
                assert(t[k] == rest[k - 1]);
            }
        }
    }
}

/// While the line is taller than it is wide, every step moves one pixel
/// vertically: from the state `(i, j)` the walk has `dy - j + 1` points, the
/// `k`-th `k` rows further on.
proof fn lemma_trace_tall(x0: int, y0: int, x1: int, y1: int, i: int, j: int)
    requires
        span_x(x0, x1) <= span_y(y0, y1),
        0 <= i <= span_x(x0, x1),
        0 <= j <= span_y(y0, y1),
        2 * line_err(span_x(x0, x1), span_y(y0, y1), i, j) <= span_x(x0, x1),
    ensures
        trace_from(x0, y0, x1, y1, i, j).len() == span_y(y0, y1) - j + 1,
        forall|k: int| 0 <= k < trace_from(x0, y0, x1, y1, i, j).len() ==>
            (#[trigger] trace_from(x0, y0, x1, y1, i, j)[k]).1 == y0 + dir(y0, y1) * (j + k),
    decreases line_measure(span_x(x0, x1), span_y(y0, y1), i, j),
{
    let dx = span_x(x0, x1);
    let dy = span_y(y0, y1);
    lemma_trace_unfold(x0, y0, x1, y1, i, j);
    let t = trace_from(x0, y0, x1, y1, i, j);
    if !(i == dx && j == dy) {
        lemma_line_step(dx, dy, i, j);
        let i2 = if steps_x(dx, dy, i, j) { i + 1 } else { i };
        let j2 = j + 1;
        lemma_err_step(dx, dy, i, j);
        lemma_err_step(dx, dy, i + 1, j);
        assert(2 * line_err(dx, dy, i2, j2) <= dx);
        lemma_trace_tall(x0, y0, x1, y1, i2, j2);
        let rest = trace_from(x0, y0, x1, y1, i2, j2);
        assert forall|k: int| 0 <= k < t.len() implies (#[trigger] t[k]).1 == y0 + dir(y0, y1) * (j + k) by {
            if k > 0 {
                assert(t[k] == rest[k - 1]);
            }
        }
    }
}

/// A line has one pixel per step along its longer axis, plus one:
/// `max(|x1 - x0|, |y1 - y0|) + 1` pixels, and along that axis each pixel is
/// exactly one further on than the one before (the `k`-th pixel is `k`
/// columns, or `k` rows, from the start, in the direction of the end).
pub proof fn lemma_line_major_axis(x0: int, y0: int, x1: int, y1: int)
    ensures
        ({
            let dx = span_x(x0, x1);
            let dy = span_y(y0, y1);
            let t = line_trace(x0, y0, x1, y1);
            &&& t.len() == (if dx >= dy { dx } else { dy }) + 1
            &&& dx >= dy ==> forall|k: int| 0 <= k < t.len() ==> (#[trigger] t[k]).0 == x0 + dir(x0, x1) * k
            &&& dx < dy ==> forall|k: int| 0 <= k < t.len() ==> (#[trigger] t[k]).1 == y0 + dir(y0, y1) * k
        }),
{
    let dx = span_x(x0, x1);
    let dy = span_y(y0, y1);
    lemma_err_step(dx, dy, 0, 0);
    if dx >= dy {
        lemma_trace_wide(x0, y0, x1, y1, 0, 0);
    } else {
        lemma_trace_tall(x0, y0, x1, y1, 0, 0);
    }
}

} // verus!
