//! Flood fill: the 4-connected region of one color around a pixel, inside
//! the canvas and the selection.
use vstd::prelude::*;
use crate::color::Color;
use crate::document::Rect;
use crate::grid::{at, on_canvas, lemma_index_in_bounds, lemma_index_injective, lemma_index_decompose};
use crate::paint::in_sel;

verus! {

/// `(x, y)` belongs to the fill's domain: on the canvas, inside the
/// selection, and of the color `target` in `cel`.
pub open spec fn fillable(cel: Seq<Color>, w: int, h: int, sel: Option<Rect>, target: Color, x: int, y: int) -> bool {
    on_canvas(w, h, x, y) && in_sel(sel, x, y) && at(cel, w, x, y) == target
}

/// `p` and `q` share an edge.
pub open spec fn adjacent(p: (int, int), q: (int, int)) -> bool {
    (p.0 == q.0 && (p.1 == q.1 + 1 || q.1 == p.1 + 1)) || (p.1 == q.1 && (p.0 == q.0 + 1 || q.0 == p.0 + 1))
}

/// `path` walks from pixel to edge-sharing pixel through the fill's domain.
pub open spec fn is_fill_path(cel: Seq<Color>, w: int, h: int, sel: Option<Rect>, target: Color, path: Seq<(int, int)>) -> bool {
    &&& path.len() >= 1
    &&& forall|k: int| 0 <= k < path.len() ==> fillable(cel, w, h, sel, target, #[trigger] path[k].0, path[k].1)
    &&& forall|k: int| 0 <= k < path.len() - 1 ==> adjacent(#[trigger] path[k], path[k + 1])
}

/// `p` can be reached from `s` through the fill's domain.
pub open spec fn fill_reaches(cel: Seq<Color>, w: int, h: int, sel: Option<Rect>, target: Color, s: (int, int), p: (int, int)) -> bool {
    exists|path: Seq<(int, int)>| #[trigger] is_fill_path(cel, w, h, sel, target, path) && path[0] == s && path.last() == p
}

/// The `w` by `h` cel `cel` after a flood fill with `new` from `(px, py)`:
/// every pixel reachable from there through pixels of the start pixel's
/// color, inside the selection, turns `new`; all others keep their color.
pub open spec fn flood_filled(cel: Seq<Color>, w: int, h: int, sel: Option<Rect>, px: int, py: int, new: Color) -> Seq<Color> {
    Seq::new(cel.len(), |i: int|
        if fill_reaches(cel, w, h, sel, at(cel, w, px, py), (px, py), (i % w, i / w)) { new } else { cel[i] })
}

/// A fillable pixel reaches itself.
pub proof fn lemma_reach_self(cel: Seq<Color>, w: int, h: int, sel: Option<Rect>, target: Color, s: (int, int))
    requires
        fillable(cel, w, h, sel, target, s.0, s.1),
    ensures
        fill_reaches(cel, w, h, sel, target, s, s),
{
    let path = seq![s];
    assert(is_fill_path(cel, w, h, sel, target, path));
}

/// Reaching a pixel reaches its fillable neighbours too.
pub proof fn lemma_reach_extend(cel: Seq<Color>, w: int, h: int, sel: Option<Rect>, target: Color, s: (int, int), q: (int, int), p: (int, int))
    requires
        fill_reaches(cel, w, h, sel, target, s, q),
        adjacent(q, p),
        fillable(cel, w, h, sel, target, p.0, p.1),
    ensures
        fill_reaches(cel, w, h, sel, target, s, p),
{
    let path = choose|path: Seq<(int, int)>| #[trigger] is_fill_path(cel, w, h, sel, target, path) && path[0] == s && path.last() == q;
    let path2 = path.push(p);
    assert forall|k: int| 0 <= k < path2.len() implies fillable(cel, w, h, sel, target, #[trigger] path2[k].0, path2[k].1) by {
        if k < path.len() {
            assert(path2[k] == path[k]);
        }
    }
    assert forall|k: int| 0 <= k < path2.len() - 1 implies adjacent(#[trigger] path2[k], path2[k + 1]) by {
        if k < path.len() - 1 {
            assert(path2[k] == path[k]);
            assert(path2[k + 1] == path[k + 1]);
        } else {
            assert(path2[k] == q);
        }
    }
    assert(is_fill_path(cel, w, h, sel, target, path2));
    assert(path2[0] == s);
}

/// Along a fill path from a member of a set of pixels closed under fillable
/// neighbours, every pixel up to `k` is a member.
proof fn lemma_path_closed(cel: Seq<Color>, w: int, h: int, sel: Option<Rect>, target: Color,
    done: spec_fn(int, int) -> bool, path: Seq<(int, int)>, k: int)
    requires
        is_fill_path(cel, w, h, sel, target, path),
        0 <= k < path.len(),
        done(path[0].0, path[0].1),
        forall|x: int, y: int, x2: int, y2: int|
            #[trigger] done(x, y) && adjacent((x, y), (x2, y2)) && #[trigger] fillable(cel, w, h, sel, target, x2, y2) ==> done(x2, y2),
    ensures
        done(path[k].0, path[k].1),
    decreases k,
{
    if k > 0 {
        lemma_path_closed(cel, w, h, sel, target, done, path, k - 1);
        assert(adjacent(path[k - 1], path[k]));
        assert(fillable(cel, w, h, sel, target, path[k].0, path[k].1));
        assert(adjacent((path[k - 1].0, path[k - 1].1), (path[k].0, path[k].1)));
    }
}

/// A set of fillable pixels (those where `done` holds) that holds `s` and
/// every fillable neighbour of its members holds every pixel reachable from `s`.
pub proof fn lemma_reach_closed(cel: Seq<Color>, w: int, h: int, sel: Option<Rect>, target: Color, s: (int, int),
    done: spec_fn(int, int) -> bool, p: (int, int))
    requires
        done(s.0, s.1),
        forall|x: int, y: int, x2: int, y2: int|
            #[trigger] done(x, y) && adjacent((x, y), (x2, y2)) && #[trigger] fillable(cel, w, h, sel, target, x2, y2) ==> done(x2, y2),
        fill_reaches(cel, w, h, sel, target, s, p),
    ensures
        done(p.0, p.1),
{
    let path = choose|path: Seq<(int, int)>| #[trigger] is_fill_path(cel, w, h, sel, target, path) && path[0] == s && path.last() == p;
    lemma_path_closed(cel, w, h, sel, target, done, path, path.len() - 1);
}

/// Number of pixels of color `c`.
pub open spec fn count_color(s: Seq<Color>, c: Color) -> nat
    decreases s.len(),
{
    if s.len() == 0 {
        0
    } else {
        count_color(s.drop_last(), c) + if s.last() == c { 1nat } else { 0nat }
    }
}

/// Recoloring one pixel of color `c` lowers the count of `c` by one.
pub proof fn lemma_count_update(s: Seq<Color>, c: Color, i: int, v: Color)
    requires
        0 <= i < s.len(),
        s[i] == c,
        v != c,
    ensures
        count_color(s.update(i, v), c) + 1 == count_color(s, c),
    decreases s.len(),
{
    let t = s.update(i, v);
    if i == s.len() - 1 {
        assert(t.drop_last() =~= s.drop_last());
    } else {
        assert(t.drop_last() =~= s.drop_last().update(i, v));
        lemma_count_update(s.drop_last(), c, i, v);
    }
}

/// `(x, y)` was filled: it is in the fill's domain of `orig` and now
/// holds `new` in `cur`.
pub open spec fn fill_done(orig: Seq<Color>, cur: Seq<Color>, w: int, h: int, sel: Option<Rect>, target: Color, new: Color, x: int, y: int) -> bool {
    fillable(orig, w, h, sel, target, x, y) && at(cur, w, x, y) == new
}

/// `(x, y)` waits on the work stack.
pub open spec fn on_stack(st: Seq<(usize, usize)>, x: int, y: int) -> bool {
    exists|k: int| 0 <= k < st.len() && #[trigger] st[k].0 == x && st[k].1 == y
}

/// Whether `sel` allows `(x, y)`, for pixel coordinates.
pub fn sel_allows_at(sel: Option<Rect>, x: usize, y: usize) -> (res: bool)
    ensures
        res == in_sel(sel, x as int, y as int),
{
    match sel {
        Some((x0, y0, x1, y1)) => {
            let xi: i128 = x as i128;
            let yi: i128 = y as i128;
            x0 as i128 <= xi && xi <= x1 as i128 && y0 as i128 <= yi && yi <= y1 as i128
        },
        None => true,
    }
}

/// The stack invariant of a waiting entry: it lies on the canvas and is the
/// start or a neighbour of a filled pixel.
pub open spec fn stack_entry_ok(orig: Seq<Color>, cur: Seq<Color>, w: int, h: int, sel: Option<Rect>, target: Color, new: Color,
    start: (int, int), e: (usize, usize)) -> bool {
    &&& e.0 < w && e.1 < h
    &&& ((e.0 as int, e.1 as int) == start
        || exists|qx: int, qy: int| #[trigger] fill_done(orig, cur, w, h, sel, target, new, qx, qy) && adjacent((qx, qy), (e.0 as int, e.1 as int)))
}

/// Flood-fills a `w` by `h` cel with `new` from `(px, py)`, which lies on
/// the canvas and inside `sel`, and whose color is not `new`.
pub fn fill_cel(cel: &mut Vec<Color>, w: usize, h: usize, sel: Option<Rect>, px: usize, py: usize, new: Color)
    requires
        old(cel)@.len() == w * h,
        px < w,
        py < h,
        in_sel(sel, px as int, py as int),
        at(old(cel)@, w as int, px as int, py as int) != new,
    ensures
        final(cel)@ == flood_filled(old(cel)@, w as int, h as int, sel, px as int, py as int, new),
{
    let ghost orig = cel@;
    let ghost wi = w as int;
    let ghost hi = h as int;
    let ghost start = (px as int, py as int);
    let n: usize = cel.len();
    proof { lemma_index_in_bounds(wi, hi, px as int, py as int); }
    let target: Color = cel[py * w + px];
    let mut stack: Vec<(usize, usize)> = Vec::new();
    stack.push((px, py));
    proof {
        assert(stack@[0].0 == px && stack@[0].1 == py);
        assert(on_stack(stack@, px as int, py as int));
        assert(fillable(orig, wi, hi, sel, target, px as int, py as int));
    }
    while stack.len() > 0
        invariant
            cel@.len() == w * h,
            n == w * h,
            px < w && py < h,
            wi == w && hi == h,
            start == (px as int, py as int),
            target != new,
            target == at(orig, wi, px as int, py as int),
            fillable(orig, wi, hi, sel, target, px as int, py as int),
            forall|x: int, y: int| on_canvas(wi, hi, x, y) ==> #[trigger] at(cel@, wi, x, y) == at(orig, wi, x, y)
                || (fillable(orig, wi, hi, sel, target, x, y) && at(cel@, wi, x, y) == new),
            forall|x: int, y: int| #[trigger] fill_done(orig, cel@, wi, hi, sel, target, new, x, y)
                ==> fill_reaches(orig, wi, hi, sel, target, start, (x, y)),
            forall|k: int| 0 <= k < stack@.len() ==> stack_entry_ok(orig, cel@, wi, hi, sel, target, new, start, #[trigger] stack@[k]),
            forall|x: int, y: int, x2: int, y2: int|
                #[trigger] fill_done(orig, cel@, wi, hi, sel, target, new, x, y) && adjacent((x, y), (x2, y2))
                && #[trigger] fillable(orig, wi, hi, sel, target, x2, y2)
                ==> fill_done(orig, cel@, wi, hi, sel, target, new, x2, y2) || on_stack(stack@, x2, y2),
            fill_done(orig, cel@, wi, hi, sel, target, new, px as int, py as int) || on_stack(stack@, px as int, py as int),
        decreases 5 * count_color(cel@, target) + stack@.len(),
    {
        let ghost cur0 = cel@;
        let ghost st0 = stack@;
        let top = stack.pop();
        proof {
            assert(stack@ =~= st0.drop_last());
            // an entry of the old stack is the popped one or still waits
            assert forall|x: int, y: int| on_stack(st0, x, y) implies
                (x == st0.last().0 && y == st0.last().1) || on_stack(stack@, x, y) by {
                let k = choose|k: int| 0 <= k < st0.len() && #[trigger] st0[k].0 == x && st0[k].1 == y;
                if k < st0.len() - 1 {
                    assert(stack@[k] == st0[k]);
                }
            }
            assert(stack_entry_ok(orig, cel@, wi, hi, sel, target, new, start, st0[st0.len() - 1]));
        }
        match top {
            None => {},
            Some(e) => {
                let cx: usize = e.0;
                let cy: usize = e.1;
                proof { lemma_index_in_bounds(wi, hi, cx as int, cy as int); }
                let idx: usize = cy * w + cx;
                let allowed = sel_allows_at(sel, cx, cy);
                if allowed && cel[idx] == target {
                    let ghost cur_before = cel@;
                    cel[idx] = new;
                    let ghost cur1 = cel@;
                    proof {
                        assert(at(cur0, wi, cx as int, cy as int) == target);
                        assert(fillable(orig, wi, hi, sel, target, cx as int, cy as int));
                        lemma_count_update(cur0, target, idx as int, new);
                        // only pixel (cx, cy) changed
                        assert forall|x: int, y: int| on_canvas(wi, hi, x, y) && (x != cx || y != cy)
                            implies #[trigger] at(cur1, wi, x, y) == at(cur0, wi, x, y) by {
                            lemma_index_in_bounds(wi, hi, x, y);
                            if y * wi + x == idx {
                                lemma_index_injective(wi, hi, x, y, cx as int, cy as int);
                            }
                        }
                        assert(fill_done(orig, cur1, wi, hi, sel, target, new, cx as int, cy as int));
                        // the filled pixel is reachable from the start
                        if (cx as int, cy as int) != start {
                            let (qx, qy) = choose|qx: int, qy: int| #[trigger] fill_done(orig, cur0, wi, hi, sel, target, new, qx, qy)
                                && adjacent((qx, qy), (cx as int, cy as int));
                            lemma_reach_extend(orig, wi, hi, sel, target, start, (qx, qy), (cx as int, cy as int));
                        } else {
                            lemma_reach_self(orig, wi, hi, sel, target, start);
                        }
                        // filled pixels stay filled
                        assert forall|x: int, y: int| #[trigger] fill_done(orig, cur0, wi, hi, sel, target, new, x, y)
                            implies fill_done(orig, cur1, wi, hi, sel, target, new, x, y) by {
                            if x != cx || y != cy {
                                assert(at(cur1, wi, x, y) == at(cur0, wi, x, y));
                            }
                        }
                    }
                    let ghost st1 = stack@;
                    if cx > 0 {
                        stack.push((cx - 1, cy));
                    }
                    if cx + 1 < w {
                        stack.push((cx + 1, cy));
                    }
                    if cy > 0 {
                        stack.push((cx, cy - 1));
                    }
                    if cy + 1 < h {
                        stack.push((cx, cy + 1));
                    }
                    proof {
                        let st2 = stack@;
                        assert(st2.len() <= st1.len() + 4);
                        assert(forall|k: int| 0 <= k < st1.len() ==> st2[k] == st1[k]);
                        // every in-canvas neighbour of (cx, cy) now waits
                        assert forall|x2: int, y2: int|
                            adjacent((cx as int, cy as int), (x2, y2)) && on_canvas(wi, hi, x2, y2)
                            implies on_stack(st2, x2, y2) by {
                            let a: int = if cx > 0 { 1 } else { 0 };
                            let b: int = if cx + 1 < w { 1 } else { 0 };
                            let c: int = if cy > 0 { 1 } else { 0 };
                            let base: int = st1.len() as int;
                            if x2 == cx - 1 {
                                assert(st2[base].0 == x2 && st2[base].1 == y2);
                            } else if x2 == cx + 1 {
                                assert(st2[base + a].0 == x2 && st2[base + a].1 == y2);
                            } else if y2 == cy - 1 {
                                assert(st2[base + a + b].0 == x2 && st2[base + a + b].1 == y2);
                            } else {
                                assert(st2[base + a + b + c].0 == x2 && st2[base + a + b + c].1 == y2);
                            }
                        }
                        assert forall|x: int, y: int| on_stack(st1, x, y) implies on_stack(st2, x, y) by {
                            let k = choose|k: int| 0 <= k < st1.len() && #[trigger] st1[k].0 == x && st1[k].1 == y;
                            assert(st2[k] == st1[k]);
                        }
                        // stack entries: old ones keep their witness, new ones neighbour (cx, cy)
                        assert forall|k: int| 0 <= k < st2.len() implies
                            stack_entry_ok(orig, cur1, wi, hi, sel, target, new, start, #[trigger] st2[k]) by {
                            if k < st1.len() {
                                assert(st2[k] == st0[k]);
                                assert(stack_entry_ok(orig, cur0, wi, hi, sel, target, new, start, st0[k]));
                                if (st2[k].0 as int, st2[k].1 as int) != start {
                                    let (qx, qy) = choose|qx: int, qy: int| #[trigger] fill_done(orig, cur0, wi, hi, sel, target, new, qx, qy)
                                        && adjacent((qx, qy), (st2[k].0 as int, st2[k].1 as int));
                                    assert(fill_done(orig, cur1, wi, hi, sel, target, new, qx, qy));
                                }
                            } else {
                                assert(adjacent((cx as int, cy as int), (st2[k].0 as int, st2[k].1 as int)));
                                assert(fill_done(orig, cur1, wi, hi, sel, target, new, cx as int, cy as int));
                            }
                        }
                        // the frontier invariant
                        assert forall|x: int, y: int, x2: int, y2: int|
                            #[trigger] fill_done(orig, cur1, wi, hi, sel, target, new, x, y) && adjacent((x, y), (x2, y2))
                            && #[trigger] fillable(orig, wi, hi, sel, target, x2, y2)
                            implies fill_done(orig, cur1, wi, hi, sel, target, new, x2, y2) || on_stack(st2, x2, y2) by {
                            if x == cx && y == cy {
                            } else {
                                assert(at(cur1, wi, x, y) == at(cur0, wi, x, y));
                                assert(fill_done(orig, cur0, wi, hi, sel, target, new, x, y));
                                if !fill_done(orig, cur1, wi, hi, sel, target, new, x2, y2) {
                                    if x2 == cx && y2 == cy {
                                    } else {
                                        assert(at(cur1, wi, x2, y2) == at(cur0, wi, x2, y2));
                                        assert(on_stack(st0, x2, y2));
                                        assert(on_stack(st1, x2, y2));
                                    }
                                }
                            }
                        }
                        if !fill_done(orig, cur1, wi, hi, sel, target, new, px as int, py as int) {
                            assert(at(cur1, wi, px as int, py as int) == at(cur0, wi, px as int, py as int));
                            assert(on_stack(st0, px as int, py as int));
                            assert(on_stack(st1, px as int, py as int));
                        }
                        assert forall|x: int, y: int| on_canvas(wi, hi, x, y) implies #[trigger] at(cur1, wi, x, y) == at(orig, wi, x, y)
                            || (fillable(orig, wi, hi, sel, target, x, y) && at(cur1, wi, x, y) == new) by {
                            if x != cx || y != cy {
                                assert(at(cur1, wi, x, y) == at(cur0, wi, x, y));
                            }
                        }
                        assert forall|x: int, y: int| #[trigger] fill_done(orig, cur1, wi, hi, sel, target, new, x, y)
                            implies fill_reaches(orig, wi, hi, sel, target, start, (x, y)) by {
                            if x != cx || y != cy {
                                assert(at(cur1, wi, x, y) == at(cur0, wi, x, y));
                                assert(fill_done(orig, cur0, wi, hi, sel, target, new, x, y));
                            }
                        }
                    }
                } else {
                    proof {
                        // the popped pixel is not fillable any more: filled, or outside the domain
                        let (ex, ey) = (cx as int, cy as int);
                        assert(fillable(orig, wi, hi, sel, target, ex, ey) ==> fill_done(orig, cel@, wi, hi, sel, target, new, ex, ey));
                        assert forall|k: int| 0 <= k < stack@.len() implies
                            stack_entry_ok(orig, cel@, wi, hi, sel, target, new, start, #[trigger] stack@[k]) by {
                            assert(stack@[k] == st0[k]);
                        }
                        assert forall|x: int, y: int, x2: int, y2: int|
                            #[trigger] fill_done(orig, cel@, wi, hi, sel, target, new, x, y) && adjacent((x, y), (x2, y2))
                            && #[trigger] fillable(orig, wi, hi, sel, target, x2, y2)
                            implies fill_done(orig, cel@, wi, hi, sel, target, new, x2, y2) || on_stack(stack@, x2, y2) by {
                        }
                    }
                }
            }
        }
    }
    proof {
        let done = |x: int, y: int| fill_done(orig, cel@, wi, hi, sel, target, new, x, y);
        assert forall|x: int, y: int, x2: int, y2: int|
            #[trigger] done(x, y) && adjacent((x, y), (x2, y2)) && #[trigger] fillable(orig, wi, hi, sel, target, x2, y2)
            implies done(x2, y2) by {
            assert(fill_done(orig, cel@, wi, hi, sel, target, new, x, y));
            assert(!on_stack(stack@, x2, y2));
        }
        assert(done(px as int, py as int)) by {
            assert(!on_stack(stack@, px as int, py as int));
        }
        let goal = flood_filled(orig, wi, hi, sel, px as int, py as int, new);
        assert forall|i: int| 0 <= i < cel@.len() implies #[trigger] cel@[i] == goal[i] by {
            lemma_index_decompose(wi, hi, i);
            let x = i % wi;
            let y = i / wi;
            assert(at(cel@, wi, x, y) == cel@[i]);
            assert(at(orig, wi, x, y) == orig[i]);
            if fill_reaches(orig, wi, hi, sel, target, start, (x, y)) {
                lemma_reach_closed(orig, wi, hi, sel, target, start, done, (x, y));
            } else {
                if fill_done(orig, cel@, wi, hi, sel, target, new, x, y) {
                    assert(fill_reaches(orig, wi, hi, sel, target, start, (x, y)));
                }
            }
        }
        assert(cel@ =~= goal);
    }
}

/// Flood fill spreads only between pixels that share an edge: exactly one
/// of the two coordinates differs, by one.
pub proof fn law_fill_edges(p: (int, int), q: (int, int))
    ensures
        adjacent(p, q) <==> ((p.0 == q.0 && (p.1 - q.1 == 1 || q.1 - p.1 == 1)) || (p.1 == q.1 && (p.0 - q.0 == 1 || q.0 - p.0 == 1))),
        adjacent(p, q) ==> adjacent(q, p),
        !adjacent(p, p),
        !adjacent(p, (p.0 + 1, p.1 + 1)),
{
}

} // verus!
