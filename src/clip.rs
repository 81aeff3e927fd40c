use vstd::prelude::*;

use crate::geometry::{Line2d_i, Line2d_u, Point2d_u};
use crate::{CANVAS_HEIGHT, CANVAS_H_I16, CANVAS_WIDTH, CANVAS_W_I16};

verus! {

/// A side of the canvas rectangle.
#[derive(PartialEq, Eq, Structural, Debug, Clone, Copy)]
pub enum Border {
    Left,
    Top,
    Bottom,
    Right,
}

/// The fixed order in which the borders are searched for crossings:
/// top, left, right, bottom. It decides which border a corner belongs to.
pub open spec fn border_order(i: int) -> Border {
    if i == 0 {
        Border::Top
    } else if i == 1 {
        Border::Left
    } else if i == 2 {
        Border::Right
    } else {
        Border::Bottom
    }
}

/// The `i`-th border of the search order.
pub fn border_at(i: usize) -> (b: Border)
    requires
        i < 4,
    ensures
        b == border_order(i as int),
{
    if i == 0 {
        Border::Top
    } else if i == 1 {
        Border::Left
    } else if i == 2 {
        Border::Right
    } else {
        Border::Bottom
    }
}

pub open spec fn abs(a: int) -> int {
    if a >= 0 {
        a
    } else {
        -a
    }
}

/// Division of integers rounded toward zero, as a cast of a real quotient to an integer does.
pub open spec fn trunc_div(n: int, d: int) -> int {
    if (n >= 0) == (d > 0) || n == 0 {
        abs(n) / abs(d)
    } else {
        -(abs(n) / abs(d))
    }
}

/// A point of the canvas.
pub open spec fn in_canvas(x: int, y: int) -> bool {
    0 <= x < CANVAS_WIDTH && 0 <= y < CANVAS_HEIGHT
}


/// Whether `v` lies between `a` and `b`, both included.
pub open spec fn between(v: int, a: int, b: int) -> bool {
    (a <= v && v <= b) || (b <= v && v <= a)
}

/// Where the segment from `(x0, y0)` to `(x1, y1)` (with `x0 < x1` and `y0 != y1`) crosses the
/// given border of the canvas. The crossing counts when it lies on the segment and, taken
/// exactly, on that edge of the canvas; the top edge leaves its corners to the left and right
/// edges, so that a corner is found once before the bottom edge is searched. The coordinate
/// along the edge is then rounded toward zero.
pub open spec fn border_crossing(b: Border, x0: int, y0: int, x1: int, y1: int) -> Option<(int, int)> {
    let dx = x1 - x0;
    let dy = y1 - y0;
    let w1 = CANVAS_WIDTH - 1;
    let h1 = CANVAS_HEIGHT - 1;
    match b {
        Border::Top => {
            let n = x0 * dy - y0 * dx;
            if between(0, y0, y1) && ((dy > 0 && 0 < n < w1 * dy) || (dy < 0 && 0 < -n < w1 * (-dy))) {
                Some((trunc_div(n, dy), 0))
            } else {
                None
            }
        },
        Border::Left => {
            let n = y0 * dx - dy * x0;
            if x0 <= 0 <= x1 && 0 <= n <= h1 * dx {
                Some((0, trunc_div(n, dx)))
            } else {
                None
            }
        },
        Border::Right => {
            let n = y0 * dx + dy * (w1 - x0);
            if x0 <= w1 <= x1 && 0 <= n <= h1 * dx {
                Some((w1, trunc_div(n, dx)))
            } else {
                None
            }
        },
        Border::Bottom => {
            let n = x0 * dy + (h1 - y0) * dx;
            if between(h1, y0, y1) && ((dy > 0 && 0 <= n <= w1 * dy) || (dy < 0 && 0 <= -n <= w1 * (-dy))) {
                Some((trunc_div(n, dy), h1))
            } else {
                None
            }
        },
    }
}

/// Whether `(x, y)` lies on the line that carries the given border.
pub open spec fn on_border_line(b: Border, x: int, y: int) -> bool {
    match b {
        Border::Top => y == 0,
        Border::Left => x == 0,
        Border::Right => x == CANVAS_WIDTH - 1,
        Border::Bottom => y == CANVAS_HEIGHT - 1,
    }
}

/// The first crossing of the segment, from the `i`-th border of the search order on, skipping
/// the borders whose line passes through `(ax, ay)`: where the segment leaves the canvas when
/// `(ax, ay)` is its endpoint on the canvas.
pub open spec fn first_exit_crossing(i: int, x0: int, y0: int, x1: int, y1: int, ax: int, ay: int) -> Option<(int, int)>
    decreases 4 - i,
{
    if i >= 4 {
        None
    } else if on_border_line(border_order(i), ax, ay) {
        first_exit_crossing(i + 1, x0, y0, x1, y1, ax, ay)
    } else {
        match border_crossing(border_order(i), x0, y0, x1, y1) {
            Some(p) => Some(p),
            None => first_exit_crossing(i + 1, x0, y0, x1, y1, ax, ay),
        }
    }
}

/// All crossings of the segment, from the `i`-th border of the search order on, in that order.
pub open spec fn crossings_from(i: int, x0: int, y0: int, x1: int, y1: int) -> Seq<(int, int)>
    decreases 4 - i,
{
    if i >= 4 {
        Seq::empty()
    } else {
        match border_crossing(border_order(i), x0, y0, x1, y1) {
            Some(p) => seq![p] + crossings_from(i + 1, x0, y0, x1, y1),
            None => crossings_from(i + 1, x0, y0, x1, y1),
        }
    }
}

/// The two crossings kept from the whole search: none, one taken twice (a corner is grazed),
/// or the first two.
pub open spec fn canvas_crossings(x0: int, y0: int, x1: int, y1: int) -> Option<((int, int), (int, int))> {
    let s = crossings_from(0, x0, y0, x1, y1);
    if s.len() == 0 {
        None
    } else if s.len() == 1 {
        Some((s[0], s[0]))
    } else {
        Some((s[0], s[1]))
    }
}

/// The point at parameter `a / b` of the segment from `(x0, y0)` to `(x1, y1)` lies on the
/// canvas (`b > 0`, `0 <= a <= b`; coordinates compared exactly, scaled by `b`).
pub open spec fn on_segment_in_canvas(x0: int, y0: int, x1: int, y1: int, a: int, b: int) -> bool {
    &&& b > 0
    &&& 0 <= a <= b
    &&& 0 <= x0 * b + a * (x1 - x0) <= (CANVAS_WIDTH - 1) * b
    &&& 0 <= y0 * b + a * (y1 - y0) <= (CANVAS_HEIGHT - 1) * b
}

/// Some point of the segment from `(x0, y0)` to `(x1, y1)` lies on the canvas.
pub open spec fn segment_meets_canvas(x0: int, y0: int, x1: int, y1: int) -> bool {
    exists|a: int, b: int| on_segment_in_canvas(x0, y0, x1, y1, a, b)
}

pub open spec fn clamp_int(v: int, lo: int, hi: int) -> int {
    if v < lo {
        lo
    } else if v > hi {
        hi
    } else {
        v
    }
}

pub open spec fn pt_view(p: Point2d_u) -> (int, int) {
    (p.0 as int, p.1 as int)
}

pub open spec fn opt_pt_view(o: Option<Point2d_u>) -> Option<(int, int)> {
    match o {
        Some(p) => Some(pt_view(p)),
        None => None,
    }
}

pub open spec fn opt_line_view(o: Option<Line2d_u>) -> Option<((int, int), (int, int))> {
    match o {
        Some(l) => Some(l.view_pts()),
        None => None,
    }
}

/// The segment with its endpoints ordered by ascending x (the left one first).
pub open spec fn canonical(l: Line2d_i) -> (int, int, int, int) {
    if l.0.0 > l.1.0 {
        (l.1.0 as int, l.1.1 as int, l.0.0 as int, l.0.1 as int)
    } else {
        (l.0.0 as int, l.0.1 as int, l.1.0 as int, l.1.1 as int)
    }
}


/// The two points ordered by ascending x; on a tie they keep their order.
pub open spec fn order_by_x(a: (int, int), b: (int, int)) -> ((int, int), (int, int)) {
    if b.0 < a.0 {
        (b, a)
    } else {
        (a, b)
    }
}

/// The visible part of a segment, in canvas pixels, left endpoint first; `None` when no
/// point of it lies on the canvas.
///
/// A vertical or horizontal segment is cut to the canvas by clamping its endpoints. A segment
/// with both endpoints on the canvas is kept. With one endpoint on the canvas, that endpoint
/// is paired with the point where the segment leaves the canvas (the endpoint alone when it
/// leaves right there). With none, the first two crossings with the borders are kept.
pub open spec fn clip_segment(l: Line2d_i) -> Option<((int, int), (int, int))> {
    let (x0, y0, x1, y1) = canonical(l);
    if x0 == x1 {
        if x0 < 0 || x0 >= CANVAS_WIDTH || (y0 < 0 && y1 < 0) || (y0 >= CANVAS_HEIGHT && y1 >= CANVAS_HEIGHT) {
            None
        } else {
            Some(((x0, clamp_int(y0, 0, CANVAS_HEIGHT - 1)), (x0, clamp_int(y1, 0, CANVAS_HEIGHT - 1))))
        }
    } else if y0 == y1 {
        if y0 < 0 || y0 >= CANVAS_HEIGHT || x1 < 0 || x0 >= CANVAS_WIDTH {
            None
        } else {
            Some(((clamp_int(x0, 0, CANVAS_WIDTH - 1), y0), (clamp_int(x1, 0, CANVAS_WIDTH - 1), y0)))
        }
    } else if in_canvas(x0, y0) && in_canvas(x1, y1) {
        Some(((x0, y0), (x1, y1)))
    } else if in_canvas(x0, y0) {
        let p = match first_exit_crossing(0, x0, y0, x1, y1, x0, y0) {
            Some(p) => p,
            None => (x0, y0),
        };
        Some(order_by_x((x0, y0), p))
    } else if in_canvas(x1, y1) {
        let p = match first_exit_crossing(0, x0, y0, x1, y1, x1, y1) {
            Some(p) => p,
            None => (x1, y1),
        };
        Some(order_by_x(p, (x1, y1)))
    } else {
        match canvas_crossings(x0, y0, x1, y1) {
            Some((a, b)) => if a.0 < b.0 {
                Some((a, b))
            } else {
                Some((b, a))
            },
            None => None,
        }
    }
}


proof fn lemma_trunc_div_within(n: int, d: int, k: int)
    requires
        d > 0,
        k >= 0,
        0 <= n <= k * d,
    ensures
        0 <= trunc_div(n, d) <= k,
{
    assert(0 <= n / d <= k) by (nonlinear_arith)
        requires
            d > 0,
            k >= 0,
            0 <= n <= k * d,
    ;
}

proof fn lemma_meets_by(x0: int, y0: int, x1: int, y1: int, a: int, b: int)
    requires
        on_segment_in_canvas(x0, y0, x1, y1, a, b),
    ensures
        segment_meets_canvas(x0, y0, x1, y1),
{
}

/// A crossing that counts lies on the canvas, and on the segment.
proof fn lemma_border_crossing_on_canvas(b: Border, x0: int, y0: int, x1: int, y1: int)
    requires
        x0 < x1,
        y0 != y1,
    ensures
        border_crossing(b, x0, y0, x1, y1) matches Some(p) ==> in_canvas(p.0, p.1) && segment_meets_canvas(x0, y0, x1, y1),
{
    let dx = x1 - x0;
    let dy = y1 - y0;
    let w1 = CANVAS_WIDTH - 1;
    let h1 = CANVAS_HEIGHT - 1;
    if border_crossing(b, x0, y0, x1, y1) is Some {
        match b {
            Border::Left => {
                let n = y0 * dx - dy * x0;
                lemma_trunc_div_within(n, dx, h1);
                assert(x0 * dx + (-x0) * (x1 - x0) == 0 && y0 * dx + (-x0) * (y1 - y0) == n) by (nonlinear_arith)
                    requires
                        dx == x1 - x0,
                        dy == y1 - y0,
                        n == y0 * dx - dy * x0,
                ;
                lemma_meets_by(x0, y0, x1, y1, -x0, dx);
            },
            Border::Right => {
                let n = y0 * dx + dy * (w1 - x0);
                lemma_trunc_div_within(n, dx, h1);
                assert(x0 * dx + (w1 - x0) * (x1 - x0) == w1 * dx && y0 * dx + (w1 - x0) * (y1 - y0) == n) by (nonlinear_arith)
                    requires
                        dx == x1 - x0,
                        dy == y1 - y0,
                        n == y0 * dx + dy * (w1 - x0),
                ;
                lemma_meets_by(x0, y0, x1, y1, w1 - x0, dx);
            },
            Border::Top => {
                let n = x0 * dy - y0 * dx;
                assert(trunc_div(n, dy) == trunc_div(-n, -dy));
                if dy > 0 {
                    lemma_trunc_div_within(n, dy, w1);
                    assert(x0 * dy + (-y0) * (x1 - x0) == n && y0 * dy + (-y0) * (y1 - y0) == 0) by (nonlinear_arith)
                        requires
                            dx == x1 - x0,
                            dy == y1 - y0,
                            n == x0 * dy - y0 * dx,
                    ;
                    lemma_meets_by(x0, y0, x1, y1, -y0, dy);
                } else {
                    lemma_trunc_div_within(-n, -dy, w1);
                    assert(x0 * (-dy) + y0 * (x1 - x0) == -n && y0 * (-dy) + y0 * (y1 - y0) == 0) by (nonlinear_arith)
                        requires
                            dx == x1 - x0,
                            dy == y1 - y0,
                            n == x0 * dy - y0 * dx,
                    ;
                    lemma_meets_by(x0, y0, x1, y1, y0, -dy);
                }
            },
            Border::Bottom => {
                let n = x0 * dy + (h1 - y0) * dx;
                assert(trunc_div(n, dy) == trunc_div(-n, -dy));
                if dy > 0 {
                    lemma_trunc_div_within(n, dy, w1);
                    assert(x0 * dy + (h1 - y0) * (x1 - x0) == n && y0 * dy + (h1 - y0) * (y1 - y0) == h1 * dy) by (nonlinear_arith)
                        requires
                            dx == x1 - x0,
                            dy == y1 - y0,
                            n == x0 * dy + (h1 - y0) * dx,
                    ;
                    lemma_meets_by(x0, y0, x1, y1, h1 - y0, dy);
                } else {
                    lemma_trunc_div_within(-n, -dy, w1);
                    assert(x0 * (-dy) + (y0 - h1) * (x1 - x0) == -n && y0 * (-dy) + (y0 - h1) * (y1 - y0) == h1 * (-dy)) by (nonlinear_arith)
                        requires
                            dx == x1 - x0,
                            dy == y1 - y0,
                            n == x0 * dy + (h1 - y0) * dx,
                    ;
                    lemma_meets_by(x0, y0, x1, y1, y0 - h1, -dy);
                }
            },
        }
    }
}

proof fn lemma_crossings_on_canvas(i: int, x0: int, y0: int, x1: int, y1: int)
    requires
        x0 < x1,
        y0 != y1,
    ensures
        forall|k: int| 0 <= k < crossings_from(i, x0, y0, x1, y1).len() ==> {
            let p = #[trigger] crossings_from(i, x0, y0, x1, y1)[k];
            in_canvas(p.0, p.1)
        },
        crossings_from(i, x0, y0, x1, y1).len() > 0 ==> segment_meets_canvas(x0, y0, x1, y1),
    decreases 4 - i,
{
    if i < 4 {
        lemma_border_crossing_on_canvas(border_order(i), x0, y0, x1, y1);
        lemma_crossings_on_canvas(i + 1, x0, y0, x1, y1);
        let rest = crossings_from(i + 1, x0, y0, x1, y1);
        if let Some(p) = border_crossing(border_order(i), x0, y0, x1, y1) {
            assert forall|k: int| 0 <= k < crossings_from(i, x0, y0, x1, y1).len() implies {
                let q = #[trigger] crossings_from(i, x0, y0, x1, y1)[k];
                in_canvas(q.0, q.1)
            } by {
                if k > 0 {
                    assert(crossings_from(i, x0, y0, x1, y1)[k] == rest[k - 1]);
                }
            }
        }
    }
}

proof fn lemma_exit_on_canvas(i: int, x0: int, y0: int, x1: int, y1: int, ax: int, ay: int)
    requires
        x0 < x1,
        y0 != y1,
    ensures
        first_exit_crossing(i, x0, y0, x1, y1, ax, ay) matches Some(p) ==> in_canvas(p.0, p.1),
    decreases 4 - i,
{
    if i < 4 {
        lemma_border_crossing_on_canvas(border_order(i), x0, y0, x1, y1);
        lemma_exit_on_canvas(i + 1, x0, y0, x1, y1, ax, ay);
    }
}

/// What clipping guarantees: the visible part lies on the canvas with its left endpoint
/// first; it is `None` whenever no point of the segment lies on the canvas; and an endpoint
/// on the canvas is always kept.
pub proof fn lemma_clip_segment_guarantees(l: Line2d_i)
    ensures
        clip_segment(l) matches Some((a, b)) ==> in_canvas(a.0, a.1) && in_canvas(b.0, b.1) && a.0 <= b.0,
        !segment_meets_canvas(canonical(l).0, canonical(l).1, canonical(l).2, canonical(l).3) ==> clip_segment(l) is None,
        in_canvas(l.0.0 as int, l.0.1 as int) ==> (clip_segment(l) matches Some((a, b)) && (a == (l.0.0 as int, l.0.1 as int)
            || b == (l.0.0 as int, l.0.1 as int))),
        in_canvas(l.1.0 as int, l.1.1 as int) ==> (clip_segment(l) matches Some((a, b)) && (a == (l.1.0 as int, l.1.1 as int)
            || b == (l.1.0 as int, l.1.1 as int))),
{
    let (x0, y0, x1, y1) = canonical(l);
    let w1 = CANVAS_WIDTH - 1;
    let h1 = CANVAS_HEIGHT - 1;
    if clip_segment(l) is Some {
        if x0 == x1 {
            if 0 <= y0 <= h1 {
                lemma_meets_by(x0, y0, x1, y1, 0, 1);
            } else if 0 <= y1 <= h1 {
                lemma_meets_by(x0, y0, x1, y1, 1, 1);
            } else if y0 < 0 {
                let b = y1 - y0;
                assert(0 <= x0 * b <= w1 * b && y0 * b + (-y0) * (y1 - y0) == 0 && x0 * b + (-y0) * (x1 - x0) == x0 * b) by (nonlinear_arith)
                    requires
                        b == y1 - y0,
                        b > 0,
                        0 <= x0 <= w1,
                        x1 == x0,
                ;
                lemma_meets_by(x0, y0, x1, y1, -y0, b);
            } else {
                let b = y0 - y1;
                assert(0 <= x0 * b <= w1 * b && y0 * b + y0 * (y1 - y0) == 0 && x0 * b + y0 * (x1 - x0) == x0 * b) by (nonlinear_arith)
                    requires
                        b == y0 - y1,
                        b > 0,
                        0 <= x0 <= w1,
                        x1 == x0,
                ;
                lemma_meets_by(x0, y0, x1, y1, y0, b);
            }
        } else if y0 == y1 {
            if 0 <= x0 <= w1 {
                lemma_meets_by(x0, y0, x1, y1, 0, 1);
            } else if 0 <= x1 <= w1 {
                lemma_meets_by(x0, y0, x1, y1, 1, 1);
            } else {
                let b = x1 - x0;
                assert(0 <= y0 * b <= h1 * b && x0 * b + (-x0) * (x1 - x0) == 0 && y0 * b + (-x0) * (y1 - y0) == y0 * b) by (nonlinear_arith)
                    requires
                        b == x1 - x0,
                        b > 0,
                        0 <= y0 <= h1,
                        y1 == y0,
                ;
                lemma_meets_by(x0, y0, x1, y1, -x0, b);
            }
        } else if in_canvas(x0, y0) {
            lemma_meets_by(x0, y0, x1, y1, 0, 1);
            lemma_exit_on_canvas(0, x0, y0, x1, y1, x0, y0);
        } else if in_canvas(x1, y1) {
            lemma_meets_by(x0, y0, x1, y1, 1, 1);
            lemma_exit_on_canvas(0, x0, y0, x1, y1, x1, y1);
        } else {
            lemma_crossings_on_canvas(0, x0, y0, x1, y1);
            let s = crossings_from(0, x0, y0, x1, y1);
            assert(in_canvas(s[0].0, s[0].1));
            if s.len() > 1 {
                assert(in_canvas(s[1].0, s[1].1));
            }
        }
    }
}

/// Relies on num::clamp: returns `lo` below `lo`, `hi` above `hi`, and the input otherwise;
/// it asserts `lo <= hi`.
#[verifier::external_body]
fn clamp_i16(v: i16, lo: i16, hi: i16) -> (r: i16)
    requires
        lo <= hi,
    ensures
        r == clamp_int(v as int, lo as int, hi as int),
{
    num::clamp(v, lo, hi)
}

proof fn lemma_mul_bound(a: int, b: int)
    requires
        -65536 <= a <= 65536,
        -65536 <= b <= 65536,
    ensures
        -4294967296 <= a * b <= 4294967296,
{
    assert(-4294967296 <= a * b <= 4294967296) by (nonlinear_arith)
        requires
            -65536 <= a <= 65536,
            -65536 <= b <= 65536,
    ;
}

/// `n / d` rounded toward zero.
pub(crate) fn trunc_div_exec(n: i64, d: i64) -> (q: i64)
    requires
        d != 0,
        -0x1000000000000000 < n < 0x1000000000000000,
        -0x1000000000000000 < d < 0x1000000000000000,
    ensures
        q == trunc_div(n as int, d as int),
{
    let an: u64 = if n >= 0 { n as u64 } else { (-n) as u64 };
    let ad: u64 = if d >= 0 { d as u64 } else { (-d) as u64 };
    let uq: u64 = an / ad;
    assert(uq <= an) by (nonlinear_arith)
        requires
            uq == an / ad,
            ad > 0,
    ;
    if (n >= 0) == (d > 0) || n == 0 {
        uq as i64
    } else {
        -(uq as i64)
    }
}

/// Where the segment crosses the given border, if the crossing counts there.
fn find_border_intersect(x0: i16, y0: i16, x1: i16, y1: i16, bord_select: Border) -> (r: Option<Point2d_u>)
    requires
        x0 < x1,
        y0 != y1,
    ensures
        opt_pt_view(r) == border_crossing(bord_select, x0 as int, y0 as int, x1 as int, y1 as int),
{
    let dx: i64 = x1 as i64 - x0 as i64;
    let dy: i64 = y1 as i64 - y0 as i64;
    let xs: i64 = x0 as i64;
    let ys: i64 = y0 as i64;
    let w1: i64 = CANVAS_W_I16 as i64 - 1;
    let h1: i64 = CANVAS_H_I16 as i64 - 1;
    proof {
        lemma_mul_bound(xs as int, dy as int);
        lemma_mul_bound(ys as int, dx as int);
        lemma_mul_bound(dy as int, xs as int);
        lemma_mul_bound(dy as int, 479 - xs);
        lemma_mul_bound(479 - ys, dx as int);
        lemma_mul_bound(479, dx as int);
        lemma_mul_bound(479, dy as int);
        lemma_border_crossing_on_canvas(bord_select, x0 as int, y0 as int, x1 as int, y1 as int);
    }
    match bord_select {
        Border::Top => {
            let n: i64 = xs * dy - ys * dx;
            if ((ys <= 0 && 0 <= y1 as i64) || (y1 as i64 <= 0 && 0 <= ys)) && ((dy > 0 && 0 < n && n < w1 * dy) || (dy < 0
                && 0 < -n && -n < w1 * (-dy))) {
                let x: i64 = trunc_div_exec(n, dy);
                return Some(Point2d_u(x as usize, 0));
            }
        },
        Border::Left => {
            let n: i64 = ys * dx - dy * xs;
            if xs <= 0 && 0 <= x1 as i64 && 0 <= n && n <= h1 * dx {
                let y: i64 = trunc_div_exec(n, dx);
                return Some(Point2d_u(0, y as usize));
            }
        },
        Border::Right => {
            let n: i64 = ys * dx + dy * (w1 - xs);
            if xs <= w1 && w1 <= x1 as i64 && 0 <= n && n <= h1 * dx {
                let y: i64 = trunc_div_exec(n, dx);
                return Some(Point2d_u(CANVAS_WIDTH - 1, y as usize));
            }
        },
        Border::Bottom => {
            let n: i64 = xs * dy + (h1 - ys) * dx;
            if ((ys <= h1 && h1 <= y1 as i64) || (y1 as i64 <= h1 && h1 <= ys)) && ((dy > 0 && 0 <= n && n <= w1 * dy) || (dy
                < 0 && 0 <= -n && -n <= w1 * (-dy))) {
                let x: i64 = trunc_div_exec(n, dy);
                return Some(Point2d_u(x as usize, CANVAS_HEIGHT - 1));
            }
        },
    }
    None
}

/// Whether `(x, y)` lies on the line that carries the given border.
fn is_on_border_line(b: Border, x: i16, y: i16) -> (r: bool)
    ensures
        r == on_border_line(b, x as int, y as int),
{
    match b {
        Border::Top => y == 0,
        Border::Left => x == 0,
        Border::Right => x == CANVAS_W_I16 - 1,
        Border::Bottom => y == CANVAS_H_I16 - 1,
    }
}

/// Where the segment leaves the canvas from its endpoint `(ax, ay)` on the canvas: the first
/// crossing in the search order of the borders, skipping those whose line passes through
/// `(ax, ay)`.
fn find_exit_intersect(x0: i16, y0: i16, x1: i16, y1: i16, ax: i16, ay: i16) -> (r: Option<Point2d_u>)
    requires
        x0 < x1,
        y0 != y1,
    ensures
        opt_pt_view(r) == first_exit_crossing(0, x0 as int, y0 as int, x1 as int, y1 as int, ax as int, ay as int),
{
    let mut i: usize = 0;
    while i < 4
        invariant
            i <= 4,
            x0 < x1,
            y0 != y1,
            first_exit_crossing(0, x0 as int, y0 as int, x1 as int, y1 as int, ax as int, ay as int)
                == first_exit_crossing(i as int, x0 as int, y0 as int, x1 as int, y1 as int, ax as int, ay as int),
        decreases 4 - i,
    {
        let b = border_at(i);
        if !is_on_border_line(b, ax, ay) {
            match find_border_intersect(x0, y0, x1, y1, b) {
                Some(pt) => {
                    return Some(pt);
                },
                None => {},
            }
        }
        i = i + 1;
    }
    None
}

/// The crossings of the segment with the canvas borders: none, a grazed corner taken twice, or
/// the first two in the search order.
fn find_canvas_intersections(x0: i16, y0: i16, x1: i16, y1: i16) -> (r: Option<(Point2d_u, Point2d_u)>)
    requires
        x0 < x1,
        y0 != y1,
    ensures
        match r {
            Some((a, b)) => canvas_crossings(x0 as int, y0 as int, x1 as int, y1 as int) == Some((pt_view(a), pt_view(b))),
            None => canvas_crossings(x0 as int, y0 as int, x1 as int, y1 as int) is None,
        },
{
    let ghost all = crossings_from(0, x0 as int, y0 as int, x1 as int, y1 as int);
    let mut first: Point2d_u = Point2d_u(0, 0);
    let mut isects_found: usize = 0;
    let mut i: usize = 0;
    while i < 4
        invariant
            i <= 4,
            x0 < x1,
            y0 != y1,
            isects_found <= 1,
            all == crossings_from(0, x0 as int, y0 as int, x1 as int, y1 as int),
            isects_found == 0 ==> all == crossings_from(i as int, x0 as int, y0 as int, x1 as int, y1 as int),
            isects_found == 1 ==> all == seq![pt_view(first)] + crossings_from(i as int, x0 as int, y0 as int, x1 as int, y1 as int),
        decreases 4 - i,
    {
        let ghost rest = crossings_from(i as int + 1, x0 as int, y0 as int, x1 as int, y1 as int);
        match find_border_intersect(x0, y0, x1, y1, border_at(i)) {
            Some(pt) => {
                if isects_found == 1 {
                    assert(all == seq![pt_view(first)] + (seq![pt_view(pt)] + rest));
                    assert(all[0] == pt_view(first));
                    assert(all[1] == pt_view(pt));
                    return Some((first, pt));
                }
                assert(all == seq![pt_view(pt)] + rest);
                first = pt;
                isects_found = 1;
            },
            None => {},
        }
        i = i + 1;
    }
    if isects_found == 0 {
        None
    } else {
        assert(all =~= seq![pt_view(first)]);
        Some((first, first))
    }
}


/// The visible part of a segment on the canvas, left endpoint first, or `None` when no point
/// of it lies on the canvas. An endpoint on the canvas is always kept.
pub fn clamp_line_to_canvas(line: &Line2d_i) -> (r: Option<Line2d_u>)
    ensures
        opt_line_view(r) == clip_segment(*line),
        r matches Some(l) ==> {
            &&& in_canvas(l.0.0 as int, l.0.1 as int)
            &&& in_canvas(l.1.0 as int, l.1.1 as int)
            &&& l.0.0 <= l.1.0
        },
        !segment_meets_canvas(canonical(*line).0, canonical(*line).1, canonical(*line).2, canonical(*line).3) ==> r is None,
        in_canvas(line.0.0 as int, line.0.1 as int) ==> (r matches Some(l) && (l.0 == (line.0.0 as usize, line.0.1 as usize)
            || l.1 == (line.0.0 as usize, line.0.1 as usize))),
        in_canvas(line.1.0 as int, line.1.1 as int) ==> (r matches Some(l) && (l.0 == (line.1.0 as usize, line.1.1 as usize)
            || l.1 == (line.1.0 as usize, line.1.1 as usize))),
{
    proof {
        lemma_clip_segment_guarantees(*line);
    }
    // the left endpoint first
    let mut x0 = line.0.0;
    let mut y0 = line.0.1;
    let mut x1 = line.1.0;
    let mut y1 = line.1.1;
    if x0 > x1 {
        let xtemp = x1;
        let ytemp = y1;
        x1 = x0;
        y1 = y0;
        x0 = xtemp;
        y0 = ytemp;
    }
    assert(canonical(*line) == (x0 as int, y0 as int, x1 as int, y1 as int));

    let first_point_inside: bool = x0 >= 0 && x0 < CANVAS_W_I16 && y0 >= 0 && y0 < CANVAS_H_I16;
    let second_point_inside: bool = x1 >= 0 && x1 < CANVAS_W_I16 && y1 >= 0 && y1 < CANVAS_H_I16;

    if x0 == x1 {
        // vertical, or a single point: culled when beside the canvas
        if x0 < 0 || x0 >= CANVAS_W_I16 || (y0 < 0 && y1 < 0) || (y0 >= CANVAS_H_I16 && y1 >= CANVAS_H_I16) {
            return None;
        }
        let x = x0 as usize;
        Some(Line2d_u(
            (x, clamp_i16(y0, 0, CANVAS_H_I16 - 1) as usize),
            (x, clamp_i16(y1, 0, CANVAS_H_I16 - 1) as usize),
        ))
    } else if y0 == y1 {
        // horizontal: culled when above, below or beside the canvas
        if y0 < 0 || y0 >= CANVAS_H_I16 || x1 < 0 || x0 >= CANVAS_W_I16 {
            return None;
        }
        let y = y0 as usize;
        Some(Line2d_u(
            (clamp_i16(x0, 0, CANVAS_W_I16 - 1) as usize, y),
            (clamp_i16(x1, 0, CANVAS_W_I16 - 1) as usize, y),
        ))
    } else if first_point_inside && second_point_inside {
        Some(Line2d_u((x0 as usize, y0 as usize), (x1 as usize, y1 as usize)))
    } else if first_point_inside || second_point_inside {
        // pair the endpoint on the canvas with the point where the segment leaves it
        let ax = if first_point_inside { x0 } else { x1 };
        let ay = if first_point_inside { y0 } else { y1 };
        let inside = Point2d_u(ax as usize, ay as usize);
        let exit = match find_exit_intersect(x0, y0, x1, y1, ax, ay) {
            Some(pt) => pt,
            None => inside,
        };
        let (s, e) = if first_point_inside { (inside, exit) } else { (exit, inside) };
        if e.0 < s.0 {
            Some(Line2d_u((e.0, e.1), (s.0, s.1)))
        } else {
            Some(Line2d_u((s.0, s.1), (e.0, e.1)))
        }
    } else {
        // both endpoints off the canvas: look for the segment's crossings with its borders
        match find_canvas_intersections(x0, y0, x1, y1) {
            Some((a, b)) => {
                if a.0 < b.0 {
                    Some(Line2d_u((a.0, a.1), (b.0, b.1)))
                } else {
                    Some(Line2d_u((b.0, b.1), (a.0, a.1)))
                }
            },
            None => None,
        }
    }
}

/// A segment with both endpoints on the canvas is kept whole; clipping only puts its left
/// endpoint first.
pub proof fn lemma_clip_inside_is_identity(l: Line2d_i)
    requires
        in_canvas(l.0.0 as int, l.0.1 as int),
        in_canvas(l.1.0 as int, l.1.1 as int),
    ensures
        clip_segment(l) == Some(((canonical(l).0, canonical(l).1), (canonical(l).2, canonical(l).3))),
{
}

/// A horizontal segment off the canvas rows, or wholly beside the canvas, is culled; one on a
/// canvas row that reaches into the canvas's columns keeps its row and has both x endpoints
/// clamped to the canvas width.
pub proof fn lemma_clip_horizontal(l: Line2d_i)
    requires
        l.0.1 == l.1.1,
        l.0.0 != l.1.0,
    ensures
        (l.0.1 < 0 || l.0.1 >= CANVAS_HEIGHT) ==> clip_segment(l) is None,
        (canonical(l).2 < 0 || canonical(l).0 >= CANVAS_WIDTH) ==> clip_segment(l) is None,
        (0 <= l.0.1 < CANVAS_HEIGHT && canonical(l).2 >= 0 && canonical(l).0 < CANVAS_WIDTH) ==> clip_segment(l) == Some((
            (clamp_int(canonical(l).0, 0, CANVAS_WIDTH - 1), l.0.1 as int),
            (clamp_int(canonical(l).2, 0, CANVAS_WIDTH - 1), l.0.1 as int),
        )),
{
}

/// A vertical segment off the canvas columns, or wholly above or below the canvas, is culled;
/// one on a canvas column that reaches into the canvas's rows keeps its column and has both y
/// endpoints clamped to the canvas height.
pub proof fn lemma_clip_vertical(l: Line2d_i)
    requires
        l.0.0 == l.1.0,
    ensures
        (l.0.0 < 0 || l.0.0 >= CANVAS_WIDTH) ==> clip_segment(l) is None,
        ((l.0.1 < 0 && l.1.1 < 0) || (l.0.1 >= CANVAS_HEIGHT && l.1.1 >= CANVAS_HEIGHT)) ==> clip_segment(l) is None,
        (0 <= l.0.0 < CANVAS_WIDTH && !(l.0.1 < 0 && l.1.1 < 0) && !(l.0.1 >= CANVAS_HEIGHT && l.1.1 >= CANVAS_HEIGHT))
            ==> clip_segment(l) == Some((
            (l.0.0 as int, clamp_int(l.0.1 as int, 0, CANVAS_HEIGHT - 1)),
            (l.0.0 as int, clamp_int(l.1.1 as int, 0, CANVAS_HEIGHT - 1)),
        )),
{
}

/// A segment of which no point lies on the canvas is not visible.
pub proof fn lemma_clip_segment_missing_canvas_not_visible(l: Line2d_i)
    requires
        !segment_meets_canvas(canonical(l).0, canonical(l).1, canonical(l).2, canonical(l).3),
    ensures
        clip_segment(l) is None,
{
    lemma_clip_segment_guarantees(l);
}

} // verus!
