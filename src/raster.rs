use vstd::prelude::*;

use crate::clip::{abs, clamp_line_to_canvas, clip_segment};
use crate::framebuffer::{
    depth_test, pixel_index, put_buffer_pixel, put_z_buffer_pixel, set_rgba,
    FrameBuffer,
};
use crate::geometry::Line2d_i;
use crate::{CANVAS_HEIGHT, CANVAS_WIDTH};

verus! {

/// The largest `s >= r` whose square is at most `n`, found by counting up from `r`.
pub open spec fn sqrt_from(r: int, n: int) -> int
    decreases n - r,
{
    if r >= n || (r + 1) * (r + 1) > n {
        r
    } else {
        sqrt_from(r + 1, n)
    }
}

/// The integer square root of `n`, rounded down.
pub open spec fn floor_sqrt(n: int) -> int {
    sqrt_from(0, n)
}

/// Square of the straight-line (Euclidean) length of the segment.
pub open spec fn length_sq(x0: int, y0: int, x1: int, y1: int) -> int {
    (x1 - x0) * (x1 - x0) + (y1 - y0) * (y1 - y0)
}

/// Depth after `k` steps from `z0` toward `z1` along a segment whose straight-line length is
/// `sqrt(len_sq)`: each step adds `(z1 - z0) / sqrt(len_sq)`, so `k` steps move the depth by
/// `k * |z1 - z0| / sqrt(len_sq)`, rounded toward `z0`, which is
/// `floor_sqrt((k * |z1 - z0|)^2 / len_sq)`. The depth never passes `z1`; with `len_sq == 0`
/// it stays at `z0`.
pub open spec fn depth_at(z0: int, z1: int, k: int, len_sq: int) -> int {
    let d = if z1 >= z0 {
        z1 - z0
    } else {
        z0 - z1
    };
    let moved = floor_sqrt((k * d) * (k * d) / len_sq);
    let s = if moved < d {
        moved
    } else {
        d
    };
    if len_sq <= 0 || k <= 0 {
        z0
    } else if z1 >= z0 {
        z0 + s
    } else {
        z0 - s
    }
}

/// The pixels that the stepping of a slanted segment visits from `(x, y)` with decision value
/// `err`, toward `(xe, ye)`, with `dx = xe - x0`, `ndy = -|ye - y0|` and `sy` the direction in y.
/// Both axes may step at once; the walk stops when it reaches the end point, or when an axis
/// that should step has already reached its end value.
pub open spec fn bresenham_from(x: int, y: int, err: int, xe: int, ye: int, dx: int, ndy: int, sy: int, fuel: nat) -> Seq<(int, int)>
    decreases fuel,
{
    if fuel == 0 {
        Seq::empty()
    } else {
        seq![(x, y)] + bresenham_next(x, y, err, xe, ye, dx, ndy, sy, fuel)
    }
}

/// What the walk visits after `(x, y)`.
pub open spec fn bresenham_next(x: int, y: int, err: int, xe: int, ye: int, dx: int, ndy: int, sy: int, fuel: nat) -> Seq<(int, int)>
    decreases fuel, 0nat,
{
    if fuel == 0 || (x == xe && y == ye) {
        Seq::empty()
    } else {
        let e2 = 2 * err;
        if e2 >= ndy && x == xe {
            Seq::empty()
        } else {
            let x2 = if e2 >= ndy { x + 1 } else { x };
            let err2 = if e2 >= ndy { err + ndy } else { err };
            if e2 <= dx && y == ye {
                Seq::empty()
            } else {
                let y3 = if e2 <= dx { y + sy } else { y };
                let err3 = if e2 <= dx { err2 + dx } else { err2 };
                bresenham_from(x2, y3, err3, xe, ye, dx, ndy, sy, (fuel - 1) as nat)
            }
        }
    }
}

/// The pixels that drawing a clipped segment (with `x0 <= x1`) visits, in order.
/// A single point is one pixel. A vertical segment covers the rows from the smaller y up to,
/// not including, the larger; a horizontal one the columns from `x0` up to, not including,
/// `x1`. A slanted one is walked by integer stepping from `(x0, y0)` to `(x1, y1)`.
pub open spec fn raster_path(x0: int, y0: int, x1: int, y1: int) -> Seq<(int, int)> {
    if x0 == x1 && y0 == y1 {
        seq![(x0, y0)]
    } else if x0 == x1 {
        let lo = if y0 > y1 { y1 } else { y0 };
        let hi = if y0 > y1 { y0 } else { y1 };
        Seq::new((hi - lo) as nat, |k: int| (x0, lo + k))
    } else if y0 == y1 {
        Seq::new((x1 - x0) as nat, |k: int| (x0 + k, y0))
    } else {
        let dx = x1 - x0;
        let ndy = -abs(y1 - y0);
        let sy = if y0 < y1 { 1int } else { -1int };
        bresenham_from(x0, y0, dx + ndy, x1, y1, dx, ndy, sy, (dx + abs(y1 - y0) + 1) as nat)
    }
}

/// Color and depth after drawing the pixels of `path` in order: each is set to opaque black,
/// and the `k`-th is depth-tested at `depth_at(z0, z1, k, len)`.
pub open spec fn plot_path(c: Seq<u8>, d: Seq<u32>, path: Seq<(int, int)>, z0: int, z1: int, len: int) -> (Seq<u8>, Seq<u32>)
    decreases path.len(),
{
    if path.len() == 0 {
        (c, d)
    } else {
        let prev = plot_path(c, d, path.drop_last(), z0, z1, len);
        let p = path.last();
        let i = pixel_index(p.0, p.1);
        (set_rgba(prev.0, i, 0, 0, 0, 255), depth_test(prev.1, i, depth_at(z0, z1, path.len() - 1, len) as u32))
    }
}

proof fn lemma_depth_at_between(z0: int, z1: int, k: int, len_sq: int)
    ensures
        z0 <= z1 ==> z0 <= depth_at(z0, z1, k, len_sq) <= z1,
        z1 <= z0 ==> z1 <= depth_at(z0, z1, k, len_sq) <= z0,
{
    let d = if z1 >= z0 { z1 - z0 } else { z0 - z1 };
    if len_sq > 0 && k > 0 {
        lemma_floor_sqrt_nonneg((k * d) * (k * d) / len_sq);
    }
}

proof fn lemma_sqrt_from_nonneg(r: int, n: int)
    requires
        r >= 0,
    ensures
        sqrt_from(r, n) >= 0,
    decreases n - r,
{
    if !(r >= n || (r + 1) * (r + 1) > n) {
        lemma_sqrt_from_nonneg(r + 1, n);
    }
}

proof fn lemma_floor_sqrt_nonneg(n: int)
    ensures
        floor_sqrt(n) >= 0,
{
    lemma_sqrt_from_nonneg(0, n);
}

/// Counting up from any `i <= r` reaches `r` when `r` is the integer square root of `n`.
proof fn lemma_sqrt_from_reaches(i: int, r: int, n: int)
    requires
        0 <= i <= r,
        r * r <= n < (r + 1) * (r + 1),
    ensures
        sqrt_from(i, n) == r,
    decreases r - i,
{
    if i < r {
        assert((i + 1) * (i + 1) <= r * r && i < n) by (nonlinear_arith)
            requires
                0 <= i < r,
                r * r <= n,
        ;
        lemma_sqrt_from_reaches(i + 1, r, n);
    }
}

/// The integer square root of `n`, rounded down, by bisection.
fn floor_sqrt_exec(n: u128) -> (r: u128)
    requires
        n < 0x100000000000000000000000000,
    ensures
        r as int == floor_sqrt(n as int),
{
    let mut lo: u128 = 0;
    let mut hi: u128 = 0x10000000000000;
    assert(hi * hi == 0x100000000000000000000000000) by (nonlinear_arith)
        requires
            hi == 0x10000000000000,
    ;
    while lo + 1 < hi
        invariant
            lo < hi <= 0x10000000000000,
            lo * lo <= n,
            n < hi * hi,
        decreases hi - lo,
    {
        let mid: u128 = lo + (hi - lo) / 2;
        assert(mid * mid < 0x100000000000000000000000000) by (nonlinear_arith)
            requires
                mid < 0x10000000000000,
        ;
        if mid * mid <= n {
            lo = mid;
        } else {
            hi = mid;
        }
    }
    proof {
        lemma_sqrt_from_reaches(0, lo as int, n as int);
    }
    lo
}

fn depth_at_exec(z0: u32, z1: u32, k: u64, len_sq: u64) -> (z: u32)
    requires
        k < 0x100000,
        len_sq < 0x100000,
    ensures
        z as int == depth_at(z0 as int, z1 as int, k as int, len_sq as int),
{
    if len_sq == 0 || k == 0 {
        return z0;
    }
    let d: u64 = if z1 >= z0 { (z1 - z0) as u64 } else { (z0 - z1) as u64 };
    assert(k * d < 0x100000 * 0x100000000) by (nonlinear_arith)
        requires
            k < 0x100000,
            d <= 0xFFFFFFFF,
    ;
    let kd: u128 = k as u128 * d as u128;
    assert(kd * kd < 0x100000000000000000000000000) by (nonlinear_arith)
        requires
            kd == k * d,
            k < 0x100000,
            d <= 0xFFFFFFFF,
    ;
    let sq: u128 = kd * kd;
    let q: u128 = sq / len_sq as u128;
    assert(q <= sq) by (nonlinear_arith)
        requires
            q == sq / (len_sq as u128),
            len_sq > 0,
    ;
    let moved: u128 = floor_sqrt_exec(q);
    let s: u64 = if moved < d as u128 { moved as u64 } else { d };
    if z1 >= z0 {
        z0 + s as u32
    } else {
        z0 - s as u32
    }
}

/// Draws one pixel in opaque black and depth-tests `z` there.
fn plot(fb: &mut FrameBuffer, x: usize, y: usize, z: u32)
    requires
        old(fb).wf(),
        x < CANVAS_WIDTH,
        y < CANVAS_HEIGHT,
    ensures
        final(fb).wf(),
        final(fb).colors() == set_rgba(old(fb).colors(), pixel_index(x as int, y as int), 0, 0, 0, 255),
        final(fb).depths() == depth_test(old(fb).depths(), pixel_index(x as int, y as int), z),
{
    put_buffer_pixel(fb, x, y, 0, 0, 0, 255);
    put_z_buffer_pixel(fb, x, y, z);
}

proof fn lemma_plot_path_push(c: Seq<u8>, d: Seq<u32>, path: Seq<(int, int)>, p: (int, int), z0: int, z1: int, len: int)
    ensures
        plot_path(c, d, path.push(p), z0, z1, len) == ({
            let prev = plot_path(c, d, path, z0, z1, len);
            let i = pixel_index(p.0, p.1);
            (set_rgba(prev.0, i, 0, 0, 0, 255), depth_test(prev.1, i, depth_at(z0, z1, path.len() as int, len) as u32))
        }),
{
    assert(path.push(p).drop_last() =~= path);
}

/// The state of the canvas after drawing the segment from `(x0, y0)` to `(x1, y1)` with depths
/// `z0` and `z1` at its ends: the visible part is drawn left to right, the depths following
/// their endpoints; `None` when nothing of the segment is visible.
pub open spec fn drawn(c: Seq<u8>, d: Seq<u32>, x0: i16, y0: i16, x1: i16, y1: i16, z0: u32, z1: u32) -> Option<(Seq<u8>, Seq<u32>)> {
    let zs = if x0 > x1 { z1 } else { z0 };
    let ze = if x0 > x1 { z0 } else { z1 };
    match clip_segment(Line2d_i((x0, y0), (x1, y1))) {
        Some((a, b)) => Some(plot_path(c, d, raster_path(a.0, a.1, b.0, b.1), zs as int, ze as int, length_sq(a.0, a.1, b.0, b.1))),
        None => None,
    }
}

/// Draws a clipped segment (left endpoint first) in opaque black, depth-testing each pixel at
/// a depth that moves from `start_z` toward `end_z` by a fixed increment per step, computed
/// from the straight-line length of the segment.
pub fn draw_clamped_line_to_buffer(fb: &mut FrameBuffer, x0: usize, y0: usize, x1: usize, y1: usize, start_z: u32, end_z: u32)
    requires
        old(fb).wf(),
        x0 <= x1,
        x1 < CANVAS_WIDTH,
        y0 < CANVAS_HEIGHT,
        y1 < CANVAS_HEIGHT,
    ensures
        final(fb).wf(),
        (final(fb).colors(), final(fb).depths()) == plot_path(
            old(fb).colors(),
            old(fb).depths(),
            raster_path(x0 as int, y0 as int, x1 as int, y1 as int),
            start_z as int,
            end_z as int,
            length_sq(x0 as int, y0 as int, x1 as int, y1 as int),
        ),
{
    let ghost c0 = fb.colors();
    let ghost d0 = fb.depths();
    let ghost path = raster_path(x0 as int, y0 as int, x1 as int, y1 as int);
    let ghost zs = start_z as int;
    let ghost ze = end_z as int;
    let dxu: u64 = (x1 - x0) as u64;
    let dyu: u64 = if y1 >= y0 { (y1 - y0) as u64 } else { (y0 - y1) as u64 };
    assert(dxu * dxu + dyu * dyu < 0x100000) by (nonlinear_arith)
        requires
            dxu < 480,
            dyu < 480,
    ;
    assert((x1 - x0) * (x1 - x0) + (y1 - y0) * (y1 - y0) == dxu * dxu + dyu * dyu) by (nonlinear_arith)
        requires
            dxu == x1 - x0,
            dyu == y1 - y0 || dyu == y0 - y1,
    ;
    // squared straight-line length
    let len: u64 = dxu * dxu + dyu * dyu;
    let ghost glen = len as int;
    assert(glen == length_sq(x0 as int, y0 as int, x1 as int, y1 as int));

    if x0 == x1 && y0 == y1 {
        // a single point
        plot(fb, x0, y0, start_z);
        proof {
            lemma_plot_path_push(c0, d0, Seq::empty(), (x0 as int, y0 as int), zs, ze, glen);
            assert(Seq::<(int, int)>::empty().push((x0 as int, y0 as int)) =~= path);
        }
    } else if x0 == x1 {
        // vertical: the last row is not drawn
        let min_y = if y0 > y1 { y1 } else { y0 };
        let max_y = if y0 > y1 { y0 } else { y1 };
        assert(path.len() == max_y - min_y);
        let mut curr_y = min_y;
        while curr_y < max_y
            invariant
                fb.wf(),
                min_y <= curr_y <= max_y,
                max_y < CANVAS_HEIGHT,
                x0 < CANVAS_WIDTH,
                len < 0x100000,
                zs == start_z,
                ze == end_z,
                glen == len,
                path.len() == max_y - min_y,
                forall|k: int| 0 <= k < path.len() ==> #[trigger] path[k] == (x0 as int, min_y + k),
                (fb.colors(), fb.depths()) == plot_path(c0, d0, path.take(curr_y - min_y), zs, ze, glen),
            decreases max_y - curr_y,
        {
            let k: u64 = (curr_y - min_y) as u64;
            let z = depth_at_exec(start_z, end_z, k, len);
            plot(fb, x0, curr_y, z);
            proof {
                lemma_plot_path_push(c0, d0, path.take(k as int), path[k as int], zs, ze, glen);
                lemma_depth_at_between(zs, ze, k as int, glen);
                assert(path.take(k as int).len() == k);
                assert(z == depth_at(zs, ze, k as int, glen) as u32);
                assert(path.take(k as int).push(path[k as int]) =~= path.take(k as int + 1));
            }
            curr_y = curr_y + 1;
        }
        assert(path.take(max_y - min_y) =~= path);
    } else if y0 == y1 {
        // horizontal: the last column is not drawn
        assert(path.len() == x1 - x0);
        let mut curr_x = x0;
        while curr_x < x1
            invariant
                fb.wf(),
                x0 <= curr_x <= x1,
                x1 < CANVAS_WIDTH,
                y0 < CANVAS_HEIGHT,
                len < 0x100000,
                zs == start_z,
                ze == end_z,
                glen == len,
                path.len() == x1 - x0,
                forall|k: int| 0 <= k < path.len() ==> #[trigger] path[k] == (x0 + k, y0 as int),
                (fb.colors(), fb.depths()) == plot_path(c0, d0, path.take(curr_x - x0), zs, ze, glen),
            decreases x1 - curr_x,
        {
            let k: u64 = (curr_x - x0) as u64;
            let z = depth_at_exec(start_z, end_z, k, len);
            plot(fb, curr_x, y0, z);
            proof {
                lemma_plot_path_push(c0, d0, path.take(k as int), path[k as int], zs, ze, glen);
                lemma_depth_at_between(zs, ze, k as int, glen);
                assert(path.take(k as int).len() == k);
                assert(z == depth_at(zs, ze, k as int, glen) as u32);
                assert(path.take(k as int).push(path[k as int]) =~= path.take(k as int + 1));
            }
            curr_x = curr_x + 1;
        }
        assert(path.take(x1 - x0) =~= path);
    } else {
        // slanted: integer stepping, both axes may step at once
        let abs_delta_x: i64 = dxu as i64;
        let neg_delta_y: i64 = -(dyu as i64);
        let sign_of_y_delta: i64 = if y0 < y1 { 1 } else { -1 };
        let mut error: i64 = abs_delta_x + neg_delta_y;
        let mut curr_x: i64 = x0 as i64;
        let mut curr_y: i64 = y0 as i64;
        let x_end: i64 = x1 as i64;
        let y_end: i64 = y1 as i64;
        let mut k: u64 = 0;
        let ghost b = dyu as int;
        let ghost total = abs_delta_x + b + 1;
        let ghost mut done: Seq<(int, int)> = Seq::empty();
        let ghost mut fuel: nat = total as nat;
        assert(done + path =~= path);
        loop
            invariant_except_break
                path == done + bresenham_from(curr_x as int, curr_y as int, error as int, x_end as int, y_end as int, abs_delta_x as int, neg_delta_y as int, sign_of_y_delta as int, fuel),
                fuel >= (x_end - curr_x) + abs(y_end - curr_y) + 1,
                x0 <= curr_x <= x_end,
                sign_of_y_delta == 1 ==> y0 <= curr_y <= y_end,
                sign_of_y_delta == -1 ==> y_end <= curr_y <= y0,
                -2 * (abs_delta_x + b) <= error <= 2 * (abs_delta_x + b),
                k == done.len(),
                k + fuel == total,
            invariant
                fb.wf(),
                x_end < CANVAS_WIDTH,
                y0 < CANVAS_HEIGHT,
                y_end < CANVAS_HEIGHT,
                x_end == x1,
                y_end == y1,
                abs_delta_x == x1 - x0,
                abs_delta_x > 0,
                b == abs(y1 - y0),
                b > 0,
                neg_delta_y == -b,
                sign_of_y_delta == (if y0 < y1 { 1int } else { -1int }),
                total == abs_delta_x + b + 1,
                total < 1000,
                len < 0x100000,
                zs == start_z,
                ze == end_z,
                glen == len,
                (fb.colors(), fb.depths()) == plot_path(c0, d0, done, zs, ze, glen),
            ensures
                path == done,
            decreases fuel,
        {
            let z = depth_at_exec(start_z, end_z, k, len);
            plot(fb, curr_x as usize, curr_y as usize, z);
            let ghost ox = curr_x as int;
            let ghost oy = curr_y as int;
            let ghost oerr = error as int;
            let ghost rest = bresenham_next(ox, oy, oerr, x_end as int, y_end as int, abs_delta_x as int, neg_delta_y as int, sign_of_y_delta as int, fuel);
            proof {
                lemma_plot_path_push(c0, d0, done, (ox, oy), zs, ze, glen);
                lemma_depth_at_between(zs, ze, k as int, glen);
                assert(z == depth_at(zs, ze, done.len() as int, glen) as u32);
                assert(done + (seq![(ox, oy)] + rest) =~= done.push((ox, oy)) + rest);
                done = done.push((ox, oy));
            }
            k = k + 1;
            if curr_x == x_end && curr_y == y_end {
                assert(done + rest =~= done);
                break;
            }
            let e2 = 2 * error;
            if e2 >= neg_delta_y {
                if curr_x == x_end {
                    assert(done + rest =~= done);
                    break;
                }
                error = error + neg_delta_y;
                curr_x = curr_x + 1;
            }
            if e2 <= abs_delta_x {
                if curr_y == y_end {
                    assert(done + rest =~= done);
                    break;
                }
                error = error + abs_delta_x;
                curr_y = curr_y + sign_of_y_delta;
            }
            proof {
                fuel = (fuel - 1) as nat;
            }
        }
    }
}

/// Draws the visible part of the segment from `(x0, y0)` to `(x1, y1)`, in canvas pixels, with
/// depths `start_z` and `end_z` at its ends; `false`, with nothing drawn, when no part of it is
/// visible.
pub fn draw_line(fb: &mut FrameBuffer, x0: i16, y0: i16, x1: i16, y1: i16, start_z: u32, end_z: u32) -> (r: bool)
    requires
        old(fb).wf(),
    ensures
        final(fb).wf(),
        r == clip_segment(Line2d_i((x0, y0), (x1, y1))) is Some,
        match drawn(old(fb).colors(), old(fb).depths(), x0, y0, x1, y1, start_z, end_z) {
            Some(s) => (final(fb).colors(), final(fb).depths()) == s,
            None => final(fb).colors() == old(fb).colors() && final(fb).depths() == old(fb).depths(),
        },
{
    let mut z_range = (start_z, end_z);
    if x0 > x1 {
        z_range.0 = end_z;
        z_range.1 = start_z;
    }
    let clamped_line = clamp_line_to_canvas(&Line2d_i((x0, y0), (x1, y1)));
    match clamped_line {
        Some(line) => {
            draw_clamped_line_to_buffer(fb, line.0.0, line.0.1, line.1.0, line.1.1, z_range.0, z_range.1);
            true
        },
        None => false,
    }
}

} // verus!
