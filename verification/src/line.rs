//! Bresenham rasterization of a line segment, stated as a sequence of states.

use vstd::prelude::*;

verus! {

/// `|v|`.
pub open spec fn abs(v: int) -> int {
    if v < 0 { -v } else { v }
}

/// Step direction from `from` towards `to`: `1` when `from < to`, else `-1`.
pub open spec fn dir(from: int, to: int) -> int {
    if from < to { 1 } else { -1 }
}

/// One step of the error-accumulating Bresenham walk. The state is `(x, y, err)`;
/// `a = |dx|`, `b = |dy|`, and `sx`, `sy` are the step directions.
pub open spec fn bres_step(st: (int, int, int), a: int, b: int, sx: int, sy: int) -> (int, int, int) {
    let e2 = 2 * st.2;
    let x = if e2 >= -b { st.0 + sx } else { st.0 };
    let e1 = if e2 >= -b { st.2 - b } else { st.2 };
    if e2 <= a {
        (x, st.1 + sy, e1 + a)
    } else {
        (x, st.1, e1)
    }
}

/// The state of the walk from `(x0, y0)` to `(x1, y1)` after `k` steps.
pub open spec fn bres_state(x0: int, y0: int, x1: int, y1: int, k: nat) -> (int, int, int)
    decreases k,
{
    let a = abs(x1 - x0);
    let b = abs(y1 - y0);
    if k == 0 {
        (x0, y0, a - b)
    } else {
        bres_step(bres_state(x0, y0, x1, y1, (k - 1) as nat), a, b, dir(x0, x1), dir(y0, y1))
    }
}

/// The number of steps of the walk: the larger of `|dx|` and `|dy|`.
pub open spec fn line_steps(x0: int, y0: int, x1: int, y1: int) -> int {
    let a = abs(x1 - x0);
    let b = abs(y1 - y0);
    if a >= b { a } else { b }
}

/// The `k`-th point of the line from `(x0, y0)` to `(x1, y1)`.
pub open spec fn line_point(x0: int, y0: int, x1: int, y1: int, k: int) -> (int, int) {
    let st = bres_state(x0, y0, x1, y1, k as nat);
    (st.0, st.1)
}

/// How far `v` has moved from `start` in the direction of `end`.
pub open spec fn progress(start: int, end: int, v: int) -> int {
    if start < end { v - start } else { start - v }
}

/// What holds of the walk after `k` steps (for `k` up to the number of steps):
/// with `i` and `j` the distances covered along x and y, the error term is
/// `a(j+1) - b(i+1)`, the major coordinate advanced exactly `k` times, the minor one
/// stays within half a pixel of the ideal line, and the end point is reached exactly
/// at the last step.
pub open spec fn bres_inv(x0: int, y0: int, x1: int, y1: int, k: int, st: (int, int, int)) -> bool {
    let a = abs(x1 - x0);
    let b = abs(y1 - y0);
    let i = progress(x0, x1, st.0);
    let j = progress(y0, y1, st.1);
    let d = a * j - b * i;
    &&& 0 <= i <= a
    &&& 0 <= j <= b
    &&& st.0 == (if x0 < x1 { x0 + i } else { x0 - i })
    &&& st.1 == (if y0 < y1 { y0 + j } else { y0 - j })
    &&& st.2 == a * (j + 1) - b * (i + 1)
    &&& (a >= b ==> i == k && 2 * d <= a && (a > 0 ==> -a < 2 * d))
    &&& (a < b ==> j == k && -b <= 2 * d && 2 * d < b)
    &&& ((st.0 == x1 && st.1 == y1) <==> k == line_steps(x0, y0, x1, y1))
}

proof fn lemma_bres_step_x_major(a: int, b: int, i: int, j: int, xs: bool, ys: bool)
    requires
        a >= b,
        b >= 0,
        a > 0,
        0 <= i < a,
        0 <= j <= b,
        2 * (a * j - b * i) <= a,
        -a < 2 * (a * j - b * i),
        xs == (2 * (a * (j + 1) - b * (i + 1)) >= -b),
        ys == (2 * (a * (j + 1) - b * (i + 1)) <= a),
    ensures
        xs,
        ({
            let i2 = i + 1;
            let j2 = if ys { j + 1 } else { j };
            &&& 0 <= j2 <= b
            &&& 2 * (a * j2 - b * i2) <= a
            &&& -a < 2 * (a * j2 - b * i2)
            &&& a * (j2 + 1) - b * (i2 + 1) == (a * (j + 1) - b * (i + 1)) - b + (if ys { a } else { 0 })
            &&& (i2 == a ==> j2 == b)
        }),
{
    let d = a * j - b * i;
    assert(a * (j + 1) - b * (i + 1) == d + a - b) by (nonlinear_arith)
        requires
            d == a * j - b * i,
    ;
    let i2 = i + 1;
    let j2 = if ys { j + 1 } else { j };
    if ys {
        assert(a * j2 - b * i2 == d + a - b) by (nonlinear_arith)
            requires
                j2 == j + 1,
                i2 == i + 1,
                d == a * j - b * i,
        ;
    } else {
        assert(a * j2 - b * i2 == d - b) by (nonlinear_arith)
            requires
                j2 == j,
                i2 == i + 1,
                d == a * j - b * i,
        ;
    }
    assert(a * (j2 + 1) - b * (i2 + 1) == a * j2 - b * i2 + a - b) by (nonlinear_arith);
    assert(j2 <= b) by (nonlinear_arith)
        requires
            2 * (a * j2 - b * i2) <= a,
            i2 <= a,
            a > 0,
            b >= 0,
            j2 >= 0,
    ;
    if i2 == a {
        assert(j2 >= b) by (nonlinear_arith)
            requires
                -a < 2 * (a * j2 - b * i2),
                i2 == a,
                a > 0,
        ;
    }
}

proof fn lemma_bres_step_y_major(a: int, b: int, i: int, j: int, xs: bool, ys: bool)
    requires
        a < b,
        a >= 0,
        0 <= i <= a,
        0 <= j < b,
        -b <= 2 * (a * j - b * i),
        2 * (a * j - b * i) < b,
        xs == (2 * (a * (j + 1) - b * (i + 1)) >= -b),
        ys == (2 * (a * (j + 1) - b * (i + 1)) <= a),
    ensures
        ys,
        ({
            let i2 = if xs { i + 1 } else { i };
            let j2 = j + 1;
            &&& 0 <= i2 <= a
            &&& -b <= 2 * (a * j2 - b * i2)
            &&& 2 * (a * j2 - b * i2) < b
            &&& a * (j2 + 1) - b * (i2 + 1) == (a * (j + 1) - b * (i + 1)) - (if xs { b } else { 0 }) + a
            &&& (j2 == b ==> i2 == a)
        }),
{
    let d = a * j - b * i;
    assert(a * (j + 1) - b * (i + 1) == d + a - b) by (nonlinear_arith)
        requires
            d == a * j - b * i,
    ;
    let i2 = if xs { i + 1 } else { i };
    let j2 = j + 1;
    if xs {
        assert(a * j2 - b * i2 == d + a - b) by (nonlinear_arith)
            requires
                j2 == j + 1,
                i2 == i + 1,
                d == a * j - b * i,
        ;
    } else {
        assert(a * j2 - b * i2 == d + a) by (nonlinear_arith)
            requires
                j2 == j + 1,
                i2 == i,
                d == a * j - b * i,
        ;
    }
    assert(a * (j2 + 1) - b * (i2 + 1) == a * j2 - b * i2 + a - b) by (nonlinear_arith);
    assert(i2 <= a) by (nonlinear_arith)
        requires
            -b <= 2 * (a * j2 - b * i2),
            j2 <= b,
            b > 0,
            a >= 0,
            i2 >= 0,
    ;
    if j2 == b {
        assert(i2 >= a) by (nonlinear_arith)
            requires
                2 * (a * j2 - b * i2) < b,
                j2 == b,
                b > 0,
        ;
    }
}

/// The walk invariant holds at every step up to the last one.
pub proof fn lemma_bres_state(x0: int, y0: int, x1: int, y1: int, k: nat)
    requires
        k <= line_steps(x0, y0, x1, y1),
    ensures
        bres_inv(x0, y0, x1, y1, k as int, bres_state(x0, y0, x1, y1, k)),
    decreases k,
{
    let a = abs(x1 - x0);
    let b = abs(y1 - y0);
    if k == 0 {
        assert(a * 0 - b * 0 == 0) by (nonlinear_arith);
        assert(a * (0 + 1) - b * (0 + 1) == a - b) by (nonlinear_arith);
    } else {
        lemma_bres_state(x0, y0, x1, y1, (k - 1) as nat);
        let st = bres_state(x0, y0, x1, y1, (k - 1) as nat);
        let i = progress(x0, x1, st.0);
        let j = progress(y0, y1, st.1);
        let e2 = 2 * st.2;
        let xs = e2 >= -b;
        let ys = e2 <= a;
        if a >= b {
            lemma_bres_step_x_major(a, b, i, j, xs, ys);
        } else {
            lemma_bres_step_y_major(a, b, i, j, xs, ys);
        }
    }
}


/// The smaller of two integers.
pub open spec fn min2(a: int, b: int) -> int {
    if a <= b { a } else { b }
}

/// The larger of two integers.
pub open spec fn max2(a: int, b: int) -> int {
    if a >= b { a } else { b }
}

/// Every point of a line lies in the bounding box of its end points, and the points of
/// different steps are different pixels: the line takes one new pixel per step.
pub proof fn law_line_in_box_and_distinct(x0: int, y0: int, x1: int, y1: int, k1: int, k2: int)
    requires
        0 <= k1 <= line_steps(x0, y0, x1, y1),
        0 <= k2 <= line_steps(x0, y0, x1, y1),
    ensures
        min2(x0, x1) <= line_point(x0, y0, x1, y1, k1).0 <= max2(x0, x1),
        min2(y0, y1) <= line_point(x0, y0, x1, y1, k1).1 <= max2(y0, y1),
        k1 != k2 ==> line_point(x0, y0, x1, y1, k1) != line_point(x0, y0, x1, y1, k2),
{
    lemma_bres_state(x0, y0, x1, y1, k1 as nat);
    lemma_bres_state(x0, y0, x1, y1, k2 as nat);
}

/// A line starts at its first end point, reaches its second end point exactly at its
/// last step (`max(|dx|, |dy|)`), and not before.
pub proof fn law_line_endpoints(x0: int, y0: int, x1: int, y1: int)
    ensures
        line_point(x0, y0, x1, y1, 0) == (x0, y0),
        line_point(x0, y0, x1, y1, line_steps(x0, y0, x1, y1)) == (x1, y1),
        forall|k: int|
            0 <= k < line_steps(x0, y0, x1, y1) ==> #[trigger] line_point(x0, y0, x1, y1, k) != (
            x1,
            y1,
            ),
{
    let n = line_steps(x0, y0, x1, y1);
    lemma_bres_state(x0, y0, x1, y1, n as nat);
    assert forall|k: int| 0 <= k < n implies #[trigger] line_point(x0, y0, x1, y1, k) != (x1, y1) by {
        lemma_bres_state(x0, y0, x1, y1, k as nat);
    }
}

/// Consecutive points of a line are neighbours: the coordinate along the longer axis
/// advances by exactly one towards the end point, the other by zero or one towards it.
pub proof fn law_line_steps_adjacent(x0: int, y0: int, x1: int, y1: int, k: int)
    requires
        0 <= k < line_steps(x0, y0, x1, y1),
    ensures
        ({
            let p = line_point(x0, y0, x1, y1, k);
            let q = line_point(x0, y0, x1, y1, k + 1);
            let ddx = progress(x0, x1, q.0) - progress(x0, x1, p.0);
            let ddy = progress(y0, y1, q.1) - progress(y0, y1, p.1);
            &&& 0 <= ddx <= 1
            &&& 0 <= ddy <= 1
            &&& (abs(x1 - x0) >= abs(y1 - y0) ==> ddx == 1)
            &&& (abs(x1 - x0) < abs(y1 - y0) ==> ddy == 1)
        }),
{
    lemma_bres_state(x0, y0, x1, y1, k as nat);
    lemma_bres_state(x0, y0, x1, y1, (k + 1) as nat);
}

/// Every point of a line lies within half a pixel of the ideal segment along the shorter
/// axis: with `i`, `j` the distances covered along x and y, `|2(a·j − b·i)| ≤ max(a, b)`
/// where `a = |dx|`, `b = |dy|`.
pub proof fn law_line_near_ideal(x0: int, y0: int, x1: int, y1: int, k: int)
    requires
        0 <= k <= line_steps(x0, y0, x1, y1),
    ensures
        ({
            let p = line_point(x0, y0, x1, y1, k);
            let a = abs(x1 - x0);
            let b = abs(y1 - y0);
            let i = progress(x0, x1, p.0);
            let j = progress(y0, y1, p.1);
            abs(2 * (a * j - b * i)) <= line_steps(x0, y0, x1, y1)
        }),
{
    lemma_bres_state(x0, y0, x1, y1, k as nat);
}

/// The points of the line from `(x0, y0)` to `(x1, y1)` in drawing order, from the first
/// end point to the second, one per step of the walk.
pub fn line_points(x0: i32, y0: i32, x1: i32, y1: i32) -> (pts: Vec<(i32, i32)>)
    ensures
        pts@.len() == line_steps(x0 as int, y0 as int, x1 as int, y1 as int) + 1,
        forall|k: int|
            0 <= k < pts@.len() ==> ((#[trigger] pts@[k]).0 as int, pts@[k].1 as int) == line_point(
                x0 as int,
                y0 as int,
                x1 as int,
                y1 as int,
                k,
            ),
{
    let ghost gx0 = x0 as int;
    let ghost gy0 = y0 as int;
    let ghost gx1 = x1 as int;
    let ghost gy1 = y1 as int;
    let ghost n = line_steps(gx0, gy0, gx1, gy1);
    let dx: i64 = if x1 as i64 >= x0 as i64 { x1 as i64 - x0 as i64 } else { x0 as i64 - x1 as i64 };
    let dy: i64 = if y1 as i64 >= y0 as i64 { -(y1 as i64 - y0 as i64) } else { -(y0 as i64 - y1 as i64) };
    let sx: i32 = if x0 < x1 { 1 } else { -1 };
    let sy: i32 = if y0 < y1 { 1 } else { -1 };
    let mut err: i64 = dx + dy;
    let mut x = x0;
    let mut y = y0;
    let mut pts: Vec<(i32, i32)> = Vec::new();
    let ghost mut step: int = 0;
    loop
        invariant_except_break
            0 <= step <= n,
            n == line_steps(gx0, gy0, gx1, gy1),
            gx0 == x0 as int,
            gy0 == y0 as int,
            gx1 == x1 as int,
            gy1 == y1 as int,
            dx == abs(gx1 - gx0),
            dy == -abs(gy1 - gy0),
            sx == dir(gx0, gx1),
            sy == dir(gy0, gy1),
            (x as int, y as int, err as int) == bres_state(gx0, gy0, gx1, gy1, step as nat),
            pts@.len() == step,
            forall|k: int|
                0 <= k < step ==> ((#[trigger] pts@[k]).0 as int, pts@[k].1 as int) == line_point(
                    gx0,
                    gy0,
                    gx1,
                    gy1,
                    k,
                ),
        ensures
            pts@.len() == n + 1,
            n == line_steps(gx0, gy0, gx1, gy1),
            forall|k: int|
                0 <= k < n + 1 ==> ((#[trigger] pts@[k]).0 as int, pts@[k].1 as int) == line_point(
                    gx0,
                    gy0,
                    gx1,
                    gy1,
                    k,
                ),
        decreases n - step,
    {
        proof {
            lemma_bres_state(gx0, gy0, gx1, gy1, step as nat);
            let st = bres_state(gx0, gy0, gx1, gy1, step as nat);
            let a = abs(gx1 - gx0);
            let b = abs(gy1 - gy0);
            let i = progress(gx0, gx1, st.0);
            let j = progress(gy0, gy1, st.1);
            assert(st.2 == (a * j - b * i) + a - b) by (nonlinear_arith)
                requires
                    st.2 == a * (j + 1) - b * (i + 1),
            ;
            assert(a <= 0x1_0000_0000 && b <= 0x1_0000_0000);
            assert(-0x4_0000_0000 <= err <= 0x4_0000_0000);
        }
        pts.push((x, y));
        if x == x1 && y == y1 {
            assert(step == n);
            break;
        }
        proof {
            lemma_bres_state(gx0, gy0, gx1, gy1, (step + 1) as nat);
            let nx = bres_state(gx0, gy0, gx1, gy1, (step + 1) as nat);
            assert(i32::MIN <= nx.0 <= i32::MAX);
            assert(i32::MIN <= nx.1 <= i32::MAX);
        }
        let e2 = 2 * err;
        if e2 >= dy {
            err += dy;
            x += sx;
        }
        if e2 <= dx {
            err += dx;
            y += sy;
        }
        proof {
            step = step + 1;
        }
    }
    pts
}

} // verus!
