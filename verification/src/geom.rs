//! Fixed-point planar geometry: positions in milliunits (thousandths of a
//! world unit), squared distances, and the exponential-smoothing step that
//! moves a coordinate toward its target.

use vstd::prelude::*;

verus! {

/// Largest coordinate magnitude the world admits, in milliunits.
pub const COORD_MAX: i64 = 1_000_000_000;

/// Numerator of the smoothing factor applied once per tick (0.4).
pub const LERP_NUM: u64 = 2;

/// Denominator of the smoothing factor applied once per tick.
pub const LERP_DEN: u64 = 5;

/// A point of the canvas, in milliunits, origin at the canvas center,
/// y growing upward.
#[derive(Clone, Copy, Debug, PartialEq, Eq, Structural)]
pub struct Vec2I {
    pub x: i64,
    pub y: i64,
}

/// A coordinate the world admits.
pub open spec fn coord_ok(c: i64) -> bool {
    -COORD_MAX <= c <= COORD_MAX
}

/// A position both of whose coordinates the world admits.
pub open spec fn pos_ok(p: Vec2I) -> bool {
    coord_ok(p.x) && coord_ok(p.y)
}

/// Squared Euclidean distance between two admissible positions.
pub open spec fn dist_sq_spec(a: Vec2I, b: Vec2I) -> int {
    (a.x - b.x) * (a.x - b.x) + (a.y - b.y) * (a.y - b.y)
}

/// Squared distance; used both to pick the node under the pointer and to
/// find the nearest free grid slot.
pub fn dist_sq(a: Vec2I, b: Vec2I) -> (r: i64)
    requires
        pos_ok(a),
        pos_ok(b),
    ensures
        r == dist_sq_spec(a, b),
        0 <= r <= 8_000_000_000_000_000_000,
{
    let dx: i64 = a.x - b.x;
    let dy: i64 = a.y - b.y;
    proof {
        assert(dx * dx <= 4_000_000_000_000_000_000 && dx * dx >= 0) by (nonlinear_arith)
            requires
                -2_000_000_000 <= dx <= 2_000_000_000,
        ;
        assert(dy * dy <= 4_000_000_000_000_000_000 && dy * dy >= 0) by (nonlinear_arith)
            requires
                -2_000_000_000 <= dy <= 2_000_000_000,
        ;
    }
    dx * dx + dy * dy
}

/// One smoothing step of a single coordinate: the result moves `c` toward
/// `t` by the fraction `LERP_NUM / LERP_DEN` of the gap, rounded toward `c`.
pub open spec fn lerp_coord_spec(c: int, t: int) -> int {
    if t >= c {
        c + (t - c) * LERP_NUM / (LERP_DEN as int)
    } else {
        c - (c - t) * LERP_NUM / (LERP_DEN as int)
    }
}

/// The gap still to cover after a smoothing step, as an absolute value.
pub open spec fn gap(c: int, t: int) -> int {
    if t >= c {
        t - c
    } else {
        c - t
    }
}

/// One smoothing step of a coordinate, executable form.
pub fn lerp_coord(c: i64, t: i64) -> (r: i64)
    requires
        coord_ok(c),
        coord_ok(t),
    ensures
        r == lerp_coord_spec(c as int, t as int),
        coord_ok(r),
        gap(r as int, t as int) <= gap(c as int, t as int),
{
    if t >= c {
        let d: u64 = (t - c) as u64;
        let step: u64 = d * LERP_NUM / LERP_DEN;
        proof {
            assert(step <= d) by (nonlinear_arith)
                requires
                    step == d * 2 / 5,
                    d <= 4_000_000_000,
            ;
        }
        c + step as i64
    } else {
        let d: u64 = (c - t) as u64;
        let step: u64 = d * LERP_NUM / LERP_DEN;
        proof {
            assert(step <= d) by (nonlinear_arith)
                requires
                    step == d * 2 / 5,
                    d <= 4_000_000_000,
            ;
        }
        c - step as i64
    }
}

/// A smoothing step never widens the gap, and any gap of at least three
/// milliunits strictly shrinks; a gap of at most two milliunits can no
/// longer shrink (the step rounds to zero there).
pub proof fn lemma_lerp_progress(c: int, t: int)
    ensures
        gap(lerp_coord_spec(c, t), t) <= gap(c, t),
        gap(c, t) >= 3 ==> gap(lerp_coord_spec(c, t), t) < gap(c, t),
        gap(c, t) <= 2 ==> lerp_coord_spec(c, t) == c,
{
    if t >= c {
        let d = t - c;
        assert(d * 2 / 5 <= d && (d >= 3 ==> d * 2 / 5 >= 1) && (d <= 2 ==> d * 2 / 5 == 0))
            by (nonlinear_arith)
            requires
                d >= 0,
        ;
    } else {
        let d = c - t;
        assert(d * 2 / 5 <= d && (d >= 3 ==> d * 2 / 5 >= 1) && (d <= 2 ==> d * 2 / 5 == 0))
            by (nonlinear_arith)
            requires
                d >= 0,
        ;
    }
}

/// The coordinate after `n` smoothing steps toward a fixed target.
pub open spec fn lerp_iter(c: int, t: int, n: nat) -> int
    decreases n,
{
    if n == 0 {
        c
    } else {
        lerp_coord_spec(lerp_iter(c, t, (n - 1) as nat), t)
    }
}

/// Convergence of the smoothing recurrence: the gap to a fixed target never
/// grows from tick to tick, and after at least as many ticks as the initial
/// gap measures in milliunits the coordinate sits within two milliunits of
/// the target.
pub proof fn lemma_lerp_converges(c: int, t: int, n: nat)
    ensures
        gap(lerp_iter(c, t, n), t) <= gap(c, t),
        n >= gap(c, t) ==> gap(lerp_iter(c, t, n), t) <= 2,
    decreases n,
{
    if n > 0 {
        lemma_lerp_converges(c, t, (n - 1) as nat);
        lemma_lerp_progress(lerp_iter(c, t, (n - 1) as nat), t);
        lemma_gap_linear_drop(c, t, n);
    }
}

/// Helper induction: while the gap is above two it loses at least one
/// milliunit per step, so `n` steps bring it to at most
/// `max(2, gap - n)`.
proof fn lemma_gap_linear_drop(c: int, t: int, n: nat)
    ensures
        gap(lerp_iter(c, t, n), t) <= 2 || gap(lerp_iter(c, t, n), t) <= gap(c, t) - n,
    decreases n,
{
    if n > 0 {
        lemma_gap_linear_drop(c, t, (n - 1) as nat);
        lemma_lerp_progress(lerp_iter(c, t, (n - 1) as nat), t);
    }
}


/// Screen coordinates to canvas coordinates: the input edge reports the
/// pointer relative to the window's top-left corner with y growing
/// downward; the canvas origin is the window center with y growing up.
pub fn screen_to_world(sx: i64, sy: i64, width: i64, height: i64) -> (p: Vec2I)
    requires
        0 <= sx <= width,
        0 <= sy <= height,
        width <= COORD_MAX,
        height <= COORD_MAX,
    ensures
        p.x == sx - (width as int) / 2,
        p.y == (height as int) / 2 - sy,
        pos_ok(p),
{
    let half_w: i64 = ((width as u64) / 2) as i64;
    let half_h: i64 = ((height as u64) / 2) as i64;
    proof {
        assert((width as u64) / 2 <= width as u64 && (height as u64) / 2 <= height as u64);
    }
    Vec2I { x: sx - half_w, y: half_h - sy }
}

} // verus!
