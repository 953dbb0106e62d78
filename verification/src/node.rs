//! Node records: each draggable tile carries a position pair (target and
//! smoothed current), render state (tilt, wobble, scale), a drag flag and an
//! audio role.  The per-tick physics of a single node lives here.

use vstd::prelude::*;
use crate::geom::{Vec2I, pos_ok, lerp_coord_spec, lerp_coord};
use crate::trig::{sin_spec, exp_neg_spec, sin_milli, exp_neg_milli};

verus! {

/// Highest tone frequency the graph admits, in hertz.
pub const FREQ_MAX: u64 = 20_000;

/// Longest tick period the physics admits, in milliseconds; the relaxation
/// factor `6 * dt / 1000` must stay below one for the smoothing steps to
/// contract.
pub const DT_MAX: u64 = 166;

/// Resting scale of a node, in thousandths.
pub const SCALE_MIN: i64 = 1000;

/// Largest scale a wobbling node grows to, in thousandths.
pub const SCALE_MAX: i64 = 1300;

/// Scale change per millisecond, in thousandths (4.0 per second).
pub const SCALE_RATE: i64 = 4;

/// Wobble amplitude in milliradians (0.8 rad).
pub const WOBBLE_AMP: i64 = 800;

/// Wobble clock advance per millisecond of real time, in tenths
/// (the wobble clock runs 1.3 times faster than real time).
pub const WOBBLE_SPEED_TENTHS: u64 = 13;

/// Milliturns of wobble phase per second of wobble clock
/// (20 radians per second).
pub const WOBBLE_FREQ_MILLITURNS: u64 = 3183;

/// Decay exponent per second of wobble clock, in units (5.0 per second).
pub const WOBBLE_DECAY: u64 = 5;

/// Latest wall-clock stamp the sequencer clock admits, in milliseconds;
/// keeps interval arithmetic far from overflow.
pub const NOW_MAX: u64 = 4_000_000_000_000_000;

/// Upper cap on the wobble clock, in milliseconds; advancing saturates
/// here (the decay has flushed the angle to zero long before).
pub const WOBBLE_TIME_CAP: u64 = 1_000_000_000;

/// Divisor turning a milliunit lag into a milliradian tilt
/// (one radian per two hundred units of lag).
pub const TILT_DIV: i64 = 200;

/// State a sequencer node carries: its tone row, playback cursor, tempo,
/// and the stamp of the last emission.
#[derive(Clone, Debug)]
pub struct SequencerState {
    /// The tone row: frequencies emitted round-robin, in hertz.
    pub steps: Vec<u64>,
    /// Index of the next step to emit.
    pub index: usize,
    /// Tempo in beats per minute; one step is emitted per beat.
    pub bpm: u64,
    /// Wall-clock stamp of the last emission, in milliseconds.
    pub last_played: u64,
    /// Whether any step has been emitted yet.
    pub has_played: bool,
    /// Whether a tone is currently sounding.
    pub sounding: bool,
    /// Frequency of the sounding tone, in hertz.
    pub freq: u64,
}

/// Audio role of a node.
#[derive(Clone, Debug)]
pub enum NodeKind {
    /// Emits one continuous tone for as long as the node stands in the chain.
    Oscillator { freq: u64 },
    /// Multiplies the upstream stream by `1 + 0.1 * sin(2 pi phase)`.
    Lfo { freq: u64 },
    /// Emits the steps of its tone row on a tempo-derived interval.
    Sequencer { state: SequencerState },
    /// Terminal sink of a chain; passes the accumulated stream through.
    Output,
    /// A plain tile without an audio role.
    Blank,
}

/// One draggable tile.
#[derive(Clone, Debug)]
pub struct Node {
    /// Audio role, fixed at creation.
    pub kind: NodeKind,
    /// Where the node wants to be: a grid slot, or the pointer while dragged.
    pub target: Vec2I,
    /// Smoothed position, converging toward `target` every tick.
    pub current: Vec2I,
    /// Visual tilt proportional to the horizontal lag, in milliradians.
    pub interp_angle: i64,
    /// Decaying-sinusoid wobble, in milliradians.
    pub wobble_angle: i64,
    /// Wobble clock, in milliseconds; reset to zero whenever wobbling stops.
    pub wobble_time: u64,
    /// Uniform render scale, in thousandths.
    pub scale: i64,
    /// Whether this node is the one being dragged.
    pub is_wobbling: bool,
    /// Whether this node's tone has been started for the current chain;
    /// cleared on every chain rebuild so a tone starts at most once per
    /// activation cycle.
    pub triggered: bool,
    /// Oscillator phase accumulator in sample-rate units: the phase in
    /// turns is `phase / sample_rate`.
    pub phase: u64,
}

/// What the render sink consumes for one node each tick.
#[derive(Clone, Copy, Debug, PartialEq, Eq, Structural)]
pub struct RenderState {
    /// Position, in milliunits.
    pub x: i64,
    pub y: i64,
    /// Whether the node is drawn above the others (it is being dragged).
    pub raised: bool,
    /// Rotation around the view axis, in milliradians.
    pub rotation: i64,
    /// Uniform scale, in thousandths.
    pub scale: i64,
}

/// Well-formed sequencer state.
pub open spec fn seq_state_wf(s: SequencerState) -> bool {
    &&& 1 <= s.bpm <= 10_000
    &&& s.steps@.len() <= 64
    &&& (forall|i: int| 0 <= i < s.steps@.len() ==> s.steps@[i] <= FREQ_MAX)
    &&& (s.steps@.len() > 0 ==> s.index < s.steps@.len())
    &&& (s.steps@.len() == 0 ==> s.index == 0)
    &&& s.freq <= FREQ_MAX
    &&& s.last_played <= NOW_MAX
}

/// Well-formed audio role.
pub open spec fn kind_wf(k: NodeKind) -> bool {
    match k {
        NodeKind::Oscillator { freq } => freq <= FREQ_MAX,
        NodeKind::Lfo { freq } => freq <= FREQ_MAX,
        NodeKind::Sequencer { state } => seq_state_wf(state),
        NodeKind::Output => true,
        NodeKind::Blank => true,
    }
}

/// Well-formed node with respect to the session sample rate.
pub open spec fn node_wf(n: Node, sample_rate: u64) -> bool {
    &&& pos_ok(n.target)
    &&& pos_ok(n.current)
    &&& kind_wf(n.kind)
    &&& n.phase < sample_rate
    &&& -WOBBLE_AMP <= n.wobble_angle <= WOBBLE_AMP
    &&& n.wobble_time <= WOBBLE_TIME_CAP
    &&& SCALE_MIN <= n.scale <= SCALE_MAX
    &&& -10_000_000 <= n.interp_angle <= 10_000_000
}

/// The fields the physics never touches, shared by the tick steps below.
pub open spec fn same_role(a: Node, b: Node) -> bool {
    &&& a.kind == b.kind
    &&& a.triggered == b.triggered
    &&& a.phase == b.phase
    &&& a.is_wobbling == b.is_wobbling
}

/// Two nodes that agree on every field except possibly `target`; the
/// grid assembler moves targets and nothing else.
pub open spec fn same_but_target(a: Node, b: Node) -> bool {
    &&& a.kind == b.kind
    &&& a.current == b.current
    &&& a.interp_angle == b.interp_angle
    &&& a.wobble_angle == b.wobble_angle
    &&& a.wobble_time == b.wobble_time
    &&& a.scale == b.scale
    &&& a.is_wobbling == b.is_wobbling
    &&& a.triggered == b.triggered
    &&& a.phase == b.phase
}

/// A fresh node standing at `at` with role `kind`.
pub fn new_node(kind: NodeKind, at: Vec2I) -> (n: Node)
    requires
        pos_ok(at),
        kind_wf(kind),
    ensures
        n.kind == kind,
        n.target == at,
        n.current == at,
        n.interp_angle == 0,
        n.wobble_angle == 0,
        n.wobble_time == 0,
        n.scale == SCALE_MIN,
        !n.is_wobbling,
        !n.triggered,
        n.phase == 0,
        forall|sr: u64| sr >= 1 ==> node_wf(n, sr),
{
    Node {
        kind,
        target: at,
        current: at,
        interp_angle: 0,
        wobble_angle: 0,
        wobble_time: 0,
        scale: SCALE_MIN,
        is_wobbling: false,
        triggered: false,
        phase: 0,
    }
}

/// Signed division rounding toward zero, the rounding the fixed-point
/// steps use on signed quantities.
pub open spec fn tdiv(a: int, b: int) -> int {
    if a >= 0 {
        a / b
    } else {
        -((-a) / b)
    }
}

/// Signed division rounding toward zero, executable form.
pub fn tdiv_i64(a: i64, b: i64) -> (r: i64)
    requires
        b >= 1,
        -1_000_000_000_000_000_000 <= a <= 1_000_000_000_000_000_000,
    ensures
        r == tdiv(a as int, b as int),
        (a >= 0 ==> 0 <= r <= a) && (a < 0 ==> a <= r <= 0),
{
    if a >= 0 {
        let q: u64 = (a as u64) / (b as u64);
        proof {
            assert(a as u64 / (b as u64) <= a as u64) by (nonlinear_arith)
                requires
                    b as u64 >= 1,
            ;
        }
        q as i64
    } else {
        let q: u64 = ((-a) as u64) / (b as u64);
        proof {
            assert((-a) as u64 / (b as u64) <= (-a) as u64) by (nonlinear_arith)
                requires
                    b as u64 >= 1,
            ;
        }
        -(q as i64)
    }
}

/// The magnitude of a rounded-toward-zero quotient is bounded by any
/// multiple of the divisor that bounds the dividend.
pub proof fn lemma_tdiv_bound(a: int, b: int, m: int)
    requires
        b >= 1,
        m >= 0,
        -(m * b) <= a <= m * b,
    ensures
        -m <= tdiv(a, b) <= m,
{
    if a >= 0 {
        assert(0 <= a / b <= m) by (nonlinear_arith)
            requires
                b >= 1,
                m >= 0,
                0 <= a <= m * b,
        ;
    } else {
        assert(0 <= (-a) / b <= m) by (nonlinear_arith)
            requires
                b >= 1,
                m >= 0,
                0 <= -a <= m * b,
        ;
    }
}

/// Tilt shown while a node lags behind its target: the horizontal gap in
/// milliunits over `TILT_DIV`, in milliradians.
pub open spec fn tilt_spec(target_x: int, current_x: int) -> int {
    tdiv(target_x - current_x, TILT_DIV as int)
}

/// One interpolation tick: `current` moves toward `target` by the
/// smoothing fraction on each coordinate, and the tilt is recomputed from
/// the remaining horizontal lag.
pub fn interpolate_node(n: &mut Node)
    requires
        pos_ok(old(n).target),
        pos_ok(old(n).current),
    ensures
        final(n).current.x == lerp_coord_spec(old(n).current.x as int, old(n).target.x as int),
        final(n).current.y == lerp_coord_spec(old(n).current.y as int, old(n).target.y as int),
        final(n).interp_angle == tilt_spec(old(n).target.x as int, final(n).current.x as int),
        -10_000_000 <= final(n).interp_angle <= 10_000_000,
        pos_ok(final(n).current),
        final(n).target == old(n).target,
        final(n).wobble_angle == old(n).wobble_angle,
        final(n).wobble_time == old(n).wobble_time,
        final(n).scale == old(n).scale,
        same_role(*final(n), *old(n)),
{
    let cx: i64 = lerp_coord(n.current.x, n.target.x);
    let cy: i64 = lerp_coord(n.current.y, n.target.y);
    n.current = Vec2I { x: cx, y: cy };
    n.interp_angle = tdiv_i64(n.target.x - cx, TILT_DIV);
}

/// Wobble angle as a function of the wobble clock: a sinusoid of fixed
/// amplitude and frequency under an exponential decay envelope.
pub open spec fn wobble_angle_spec(wt: int) -> int {
    tdiv(WOBBLE_AMP * sin_spec(wt * WOBBLE_FREQ_MILLITURNS / 1000 % 1000)
        * exp_neg_spec(WOBBLE_DECAY * wt), 1_000_000)
}

/// One relaxation tick of the wobble angle when the node is not wobbling:
/// exponential smoothing toward zero at six per second.
pub open spec fn relax_spec(a: int, dt: int) -> int {
    a - tdiv(a * 6 * dt, 1000)
}

/// Relaxing keeps the angle between its old value and zero: the shrink
/// step rounds toward zero and never overshoots.
pub proof fn lemma_relax_bounds(a: int, dt: int)
    requires
        -800 <= a <= 800,
        0 <= dt <= 166,
    ensures
        a >= 0 ==> 0 <= relax_spec(a, dt) <= a,
        a < 0 ==> a <= relax_spec(a, dt) <= 0,
{
    let p = a * 6 * dt;
    if a >= 0 {
        assert(0 <= p <= 1000 * a) by (nonlinear_arith)
            requires
                0 <= a <= 800,
                0 <= dt <= 166,
                p == a * 6 * dt,
        ;
        assert(p / 1000 <= a) by (nonlinear_arith)
            requires
                0 <= p <= 1000 * a,
        ;
    } else {
        assert(0 <= -p <= 1000 * (-a)) by (nonlinear_arith)
            requires
                -800 <= a < 0,
                0 <= dt <= 166,
                p == a * 6 * dt,
        ;
        assert((-p) / 1000 <= -a) by (nonlinear_arith)
            requires
                0 <= -p <= 1000 * (-a),
        ;
    }
}

/// One wobble tick.  A wobbling node advances its wobble clock (1.3 times
/// real time, saturating at the cap) and takes its angle from the decaying
/// sinusoid; any other node relaxes its angle toward zero and holds its
/// clock at zero.
pub fn wobble_node(n: &mut Node, dt_ms: u64)
    requires
        dt_ms <= DT_MAX,
        -WOBBLE_AMP <= old(n).wobble_angle <= WOBBLE_AMP,
        old(n).wobble_time <= WOBBLE_TIME_CAP,
    ensures
        old(n).is_wobbling ==> {
            &&& final(n).wobble_time == if old(n).wobble_time + dt_ms * WOBBLE_SPEED_TENTHS / 10
                <= WOBBLE_TIME_CAP {
                old(n).wobble_time + dt_ms * WOBBLE_SPEED_TENTHS / 10
            } else {
                WOBBLE_TIME_CAP as int
            }
            &&& final(n).wobble_angle == wobble_angle_spec(final(n).wobble_time as int)
        },
        !old(n).is_wobbling ==> {
            &&& final(n).wobble_time == 0
            &&& final(n).wobble_angle == relax_spec(old(n).wobble_angle as int, dt_ms as int)
        },
        -WOBBLE_AMP <= final(n).wobble_angle <= WOBBLE_AMP,
        final(n).wobble_time <= WOBBLE_TIME_CAP,
        final(n).target == old(n).target,
        final(n).current == old(n).current,
        final(n).interp_angle == old(n).interp_angle,
        final(n).scale == old(n).scale,
        same_role(*final(n), *old(n)),
{
    if n.is_wobbling {
        let advance: u64 = dt_ms * WOBBLE_SPEED_TENTHS / 10;
        let wt: u64 = if n.wobble_time + advance <= WOBBLE_TIME_CAP {
            n.wobble_time + advance
        } else {
            WOBBLE_TIME_CAP
        };
        n.wobble_time = wt;
        let phase: u64 = wt * WOBBLE_FREQ_MILLITURNS / 1000 % 1000;
        let s: i64 = sin_milli(phase);
        let e: u64 = exp_neg_milli(WOBBLE_DECAY * wt);
        proof {
            assert(-800_000_000 <= 800 * s * (e as i64) <= 800_000_000) by (nonlinear_arith)
                requires
                    -1000 <= s <= 1000,
                    0 <= e as i64 <= 1000,
            ;
        }
        let num: i64 = WOBBLE_AMP * s * (e as i64);
        let a: i64 = tdiv_i64(num, 1_000_000);
        proof {
            lemma_tdiv_bound(num as int, 1_000_000, 800);
        }
        n.wobble_angle = a;
    } else {
        let a: i64 = n.wobble_angle;
        proof {
            assert(a * 6 * (dt_ms as i64) <= 800_000 && a * 6 * (dt_ms as i64) >= -800_000)
                by (nonlinear_arith)
                requires
                    -800 <= a <= 800,
                    0 <= dt_ms as i64 <= 166,
            ;
        }
        let shrink: i64 = tdiv_i64(a * 6 * (dt_ms as i64), 1000);
        proof {
            lemma_relax_bounds(a as int, dt_ms as int);
        }
        n.wobble_angle = a - shrink;
        n.wobble_time = 0;
    }
}

/// One scale tick: a wobbling node grows linearly toward the cap, any
/// other node shrinks linearly back to rest, clamped at both ends.
pub open spec fn scale_step_spec(s: int, dt: int, wobbling: bool) -> int {
    if wobbling {
        if s + SCALE_RATE * dt <= SCALE_MAX {
            s + SCALE_RATE * dt
        } else {
            SCALE_MAX as int
        }
    } else {
        if s - SCALE_RATE * dt >= SCALE_MIN {
            s - SCALE_RATE * dt
        } else {
            SCALE_MIN as int
        }
    }
}

/// One scale tick, executable form.
pub fn scale_node(n: &mut Node, dt_ms: u64)
    requires
        dt_ms <= DT_MAX,
        SCALE_MIN <= old(n).scale <= SCALE_MAX,
    ensures
        final(n).scale == scale_step_spec(old(n).scale as int, dt_ms as int,
            old(n).is_wobbling),
        SCALE_MIN <= final(n).scale <= SCALE_MAX,
        final(n).target == old(n).target,
        final(n).current == old(n).current,
        final(n).interp_angle == old(n).interp_angle,
        final(n).wobble_angle == old(n).wobble_angle,
        final(n).wobble_time == old(n).wobble_time,
        same_role(*final(n), *old(n)),
{
    let delta: i64 = SCALE_RATE * (dt_ms as i64);
    if n.is_wobbling {
        let grown: i64 = n.scale + delta;
        n.scale = if grown <= SCALE_MAX {
            grown
        } else {
            SCALE_MAX
        };
    } else {
        let shrunk: i64 = n.scale - delta;
        n.scale = if shrunk >= SCALE_MIN {
            shrunk
        } else {
            SCALE_MIN
        };
    }
}

/// The scale after `n` non-wobbling ticks of `dt` milliseconds each.
pub open spec fn scale_relax_iter(s: int, dt: int, n: nat) -> int
    decreases n,
{
    if n == 0 {
        s
    } else {
        scale_step_spec(scale_relax_iter(s, dt, (n - 1) as nat), dt, false)
    }
}

/// Once a node stops wobbling its scale returns to rest within a bounded
/// window: it never grows, and after enough ticks that `n * 4 * dt`
/// covers the excess over rest it equals the resting scale exactly.
pub proof fn lemma_scale_returns_to_rest(s: int, dt: int, n: nat)
    requires
        SCALE_MIN <= s <= SCALE_MAX,
        1 <= dt,
    ensures
        SCALE_MIN <= scale_relax_iter(s, dt, n) <= s,
        scale_relax_iter(s, dt, n) <= s - n * (SCALE_RATE * dt)
            || scale_relax_iter(s, dt, n) == SCALE_MIN,
        n * (SCALE_RATE * dt) >= s - SCALE_MIN ==> scale_relax_iter(s, dt, n) == SCALE_MIN,
    decreases n,
{
    if n > 0 {
        lemma_scale_returns_to_rest(s, dt, (n - 1) as nat);
        assert((n - 1) * (SCALE_RATE * dt) == n * (SCALE_RATE * dt) - SCALE_RATE * dt)
            by (nonlinear_arith);
    }
}

/// What the render sink is handed for one node: the smoothed position, the
/// additive tilt-plus-wobble rotation, the scale, and whether the node is
/// raised above the others.
pub fn render_node(n: &Node, raised: bool) -> (r: RenderState)
    requires
        -10_000_000 <= n.interp_angle <= 10_000_000,
        -WOBBLE_AMP <= n.wobble_angle <= WOBBLE_AMP,
    ensures
        r.x == n.current.x,
        r.y == n.current.y,
        r.raised == raised,
        r.rotation == n.interp_angle + n.wobble_angle,
        r.scale == n.scale,
{
    RenderState {
        x: n.current.x,
        y: n.current.y,
        raised,
        rotation: n.interp_angle + n.wobble_angle,
        scale: n.scale,
    }
}


/// Borrows one node of a list mutably.
pub fn node_at_mut(v: &mut Vec<Node>, i: usize) -> (el: &mut Node)
    requires
        i < old(v)@.len(),
    ensures
        *el == old(v)@[i as int],
        final(v)@ == old(v)@.update(i as int, *final(el)),
{
    &mut v[i]
}

/// Writes one node's target, leaving every other field and node alone.
pub fn set_node_target(v: &mut Vec<Node>, i: usize, t: Vec2I)
    requires
        i < old(v)@.len(),
    ensures
        final(v)@.len() == old(v)@.len(),
        final(v)@[i as int].target == t,
        same_but_target(final(v)@[i as int], old(v)@[i as int]),
        forall|k: int| 0 <= k < old(v)@.len() && k != i ==> final(v)@[k] == old(v)@[k],
{
    let el: &mut Node = &mut v[i];
    el.target = t;
}

/// Writes one node's drag-wobble flag, leaving everything else alone.
pub fn set_node_wobbling(v: &mut Vec<Node>, i: usize, w: bool)
    requires
        i < old(v)@.len(),
    ensures
        final(v)@.len() == old(v)@.len(),
        final(v)@[i as int] == (Node { is_wobbling: w, ..old(v)@[i as int] }),
        forall|k: int| 0 <= k < old(v)@.len() && k != i ==> final(v)@[k] == old(v)@[k],
{
    let el: &mut Node = &mut v[i];
    el.is_wobbling = w;
}

/// One full physics tick of a single node: position smoothing and tilt,
/// wobble, and scale, in that order.  The three touch disjoint fields, so
/// each clause below is the clause of its own step.
pub fn physics_step(n: &mut Node, dt_ms: u64)
    requires
        dt_ms <= DT_MAX,
        pos_ok(old(n).target),
        pos_ok(old(n).current),
        -WOBBLE_AMP <= old(n).wobble_angle <= WOBBLE_AMP,
        old(n).wobble_time <= WOBBLE_TIME_CAP,
        SCALE_MIN <= old(n).scale <= SCALE_MAX,
    ensures
        final(n).current.x == lerp_coord_spec(old(n).current.x as int, old(n).target.x as int),
        final(n).current.y == lerp_coord_spec(old(n).current.y as int, old(n).target.y as int),
        final(n).interp_angle == tilt_spec(old(n).target.x as int, final(n).current.x as int),
        old(n).is_wobbling ==> final(n).wobble_angle
            == wobble_angle_spec(final(n).wobble_time as int),
        !old(n).is_wobbling ==> final(n).wobble_time == 0
            && final(n).wobble_angle == relax_spec(old(n).wobble_angle as int, dt_ms as int),
        final(n).scale == scale_step_spec(old(n).scale as int, dt_ms as int,
            old(n).is_wobbling),
        final(n).target == old(n).target,
        same_role(*final(n), *old(n)),
        pos_ok(final(n).current),
        -WOBBLE_AMP <= final(n).wobble_angle <= WOBBLE_AMP,
        final(n).wobble_time <= WOBBLE_TIME_CAP,
        SCALE_MIN <= final(n).scale <= SCALE_MAX,
        -10_000_000 <= final(n).interp_angle <= 10_000_000,
{
    interpolate_node(n);
    wobble_node(n, dt_ms);
    scale_node(n, dt_ms);
}

} // verus!
