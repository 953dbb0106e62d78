//! The audio graph: per-sample evaluation of the signal chain, oscillator
//! phase accumulation, amplitude modulation, and the tempo clock that
//! drives sequencer nodes.
//!
//! Samples are fixed-point thousandths of full amplitude.  A tone's phase
//! is carried as an accumulator in sample-rate units: the phase in turns
//! is `phase / sample_rate`, advanced by `freq` and wrapped every sample.

use vstd::prelude::*;
use crate::node::{Node, NodeKind, SequencerState, seq_state_wf, kind_wf, tdiv, tdiv_i64,
    lemma_tdiv_bound, node_at_mut, FREQ_MAX, NOW_MAX};
use crate::trig::{sin_spec, sin_milli};
use crate::grid::{chain_ints, chain_ok};

verus! {

/// Highest sample rate the session admits, in hertz.
pub const SAMPLE_RATE_MAX: u64 = 1_000_000;

/// Largest magnitude a sample can reach along a full chain, in
/// thousandths of full amplitude (each stage at most doubles its input
/// and adds one full-scale tone, over at most thirty-two stages).
pub const SAMPLE_ABS_MAX: i64 = 4_294_967_295_000;

/// Absolute value.
pub open spec fn abs_spec(a: int) -> int {
    if a >= 0 {
        a
    } else {
        -a
    }
}

/// An admissible session sample rate.
pub open spec fn sr_ok(sr: u64) -> bool {
    1 <= sr <= SAMPLE_RATE_MAX
}

/// One tone sample from a phase accumulator: the sine of the phase
/// expressed in milliturns.
pub open spec fn tone_spec(phase: int, sr: int) -> int {
    sin_spec(phase * 1000 / sr)
}

/// Phase accumulator after one sample.
pub open spec fn next_phase_spec(phase: int, freq: int, sr: int) -> int {
    (phase + freq) % sr
}

/// One tone sample, executable form.
pub fn tone_sample(phase: u64, sr: u64) -> (s: i64)
    requires
        sr_ok(sr),
        phase < sr,
    ensures
        s == tone_spec(phase as int, sr as int),
        -1000 <= s <= 1000,
{
    proof {
        assert(phase * 1000 / (sr as int) < 1000) by (nonlinear_arith)
            requires
                1 <= sr,
                phase < sr,
        ;
    }
    let p: u64 = phase * 1000 / sr;
    sin_milli(p)
}

/// Phase advance, executable form.
pub fn advance_phase(phase: u64, freq: u64, sr: u64) -> (r: u64)
    requires
        sr_ok(sr),
        phase < sr,
        freq <= FREQ_MAX,
    ensures
        r == next_phase_spec(phase as int, freq as int, sr as int),
        r < sr,
{
    proof {
        assert((phase + freq) % (sr as int) < sr) by (nonlinear_arith)
            requires
                1 <= sr,
        ;
    }
    (phase + freq) % sr
}

/// Amplitude modulation a low-frequency oscillator applies: the input
/// scaled by `1 + 0.1 * sin`, in thousandths.
pub open spec fn lfo_out_spec(input: int, s: int) -> int {
    tdiv(input * (1000 + tdiv(s, 10)), 1000)
}

/// The sample a node passes downstream, given what arrived from upstream:
/// oscillators and sounding sequencers superpose their tone onto the
/// stream, low-frequency oscillators modulate it, output and blank nodes
/// pass it through.
pub open spec fn process_out_spec(n: Node, input: int, sr: int) -> int {
    match n.kind {
        NodeKind::Oscillator { freq } => input + tone_spec(n.phase as int, sr),
        NodeKind::Lfo { freq } => lfo_out_spec(input, tone_spec(n.phase as int, sr)),
        NodeKind::Sequencer { state } => if state.sounding {
            input + tone_spec(n.phase as int, sr)
        } else {
            input
        },
        NodeKind::Output => input,
        NodeKind::Blank => input,
    }
}

/// The node after one sample: tone-carrying kinds advance their phase by
/// their sounding frequency, everything else stands still.
pub open spec fn process_next_spec(n: Node, sr: int) -> Node {
    match n.kind {
        NodeKind::Oscillator { freq } => Node {
            phase: next_phase_spec(n.phase as int, freq as int, sr) as u64,
            ..n
        },
        NodeKind::Lfo { freq } => Node {
            phase: next_phase_spec(n.phase as int, freq as int, sr) as u64,
            ..n
        },
        NodeKind::Sequencer { state } => if state.sounding {
            Node { phase: next_phase_spec(n.phase as int, state.freq as int, sr) as u64, ..n }
        } else {
            n
        },
        NodeKind::Output => n,
        NodeKind::Blank => n,
    }
}

/// One node's contribution to the current sample.  The output is exactly
/// `process_out_spec`, the node steps to `process_next_spec`, and the
/// magnitude at most doubles and gains one full-scale tone.
pub fn process_node(n: &mut Node, input: i64, sr: u64) -> (out: i64)
    requires
        sr_ok(sr),
        kind_wf(old(n).kind),
        old(n).phase < sr,
        -10_000_000_000_000 <= input <= 10_000_000_000_000,
    ensures
        out == process_out_spec(*old(n), input as int, sr as int),
        *final(n) == process_next_spec(*old(n), sr as int),
        abs_spec(out as int) <= 2 * abs_spec(input as int) + 1000,
        final(n).phase < sr,
        kind_wf(final(n).kind),
{
    match &n.kind {
        NodeKind::Oscillator { freq } => {
            let f: u64 = *freq;
            let s: i64 = tone_sample(n.phase, sr);
            n.phase = advance_phase(n.phase, f, sr);
            input + s
        },
        NodeKind::Lfo { freq } => {
            let f: u64 = *freq;
            let s: i64 = tone_sample(n.phase, sr);
            n.phase = advance_phase(n.phase, f, sr);
            let g: i64 = 1000 + tdiv_i64(s, 10);
            proof {
                assert(900 <= g <= 1100);
                assert(-11_000_000_000_000_000 <= input * g <= 11_000_000_000_000_000)
                    by (nonlinear_arith)
                    requires
                        -10_000_000_000_000 <= input <= 10_000_000_000_000,
                        900 <= g <= 1100,
                ;
                assert(input * g <= 2 * abs_spec(input as int) * 1000
                    && -(2 * abs_spec(input as int) * 1000) <= input * g) by (nonlinear_arith)
                    requires
                        900 <= g <= 1100,
                        abs_spec(input as int) == if input >= 0 { input as int } else {
                            -(input as int)
                        },
                ;
                lemma_tdiv_bound(input as int * g, 1000, 2 * abs_spec(input as int));
            }
            tdiv_i64(input * g, 1000)
        },
        NodeKind::Sequencer { state } => {
            if state.sounding {
                let f: u64 = state.freq;
                let s: i64 = tone_sample(n.phase, sr);
                n.phase = advance_phase(n.phase, f, sr);
                input + s
            } else {
                input
            }
        },
        NodeKind::Output => input,
        NodeKind::Blank => input,
    }
}


/// Every node of the list is ready to render at this sample rate.
pub open spec fn nodes_ready(nodes: Seq<Node>, sr: u64) -> bool {
    forall|i: int| 0 <= i < nodes.len() ==> kind_wf((#[trigger] nodes[i]).kind)
        && nodes[i].phase < sr
}

/// The sample the chain hands the output sink: silence fed through the
/// chain's nodes in order, each transforming what the one to its left
/// produced.
pub open spec fn chain_out_spec(nodes: Seq<Node>, chain: Seq<int>, sr: int, k: int) -> int
    decreases k,
{
    if k <= 0 {
        0
    } else {
        process_out_spec(nodes[chain[k - 1]], chain_out_spec(nodes, chain, sr, k - 1), sr)
    }
}

/// All chain members advanced by one sample; bystanders stand still.
pub open spec fn advance_nodes_spec(nodes: Seq<Node>, chain: Seq<int>, sr: int) -> Seq<Node> {
    Seq::new(nodes.len(), |i: int| if chain.contains(i) {
        process_next_spec(nodes[i], sr)
    } else {
        nodes[i]
    })
}

/// Loudness cap after `k` chain stages.
pub open spec fn sig_bound(k: int) -> int
    decreases k,
{
    if k <= 0 {
        0
    } else {
        2 * sig_bound(k - 1) + 1000
    }
}

/// The loudness cap is never negative.
proof fn lemma_sig_nonneg(k: int)
    ensures
        k >= 0 ==> sig_bound(k) >= 0,
    decreases k,
{
    if k > 0 {
        lemma_sig_nonneg(k - 1);
    }
}

/// The loudness cap grows with the chain length.
proof fn lemma_sig_mono(a: int, b: int)
    requires
        0 <= a <= b,
    ensures
        sig_bound(a) <= sig_bound(b),
    decreases b,
{
    if a < b {
        lemma_sig_mono(a, b - 1);
        lemma_sig_nonneg(b - 1);
    }
}

/// The loudness cap grows with the chain and stays below the session
/// maximum for any admissible chain length.
pub proof fn lemma_sig_bound(k: int)
    requires
        0 <= k <= 32,
    ensures
        0 <= sig_bound(k) <= SAMPLE_ABS_MAX,
        sig_bound(k) <= sig_bound(32),
{
    lemma_sig_nonneg(k);
    lemma_sig_mono(k, 32);
    reveal_with_fuel(sig_bound, 33);
    assert(sig_bound(32) == 4_294_967_295_000);
}

/// Evaluates one sample of the whole chain: silence enters at the left,
/// each chain node transforms the stream in order, and every chain node
/// advances its phase by one sample.
pub fn render_one(nodes: &mut Vec<Node>, chain: &Vec<usize>, sr: u64) -> (out: i64)
    requires
        sr_ok(sr),
        chain_ok(chain_ints(chain@), old(nodes)@.len() as int),
        nodes_ready(old(nodes)@, sr),
    ensures
        out == chain_out_spec(old(nodes)@, chain_ints(chain@), sr as int,
            chain@.len() as int),
        final(nodes)@ == advance_nodes_spec(old(nodes)@, chain_ints(chain@), sr as int),
        nodes_ready(final(nodes)@, sr),
        -SAMPLE_ABS_MAX <= out <= SAMPLE_ABS_MAX,
        final(nodes)@.len() == old(nodes)@.len(),
{
    let ghost orig: Seq<Node> = nodes@;
    let ghost ci: Seq<int> = chain_ints(chain@);
    let mut acc: i64 = 0;
    let mut k: usize = 0;
    proof {
        lemma_sig_bound(0);
    }
    while k < chain.len()
        invariant
            k <= chain@.len(),
            sr_ok(sr),
            ci == chain_ints(chain@),
            chain_ok(ci, orig.len() as int),
            nodes@.len() == orig.len(),
            acc == chain_out_spec(orig, ci, sr as int, k as int),
            abs_spec(acc as int) <= sig_bound(k as int),
            forall|i: int| 0 <= i < orig.len() ==> #[trigger] nodes@[i]
                == if ci.subrange(0, k as int).contains(i) {
                    process_next_spec(orig[i], sr as int)
                } else {
                    orig[i]
                },
            nodes_ready(nodes@, sr),
        decreases chain@.len() - k,
    {
        let idx: usize = chain[k];
        proof {
            assert(ci[k as int] == idx as int);
            let sub = ci.subrange(0, k as int);
            if sub.contains(idx as int) {
                let j = choose|j: int| 0 <= j < sub.len() && sub[j] == idx as int;
                assert(ci[j] == idx as int);
                assert(false);
            }
            assert(nodes@[idx as int] == orig[idx as int]);
            lemma_sig_bound(k as int);
            lemma_sig_bound(k + 1 as int);
        }
        let ghost before: Seq<Node> = nodes@;
        let el: &mut Node = node_at_mut(nodes, idx);
        let next: i64 = process_node(el, acc, sr);
        proof {
            let sub0 = ci.subrange(0, k as int);
            let sub1 = ci.subrange(0, k + 1 as int);
            assert(sub1 =~= sub0 + seq![ci[k as int]]);
            assert forall|i: int| 0 <= i < orig.len() implies #[trigger] nodes@[i]
                == if ci.subrange(0, k + 1 as int).contains(i) {
                    process_next_spec(orig[i], sr as int)
                } else {
                    orig[i]
                } by {
                if i == idx as int {
                    assert(sub1[k as int] == idx as int);
                    assert(sub1.contains(i));
                    assert(nodes@[i] == process_next_spec(orig[i], sr as int));
                } else {
                    if sub0.contains(i) {
                        let j = choose|j: int| 0 <= j < sub0.len() && sub0[j] == i;
                        assert(sub1[j] == i);
                        assert(sub1.contains(i));
                    }
                    if sub1.contains(i) {
                        let j = choose|j: int| 0 <= j < sub1.len() && sub1[j] == i;
                        if j < k as int {
                            assert(sub0[j] == i);
                            assert(sub0.contains(i));
                        } else {
                            assert(sub1[j] == ci[k as int]);
                            assert(false);
                        }
                    }
                    assert(nodes@[i] == before[i]);
                }
            }
        }
        acc = next;
        k = k + 1;
    }
    proof {
        lemma_sig_bound(k as int);
        assert(final(nodes)@ =~= advance_nodes_spec(orig, ci, sr as int)) by {
            assert forall|i: int| 0 <= i < orig.len()
                implies nodes@[i] == advance_nodes_spec(orig, ci, sr as int)[i] by {
                assert(ci.subrange(0, ci.len() as int) =~= ci);
            }
        }
    }
    acc
}

/// The node list after `t` samples of the chain.
pub open spec fn nodes_after_spec(nodes: Seq<Node>, chain: Seq<int>, sr: int, t: nat)
    -> Seq<Node>
    decreases t,
{
    if t == 0 {
        nodes
    } else {
        advance_nodes_spec(nodes_after_spec(nodes, chain, sr, (t - 1) as nat), chain, sr)
    }
}

/// The sample the chain produces at sample index `t`.
pub open spec fn sample_at_spec(nodes: Seq<Node>, chain: Seq<int>, sr: int, t: nat) -> int {
    chain_out_spec(nodes_after_spec(nodes, chain, sr, t), chain, sr,
        chain.len() as int)
}

/// Renders a block of `len` samples: sample `t` of the block is exactly
/// the chain's output after `t` advances, and the nodes end `len`
/// samples further on.
pub fn render_block(nodes: &mut Vec<Node>, chain: &Vec<usize>, sr: u64, len: usize)
    -> (out: Vec<i64>)
    requires
        sr_ok(sr),
        chain_ok(chain_ints(chain@), old(nodes)@.len() as int),
        nodes_ready(old(nodes)@, sr),
    ensures
        out@.len() == len,
        forall|t: int| 0 <= t < len ==> #[trigger] out@[t] == sample_at_spec(old(nodes)@,
            chain_ints(chain@), sr as int, t as nat),
        final(nodes)@ == nodes_after_spec(old(nodes)@, chain_ints(chain@), sr as int,
            len as nat),
        nodes_ready(final(nodes)@, sr),
        forall|t: int| 0 <= t < len
            ==> -SAMPLE_ABS_MAX <= #[trigger] out@[t] <= SAMPLE_ABS_MAX,
{
    let ghost orig: Seq<Node> = nodes@;
    let ghost ci: Seq<int> = chain_ints(chain@);
    let mut out: Vec<i64> = Vec::new();
    let mut t: usize = 0;
    while t < len
        invariant
            t <= len,
            sr_ok(sr),
            ci == chain_ints(chain@),
            chain_ok(ci, orig.len() as int),
            nodes@.len() == orig.len(),
            nodes@ == nodes_after_spec(orig, ci, sr as int, t as nat),
            nodes_ready(nodes@, sr),
            out@.len() == t,
            forall|u: int| 0 <= u < t ==> #[trigger] out@[u] == sample_at_spec(orig, ci,
                sr as int, u as nat),
            forall|u: int| 0 <= u < t
                ==> -SAMPLE_ABS_MAX <= #[trigger] out@[u] <= SAMPLE_ABS_MAX,
        decreases len - t,
    {
        let s: i64 = render_one(nodes, chain, sr);
        out.push(s);
        t = t + 1;
    }
    out
}


/// Phase accumulator of a tone that started at zero, after `t` samples.
pub open spec fn phase_after_spec(t: nat, freq: int, sr: int) -> int
    decreases t,
{
    if t == 0 {
        0
    } else {
        next_phase_spec(phase_after_spec((t - 1) as nat, freq, sr), freq, sr)
    }
}

/// Closed form of the phase recurrence: after `t` samples the
/// accumulator holds `(t * freq) % sr`, so the tone is the pure sinusoid
/// of its frequency at the session sample rate.
pub proof fn lemma_phase_closed_form(t: nat, freq: int, sr: int)
    requires
        sr >= 1,
        freq >= 0,
    ensures
        phase_after_spec(t, freq, sr) == (t * freq) % sr,
    decreases t,
{
    if t == 0 {
        vstd::arithmetic::div_mod::lemma_small_mod(0, sr as nat);
    } else {
        lemma_phase_closed_form((t - 1) as nat, freq, sr);
        let prev = phase_after_spec((t - 1) as nat, freq, sr);
        assert(prev == ((t - 1) * freq) % sr);
        assert(phase_after_spec(t, freq, sr) == (prev + freq) % sr);
        vstd::arithmetic::div_mod::lemma_add_mod_noop_right(freq, (t - 1) * freq, sr);
        assert((freq + ((t - 1) * freq) % sr) % sr == (freq + (t - 1) * freq) % sr);
        assert(freq + (t - 1) * freq == t * freq) by (nonlinear_arith);
        assert((prev + freq) % sr == (t * freq) % sr);
    }
}

/// A chain node keeps its role as samples pass, and an oscillator's
/// accumulator follows the phase recurrence from wherever it started...
/// here stated for an oscillator starting at phase zero.
pub proof fn lemma_oscillator_runs(nodes: Seq<Node>, chain: Seq<int>, sr: int, t: nat, i: int)
    requires
        0 <= i < nodes.len(),
        chain.contains(i),
        nodes[i].kind matches NodeKind::Oscillator { freq },
        nodes[i].phase == 0,
        1 <= sr <= 1_000_000,
    ensures
        nodes_after_spec(nodes, chain, sr, t).len() == nodes.len(),
        nodes_after_spec(nodes, chain, sr, t)[i].kind == nodes[i].kind,
        nodes[i].kind matches NodeKind::Oscillator { freq }
            ==> nodes_after_spec(nodes, chain, sr, t)[i].phase
                == phase_after_spec(t, freq as int, sr),
    decreases t,
{
    if t > 0 {
        lemma_oscillator_runs(nodes, chain, sr, (t - 1) as nat, i);
        let prevn = nodes_after_spec(nodes, chain, sr, (t - 1) as nat);
        match nodes[i].kind {
            NodeKind::Oscillator { freq } => {
                assert(nodes_after_spec(nodes, chain, sr, t)[i]
                    == process_next_spec(prevn[i], sr));
                let p = phase_after_spec((t - 1) as nat, freq as int, sr);
                assert(prevn[i].phase == p);
                assert(0 <= (p + freq) % sr < sr) by (nonlinear_arith)
                    requires
                        sr >= 1,
                ;
                assert(((p + freq) % sr) as u64 == (p + freq) % sr);
                assert(nodes_after_spec(nodes, chain, sr, t)[i].phase == (p + freq) % sr);
            },
            _ => {},
        }
    }
}

/// The fourth testable property, stated for a chain of one oscillator:
/// the block's sample stream is exactly the sinusoid of the configured
/// frequency at the configured sample rate,
/// `sample[t] = sin(2 pi * ((t * freq) % sr) / sr)` in thousandths.
pub proof fn lemma_oscillator_pure_sinusoid(nodes: Seq<Node>, chain: Seq<int>, sr: int,
    t: nat, freq: int)
    requires
        chain.len() == 1,
        0 <= chain[0] < nodes.len(),
        nodes[chain[0]].kind == (NodeKind::Oscillator { freq: freq as u64 }),
        0 <= freq <= FREQ_MAX,
        nodes[chain[0]].phase == 0,
        1 <= sr <= 1_000_000,
    ensures
        sample_at_spec(nodes, chain, sr, t) == sin_spec(((t * freq) % sr) * 1000 / sr),
{
    let i = chain[0];
    lemma_oscillator_runs(nodes, chain, sr, t, i);
    lemma_phase_closed_form(t, freq, sr);
    assert(chain_out_spec(nodes_after_spec(nodes, chain, sr, t), chain, sr, 0) == 0);
}

/// The tempo interval between two sequencer emissions, in milliseconds.
pub open spec fn seq_interval_spec(bpm: int) -> int {
    60000int / bpm
}

/// Whether the tempo clock fires for this state at this instant: there
/// are steps to play and either nothing was played yet or a full
/// interval has passed since the last emission.
pub open spec fn seq_emits_spec(st: SequencerState, now: int) -> bool {
    &&& st.steps@.len() > 0
    &&& (!st.has_played || now >= st.last_played + seq_interval_spec(st.bpm as int))
}

/// The sequencer state after a clock tick at `now`: on an emission the
/// cursor's step becomes the sounding tone, the cursor advances
/// round-robin and the instant is stamped; otherwise nothing changes.
pub open spec fn seq_next_spec(st: SequencerState, now: u64) -> SequencerState {
    if seq_emits_spec(st, now as int) {
        SequencerState {
            steps: st.steps,
            index: (((st.index + 1) as int % st.steps@.len() as int) as usize),
            bpm: st.bpm,
            last_played: now,
            has_played: true,
            sounding: true,
            freq: st.steps@[st.index as int],
        }
    } else {
        st
    }
}

/// One tick of the tempo clock over a sequencer's state.  Emission
/// happens exactly when `seq_emits_spec` says so; the emitted tone is the
/// step under the cursor.
pub fn sequencer_tick(st: &mut SequencerState, now_ms: u64) -> (emitted: bool)
    requires
        seq_state_wf(*old(st)),
        now_ms <= NOW_MAX,
    ensures
        emitted == seq_emits_spec(*old(st), now_ms as int),
        *final(st) == seq_next_spec(*old(st), now_ms),
        seq_state_wf(*final(st)),
        emitted ==> final(st).freq == old(st).steps@[old(st).index as int]
            && final(st).sounding && final(st).last_played == now_ms,
{
    let fire: bool = if st.steps.len() == 0 {
        false
    } else if !st.has_played {
        true
    } else {
        now_ms >= st.last_played + 60000 / st.bpm
    };
    if fire {
        let f: u64 = st.steps[st.index];
        st.freq = f;
        st.sounding = true;
        st.last_played = now_ms;
        st.has_played = true;
        let len: usize = st.steps.len();
        st.index = (st.index + 1) % len;
        proof {
            assert((st.index + 1) as int % (len as int) < len as int) by (nonlinear_arith)
                requires
                    len as int >= 1,
            ;
        }
        true
    } else {
        false
    }
}

/// The fifth testable property: the clock emits at most one tone per
/// tempo interval.  If the clock fires at `t1` and then fires again at
/// `t2`, a full interval of `60000 / bpm` milliseconds lies between them;
/// and the emitted tones walk the tone row in order, round-robin.
pub proof fn lemma_sequencer_paces(st: SequencerState, t1: u64, t2: u64)
    requires
        seq_state_wf(st),
        seq_emits_spec(st, t1 as int),
        seq_emits_spec(seq_next_spec(st, t1), t2 as int),
    ensures
        t2 >= t1 + seq_interval_spec(st.bpm as int),
        seq_interval_spec(st.bpm as int) >= 6,
        seq_next_spec(st, t1).freq == st.steps@[st.index as int],
        seq_next_spec(st, t1).index as int == (st.index + 1) as int % st.steps@.len() as int,
{
    assert(60000 as int / (st.bpm as int) >= 6) by (nonlinear_arith)
        requires
            1 <= st.bpm as int <= 10_000,
    ;
}


/// A node under the tempo clock: a sequencer standing in the chain takes
/// a clock tick; every other node is left alone.
pub open spec fn node_clock_spec(n: Node, now: u64, run: bool) -> Node {
    match n.kind {
        NodeKind::Sequencer { state } => if run {
            Node { kind: NodeKind::Sequencer { state: seq_next_spec(state, now) }, ..n }
        } else {
            n
        },
        _ => n,
    }
}

/// Applies one tempo-clock tick to a node, if it is a sequencer asked to
/// run; reports whether a tone was emitted.
pub fn node_clock_tick(n: &mut Node, now_ms: u64, run: bool) -> (emitted: bool)
    requires
        kind_wf(old(n).kind),
        now_ms <= NOW_MAX,
    ensures
        *final(n) == node_clock_spec(*old(n), now_ms, run),
        kind_wf(final(n).kind),
        final(n).phase == old(n).phase,
        emitted ==> run,
{
    if run {
        match &mut n.kind {
            NodeKind::Sequencer { state } => sequencer_tick(state, now_ms),
            _ => false,
        }
    } else {
        false
    }
}


/// Two nodes that agree on everything except possibly the phase
/// accumulator; rendering advances phases and touches nothing else.
pub open spec fn same_but_phase(a: Node, b: Node) -> bool {
    &&& a.kind == b.kind
    &&& a.target == b.target
    &&& a.current == b.current
    &&& a.interp_angle == b.interp_angle
    &&& a.wobble_angle == b.wobble_angle
    &&& a.wobble_time == b.wobble_time
    &&& a.scale == b.scale
    &&& a.is_wobbling == b.is_wobbling
    &&& a.triggered == b.triggered
}

/// Rendering a block moves phase accumulators only.
pub proof fn lemma_nodes_after_fields(nodes: Seq<Node>, chain: Seq<int>, sr: int, t: nat)
    ensures
        nodes_after_spec(nodes, chain, sr, t).len() == nodes.len(),
        forall|i: int| 0 <= i < nodes.len()
            ==> same_but_phase(#[trigger] nodes_after_spec(nodes, chain, sr, t)[i], nodes[i]),
    decreases t,
{
    if t > 0 {
        lemma_nodes_after_fields(nodes, chain, sr, (t - 1) as nat);
    }
}

} // verus!
