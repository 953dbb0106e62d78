use synth_tiles::audio::{render_block, sequencer_tick, tone_sample};
use synth_tiles::geom::Vec2I;
use synth_tiles::node::{new_node, NodeKind, SequencerState};
use synth_tiles::trig::sin_milli;

fn at_origin() -> Vec2I {
    Vec2I { x: 0, y: 0 }
}

#[test]
fn oscillator_output_is_a_pure_sinusoid() {
    let sr: u64 = 44_100;
    let freq: u64 = 440;
    let mut nodes = vec![new_node(NodeKind::Oscillator { freq }, at_origin())];
    let chain: Vec<usize> = vec![0];
    let block = render_block(&mut nodes, &chain, sr, 256);
    assert_eq!(block.len(), 256);
    for n in 0..256u64 {
        // the exact fixed-point value the contract promises
        let phase = n * freq % sr;
        assert_eq!(block[n as usize], sin_milli(phase * 1000 / sr));
        // and it stays within tolerance of the ideal sinusoid
        let ideal = 1000.0 * (2.0 * std::f64::consts::PI * freq as f64 * n as f64 / sr as f64).sin();
        let got = block[n as usize] as f64;
        assert!(
            (got - ideal).abs() < 12.0,
            "sample {n}: {got} vs {ideal}"
        );
    }
}

#[test]
fn oscillator_phase_survives_across_blocks() {
    let sr: u64 = 44_100;
    let freq: u64 = 440;
    let mut nodes = vec![new_node(NodeKind::Oscillator { freq }, at_origin())];
    let chain: Vec<usize> = vec![0];
    let first = render_block(&mut nodes, &chain, sr, 100);
    let second = render_block(&mut nodes, &chain, sr, 100);
    let mut nodes2 = vec![new_node(NodeKind::Oscillator { freq }, at_origin())];
    let whole = render_block(&mut nodes2, &chain, sr, 200);
    assert_eq!(first.as_slice(), &whole[..100]);
    assert_eq!(second.as_slice(), &whole[100..]);
}

#[test]
fn lfo_modulates_the_upstream_stream() {
    let sr: u64 = 1000;
    let mut nodes = vec![
        new_node(NodeKind::Oscillator { freq: 100 }, at_origin()),
        new_node(NodeKind::Lfo { freq: 10 }, at_origin()),
    ];
    let chain: Vec<usize> = vec![0, 1];
    let block = render_block(&mut nodes, &chain, sr, 50);
    for n in 0..50u64 {
        let tone = sin_milli(n * 100 % sr * 1000 / sr);
        let lfo = sin_milli(n * 10 % sr * 1000 / sr);
        let gain = 1000 + lfo / 10;
        assert_eq!(block[n as usize], tone * gain / 1000, "sample {n}");
    }
}

#[test]
fn blank_and_output_nodes_pass_the_stream_through() {
    let sr: u64 = 44_100;
    let mut nodes = vec![
        new_node(NodeKind::Oscillator { freq: 440 }, at_origin()),
        new_node(NodeKind::Blank, at_origin()),
        new_node(NodeKind::Output, at_origin()),
    ];
    let chain: Vec<usize> = vec![0, 1, 2];
    let block = render_block(&mut nodes, &chain, sr, 64);
    let mut bare = vec![new_node(NodeKind::Oscillator { freq: 440 }, at_origin())];
    let solo_chain: Vec<usize> = vec![0];
    let solo = render_block(&mut bare, &solo_chain, sr, 64);
    assert_eq!(block, solo);
}

#[test]
fn empty_chain_renders_silence() {
    let sr: u64 = 44_100;
    let mut nodes = vec![new_node(NodeKind::Oscillator { freq: 440 }, at_origin())];
    let chain: Vec<usize> = vec![];
    let block = render_block(&mut nodes, &chain, sr, 32);
    assert!(block.iter().all(|&s| s == 0));
}

fn fresh_sequencer(steps: Vec<u64>, bpm: u64) -> SequencerState {
    SequencerState {
        steps,
        index: 0,
        bpm,
        last_played: 0,
        has_played: false,
        sounding: false,
        freq: 0,
    }
}

#[test]
fn sequencer_emits_four_tones_in_two_seconds_at_bpm_120() {
    // interval = 60 / 120 = 0.5 s; a 60 Hz clock over 2.0 s gives exactly 4
    let mut st = fresh_sequencer(vec![220, 330, 440, 550], 120);
    let mut emitted: Vec<(u64, u64)> = Vec::new();
    let mut now: u64 = 0;
    while now < 2000 {
        if sequencer_tick(&mut st, now) {
            emitted.push((now, st.freq));
        }
        now += 16;
    }
    assert_eq!(emitted.len(), 4, "emissions: {emitted:?}");
    // the tone row is walked in order
    let freqs: Vec<u64> = emitted.iter().map(|e| e.1).collect();
    assert_eq!(freqs, vec![220, 330, 440, 550]);
    // and never twice within one interval
    for w in emitted.windows(2) {
        assert!(w[1].0 - w[0].0 >= 500, "double trigger: {:?}", w);
    }
}

#[test]
fn sequencer_cycles_round_robin() {
    let mut st = fresh_sequencer(vec![100, 200], 600);
    let mut freqs: Vec<u64> = Vec::new();
    let mut now: u64 = 0;
    while now <= 500 {
        if sequencer_tick(&mut st, now) {
            freqs.push(st.freq);
        }
        now += 100;
    }
    assert_eq!(freqs, vec![100, 200, 100, 200, 100, 200]);
}

#[test]
fn silent_sequencer_contributes_nothing() {
    let sr: u64 = 44_100;
    let seq = NodeKind::Sequencer {
        state: fresh_sequencer(vec![220], 120),
    };
    let mut nodes = vec![new_node(seq, at_origin())];
    let chain: Vec<usize> = vec![0];
    let block = render_block(&mut nodes, &chain, sr, 16);
    assert!(block.iter().all(|&s| s == 0));
}

#[test]
fn sounding_sequencer_plays_its_tone() {
    let sr: u64 = 44_100;
    let mut st = fresh_sequencer(vec![330], 120);
    assert!(sequencer_tick(&mut st, 0));
    assert_eq!(st.freq, 330);
    assert!(st.sounding);
    let mut nodes = vec![new_node(NodeKind::Sequencer { state: st }, at_origin())];
    let chain: Vec<usize> = vec![0];
    let block = render_block(&mut nodes, &chain, sr, 32);
    for n in 0..32u64 {
        assert_eq!(block[n as usize], tone_sample(n * 330 % sr, sr), "sample {n}");
    }
}
