use synth_tiles::geom::Vec2I;
use synth_tiles::grid::GridLayout;
use synth_tiles::node::{NodeKind, SCALE_MIN};
use synth_tiles::trig::sin_milli;
use synth_tiles::world::World;

fn p(x: i64, y: i64) -> Vec2I {
    Vec2I { x, y }
}

fn two_row_layout() -> GridLayout {
    GridLayout {
        hand: vec![
            p(-260_000, -200_000),
            p(-130_000, -200_000),
            p(0, -200_000),
            p(130_000, -200_000),
            p(260_000, -200_000),
        ],
        chain: vec![
            p(-260_000, 100_000),
            p(-130_000, 100_000),
            p(0, 100_000),
            p(130_000, 100_000),
            p(260_000, 100_000),
        ],
    }
}

fn five_oscillators() -> Vec<NodeKind> {
    vec![
        NodeKind::Oscillator { freq: 440 },
        NodeKind::Blank,
        NodeKind::Oscillator { freq: 660 },
        NodeKind::Blank,
        NodeKind::Output,
    ]
}

const DT: u64 = 16;

/// Drags node `i` from wherever it stands onto `to`, releases, and runs
/// one idle tick so the grid assembler and chain rebuild see the drop.
fn drag_node(w: &mut World, i: usize, to: Vec2I, now: &mut u64) {
    let from = w.nodes[i].current;
    w.set_pointer(from);
    w.handle_press();
    assert_eq!(w.selected, Some(i), "the press must pick node {i}");
    w.set_pointer(to);
    w.tick(DT, *now);
    *now += DT;
    assert_eq!(w.nodes[i].target, to);
    w.handle_release();
    w.tick(DT, *now);
    *now += DT;
}

#[test]
fn spawned_nodes_sit_on_the_hand_row() {
    let w = World::new(two_row_layout(), five_oscillators(), 44_100, 4096);
    assert_eq!(w.nodes.len(), 5);
    for (i, n) in w.nodes.iter().enumerate() {
        assert_eq!(n.target, two_row_layout().hand[i]);
        assert_eq!(n.current, n.target);
        assert!(!n.is_wobbling);
    }
    assert!(w.chain.is_empty());
}

#[test]
fn a_press_away_from_every_node_changes_nothing() {
    let mut w = World::new(two_row_layout(), five_oscillators(), 44_100, 4096);
    w.set_pointer(p(0, 0));
    w.handle_press();
    // no transition fires on empty canvas: the session stays idle
    assert!(!w.dragging);
    assert_eq!(w.selected, None);
    assert!(w.nodes.iter().all(|n| !n.is_wobbling));
    // and the grid assembler keeps running on the next tick
    w.nodes[1].target = p(5_000, -190_000);
    w.tick(DT, 0);
    assert_eq!(w.nodes[1].target, p(0, -200_000));
}

#[test]
fn the_assembler_keeps_running_during_a_drag() {
    let mut w = World::new(two_row_layout(), five_oscillators(), 44_100, 4096);
    // knock node 1 off its slot, then start dragging node 0
    w.nodes[1].target = p(5_000, -190_000);
    w.set_pointer(w.nodes[0].current);
    w.handle_press();
    assert_eq!(w.selected, Some(0));
    w.set_pointer(p(-200_000, 50_000));
    w.tick(DT, 0);
    // the dragged node follows the pointer, every other node is assigned
    assert_eq!(w.nodes[0].target, p(-200_000, 50_000));
    assert_eq!(w.nodes[1].target, p(0, -200_000));
    w.handle_release();
}

#[test]
fn a_press_within_the_pick_radius_selects_the_node() {
    let mut w = World::new(two_row_layout(), five_oscillators(), 44_100, 4096);
    w.set_pointer(p(-230_000, -180_000));  // 36 units from node 0, inside 60
    w.handle_press();
    assert_eq!(w.selected, Some(0));
    assert!(w.nodes[0].is_wobbling);
    w.handle_release();
}

#[test]
fn a_press_picks_the_nearest_node_and_ties_go_to_insertion_order() {
    let mut w = World::new(two_row_layout(), five_oscillators(), 44_100, 4096);
    // park node 1 close to node 0 so both lie within the pick radius
    w.nodes[1].current = p(-250_000, -200_000);
    w.set_pointer(p(-252_000, -200_000));
    w.handle_press();
    assert_eq!(w.selected, Some(1), "the nearer node wins");
    w.handle_release();

    // equidistant: the earlier node wins the tie
    w.nodes[1].current = p(-250_000, -200_000);
    w.set_pointer(p(-255_000, -200_000));
    w.handle_press();
    assert_eq!(w.selected, Some(0));
    w.handle_release();
}

#[test]
fn releasing_a_drag_clears_wobble_and_scale_returns_to_rest() {
    let mut w = World::new(two_row_layout(), five_oscillators(), 44_100, 4096);
    let mut now: u64 = 0;
    w.set_pointer(w.nodes[0].current);
    w.handle_press();
    assert!(w.nodes[0].is_wobbling);
    // hold the drag long enough for the scale to reach its cap
    for _ in 0..8 {
        w.tick(DT, now);
        now += DT;
    }
    assert_eq!(w.nodes[0].scale, 1300);
    w.handle_release();
    assert!(w.nodes.iter().all(|n| !n.is_wobbling));
    // the configured decay window: 300 thousandths at 4 per millisecond
    let window_ticks = (300 + (4 * DT as i64) - 1) / (4 * DT as i64);
    for _ in 0..window_ticks {
        w.tick(DT, now);
        now += DT;
    }
    assert_eq!(w.nodes[0].scale, SCALE_MIN);
    assert!(w.nodes.iter().all(|n| n.scale == SCALE_MIN));
}

#[test]
fn end_to_end_chain_assembly_and_superposition() {
    let mut w = World::new(two_row_layout(), five_oscillators(), 44_100, 4096);
    let mut now: u64 = 0;

    // drag node 0 into the leftmost chain slot
    drag_node(&mut w, 0, p(-260_000, 100_000), &mut now);
    assert_eq!(w.chain, vec![0]);

    // drag node 2 into the next chain slot
    drag_node(&mut w, 2, p(-130_000, 100_000), &mut now);
    assert_eq!(w.chain, vec![0, 2]);

    // the audio buffer now carries the superposition of both tones in
    // chain order, each freshly activated from phase zero
    assert!(w.produce_block(128));
    let got = w.consume_block(128);
    let sr: u64 = 44_100;
    for n in 0..128u64 {
        let a = sin_milli(n * 440 % sr * 1000 / sr);
        let b = sin_milli(n * 660 % sr * 1000 / sr);
        assert_eq!(got[n as usize], a + b, "sample {n}");
    }
}

#[test]
fn dropping_a_node_between_chain_slots_snaps_it_to_the_nearest() {
    let mut w = World::new(two_row_layout(), five_oscillators(), 44_100, 4096);
    let mut now: u64 = 0;
    // released a little off the center chain slot
    drag_node(&mut w, 1, p(12_000, 91_000), &mut now);
    assert_eq!(w.nodes[1].target, p(0, 100_000));
    assert_eq!(w.chain, vec![1]);
}

#[test]
fn produce_block_respects_the_buffer_capacity() {
    let mut w = World::new(two_row_layout(), five_oscillators(), 44_100, 100);
    assert!(w.produce_block(60));
    assert!(!w.produce_block(60));
    assert!(w.produce_block(40));
    let out = w.consume_block(100);
    assert_eq!(out.len(), 100);
}

#[test]
fn render_states_follow_the_nodes() {
    let mut w = World::new(two_row_layout(), five_oscillators(), 44_100, 4096);
    let states = w.render_states();
    assert_eq!(states.len(), 5);
    for (i, s) in states.iter().enumerate() {
        assert_eq!((s.x, s.y), (w.nodes[i].current.x, w.nodes[i].current.y));
        assert_eq!(s.rotation, 0);
        assert_eq!(s.scale, 1000);
        assert!(!s.raised);
    }
    w.set_pointer(w.nodes[3].current);
    w.handle_press();
    let states = w.render_states();
    assert!(states[3].raised);
    assert!(!states[0].raised);
}
