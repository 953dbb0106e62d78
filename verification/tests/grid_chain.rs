use synth_tiles::geom::Vec2I;
use synth_tiles::grid::{assign_targets, derive_chain, GridLayout};
use synth_tiles::node::{new_node, Node, NodeKind};

fn p(x: i64, y: i64) -> Vec2I {
    Vec2I { x, y }
}

fn two_row_layout() -> GridLayout {
    GridLayout {
        hand: vec![
            p(-260_000, -200_000),
            p(-130_000, -200_000),
            p(0, -200_000),
            p(130_000, -200_000),
            p(260_000, -200_000),
        ],
        chain: vec![
            p(-260_000, 100_000),
            p(-130_000, 100_000),
            p(0, 100_000),
            p(130_000, 100_000),
            p(260_000, 100_000),
        ],
    }
}

fn blank_at(at: Vec2I) -> Node {
    new_node(NodeKind::Blank, at)
}

#[test]
fn assignment_is_a_bijection_for_few_enough_nodes() {
    let layout = two_row_layout();
    // five nodes dropped in a cluster near the middle of the canvas
    let mut nodes = vec![
        blank_at(p(10_000, -10_000)),
        blank_at(p(-20_000, 0)),
        blank_at(p(0, 30_000)),
        blank_at(p(5_000, 5_000)),
        blank_at(p(-5_000, -5_000)),
    ];
    assign_targets(&mut nodes, &layout, None);
    let slots: Vec<Vec2I> = layout.hand.iter().chain(layout.chain.iter()).copied().collect();
    for i in 0..nodes.len() {
        assert!(
            slots.contains(&nodes[i].target),
            "node {i} must stand on a slot"
        );
        for j in 0..i {
            assert_ne!(
                nodes[i].target, nodes[j].target,
                "nodes {j} and {i} share a slot"
            );
        }
    }
}

#[test]
fn assignment_picks_the_nearest_free_slot_in_node_order() {
    let layout = two_row_layout();
    // both nodes are nearest to the center hand slot; the first wins it
    let mut nodes = vec![blank_at(p(1_000, -190_000)), blank_at(p(-1_000, -190_000))];
    assign_targets(&mut nodes, &layout, None);
    assert_eq!(nodes[0].target, p(0, -200_000));
    // the runner-up takes its own nearest remaining slot
    assert_eq!(nodes[1].target, p(-130_000, -200_000));
}

#[test]
fn starved_nodes_keep_their_previous_target() {
    let layout = GridLayout {
        hand: vec![p(0, 0)],
        chain: vec![p(100_000, 0)],
    };
    let mut nodes = vec![
        blank_at(p(1_000, 0)),
        blank_at(p(99_000, 0)),
        blank_at(p(555_000, 777_000)),
    ];
    assign_targets(&mut nodes, &layout, None);
    assert_eq!(nodes[0].target, p(0, 0));
    assert_eq!(nodes[1].target, p(100_000, 0));
    // no slot is left for the third node: its target is untouched
    assert_eq!(nodes[2].target, p(555_000, 777_000));
}

#[test]
fn the_dragged_node_is_passed_over_by_the_assembler() {
    let layout = two_row_layout();
    let mut nodes = vec![blank_at(p(10_000, -10_000)), blank_at(p(-20_000, 80_000))];
    // node 0 is being dragged: it keeps its mid-air target, and node 1
    // still snaps to its nearest free slot (the center chain slot)
    assign_targets(&mut nodes, &layout, Some(0));
    assert_eq!(nodes[0].target, p(10_000, -10_000));
    assert_eq!(nodes[1].target, p(0, 100_000));
}

#[test]
fn chain_lists_occupants_in_slot_order() {
    let layout = two_row_layout();
    let mut nodes = vec![
        blank_at(p(0, 0)),
        blank_at(p(0, 0)),
        blank_at(p(0, 0)),
        blank_at(p(0, 0)),
    ];
    // node 3 on the leftmost chain slot, node 1 further right,
    // node 0 rightmost; node 2 parked on the hand row
    nodes[3].target = p(-260_000, 100_000);
    nodes[1].target = p(0, 100_000);
    nodes[0].target = p(260_000, 100_000);
    nodes[2].target = p(-260_000, -200_000);
    let chain = derive_chain(&nodes, &layout);
    assert_eq!(chain, vec![3, 1, 0]);
}

#[test]
fn chain_is_empty_when_no_node_stands_on_the_chain_row() {
    let layout = two_row_layout();
    let nodes = vec![blank_at(p(-260_000, -200_000)), blank_at(p(0, -200_000))];
    let chain = derive_chain(&nodes, &layout);
    assert!(chain.is_empty());
}

#[test]
fn every_node_sharing_a_slot_target_joins_the_chain() {
    let layout = two_row_layout();
    let mut nodes = vec![
        blank_at(p(0, 0)),
        blank_at(p(0, 0)),
        blank_at(p(0, 0)),
    ];
    // nodes 0 and 1 both hold the second chain slot as their target (a
    // starved node can keep a slot target another node has claimed);
    // node 2 holds the leftmost chain slot
    nodes[0].target = p(-130_000, 100_000);
    nodes[1].target = p(-130_000, 100_000);
    nodes[2].target = p(-260_000, 100_000);
    let chain = derive_chain(&nodes, &layout);
    // slot order first, node order within one slot
    assert_eq!(chain, vec![2, 0, 1]);
}

#[test]
fn chain_ignores_near_misses() {
    let layout = two_row_layout();
    let mut nodes = vec![blank_at(p(0, 0))];
    // occupancy is exact equality of the resolved slot coordinate
    nodes[0].target = p(-260_000, 100_001);
    let chain = derive_chain(&nodes, &layout);
    assert!(chain.is_empty());
}
