//! The simulation context: the node set, the grid, the interaction state
//! (pointer, drag, selection), the derived signal chain, and the sample
//! buffer toward the audio device.  One `tick` runs the whole per-frame
//! pipeline: drag tracking, physics, grid snapping, chain rebuild and
//! activation, and the tempo clock.

use vstd::prelude::*;
use crate::geom::{Vec2I, pos_ok, dist_sq_spec, dist_sq, lerp_coord_spec};
use crate::node::{Node, NodeKind, RenderState, node_wf, kind_wf, same_role, new_node,
    node_at_mut, set_node_target, set_node_wobbling, physics_step, render_node,
    scale_step_spec, relax_spec, wobble_angle_spec, tilt_spec, SCALE_MIN, DT_MAX, NOW_MAX};
use crate::grid::{GridLayout, layout_wf, all_slots_spec, targets_of, assign_targets,
    derive_chain, chain_rec, lemma_chain_ordered, lemma_chain_length, chain_ints, chain_ok,
    greedy_rec, skip_of};
use crate::audio::{sr_ok, nodes_ready, node_clock_spec, node_clock_tick, render_block,
    sample_at_spec, nodes_after_spec, lemma_nodes_after_fields};
use crate::buffer::RingBuffer;

verus! {

/// Picking distance: a press selects a node whose smoothed position lies
/// strictly within sixty units of the pointer.
pub const PICK_RADIUS_SQ: i64 = 3_600_000_000;

/// Most nodes a session may hold.  Every node can stand in the chain at
/// once, and each chain stage can double the signal and add a tone, so
/// this cap keeps every sample within the loudness bound.
pub const NODES_MAX: usize = 32;

/// The whole interactive session.
pub struct World {
    /// All nodes, identified by their index; never removed in-session.
    pub nodes: Vec<Node>,
    /// The fixed slot grid.
    pub layout: GridLayout,
    /// Pointer position in canvas-centered, y-up milliunits.
    pub pointer: Vec2I,
    /// Whether a drag is in progress.
    pub dragging: bool,
    /// The dragged node; at most one node is ever selected.
    pub selected: Option<usize>,
    /// The signal chain: node indices in chain-slot order, left to right.
    pub chain: Vec<usize>,
    /// Whether the chain must be rebuilt on the next idle tick (a drag
    /// was released since the last rebuild).
    pub chain_dirty: bool,
    /// Session sample rate in hertz, fixed at startup.
    pub sample_rate: u64,
    /// Rendered samples on their way to the device callback.
    pub buffer: RingBuffer,
}

impl World {
    /// The session invariant: well-formed layout and nodes, a selection
    /// that exists and only during a drag, at most one wobbling node (the
    /// selected one), and a chain of distinct in-bounds indices.
    pub open spec fn wf(&self) -> bool {
        &&& layout_wf(self.layout)
        &&& sr_ok(self.sample_rate)
        &&& pos_ok(self.pointer)
        &&& self.nodes@.len() <= NODES_MAX
        &&& (forall|i: int| 0 <= i < self.nodes@.len()
            ==> node_wf(#[trigger] self.nodes@[i], self.sample_rate))
        &&& (self.selected matches Some(s) ==> (s as int) < self.nodes@.len())
        &&& (self.selected is Some <==> self.dragging)
        &&& (forall|i: int| 0 <= i < self.nodes@.len() && (#[trigger] self.nodes@[i]).is_wobbling
            ==> self.selected == Some(i as usize))
        &&& chain_ok(chain_ints(self.chain@), self.nodes@.len() as int)
        &&& self.buffer.wf()
    }

    /// The node targets this tick's physics and grid assembler see: each
    /// node's own target, except that the dragged node's is the pointer.
    pub open spec fn drag_targets_spec(w: World) -> Seq<Vec2I> {
        match w.selected {
            Option::Some(s) => if w.dragging {
                targets_of(w.nodes@).update(s as int, w.pointer)
            } else {
                targets_of(w.nodes@)
            },
            Option::None => targets_of(w.nodes@),
        }
    }

    /// The index the grid assembler passes over: the dragged node.
    pub open spec fn drag_skip_spec(w: World) -> Option<int> {
        if w.dragging {
            skip_of(w.selected)
        } else {
            Option::None
        }
    }

    /// A fresh session: one node per role, parked on the hand row in
    /// order, nothing selected, an empty chain, an empty sample buffer.
    pub fn new(layout: GridLayout, kinds: Vec<NodeKind>, sample_rate: u64, buffer_cap: usize)
        -> (w: World)
        requires
            layout_wf(layout),
            sr_ok(sample_rate),
            kinds@.len() <= layout.hand@.len(),
            kinds@.len() <= NODES_MAX,
            forall|i: int| 0 <= i < kinds@.len() ==> kind_wf(#[trigger] kinds@[i]),
            1 <= buffer_cap <= 1_000_000_000,
        ensures
            w.wf(),
            w.layout == layout,
            w.sample_rate == sample_rate,
            w.nodes@.len() == kinds@.len(),
            forall|i: int| 0 <= i < kinds@.len() ==> {
                &&& (#[trigger] w.nodes@[i]).kind == kinds@[i]
                &&& w.nodes@[i].target == layout.hand@[i]
                &&& w.nodes@[i].current == layout.hand@[i]
                &&& w.nodes@[i].interp_angle == 0
                &&& w.nodes@[i].wobble_angle == 0
                &&& w.nodes@[i].wobble_time == 0
                &&& w.nodes@[i].scale == SCALE_MIN
                &&& !w.nodes@[i].is_wobbling
                &&& !w.nodes@[i].triggered
                &&& w.nodes@[i].phase == 0
            },
            !w.dragging,
            w.selected is None,
            w.chain@.len() == 0,
            !w.chain_dirty,
            w.buffer.contents() =~= Seq::<i64>::empty(),
            w.pointer == (Vec2I { x: 0, y: 0 }),
    {
        let ghost kinds0: Seq<NodeKind> = kinds@;
        let mut kinds: Vec<NodeKind> = kinds;
        let mut nodes: Vec<Node> = Vec::new();
        let mut i: usize = 0;
        while kinds.len() > 0
            invariant
                i + kinds@.len() == kinds0.len(),
                kinds@ =~= kinds0.skip(i as int),
                kinds0.len() <= layout.hand@.len(),
                layout_wf(layout),
                sr_ok(sample_rate),
                forall|k: int| 0 <= k < kinds0.len() ==> kind_wf(#[trigger] kinds0[k]),
                nodes@.len() == i,
                forall|k: int| 0 <= k < i ==> {
                    &&& (#[trigger] nodes@[k]).kind == kinds0[k]
                    &&& nodes@[k].target == layout.hand@[k]
                    &&& nodes@[k].current == layout.hand@[k]
                    &&& nodes@[k].interp_angle == 0
                    &&& nodes@[k].wobble_angle == 0
                    &&& nodes@[k].wobble_time == 0
                    &&& nodes@[k].scale == SCALE_MIN
                    &&& !nodes@[k].is_wobbling
                    &&& !nodes@[k].triggered
                    &&& nodes@[k].phase == 0
                    &&& node_wf(nodes@[k], sample_rate)
                },
            decreases kinds@.len(),
        {
            let kind: NodeKind = kinds.remove(0);
            proof {
                assert(kind == kinds0[i as int]);
                // hand slots are admissible positions: the hand row is a
                // prefix of the slot pool the layout invariant covers
                assert(all_slots_spec(layout)[i as int] == layout.hand@[i as int]);
            }
            let at: Vec2I = layout.hand[i];
            let n: Node = new_node(kind, at);
            nodes.push(n);
            proof {
                assert(kinds@ =~= kinds0.skip(i + 1 as int));
            }
            i = i + 1;
        }
        World {
            nodes,
            layout,
            pointer: Vec2I { x: 0, y: 0 },
            dragging: false,
            selected: None,
            chain: Vec::new(),
            chain_dirty: false,
            sample_rate,
            buffer: RingBuffer::new(buffer_cap),
        }
    }

    /// Moves the pointer; the input edge delivers it already transformed
    /// to canvas-centered, y-up coordinates.
    pub fn set_pointer(&mut self, p: Vec2I)
        requires
            old(self).wf(),
            pos_ok(p),
        ensures
            final(self).wf(),
            final(self).pointer == p,
            final(self).nodes == old(self).nodes,
            final(self).layout == old(self).layout,
            final(self).dragging == old(self).dragging,
            final(self).selected == old(self).selected,
            final(self).chain == old(self).chain,
            final(self).chain_dirty == old(self).chain_dirty,
            final(self).sample_rate == old(self).sample_rate,
            final(self).buffer == old(self).buffer,
    {
        self.pointer = p;
    }

    /// Whether the pointer press at `pointer` picks node `i`.
    pub open spec fn hit_spec(nodes: Seq<Node>, pointer: Vec2I, i: int) -> bool {
        dist_sq_spec(pointer, nodes[i].current) < PICK_RADIUS_SQ
    }

    /// The node a press selects among the first `k`: of the nodes whose
    /// smoothed position lies within the pick radius, the one of smallest
    /// distance; the earlier node wins a tie (insertion order, no other
    /// z-order tie-break).
    pub open spec fn first_hit_spec(nodes: Seq<Node>, pointer: Vec2I, k: int) -> Option<int>
        decreases k,
    {
        if k <= 0 {
            None
        } else {
            let prev = Self::first_hit_spec(nodes, pointer, k - 1);
            if !Self::hit_spec(nodes, pointer, k - 1) {
                prev
            } else {
                match prev {
                    Option::None => Option::Some(k - 1),
                    Option::Some(j) => if dist_sq_spec(pointer, nodes[k - 1].current)
                        < dist_sq_spec(pointer, nodes[j].current) {
                        Option::Some(k - 1)
                    } else {
                        Option::Some(j)
                    },
                }
            }
        }
    }

    /// A press edge.  When the pointer lies within a node's pick radius a
    /// drag begins: that node becomes the selection and starts wobbling.
    /// A press on empty canvas fires no transition and changes nothing:
    /// the session stays idle and the grid assembler keeps running.
    pub fn handle_press(&mut self)
        requires
            old(self).wf(),
            !old(self).dragging,
        ensures
            final(self).wf(),
            Self::first_hit_spec(old(self).nodes@, old(self).pointer,
                old(self).nodes@.len() as int) is None ==> *final(self) == *old(self),
            Self::first_hit_spec(old(self).nodes@, old(self).pointer,
                old(self).nodes@.len() as int) matches Option::Some(i) ==> {
                &&& final(self).dragging
                &&& final(self).selected == Some(i as usize)
                &&& final(self).nodes@[i] == (Node { is_wobbling: true, ..old(self).nodes@[i] })
                &&& forall|k: int| 0 <= k < old(self).nodes@.len() && k != i
                    ==> final(self).nodes@[k] == old(self).nodes@[k]
            },
            final(self).nodes@.len() == old(self).nodes@.len(),
            final(self).pointer == old(self).pointer,
            final(self).layout == old(self).layout,
            final(self).chain == old(self).chain,
            final(self).chain_dirty == old(self).chain_dirty,
            final(self).sample_rate == old(self).sample_rate,
            final(self).buffer == old(self).buffer,
    {
        let ghost nodes0: Seq<Node> = self.nodes@;
        let mut found: Option<usize> = None;
        let mut best_d: i64 = 0;
        let mut i: usize = 0;
        while i < self.nodes.len()
            invariant
                i <= nodes0.len(),
                self.nodes@ == nodes0,
                old(self).wf(),
                *self == *old(self),
                found is None ==> Self::first_hit_spec(nodes0, self.pointer, i as int) is None,
                found matches Some(f) ==> f < nodes0.len()
                    && Self::first_hit_spec(nodes0, self.pointer, i as int)
                        == Option::Some(f as int)
                    && best_d == dist_sq_spec(self.pointer, nodes0[f as int].current),
            decreases nodes0.len() - i,
        {
            let d: i64 = dist_sq(self.pointer, self.nodes[i].current);
            if d < PICK_RADIUS_SQ {
                match found {
                    None => {
                        found = Some(i);
                        best_d = d;
                    },
                    Some(_) => {
                        if d < best_d {
                            found = Some(i);
                            best_d = d;
                        }
                    },
                }
            }
            i = i + 1;
        }
        match found {
            Some(f) => {
                self.dragging = true;
                set_node_wobbling(&mut self.nodes, f, true);
                self.selected = Some(f);
            },
            None => {},
        }
    }

    /// A release edge: the drag ends, no node is selected or wobbling any
    /// longer, and the chain is marked for rebuild on the next tick.
    pub fn handle_release(&mut self)
        requires
            old(self).wf(),
        ensures
            final(self).wf(),
            !final(self).dragging,
            final(self).selected is None,
            final(self).chain_dirty,
            final(self).nodes@.len() == old(self).nodes@.len(),
            forall|i: int| 0 <= i < old(self).nodes@.len() ==> #[trigger] final(self).nodes@[i]
                == (Node { is_wobbling: false, ..old(self).nodes@[i] }),
            final(self).pointer == old(self).pointer,
            final(self).layout == old(self).layout,
            final(self).chain == old(self).chain,
            final(self).sample_rate == old(self).sample_rate,
            final(self).buffer == old(self).buffer,
    {
        let ghost nodes0: Seq<Node> = self.nodes@;
        let mut i: usize = 0;
        while i < self.nodes.len()
            invariant
                i <= nodes0.len(),
                nodes0 == old(self).nodes@,
                self.nodes@.len() == nodes0.len(),
                forall|k: int| 0 <= k < i ==> #[trigger] self.nodes@[k]
                    == (Node { is_wobbling: false, ..nodes0[k] }),
                forall|k: int| i <= k < nodes0.len() ==> #[trigger] self.nodes@[k] == nodes0[k],
                self.pointer == old(self).pointer,
                self.layout == old(self).layout,
                self.dragging == old(self).dragging,
                self.selected == old(self).selected,
                self.chain == old(self).chain,
                self.chain_dirty == old(self).chain_dirty,
                self.sample_rate == old(self).sample_rate,
                self.buffer == old(self).buffer,
                old(self).wf(),
            decreases nodes0.len() - i,
        {
            set_node_wobbling(&mut self.nodes, i, false);
            i = i + 1;
        }
        self.dragging = false;
        self.selected = None;
        self.chain_dirty = true;
    }
}


/// Whether the chain holds node index `i`.
fn chain_holds(chain: &Vec<usize>, i: usize) -> (b: bool)
    ensures
        b == chain_ints(chain@).contains(i as int),
{
    let mut k: usize = 0;
    let mut b: bool = false;
    while k < chain.len()
        invariant
            k <= chain@.len(),
            b == (exists|j: int| 0 <= j < k && #[trigger] chain@[j] == i),
        decreases chain@.len() - k,
    {
        if chain[k] == i {
            b = true;
            proof {
                assert(chain@[k as int] == i);
            }
        }
        k = k + 1;
    }
    proof {
        if b {
            let j = choose|j: int| 0 <= j < chain@.len() && #[trigger] chain@[j] == i;
            assert(chain_ints(chain@)[j] == i as int);
            assert(chain_ints(chain@).contains(i as int));
        } else {
            if chain_ints(chain@).contains(i as int) {
                let j = choose|j: int| 0 <= j < chain_ints(chain@).len()
                    && chain_ints(chain@)[j] == i as int;
                assert(chain@[j] == i);
                assert(false);
            }
        }
    }
    b
}

/// A node at a chain rebuild: a chain member not yet triggered starts its
/// tone (an oscillator from phase zero) and is marked, so that staying in
/// the chain across ticks cannot start it twice; a node off the chain has
/// its marker cleared.
pub open spec fn activate_spec(n: Node, in_chain: bool) -> Node {
    if in_chain {
        if n.triggered {
            n
        } else {
            match n.kind {
                NodeKind::Oscillator { freq } => Node { triggered: true, phase: 0, ..n },
                _ => Node { triggered: true, ..n },
            }
        }
    } else {
        Node { triggered: false, ..n }
    }
}

/// Clears one node's activation marker.
fn clear_marker(n: &mut Node)
    ensures
        *final(n) == (Node { triggered: false, ..*old(n) }),
{
    n.triggered = false;
}

/// Applies the activation step to one node.
fn activate_node(n: &mut Node, in_chain: bool)
    ensures
        *final(n) == activate_spec(*old(n), in_chain),
{
    if in_chain {
        if !n.triggered {
            n.triggered = true;
            let is_osc: bool = match &n.kind {
                NodeKind::Oscillator { .. } => true,
                _ => false,
            };
            if is_osc {
                n.phase = 0;
            }
        }
    } else {
        n.triggered = false;
    }
}

impl World {
    /// One simulation tick: the dragged node follows the pointer, every
    /// node runs its physics, the grid assembler snaps every node but the
    /// dragged one to the nearest free slot, the first idle tick after a
    /// release rebuilds the chain, the activation pass starts each chain
    /// member's tone at most once per cycle, and the tempo clock runs
    /// over the chain's sequencers.
    pub fn tick(&mut self, dt_ms: u64, now_ms: u64)
        requires
            old(self).wf(),
            dt_ms <= DT_MAX,
            now_ms <= NOW_MAX,
        ensures
            final(self).wf(),
            final(self).layout == old(self).layout,
            final(self).sample_rate == old(self).sample_rate,
            final(self).dragging == old(self).dragging,
            final(self).selected == old(self).selected,
            final(self).pointer == old(self).pointer,
            final(self).buffer == old(self).buffer,
            final(self).nodes@.len() == old(self).nodes@.len(),
            old(self).dragging ==> final(self).chain == old(self).chain
                && final(self).chain_dirty == old(self).chain_dirty,
            !old(self).dragging ==> !final(self).chain_dirty,
            !old(self).dragging && old(self).chain_dirty
                ==> chain_ints(final(self).chain@) == chain_rec(targets_of(final(self).nodes@),
                    old(self).layout.chain@, old(self).layout.chain@.len() as int),
            !old(self).dragging && !old(self).chain_dirty
                ==> final(self).chain == old(self).chain,
            targets_of(final(self).nodes@) == greedy_rec(Self::drag_targets_spec(*old(self)),
                all_slots_spec(old(self).layout),
                Seq::new(all_slots_spec(old(self).layout).len(), |s: int| false),
                Self::drag_skip_spec(*old(self)), 0),
            old(self).dragging ==> (old(self).selected matches Some(s)
                ==> final(self).nodes@[s as int].target == old(self).pointer),
            forall|k: int| 0 <= k < old(self).nodes@.len()
                ==> (#[trigger] final(self).nodes@[k]).scale
                    == scale_step_spec(old(self).nodes@[k].scale as int, dt_ms as int,
                        old(self).nodes@[k].is_wobbling),
            forall|k: int| 0 <= k < old(self).nodes@.len()
                ==> (#[trigger] final(self).nodes@[k]).is_wobbling
                    == old(self).nodes@[k].is_wobbling,
            forall|k: int| 0 <= k < old(self).nodes@.len()
                && !old(self).nodes@[k].is_wobbling ==> {
                &&& (#[trigger] final(self).nodes@[k]).wobble_time == 0
                &&& final(self).nodes@[k].wobble_angle
                    == relax_spec(old(self).nodes@[k].wobble_angle as int, dt_ms as int)
            },
            forall|k: int| 0 <= k < old(self).nodes@.len()
                && old(self).nodes@[k].is_wobbling
                ==> (#[trigger] final(self).nodes@[k]).wobble_angle
                    == wobble_angle_spec(final(self).nodes@[k].wobble_time as int),
            forall|k: int| 0 <= k < old(self).nodes@.len() ==> {
                &&& (#[trigger] final(self).nodes@[k]).current.x
                    == lerp_coord_spec(old(self).nodes@[k].current.x as int,
                        Self::drag_targets_spec(*old(self))[k].x as int)
                &&& final(self).nodes@[k].current.y
                    == lerp_coord_spec(old(self).nodes@[k].current.y as int,
                        Self::drag_targets_spec(*old(self))[k].y as int)
                &&& final(self).nodes@[k].interp_angle
                    == tilt_spec(Self::drag_targets_spec(*old(self))[k].x as int,
                        final(self).nodes@[k].current.x as int)
            },
            old(self).dragging ==> (forall|k: int| 0 <= k < old(self).nodes@.len() ==> {
                &&& (#[trigger] final(self).nodes@[k]).triggered
                    == old(self).nodes@[k].triggered
                &&& final(self).nodes@[k].phase == old(self).nodes@[k].phase
            }),
            !old(self).dragging ==> (forall|k: int| 0 <= k < old(self).nodes@.len() ==> {
                &&& (#[trigger] final(self).nodes@[k]).triggered
                    == chain_ints(final(self).chain@).contains(k)
                &&& final(self).nodes@[k].phase
                    == if chain_ints(final(self).chain@).contains(k)
                        && (old(self).chain_dirty || !old(self).nodes@[k].triggered)
                        && old(self).nodes@[k].kind is Oscillator {
                    0int
                } else {
                    old(self).nodes@[k].phase as int
                }
            }),
            forall|k: int| 0 <= k < old(self).nodes@.len()
                ==> (#[trigger] final(self).nodes@[k]).kind
                    == node_clock_spec(old(self).nodes@[k], now_ms,
                        chain_ints(final(self).chain@).contains(k)).kind,
    {
        // while dragging, the selected node's target is the pointer
        if self.dragging {
            match self.selected {
                Some(s) => {
                    set_node_target(&mut self.nodes, s, self.pointer);
                },
                None => {},
            }
        }
        proof {
            assert(targets_of(self.nodes@) =~= Self::drag_targets_spec(*old(self)));
        }
        // physics for every node
        let ghost base: Seq<Node> = self.nodes@;
        let mut i: usize = 0;
        while i < self.nodes.len()
            invariant
                i <= base.len(),
                self.nodes@.len() == base.len(),
                old(self).wf(),
                dt_ms <= DT_MAX,
                forall|k: int| 0 <= k < base.len()
                    ==> node_wf(#[trigger] base[k], self.sample_rate),
                forall|k: int| 0 <= k < i ==> {
                    &&& node_wf(#[trigger] self.nodes@[k], self.sample_rate)
                    &&& self.nodes@[k].target == base[k].target
                    &&& same_role(self.nodes@[k], base[k])
                    &&& self.nodes@[k].scale == scale_step_spec(base[k].scale as int,
                        dt_ms as int, base[k].is_wobbling)
                    &&& self.nodes@[k].current.x == lerp_coord_spec(base[k].current.x as int,
                        base[k].target.x as int)
                    &&& self.nodes@[k].current.y == lerp_coord_spec(base[k].current.y as int,
                        base[k].target.y as int)
                    &&& self.nodes@[k].interp_angle == tilt_spec(base[k].target.x as int,
                        self.nodes@[k].current.x as int)
                    &&& !base[k].is_wobbling ==> self.nodes@[k].wobble_time == 0
                        && self.nodes@[k].wobble_angle
                            == relax_spec(base[k].wobble_angle as int, dt_ms as int)
                    &&& base[k].is_wobbling ==> self.nodes@[k].wobble_angle
                        == wobble_angle_spec(self.nodes@[k].wobble_time as int)
                },
                forall|k: int| i <= k < base.len() ==> #[trigger] self.nodes@[k] == base[k],
                self.pointer == old(self).pointer,
                self.layout == old(self).layout,
                self.dragging == old(self).dragging,
                self.selected == old(self).selected,
                self.chain == old(self).chain,
                self.chain_dirty == old(self).chain_dirty,
                self.sample_rate == old(self).sample_rate,
                self.buffer == old(self).buffer,
            decreases base.len() - i,
        {
            let el: &mut Node = node_at_mut(&mut self.nodes, i);
            physics_step(el, dt_ms);
            i = i + 1;
        }
        // the grid assembler runs every tick over every node not being
        // dragged: each takes the nearest slot still free in this pass
        proof {
            assert(targets_of(self.nodes@) =~= Self::drag_targets_spec(*old(self)));
        }
        let skip: Option<usize> = if self.dragging {
            self.selected
        } else {
            None
        };
        proof {
            assert(skip_of(skip) == Self::drag_skip_spec(*old(self)));
        }
        assign_targets(&mut self.nodes, &self.layout, skip);
        // the first idle tick after a release rebuilds the chain from the
        // fresh slot occupancy and opens a new activation cycle
        if !self.dragging {
            if self.chain_dirty {
                let ch: Vec<usize> = derive_chain(&self.nodes, &self.layout);
                proof {
                    let cslots = self.layout.chain@;
                    assert forall|a: int, b: int| 0 <= a < b < cslots.len()
                        implies #[trigger] cslots[a] != #[trigger] cslots[b] by {
                        assert(cslots[a].x < cslots[b].x);
                    }
                    lemma_chain_ordered(targets_of(self.nodes@), cslots,
                        cslots.len() as int);
                    lemma_chain_length(targets_of(self.nodes@), cslots,
                        cslots.len() as int);
                    assert forall|k1: int, k2: int|
                        0 <= k1 < k2 < chain_ints(ch@).len()
                        implies #[trigger] chain_ints(ch@)[k1]
                            != #[trigger] chain_ints(ch@)[k2] by {
                        assert(chain_ints(ch@)[k1] == chain_rec(targets_of(self.nodes@),
                            cslots, cslots.len() as int)[k1]);
                    }
                }
                self.chain = ch;
                // the rebuild clears every activation marker, so the pass
                // below starts each member's tone anew, and at most once
                // until the next rebuild
                let ghost preclear: Seq<Node> = self.nodes@;
                let mut m: usize = 0;
                while m < self.nodes.len()
                    invariant
                        m <= preclear.len(),
                        self.nodes@.len() == preclear.len(),
                        old(self).wf(),
                        forall|k: int| 0 <= k < preclear.len()
                            ==> node_wf(#[trigger] preclear[k], self.sample_rate),
                        forall|k: int| 0 <= k < m ==> #[trigger] self.nodes@[k]
                            == (Node { triggered: false, ..preclear[k] }),
                        forall|k: int| m <= k < preclear.len()
                            ==> #[trigger] self.nodes@[k] == preclear[k],
                        self.pointer == old(self).pointer,
                        self.layout == old(self).layout,
                        self.dragging == old(self).dragging,
                        self.selected == old(self).selected,
                        self.chain_dirty == old(self).chain_dirty,
                        self.sample_rate == old(self).sample_rate,
                        self.buffer == old(self).buffer,
                        self.chain == ch,
                        sr_ok(self.sample_rate),
                    decreases preclear.len() - m,
                {
                    let el: &mut Node = node_at_mut(&mut self.nodes, m);
                    clear_marker(el);
                    m = m + 1;
                }
                proof {
                    assert(targets_of(self.nodes@) =~= targets_of(preclear));
                }
                self.chain_dirty = false;
            }
            // activation: start the tone of each chain member whose marker
            // is not yet set, and mark it
            let ghost preact: Seq<Node> = self.nodes@;
            let ghost prechain: Vec<usize> = self.chain;
            let mut a: usize = 0;
            while a < self.nodes.len()
                invariant
                    a <= preact.len(),
                    self.nodes@.len() == preact.len(),
                    old(self).wf(),
                    forall|k: int| 0 <= k < preact.len()
                        ==> node_wf(#[trigger] preact[k], self.sample_rate),
                    forall|k: int| 0 <= k < a ==> #[trigger] self.nodes@[k]
                        == activate_spec(preact[k],
                            chain_ints(self.chain@).contains(k)),
                    forall|k: int| a <= k < preact.len()
                        ==> #[trigger] self.nodes@[k] == preact[k],
                    self.pointer == old(self).pointer,
                    self.layout == old(self).layout,
                    self.dragging == old(self).dragging,
                    self.selected == old(self).selected,
                    !self.chain_dirty,
                    self.sample_rate == old(self).sample_rate,
                    self.buffer == old(self).buffer,
                    self.chain == prechain,
                    sr_ok(self.sample_rate),
                decreases preact.len() - a,
            {
                let inc: bool = chain_holds(&self.chain, a);
                let el: &mut Node = node_at_mut(&mut self.nodes, a);
                activate_node(el, inc);
                a = a + 1;
            }
            proof {
                assert(targets_of(self.nodes@) =~= targets_of(preact));
            }
        }
        // the tempo clock paces every sequencer standing in the chain
        proof {
            assert forall|k: int| 0 <= k < self.nodes@.len()
                implies node_wf(#[trigger] self.nodes@[k], self.sample_rate) by {}
        }
        let ghost preclock: World = *self;
        let mut c: usize = 0;
        while c < self.nodes.len()
            invariant
                c <= preclock.nodes@.len(),
                self.nodes@.len() == preclock.nodes@.len(),
                now_ms <= NOW_MAX,
                forall|k: int| 0 <= k < preclock.nodes@.len()
                    ==> node_wf(#[trigger] preclock.nodes@[k], self.sample_rate),
                forall|k: int| 0 <= k < c ==> #[trigger] self.nodes@[k]
                    == node_clock_spec(preclock.nodes@[k], now_ms,
                        chain_ints(self.chain@).contains(k)),
                forall|k: int| c <= k < preclock.nodes@.len()
                    ==> #[trigger] self.nodes@[k] == preclock.nodes@[k],
                self.pointer == preclock.pointer,
                self.layout == preclock.layout,
                self.dragging == preclock.dragging,
                self.selected == preclock.selected,
                self.chain == preclock.chain,
                self.chain_dirty == preclock.chain_dirty,
                self.sample_rate == preclock.sample_rate,
                self.buffer == preclock.buffer,
            decreases preclock.nodes@.len() - c,
        {
            let inc: bool = chain_holds(&self.chain, c);
            let el: &mut Node = node_at_mut(&mut self.nodes, c);
            node_clock_tick(el, now_ms, inc);
            c = c + 1;
        }
        proof {
            assert(targets_of(self.nodes@) =~= targets_of(preclock.nodes@));
        }
    }
}


impl World {
    /// Renders `len` samples of the chain and hands them to the sample
    /// buffer, provided they fit; a block that would not fit is not
    /// rendered at all, so no audio is silently dropped.  Sample `t` of
    /// the appended block is exactly the chain's output `t` samples on.
    pub fn produce_block(&mut self, len: usize) -> (ok: bool)
        requires
            old(self).wf(),
        ensures
            final(self).wf(),
            final(self).layout == old(self).layout,
            final(self).sample_rate == old(self).sample_rate,
            final(self).dragging == old(self).dragging,
            final(self).selected == old(self).selected,
            final(self).pointer == old(self).pointer,
            final(self).chain == old(self).chain,
            final(self).chain_dirty == old(self).chain_dirty,
            ok == (old(self).buffer.contents().len() + len <= old(self).buffer.cap_spec()),
            !ok ==> *final(self) == *old(self),
            ok ==> {
                &&& final(self).nodes@ == nodes_after_spec(old(self).nodes@,
                    chain_ints(old(self).chain@), old(self).sample_rate as int, len as nat)
                &&& final(self).buffer.contents().len()
                    == old(self).buffer.contents().len() + len
                &&& (forall|t: int| 0 <= t < old(self).buffer.contents().len()
                    ==> #[trigger] final(self).buffer.contents()[t]
                        == old(self).buffer.contents()[t])
                &&& (forall|t: int| 0 <= t < len
                    ==> #[trigger] final(self).buffer.contents()[
                        old(self).buffer.contents().len() + t]
                        == sample_at_spec(old(self).nodes@, chain_ints(old(self).chain@),
                            old(self).sample_rate as int, t as nat))
            },
    {
        let cap: usize = self.buffer.capacity();
        let cur: usize = self.buffer.len();
        if len > cap - cur {
            return false;
        }
        proof {
            assert(nodes_ready(self.nodes@, self.sample_rate));
        }
        let block: Vec<i64> = render_block(&mut self.nodes, &self.chain, self.sample_rate,
            len);
        let pushed: bool = self.buffer.push_block(&block);
        proof {
            assert(pushed);
            lemma_nodes_after_fields(old(self).nodes@, chain_ints(self.chain@),
                self.sample_rate as int, len as nat);
        }
        true
    }

    /// Hands the device callback a block of `n` samples: whatever the
    /// buffer holds, oldest first, and silence for the rest.  The
    /// callback side never waits.
    pub fn consume_block(&mut self, n: usize) -> (out: Vec<i64>)
        requires
            old(self).wf(),
        ensures
            final(self).wf(),
            final(self).nodes == old(self).nodes,
            final(self).layout == old(self).layout,
            final(self).sample_rate == old(self).sample_rate,
            final(self).dragging == old(self).dragging,
            final(self).selected == old(self).selected,
            final(self).pointer == old(self).pointer,
            final(self).chain == old(self).chain,
            final(self).chain_dirty == old(self).chain_dirty,
            out@.len() == n,
            forall|i: int| 0 <= i < n ==> #[trigger] out@[i]
                == if i < old(self).buffer.contents().len() {
                    old(self).buffer.contents()[i]
                } else {
                    0
                },
            final(self).buffer.contents() =~= old(self).buffer.contents().skip(
                if n <= old(self).buffer.contents().len() {
                    n as int
                } else {
                    old(self).buffer.contents().len() as int
                }),
    {
        self.buffer.pop_block(n)
    }

    /// What the render sink consumes this tick: one entry per node, with
    /// the dragged node raised above the rest.
    pub fn render_states(&self) -> (out: Vec<RenderState>)
        requires
            self.wf(),
        ensures
            out@.len() == self.nodes@.len(),
            forall|i: int| 0 <= i < self.nodes@.len() ==> {
                &&& (#[trigger] out@[i]).x == self.nodes@[i].current.x
                &&& out@[i].y == self.nodes@[i].current.y
                &&& out@[i].rotation == self.nodes@[i].interp_angle
                    + self.nodes@[i].wobble_angle
                &&& out@[i].scale == self.nodes@[i].scale
                &&& out@[i].raised == (self.selected == Some(i as usize))
            },
    {
        let mut out: Vec<RenderState> = Vec::new();
        let mut i: usize = 0;
        while i < self.nodes.len()
            invariant
                i <= self.nodes@.len(),
                self.wf(),
                out@.len() == i,
                forall|k: int| 0 <= k < i ==> {
                    &&& (#[trigger] out@[k]).x == self.nodes@[k].current.x
                    &&& out@[k].y == self.nodes@[k].current.y
                    &&& out@[k].rotation == self.nodes@[k].interp_angle
                        + self.nodes@[k].wobble_angle
                    &&& out@[k].scale == self.nodes@[k].scale
                    &&& out@[k].raised == (self.selected == Some(k as usize))
                },
            decreases self.nodes@.len() - i,
        {
            let raised: bool = match self.selected {
                Some(s) => s == i,
                None => false,
            };
            let r: RenderState = render_node(&self.nodes[i], raised);
            out.push(r);
            i = i + 1;
        }
        out
    }
}

} // verus!
