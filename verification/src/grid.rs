//! The grid and chain assembler: hand and chain slots, the greedy
//! nearest-free assignment of nodes to slots, and the derivation of the
//! ordered signal chain from slot occupancy.

use vstd::prelude::*;
use crate::geom::{Vec2I, pos_ok, dist_sq_spec, dist_sq};
use crate::node::{Node, same_but_target, set_node_target};

verus! {

/// Most slots a layout may carry, hand and chain rows together.
pub const SLOTS_MAX: usize = 64;

/// Most chain slots a layout may carry; bounds the chain length and with
/// it the loudness a signal can accumulate along the chain.
pub const CHAIN_SLOTS_MAX: usize = 32;

/// The fixed grid: staging ("hand") slots and active ("chain") slots.
pub struct GridLayout {
    /// Staging positions; nodes parked here make no sound.
    pub hand: Vec<Vec2I>,
    /// Active positions, left to right; their occupants form the chain.
    pub chain: Vec<Vec2I>,
}

/// The full slot pool in claim order: hand slots first, then chain slots.
pub open spec fn all_slots_spec(g: GridLayout) -> Seq<Vec2I> {
    g.hand@ + g.chain@
}

/// A well-formed layout: bounded, admissible, pairwise-distinct slots,
/// with the chain row ordered strictly left to right.
pub open spec fn layout_wf(g: GridLayout) -> bool {
    &&& g.hand@.len() + g.chain@.len() <= SLOTS_MAX
    &&& g.chain@.len() <= CHAIN_SLOTS_MAX
    &&& (forall|i: int| 0 <= i < all_slots_spec(g).len() ==> pos_ok(#[trigger] all_slots_spec(g)[i]))
    &&& (forall|i: int, j: int| 0 <= i < j < all_slots_spec(g).len()
        ==> all_slots_spec(g)[i] != all_slots_spec(g)[j])
    &&& (forall|i: int, j: int| 0 <= i < j < g.chain@.len()
        ==> #[trigger] g.chain@[i].x < #[trigger] g.chain@[j].x)
}

/// The slot pool as a vector, hand row then chain row.
pub fn all_slots(g: &GridLayout) -> (v: Vec<Vec2I>)
    ensures
        v@ == all_slots_spec(*g),
{
    let mut v: Vec<Vec2I> = Vec::new();
    let mut i: usize = 0;
    while i < g.hand.len()
        invariant
            i <= g.hand@.len(),
            v@ == g.hand@.take(i as int),
        decreases g.hand@.len() - i,
    {
        v.push(g.hand[i]);
        proof {
            assert(v@ =~= g.hand@.take(i + 1 as int));
        }
        i = i + 1;
    }
    proof {
        assert(g.hand@.take(i as int) =~= g.hand@);
    }
    let mut j: usize = 0;
    while j < g.chain.len()
        invariant
            j <= g.chain@.len(),
            v@ == g.hand@ + g.chain@.take(j as int),
        decreases g.chain@.len() - j,
    {
        v.push(g.chain[j]);
        proof {
            assert(v@ =~= g.hand@ + g.chain@.take(j + 1 as int));
        }
        j = j + 1;
    }
    proof {
        assert(g.hand@ + g.chain@.take(j as int) =~= all_slots_spec(*g));
    }
    v
}

/// The slot the greedy pass hands to a node whose target is `p`, among the
/// first `k` slots: the unclaimed slot of least squared distance, earliest
/// slot winning ties; `None` when the first `k` slots are all claimed.
pub open spec fn best_slot_spec(slots: Seq<Vec2I>, claimed: Seq<bool>, p: Vec2I, k: int)
    -> Option<int>
    decreases k,
{
    if k <= 0 {
        None
    } else {
        let prev = best_slot_spec(slots, claimed, p, k - 1);
        if claimed[k - 1] {
            prev
        } else {
            match prev {
                Option::None => Option::Some(k - 1),
                Option::Some(j) => if dist_sq_spec(p, slots[k - 1]) < dist_sq_spec(p, slots[j]) {
                    Option::Some(k - 1)
                } else {
                    Option::Some(j)
                },
            }
        }
    }
}

/// What the greedy choice guarantees: it returns `None` exactly when every
/// slot is claimed, and otherwise an unclaimed slot at least as near as
/// every other unclaimed slot.
pub proof fn lemma_best_slot_props(slots: Seq<Vec2I>, claimed: Seq<bool>, p: Vec2I, k: int)
    requires
        0 <= k <= slots.len(),
        claimed.len() == slots.len(),
    ensures
        best_slot_spec(slots, claimed, p, k) is None ==> (forall|i: int| 0 <= i < k
            ==> claimed[i]),
        best_slot_spec(slots, claimed, p, k) matches Option::Some(j) ==> {
            &&& 0 <= j < k
            &&& !claimed[j]
            &&& forall|i: int| 0 <= i < k && !claimed[i]
                ==> dist_sq_spec(p, slots[j]) <= dist_sq_spec(p, #[trigger] slots[i])
        },
    decreases k,
{
    if k > 0 {
        lemma_best_slot_props(slots, claimed, p, k - 1);
    }
}

/// Nearest unclaimed slot to `p`, or `None` when all slots are claimed.
pub fn pick_slot(slots: &Vec<Vec2I>, claimed: &Vec<bool>, p: Vec2I) -> (r: Option<usize>)
    requires
        slots@.len() == claimed@.len(),
        forall|i: int| 0 <= i < slots@.len() ==> pos_ok(#[trigger] slots@[i]),
        pos_ok(p),
    ensures
        r is None ==> best_slot_spec(slots@, claimed@, p, slots@.len() as int) is None,
        r matches Some(j) ==> best_slot_spec(slots@, claimed@, p, slots@.len() as int)
            == Option::Some(j as int),
{
    let mut best: Option<usize> = None;
    let mut best_d: i64 = 0;
    let mut i: usize = 0;
    while i < slots.len()
        invariant
            i <= slots@.len(),
            slots@.len() == claimed@.len(),
            forall|t: int| 0 <= t < slots@.len() ==> pos_ok(#[trigger] slots@[t]),
            pos_ok(p),
            best is None ==> best_slot_spec(slots@, claimed@, p, i as int) is None,
            best matches Some(j) ==> {
                &&& best_slot_spec(slots@, claimed@, p, i as int) == Option::Some(j as int)
                &&& j < i
                &&& best_d == dist_sq_spec(p, slots@[j as int])
            },
        decreases slots@.len() - i,
    {
        if !claimed[i] {
            let d: i64 = dist_sq(p, slots[i]);
            match best {
                None => {
                    best = Some(i);
                    best_d = d;
                },
                Some(_) => {
                    if d < best_d {
                        best = Some(i);
                        best_d = d;
                    }
                },
            }
        }
        i = i + 1;
    }
    best
}

/// The targets of a node list, in node order.
pub open spec fn targets_of(nodes: Seq<Node>) -> Seq<Vec2I> {
    nodes.map_values(|n: Node| n.target)
}

/// The index a dragged node holds, as the assembler's skip mark.
pub open spec fn skip_of(skip: Option<usize>) -> Option<int> {
    match skip {
        Option::Some(x) => Option::Some(x as int),
        Option::None => Option::None,
    }
}

/// The greedy assignment, stated as a recursion over the nodes from index
/// `i` on: each node in turn — the dragged node excepted — takes the
/// nearest slot not yet claimed (or keeps its target when every slot is
/// claimed), and claims it.
pub open spec fn greedy_rec(targets: Seq<Vec2I>, slots: Seq<Vec2I>, claimed: Seq<bool>,
    skip: Option<int>, i: int) -> Seq<Vec2I>
    decreases targets.len() - i,
{
    if i < 0 || i >= targets.len() {
        targets
    } else if skip == Option::Some(i) {
        greedy_rec(targets, slots, claimed, skip, i + 1)
    } else {
        match best_slot_spec(slots, claimed, targets[i], slots.len() as int) {
            Option::None => greedy_rec(targets, slots, claimed, skip, i + 1),
            Option::Some(j) => greedy_rec(targets.update(i, slots[j]), slots,
                claimed.update(j, true), skip, i + 1),
        }
    }
}

/// How many slots are claimed.
pub open spec fn count_claimed(claimed: Seq<bool>) -> int
    decreases claimed.len(),
{
    if claimed.len() == 0 {
        0
    } else {
        count_claimed(claimed.drop_last()) + if claimed.last() {
            1int
        } else {
            0int
        }
    }
}

/// Claiming one unclaimed slot raises the claim count by exactly one.
proof fn lemma_count_update(claimed: Seq<bool>, j: int)
    requires
        0 <= j < claimed.len(),
        !claimed[j],
    ensures
        count_claimed(claimed.update(j, true)) == count_claimed(claimed) + 1,
    decreases claimed.len(),
{
    if j == claimed.len() - 1 {
        assert(claimed.update(j, true).drop_last() =~= claimed.drop_last());
    } else {
        assert(claimed.update(j, true).drop_last() =~= claimed.drop_last().update(j, true));
        lemma_count_update(claimed.drop_last(), j);
    }
}

/// The claim count of an all-unclaimed pool is zero; a fully claimed pool
/// counts its length; the count never leaves those bounds.
proof fn lemma_count_bounds(claimed: Seq<bool>)
    ensures
        0 <= count_claimed(claimed) <= claimed.len(),
        (forall|i: int| 0 <= i < claimed.len() ==> !claimed[i]) ==> count_claimed(claimed) == 0,
        (forall|i: int| 0 <= i < claimed.len() ==> claimed[i])
            ==> count_claimed(claimed) == claimed.len(),
    decreases claimed.len(),
{
    if claimed.len() > 0 {
        lemma_count_bounds(claimed.drop_last());
    }
}

/// One run of the grid assembler: every node not being dragged, in index
/// order, takes the nearest slot not yet claimed in this pass and claims
/// it; a node that finds every slot claimed keeps its previous target,
/// and the dragged node (`skip`) is left alone entirely.  When there are
/// at least as many slots as nodes this assignment is injective: every
/// assigned node stands on a slot of its own.
pub fn assign_targets(nodes: &mut Vec<Node>, layout: &GridLayout, skip: Option<usize>)
    requires
        layout_wf(*layout),
        forall|k: int| 0 <= k < old(nodes)@.len() ==> pos_ok(#[trigger] old(nodes)@[k].target),
    ensures
        final(nodes)@.len() == old(nodes)@.len(),
        forall|k: int| 0 <= k < old(nodes)@.len()
            ==> same_but_target(#[trigger] final(nodes)@[k], old(nodes)@[k]),
        forall|k: int| 0 <= k < old(nodes)@.len() ==> pos_ok(#[trigger] final(nodes)@[k].target),
        targets_of(final(nodes)@) == greedy_rec(targets_of(old(nodes)@), all_slots_spec(*layout),
            Seq::new(all_slots_spec(*layout).len(), |s: int| false), skip_of(skip), 0),
        forall|k: int| 0 <= k < old(nodes)@.len() && skip_of(skip) == Option::Some(k)
            ==> (#[trigger] final(nodes)@[k]).target == old(nodes)@[k].target,
        old(nodes)@.len() <= all_slots_spec(*layout).len() ==> (forall|k: int|
            0 <= k < old(nodes)@.len() && skip_of(skip) != Option::Some(k)
                ==> exists|s: int| 0 <= s < all_slots_spec(*layout).len()
                    && #[trigger] final(nodes)@[k].target == all_slots_spec(*layout)[s]),
        old(nodes)@.len() <= all_slots_spec(*layout).len() ==> (forall|k1: int, k2: int|
            0 <= k1 < k2 < old(nodes)@.len() && skip_of(skip) != Option::Some(k1)
                && skip_of(skip) != Option::Some(k2)
                ==> #[trigger] final(nodes)@[k1].target != #[trigger] final(nodes)@[k2].target),
{
    let slots: Vec<Vec2I> = all_slots(layout);
    let ghost slots0: Seq<Vec2I> = slots@;
    let ghost orig: Seq<Node> = nodes@;
    let mut claimed: Vec<bool> = Vec::new();
    let mut c: usize = 0;
    while c < slots.len()
        invariant
            c <= slots0.len(),
            slots@ == slots0,
            claimed@.len() == c,
            forall|s: int| 0 <= s < c ==> !(#[trigger] claimed@[s]),
        decreases slots0.len() - c,
    {
        claimed.push(false);
        c = c + 1;
    }
    proof {
        assert(claimed@ =~= Seq::new(slots0.len(), |s: int| false));
        lemma_count_bounds(claimed@);
    }
    let ghost claimed0: Seq<bool> = claimed@;
    let ghost gskip: Option<int> = skip_of(skip);
    let mut i: usize = 0;
    while i < nodes.len()
        invariant
            i <= orig.len(),
            nodes@.len() == orig.len(),
            slots@ == slots0,
            claimed@.len() == slots0.len(),
            layout_wf(*layout),
            slots0 == all_slots_spec(*layout),
            claimed0 == Seq::new(slots0.len(), |s: int| false),
            gskip == skip_of(skip),
            greedy_rec(targets_of(nodes@), slots0, claimed@, gskip, i as int)
                == greedy_rec(targets_of(orig), slots0, claimed0, gskip, 0),
            forall|k: int| i <= k < orig.len() ==> #[trigger] nodes@[k] == orig[k],
            forall|k: int| 0 <= k < i ==> same_but_target(#[trigger] nodes@[k], orig[k]),
            forall|k: int| 0 <= k < i && gskip == Option::Some(k)
                ==> (#[trigger] nodes@[k]).target == orig[k].target,
            forall|k: int| 0 <= k < orig.len() ==> pos_ok(#[trigger] nodes@[k].target),
            count_claimed(claimed@) <= i,
            orig.len() <= slots0.len() ==> (forall|k: int| 0 <= k < i
                && gskip != Option::Some(k)
                ==> exists|s: int| 0 <= s < slots0.len() && #[trigger] claimed@[s]
                    && #[trigger] nodes@[k].target == slots0[s]),
            orig.len() <= slots0.len() ==> (forall|k1: int, k2: int| 0 <= k1 < k2 < i
                && gskip != Option::Some(k1) && gskip != Option::Some(k2)
                ==> #[trigger] nodes@[k1].target != #[trigger] nodes@[k2].target),
        decreases orig.len() - i,
    {
        let is_skip: bool = match skip {
            Some(x) => x == i,
            None => false,
        };
        if !is_skip {
            let ghost nodes_pre: Seq<Node> = nodes@;
            let ghost claimed_pre: Seq<bool> = claimed@;
            let p: Vec2I = nodes[i].target;
            let r: Option<usize> = pick_slot(&slots, &claimed, p);
            proof {
                lemma_best_slot_props(slots0, claimed_pre, p, slots0.len() as int);
            }
            match r {
                Some(j) => {
                    let sp: Vec2I = slots[j];
                    set_node_target(nodes, i, sp);
                    claimed.set(j, true);
                    proof {
                        lemma_count_update(claimed_pre, j as int);
                        assert(targets_of(nodes@) =~= targets_of(nodes_pre).update(i as int,
                            sp));
                        assert(claimed@ =~= claimed_pre.update(j as int, true));
                        if orig.len() <= slots0.len() {
                            assert forall|k: int| 0 <= k < i && gskip != Option::Some(k)
                                implies #[trigger] nodes@[k].target != sp by {
                                let s = choose|s: int| 0 <= s < slots0.len()
                                    && #[trigger] claimed_pre[s]
                                    && nodes_pre[k].target == slots0[s];
                                assert(s != j);
                            }
                            assert forall|k: int| 0 <= k < i + 1 && gskip != Option::Some(k)
                                implies exists|s: int| 0 <= s < slots0.len()
                                    && #[trigger] claimed@[s]
                                    && #[trigger] nodes@[k].target == slots0[s] by {
                                if k < i {
                                    let s = choose|s: int| 0 <= s < slots0.len()
                                        && #[trigger] claimed_pre[s]
                                        && nodes_pre[k].target == slots0[s];
                                    assert(claimed@[s] && nodes@[k].target == slots0[s]);
                                } else {
                                    assert(claimed@[j as int]
                                        && nodes@[k].target == slots0[j as int]);
                                }
                            }
                        }
                    }
                },
                None => {
                    proof {
                        if orig.len() <= slots0.len() {
                            lemma_count_bounds(claimed_pre);
                            assert(count_claimed(claimed_pre) == claimed_pre.len());
                            assert(false);
                        }
                    }
                },
            }
        } else {
            proof {
                assert(gskip == Option::Some(i as int));
            }
        }
        proof {
            if orig.len() <= slots0.len() {
                assert forall|k: int| 0 <= k < i + 1 && gskip != Option::Some(k)
                    implies exists|s: int| 0 <= s < slots0.len()
                        && #[trigger] claimed@[s]
                        && #[trigger] nodes@[k].target == slots0[s] by {
                    let s = choose|s: int| 0 <= s < slots0.len()
                        && #[trigger] claimed@[s] && nodes@[k].target == slots0[s];
                    assert(claimed@[s] && nodes@[k].target == slots0[s]);
                }
            }
        }
        i = i + 1;
    }
}


/// Indices of the nodes standing exactly on `p`, among the first `j`
/// nodes, in node order.
pub open spec fn occupants_rec(targets: Seq<Vec2I>, p: Vec2I, j: int) -> Seq<int>
    decreases j,
{
    if j <= 0 {
        Seq::empty()
    } else if targets[j - 1] == p {
        occupants_rec(targets, p, j - 1) + seq![j - 1]
    } else {
        occupants_rec(targets, p, j - 1)
    }
}

/// What the occupant scan guarantees: exactly the indices standing on
/// `p`, each once, in ascending node order; every node standing on `p`
/// appears.
pub proof fn lemma_occupants_props(targets: Seq<Vec2I>, p: Vec2I, j: int)
    requires
        0 <= j <= targets.len(),
    ensures
        forall|k: int| 0 <= k < occupants_rec(targets, p, j).len() ==> {
            let i = #[trigger] occupants_rec(targets, p, j)[k];
            0 <= i < j && targets[i] == p
        },
        forall|k1: int, k2: int| 0 <= k1 < k2 < occupants_rec(targets, p, j).len()
            ==> #[trigger] occupants_rec(targets, p, j)[k1]
                < #[trigger] occupants_rec(targets, p, j)[k2],
        forall|i: int| 0 <= i < j && #[trigger] targets[i] == p
            ==> occupants_rec(targets, p, j).contains(i),
    decreases j,
{
    if j > 0 {
        lemma_occupants_props(targets, p, j - 1);
        let prev = occupants_rec(targets, p, j - 1);
        let cur = occupants_rec(targets, p, j);
        if targets[j - 1] == p {
            assert(cur[prev.len() as int] == j - 1);
        }
        assert forall|i: int| 0 <= i < j && #[trigger] targets[i] == p
            implies cur.contains(i) by {
            if i < j - 1 {
                let w = choose|w: int| 0 <= w < prev.len() && prev[w] == i;
                assert(cur[w] == i);
            } else {
                assert(cur[prev.len() as int] == i);
            }
        }
    }
}

/// The signal chain: for each chain slot, left to right, every node
/// standing exactly on it, in node order within one slot.  This ordering
/// is the audio topology: adjacent entries form a producer-to-consumer
/// edge ending at the implicit output.
pub open spec fn chain_rec(targets: Seq<Vec2I>, cslots: Seq<Vec2I>, s: int) -> Seq<int>
    decreases s,
{
    if s <= 0 {
        Seq::empty()
    } else {
        chain_rec(targets, cslots, s - 1)
            + occupants_rec(targets, cslots[s - 1], targets.len() as int)
    }
}

/// The chain slot a node's target stands on: the first chain slot equal
/// to `p` among the first `k`, or minus one when `p` is off the chain row.
pub open spec fn slot_index_of(cslots: Seq<Vec2I>, p: Vec2I, k: int) -> int
    decreases k,
{
    if k <= 0 {
        -1
    } else if slot_index_of(cslots, p, k - 1) >= 0 {
        slot_index_of(cslots, p, k - 1)
    } else if cslots[k - 1] == p {
        k - 1
    } else {
        -1
    }
}

/// On a row of pairwise-distinct slots, standing on slot `t` means the
/// slot index is exactly `t`; off the row it is minus one.
pub proof fn lemma_slot_index_of(cslots: Seq<Vec2I>, p: Vec2I, k: int)
    requires
        0 <= k <= cslots.len(),
        forall|i: int, j: int| 0 <= i < j < cslots.len()
            ==> #[trigger] cslots[i] != #[trigger] cslots[j],
    ensures
        slot_index_of(cslots, p, k) >= 0 ==> 0 <= slot_index_of(cslots, p, k) < k
            && cslots[slot_index_of(cslots, p, k)] == p,
        forall|t: int| 0 <= t < k && #[trigger] cslots[t] == p ==> slot_index_of(cslots, p, k) == t,
        slot_index_of(cslots, p, k) == -1 ==> (forall|t: int| 0 <= t < k
            ==> #[trigger] cslots[t] != p),
    decreases k,
{
    if k > 0 {
        lemma_slot_index_of(cslots, p, k - 1);
    }
}

/// The chain lists exactly the occupants of the chain slots: grouped by
/// slot from left to right, in node order within one slot, each node at
/// most once, and every occupant present.
pub proof fn lemma_chain_ordered(targets: Seq<Vec2I>, cslots: Seq<Vec2I>, s: int)
    requires
        0 <= s <= cslots.len(),
        forall|i: int, j: int| 0 <= i < j < cslots.len()
            ==> #[trigger] cslots[i] != #[trigger] cslots[j],
    ensures
        forall|k: int| 0 <= k < chain_rec(targets, cslots, s).len() ==> {
            let i = #[trigger] chain_rec(targets, cslots, s)[k];
            &&& 0 <= i < targets.len()
            &&& 0 <= slot_index_of(cslots, targets[i], cslots.len() as int) < s
        },
        forall|k1: int, k2: int| 0 <= k1 < k2 < chain_rec(targets, cslots, s).len() ==> {
            let i1 = #[trigger] chain_rec(targets, cslots, s)[k1];
            let i2 = #[trigger] chain_rec(targets, cslots, s)[k2];
            ||| slot_index_of(cslots, targets[i1], cslots.len() as int)
                < slot_index_of(cslots, targets[i2], cslots.len() as int)
            ||| (slot_index_of(cslots, targets[i1], cslots.len() as int)
                == slot_index_of(cslots, targets[i2], cslots.len() as int) && i1 < i2)
        },
        forall|k1: int, k2: int| 0 <= k1 < k2 < chain_rec(targets, cslots, s).len()
            ==> #[trigger] chain_rec(targets, cslots, s)[k1]
                != #[trigger] chain_rec(targets, cslots, s)[k2],
        forall|i: int, t: int| 0 <= i < targets.len() && 0 <= t < s
            && (#[trigger] targets[i]) == (#[trigger] cslots[t])
            ==> chain_rec(targets, cslots, s).contains(i),
    decreases s,
{
    if s > 0 {
        lemma_chain_ordered(targets, cslots, s - 1);
        lemma_occupants_props(targets, cslots[s - 1], targets.len() as int);
        lemma_slot_index_of(cslots, cslots[s - 1], cslots.len() as int);
        let prev = chain_rec(targets, cslots, s - 1);
        let occ = occupants_rec(targets, cslots[s - 1], targets.len() as int);
        let cur = chain_rec(targets, cslots, s);
        assert forall|k: int| 0 <= k < occ.len()
            implies slot_index_of(cslots, targets[#[trigger] occ[k]], cslots.len() as int)
                == s - 1 by {
            assert(targets[occ[k]] == cslots[s - 1]);
        }
        assert forall|k: int| 0 <= k < cur.len() implies #[trigger] cur[k] == if k < prev.len() {
            prev[k]
        } else {
            occ[k - prev.len()]
        } by {}
        assert forall|i: int, t: int| 0 <= i < targets.len() && 0 <= t < s
            && (#[trigger] targets[i]) == (#[trigger] cslots[t])
            implies cur.contains(i) by {
            if t < s - 1 {
                assert(prev.contains(i));
                let w = choose|w: int| 0 <= w < prev.len() && prev[w] == i;
                assert(cur[w] == i);
            } else {
                assert(occ.contains(i));
                let w = choose|w: int| 0 <= w < occ.len() && occ[w] == i;
                assert(cur[prev.len() + w] == i);
            }
        }
    }
}

/// A run of pairwise-distinct indices drawn from `0 .. n` is no longer
/// than `n`.
pub proof fn lemma_distinct_bounded_len(s: Seq<int>, n: int)
    requires
        n >= 0,
        forall|k: int| 0 <= k < s.len() ==> 0 <= #[trigger] s[k] < n,
        forall|k1: int, k2: int| 0 <= k1 < k2 < s.len()
            ==> #[trigger] s[k1] != #[trigger] s[k2],
    ensures
        s.len() <= n,
{
    assert forall|i: int, j: int| 0 <= i < s.len() && 0 <= j < s.len() && i != j
        implies s[i] != s[j] by {
        if i < j {
            assert(s[i] != s[j]);
        } else {
            assert(s[j] != s[i]);
        }
    }
    assert(s.no_duplicates());
    s.unique_seq_to_set();
    let rng = vstd::set_lib::set_int_range(0, n);
    vstd::set_lib::lemma_int_range(0, n);
    assert forall|x: int| s.to_set().contains(x) implies rng.contains(x) by {
        let w = choose|w: int| 0 <= w < s.len() && s[w] == x;
        assert(0 <= s[w] < n);
    }
    assert(s.to_set().subset_of(rng));
    vstd::set_lib::lemma_len_subset(s.to_set(), rng);
}

/// A chain drawn from `n` nodes holds each node at most once, so it is
/// no longer than the node list.
pub proof fn lemma_chain_length(targets: Seq<Vec2I>, cslots: Seq<Vec2I>, s: int)
    requires
        0 <= s <= cslots.len(),
        forall|i: int, j: int| 0 <= i < j < cslots.len()
            ==> #[trigger] cslots[i] != #[trigger] cslots[j],
    ensures
        chain_rec(targets, cslots, s).len() <= targets.len(),
{
    lemma_chain_ordered(targets, cslots, s);
    lemma_distinct_bounded_len(chain_rec(targets, cslots, s), targets.len() as int);
}

/// Chain indices as mathematical integers.
pub open spec fn chain_ints(c: Seq<usize>) -> Seq<int> {
    c.map_values(|u: usize| u as int)
}

/// A chain that may drive the graph: distinct node indices, all in
/// bounds, no longer than the chain row.
pub open spec fn chain_ok(chain: Seq<int>, n_nodes: int) -> bool {
    &&& chain.len() <= 32
    &&& (forall|k: int| 0 <= k < chain.len() ==> 0 <= #[trigger] chain[k] < n_nodes)
    &&& (forall|k1: int, k2: int| 0 <= k1 < k2 < chain.len()
        ==> #[trigger] chain[k1] != #[trigger] chain[k2])
}

/// Builds the signal chain from slot occupancy: for each chain slot, left
/// to right, every node whose target is exactly that slot's position, in
/// node order.
pub fn derive_chain(nodes: &Vec<Node>, layout: &GridLayout) -> (r: Vec<usize>)
    ensures
        chain_ints(r@) == chain_rec(targets_of(nodes@), layout.chain@,
            layout.chain@.len() as int),
        forall|k: int| 0 <= k < r@.len() ==> (#[trigger] r@[k]) < nodes@.len(),
{
    let ghost targets: Seq<Vec2I> = targets_of(nodes@);
    let mut r: Vec<usize> = Vec::new();
    let mut s: usize = 0;
    while s < layout.chain.len()
        invariant
            s <= layout.chain@.len(),
            chain_ints(r@) == chain_rec(targets, layout.chain@, s as int),
            targets == targets_of(nodes@),
            forall|k: int| 0 <= k < r@.len() ==> (#[trigger] r@[k]) < nodes@.len(),
        decreases layout.chain@.len() - s,
    {
        let slot: Vec2I = layout.chain[s];
        proof {
            assert(chain_ints(r@) =~= chain_rec(targets, layout.chain@, s as int)
                + occupants_rec(targets, slot, 0));
        }
        let mut j: usize = 0;
        while j < nodes.len()
            invariant
                j <= nodes@.len(),
                targets == targets_of(nodes@),
                s < layout.chain@.len(),
                slot == layout.chain@[s as int],
                chain_ints(r@) == chain_rec(targets, layout.chain@, s as int)
                    + occupants_rec(targets, slot, j as int),
                forall|k: int| 0 <= k < r@.len() ==> (#[trigger] r@[k]) < nodes@.len(),
            decreases nodes@.len() - j,
        {
            if nodes[j].target == slot {
                r.push(j);
                proof {
                    assert(chain_ints(r@) =~= chain_rec(targets, layout.chain@, s as int)
                        + occupants_rec(targets, slot, j as int) + seq![j as int]);
                    assert(chain_rec(targets, layout.chain@, s as int)
                        + occupants_rec(targets, slot, j + 1 as int)
                        =~= chain_rec(targets, layout.chain@, s as int)
                            + occupants_rec(targets, slot, j as int) + seq![j as int]);
                }
            }
            j = j + 1;
        }
        proof {
            assert(chain_rec(targets, layout.chain@, s + 1 as int)
                =~= chain_rec(targets, layout.chain@, s as int)
                    + occupants_rec(targets, slot, targets.len() as int));
        }
        s = s + 1;
    }
    r
}

} // verus!
