//! Greedy descent: scan all pairs of positions, exchange the first pair found
//! whose exchange lowers the cost, go on from the next pair, and scan again
//! until a whole scan finds nothing to exchange.

use crate::cost::{cost_function, full_cost, lemma_full_cost_bound};
use crate::delta::{cost_difference_for_swap, swap_delta};
use crate::model::CostModel;
use crate::moves::undo_swap;
use crate::order::{
    is_permutation, lemma_permutation_bound, lemma_swap_symmetric, lemma_swapped_is_permutation,
    swapped,
};
use vstd::prelude::*;

verus! {

/// The order at the end of a scan that stands at the pair `(i, j)`: the pairs
/// are taken by rising `i`, then rising `j`, and a pair whose exchange lowers
/// the cost is exchanged before the next pair is looked at.
pub open spec fn scan_from(
    order: Seq<u16>,
    costs: Seq<Seq<u32>>,
    block: nat,
    i: int,
    j: int,
) -> Seq<u16>
    decreases order.len() - i, order.len() - j,
{
    if !(0 <= i < j) || i + 1 >= order.len() {
        order
    } else if j >= order.len() {
        scan_from(order, costs, block, i + 1, i + 2)
    } else if swap_delta(order, costs, block, i, j) < 0 {
        scan_from(swapped(order, i, j), costs, block, i, j + 1)
    } else {
        scan_from(order, costs, block, i, j + 1)
    }
}

/// How many exchanges a scan that stands at the pair `(i, j)` still makes.
pub open spec fn scan_gains(
    order: Seq<u16>,
    costs: Seq<Seq<u32>>,
    block: nat,
    i: int,
    j: int,
) -> nat
    decreases order.len() - i, order.len() - j,
{
    if !(0 <= i < j) || i + 1 >= order.len() {
        0
    } else if j >= order.len() {
        scan_gains(order, costs, block, i + 1, i + 2)
    } else if swap_delta(order, costs, block, i, j) < 0 {
        1 + scan_gains(swapped(order, i, j), costs, block, i, j + 1)
    } else {
        scan_gains(order, costs, block, i, j + 1)
    }
}

/// No exchange of two positions lowers the cost.
pub open spec fn is_local_minimum(order: Seq<u16>, costs: Seq<Seq<u32>>, block: nat) -> bool {
    forall|a: int, b: int|
        0 <= a < order.len() && 0 <= b < order.len() ==> swap_delta(order, costs, block, a, b)
            >= 0
}

/// The order that greedy descent ends with: scans are made from the first pair
/// until one makes no exchange.
pub open spec fn descend(order: Seq<u16>, costs: Seq<Seq<u32>>, block: nat) -> Seq<u16>
    decreases full_cost(order, costs, block),
{
    if scan_gains(order, costs, block, 0, 1) == 0 {
        order
    } else {
        proof {
            lemma_scan(order, costs, block, 0, 1);
        }
        descend(scan_from(order, costs, block, 0, 1), costs, block)
    }
}

/// How many exchanges greedy descent makes in all.
pub open spec fn descend_gains(order: Seq<u16>, costs: Seq<Seq<u32>>, block: nat) -> nat
    decreases full_cost(order, costs, block),
{
    if scan_gains(order, costs, block, 0, 1) == 0 {
        0
    } else {
        proof {
            lemma_scan(order, costs, block, 0, 1);
        }
        scan_gains(order, costs, block, 0, 1) + descend_gains(
            scan_from(order, costs, block, 0, 1),
            costs,
            block,
        )
    }
}

/// How many scans greedy descent makes, the last one, which exchanges nothing,
/// included.
pub open spec fn descend_passes(order: Seq<u16>, costs: Seq<Seq<u32>>, block: nat) -> nat
    decreases full_cost(order, costs, block),
{
    if scan_gains(order, costs, block, 0, 1) == 0 {
        1
    } else {
        proof {
            lemma_scan(order, costs, block, 0, 1);
        }
        1 + descend_passes(scan_from(order, costs, block, 0, 1), costs, block)
    }
}

/// The number of pairs of positions that one scan looks at.
pub open spec fn pair_count(n: nat) -> nat {
    if n < 2 {
        0
    } else {
        (n * (n - 1) / 2) as nat
    }
}

/// Every exchange of a scan lowers the cost by at least one; a scan without
/// an exchange leaves the order as it is; a scan of a permutation ends with a
/// permutation.
pub proof fn lemma_scan(order: Seq<u16>, costs: Seq<Seq<u32>>, block: nat, i: int, j: int)
    ensures
        scan_from(order, costs, block, i, j).len() == order.len(),
        full_cost(scan_from(order, costs, block, i, j), costs, block) + scan_gains(
            order,
            costs,
            block,
            i,
            j,
        ) <= full_cost(order, costs, block),
        scan_gains(order, costs, block, i, j) == 0 ==> scan_from(order, costs, block, i, j)
            == order,
        0 <= i < j && is_permutation(order, costs.len()) ==> is_permutation(
            scan_from(order, costs, block, i, j),
            costs.len(),
        ),
    decreases order.len() - i, order.len() - j,
{
    if !(0 <= i < j) || i + 1 >= order.len() {
    } else if j >= order.len() {
        lemma_scan(order, costs, block, i + 1, i + 2);
    } else if swap_delta(order, costs, block, i, j) < 0 {
        lemma_scan(swapped(order, i, j), costs, block, i, j + 1);
        if is_permutation(order, costs.len()) {
            lemma_swapped_is_permutation(order, costs.len(), i, j);
        }
    } else {
        lemma_scan(order, costs, block, i, j + 1);
    }
}

/// A scan makes no exchange exactly when none of the pairs still before it
/// would lower the cost.
pub proof fn lemma_idle_scan(order: Seq<u16>, costs: Seq<Seq<u32>>, block: nat, i: int, j: int)
    requires
        0 <= i < j,
    ensures
        scan_gains(order, costs, block, i, j) == 0 <==> forall|a: int, b: int|
            ((a == i && j <= b) || i < a) && a < b < order.len() ==> swap_delta(
                order,
                costs,
                block,
                a,
                b,
            ) >= 0,
    decreases order.len() - i, order.len() - j,
{
    if i + 1 >= order.len() {
    } else if j >= order.len() {
        lemma_idle_scan(order, costs, block, i + 1, i + 2);
    } else if swap_delta(order, costs, block, i, j) < 0 {
    } else {
        lemma_idle_scan(order, costs, block, i, j + 1);
    }
}

/// A first scan makes no exchange exactly at a local minimum.
pub proof fn lemma_idle_first_scan(order: Seq<u16>, costs: Seq<Seq<u32>>, block: nat)
    ensures
        scan_gains(order, costs, block, 0, 1) == 0 <==> is_local_minimum(order, costs, block),
{
    lemma_idle_scan(order, costs, block, 0, 1);
    if scan_gains(order, costs, block, 0, 1) == 0 {
        assert forall|a: int, b: int| 0 <= a < order.len() && 0 <= b < order.len() implies swap_delta(
            order,
            costs,
            block,
            a,
            b,
        ) >= 0 by {
            if a < b {
            } else if a == b {
                assert(swapped(order, a, a) =~= order);
            } else {
                lemma_swap_symmetric(order, a, b);
                assert(swap_delta(order, costs, block, b, a) >= 0);
            }
        }
    }
}

/// Greedy descent never raises the cost: each of its exchanges lowers it by at
/// least one. It ends at a local minimum, makes at most one scan more than it
/// makes exchanges, and keeps a permutation a permutation.
pub proof fn lemma_descend(order: Seq<u16>, costs: Seq<Seq<u32>>, block: nat)
    ensures
        descend(order, costs, block).len() == order.len(),
        full_cost(descend(order, costs, block), costs, block) + descend_gains(order, costs, block)
            <= full_cost(order, costs, block),
        is_local_minimum(descend(order, costs, block), costs, block),
        1 <= descend_passes(order, costs, block) <= descend_gains(order, costs, block) + 1,
        descend_gains(order, costs, block) == 0 ==> descend(order, costs, block) == order,
        is_permutation(order, costs.len()) ==> is_permutation(
            descend(order, costs, block),
            costs.len(),
        ),
    decreases full_cost(order, costs, block),
{
    lemma_scan(order, costs, block, 0, 1);
    if scan_gains(order, costs, block, 0, 1) == 0 {
        lemma_idle_first_scan(order, costs, block);
    } else {
        lemma_descend(scan_from(order, costs, block, 0, 1), costs, block);
    }
}

/// At a local minimum greedy descent makes a single scan and changes nothing:
/// so, made again on what it ended with, it leaves the order as it is.
pub proof fn lemma_descend_fixed_point(order: Seq<u16>, costs: Seq<Seq<u32>>, block: nat)
    ensures
        is_local_minimum(order, costs, block) ==> descend(order, costs, block) == order
            && descend_gains(order, costs, block) == 0 && descend_passes(order, costs, block)
            == 1,
        descend(descend(order, costs, block), costs, block) == descend(order, costs, block),
{
    lemma_idle_first_scan(order, costs, block);
    lemma_descend(order, costs, block);
    lemma_idle_first_scan(descend(order, costs, block), costs, block);
}

/// What a run of greedy descent did.
#[derive(Debug, Clone, Copy, PartialEq, Eq)]
pub struct GreedyStats {
    /// The cost of the order that the run ended with.
    pub cost: u64,
    /// The number of exchanges made.
    pub improvements: u64,
    /// The number of scans made.
    pub passes: u64,
    /// The number of pairs looked at.
    pub iterations: u128,
}

/// The number of pairs of positions that one scan of `n` items looks at.
pub fn pairs_in_pass(n: usize) -> (pairs: u128)
    ensures
        pairs == pair_count(n as nat),
{
    if n < 2 {
        0
    } else {
        assert(n * (n - 1) <= u128::MAX) by (nonlinear_arith)
            requires
                2 <= n <= u64::MAX,
        ;
        (n as u128) * ((n - 1) as u128) / 2
    }
}

/// One scan over all pairs of positions `i < j`. `cost` is the cost of the
/// order as it comes in; the cost of the order as it goes out and the number
/// of exchanges made are handed back.
pub fn greedy_pass(order: &mut [u16], model: &CostModel, cost: u64) -> (outcome: (u64, u64))
    requires
        is_permutation(old(order)@, model.dim()),
        cost == full_cost(old(order)@, model.costs(), model.block()),
    ensures
        final(order)@ == scan_from(old(order)@, model.costs(), model.block(), 0, 1),
        outcome.0 == full_cost(final(order)@, model.costs(), model.block()),
        outcome.1 == scan_gains(old(order)@, model.costs(), model.block(), 0, 1),
        is_permutation(final(order)@, model.dim()),
{
    let n = order.len();
    let ghost start = order@;
    let ghost costs = model.costs();
    let ghost block = model.block();
    proof {
        lemma_permutation_bound(order@, model.dim());
    }
    let mut cost = cost;
    let mut gains: u64 = 0;
    let mut i: usize = 0;
    while i + 1 < n
        invariant
            n == order@.len(),
            n <= 65536,
            i <= n,
            costs == model.costs(),
            block == model.block(),
            is_permutation(order@, model.dim()),
            cost == full_cost(order@, costs, block),
            cost + gains <= full_cost(start, costs, block) <= u64::MAX,
            scan_from(order@, costs, block, i as int, i + 1) == scan_from(start, costs, block, 0, 1),
            gains + scan_gains(order@, costs, block, i as int, i + 1) == scan_gains(
                start,
                costs,
                block,
                0,
                1,
            ),
        decreases n - i,
    {
        let mut j: usize = i + 1;
        while j < n
            invariant
                n == order@.len(),
                n <= 65536,
                i + 1 < n,
                i < j <= n,
                costs == model.costs(),
                block == model.block(),
                is_permutation(order@, model.dim()),
                cost == full_cost(order@, costs, block),
                cost + gains <= full_cost(start, costs, block) <= u64::MAX,
                scan_from(order@, costs, block, i as int, j as int) == scan_from(
                    start,
                    costs,
                    block,
                    0,
                    1,
                ),
                gains + scan_gains(order@, costs, block, i as int, j as int) == scan_gains(
                    start,
                    costs,
                    block,
                    0,
                    1,
                ),
            decreases n - j,
        {
            let ghost before = order@;
            let delta = cost_difference_for_swap(order, model, i, j);
            if delta < 0 {
                proof {
                    lemma_swapped_is_permutation(before, model.dim(), i as int, j as int);
                }
                undo_swap(order, (i, j));
                cost = cost.wrapping_add_signed(delta);
                gains += 1;
            }
            assert(scan_from(order@, costs, block, i as int, j + 1) == scan_from(
                before,
                costs,
                block,
                i as int,
                j as int,
            ));
            j += 1;
        }
        assert(scan_from(order@, costs, block, i + 1, i + 2) == scan_from(
            order@,
            costs,
            block,
            i as int,
            n as int,
        ));
        i += 1;
    }
    (cost, gains)
}

/// Greedy descent on `order`: scans are made until one exchanges nothing.
pub fn greedy_sort(order: &mut [u16], model: &CostModel) -> (stats: GreedyStats)
    requires
        is_permutation(old(order)@, model.dim()),
    ensures
        final(order)@ == descend(old(order)@, model.costs(), model.block()),
        is_permutation(final(order)@, model.dim()),
        is_local_minimum(final(order)@, model.costs(), model.block()),
        is_local_minimum(old(order)@, model.costs(), model.block()) ==> final(order)@ == old(
            order,
        )@,
        stats.cost == full_cost(final(order)@, model.costs(), model.block()),
        stats.cost + stats.improvements <= full_cost(old(order)@, model.costs(), model.block()),
        stats.improvements == descend_gains(old(order)@, model.costs(), model.block()),
        stats.passes == descend_passes(old(order)@, model.costs(), model.block()),
        stats.iterations == stats.passes * pair_count(old(order)@.len()),
{
    let n = order.len();
    let ghost start = order@;
    let ghost costs = model.costs();
    let ghost block = model.block();
    proof {
        lemma_permutation_bound(order@, model.dim());
        lemma_full_cost_bound(order@, costs, block);
        lemma_descend(start, costs, block);
        lemma_descend_fixed_point(start, costs, block);
    }
    let mut cost = cost_function(order, model);
    let mut improvements: u64 = 0;
    let mut passes: u64 = 0;
    let mut changed = true;
    while changed
        invariant
            n == order@.len(),
            costs == model.costs(),
            block == model.block(),
            is_permutation(order@, model.dim()),
            cost == full_cost(order@, costs, block),
            cost + improvements <= full_cost(start, costs, block) <= 0xffff_ffff_0000_0000,
            passes <= improvements + 1,
            changed ==> passes <= improvements,
            changed ==> descend(order@, costs, block) == descend(start, costs, block),
            changed ==> improvements + descend_gains(order@, costs, block) == descend_gains(
                start,
                costs,
                block,
            ),
            changed ==> passes + descend_passes(order@, costs, block) == descend_passes(
                start,
                costs,
                block,
            ),
            !changed ==> order@ == descend(start, costs, block),
            !changed ==> improvements == descend_gains(start, costs, block),
            !changed ==> passes == descend_passes(start, costs, block),
        decreases
                cost + (if changed {
                    1int
                } else {
                    0int
                }),
    {
        let ghost before = order@;
        proof {
            lemma_scan(before, costs, block, 0, 1);
        }
        let outcome = greedy_pass(order, model, cost);
        cost = outcome.0;
        improvements += outcome.1;
        passes += 1;
        changed = outcome.1 > 0;
    }
    let pairs = pairs_in_pass(n);
    assert(pairs <= 0x1_0000_0000) by (nonlinear_arith)
        requires
            n <= 65536,
            pairs == pair_count(n as nat),
    ;
    assert(passes * pairs <= u128::MAX) by (nonlinear_arith)
        requires
            0 <= passes <= u64::MAX,
            0 <= pairs <= 0x1_0000_0000,
    ;
    GreedyStats { cost, improvements, passes, iterations: (passes as u128) * pairs }
}

} // verus!
