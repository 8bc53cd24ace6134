//! The change of cost under a swap of two positions, found in a single pass
//! over the order instead of by costing the swapped order anew.

use crate::cost::{
    full_cost, lemma_degenerate_cost, lemma_line_sum_bound, lemma_row_cost_bound, line_sum,
    position_cost, row_cost, rows_cost,
};
use crate::model::CostModel;
use crate::order::{is_permutation, lemma_permutation_bound, lemma_swapped_is_permutation, swapped};
use vstd::prelude::*;

verus! {

/// By how much the cost changes when the items at positions `i` and `j` change
/// places.
pub open spec fn swap_delta(
    order: Seq<u16>,
    costs: Seq<Seq<u32>>,
    block: nat,
    i: int,
    j: int,
) -> int {
    full_cost(swapped(order, i, j), costs, block) - full_cost(order, costs, block)
}

/// By how much the charges of `row` for the positions `lo..hi` change under the
/// swap: only the positions `i` and `j` themselves can differ.
pub open spec fn partner_shift(
    row: Seq<u32>,
    order: Seq<u16>,
    lo: int,
    hi: int,
    i: int,
    j: int,
) -> int {
    (if lo <= i < hi {
        row[order[j] as int] - row[order[i] as int]
    } else {
        0
    }) + (if lo <= j < hi {
        row[order[i] as int] - row[order[j] as int]
    } else {
        0
    })
}

/// A line of charges changes under a swap by what the swapped positions inside
/// it contribute.
pub proof fn lemma_line_sum_swapped(
    row: Seq<u32>,
    order: Seq<u16>,
    lo: int,
    hi: int,
    i: int,
    j: int,
)
    requires
        0 <= lo,
        hi <= order.len(),
        0 <= i < order.len(),
        0 <= j < order.len(),
        i != j,
    ensures
        line_sum(row, swapped(order, i, j), lo, hi) - line_sum(row, order, lo, hi) == partner_shift(
            row,
            order,
            lo,
            hi,
            i,
            j,
        ),
    decreases hi - lo,
{
    if lo < hi {
        lemma_line_sum_swapped(row, order, lo, hi - 1, i, j);
    }
}

/// A position that takes no part in the swap keeps its row; its charge changes
/// by the shifts of its head and of its tail.
pub proof fn lemma_row_cost_swapped(
    order: Seq<u16>,
    costs: Seq<Seq<u32>>,
    block: nat,
    pos: int,
    i: int,
    j: int,
)
    requires
        block <= pos < order.len(),
        pos + block <= order.len(),
        0 <= i < order.len(),
        0 <= j < order.len(),
        i != j,
        pos != i,
        pos != j,
    ensures
        row_cost(swapped(order, i, j), costs, block, pos) - row_cost(order, costs, block, pos)
            == partner_shift(costs[order[pos] as int], order, 0, pos - block, i, j)
            + partner_shift(
            costs[order[pos] as int],
            order,
            pos + block,
            order.len() as int,
            i,
            j,
        ),
{
    let row = costs[order[pos] as int];
    lemma_line_sum_swapped(row, order, 0, pos - block, i, j);
    lemma_line_sum_swapped(row, order, pos + block, order.len() as int, i, j);
}

/// How far the change of cost can have drifted from zero once the positions
/// below `pos` are accounted for: a position that takes no part in the swap
/// moves it by two charges at most, one that does by a whole row of `n`.
pub open spec fn drift_bound(n: int, pos: int, i: int, j: int) -> int {
    (2 * pos + (if i < pos {
        n
    } else {
        0
    }) + (if j < pos {
        n
    } else {
        0
    })) * 0xffff_ffff
}

/// The item that position `k` holds once positions `i` and `j` have changed
/// places.
fn swapped_item(order: &[u16], i: usize, j: usize, k: usize) -> (item: u16)
    requires
        i < order@.len(),
        j < order@.len(),
        k < order@.len(),
    ensures
        item == swapped(order@, i as int, j as int)[k as int],
{
    if k == i {
        order[j]
    } else if k == j {
        order[i]
    } else {
        order[k]
    }
}

/// What position `pos` is charged once positions `i` and `j` have changed
/// places.
fn position_cost_swapped(order: &[u16], model: &CostModel, pos: usize, i: usize, j: usize) -> (cost:
    u64)
    requires
        is_permutation(order@, model.dim()),
        model.block() <= pos < order@.len(),
        pos + model.block() <= order@.len(),
        i < order@.len(),
        j < order@.len(),
    ensures
        cost == row_cost(
            swapped(order@, i as int, j as int),
            model.costs(),
            model.block(),
            pos as int,
        ),
{
    let n = order.len();
    let block = model.block_size();
    let item = swapped_item(order, i, j, pos);
    let ghost after = swapped(order@, i as int, j as int);
    let ghost row = model.costs()[item as int];
    proof {
        lemma_permutation_bound(order@, model.dim());
        lemma_swapped_is_permutation(order@, model.dim(), i as int, j as int);
    }
    let mut tail: u64 = 0;
    let mut k: usize = pos + block;
    while k < n
        invariant
            is_permutation(after, model.dim()),
            after == swapped(order@, i as int, j as int),
            n == order@.len(),
            n <= 65536,
            i < n,
            j < n,
            item == after[pos as int],
            row == model.costs()[item as int],
            pos + block <= k <= n,
            tail == line_sum(row, after, pos + block, k as int),
        decreases n - k,
    {
        proof {
            lemma_line_sum_bound(row, after, pos + block, k as int);
        }
        let partner = swapped_item(order, i, j, k);
        tail += model.cost(item, partner) as u64;
        k += 1;
    }
    let head_end = pos - block;
    let mut head: u64 = 0;
    let mut k: usize = 0;
    while k < head_end
        invariant
            is_permutation(after, model.dim()),
            after == swapped(order@, i as int, j as int),
            n == order@.len(),
            n <= 65536,
            i < n,
            j < n,
            pos < n,
            item == after[pos as int],
            row == model.costs()[item as int],
            head_end == pos - block,
            k <= head_end,
            head == line_sum(row, after, 0, k as int),
        decreases head_end - k,
    {
        proof {
            lemma_line_sum_bound(row, after, 0, k as int);
        }
        let partner = swapped_item(order, i, j, k);
        head += model.cost(item, partner) as u64;
        k += 1;
    }
    proof {
        lemma_line_sum_bound(row, after, 0, head_end as int);
        lemma_line_sum_bound(row, after, pos + block, n as int);
    }
    head + tail
}

/// The change of cost if the items at positions `i` and `j` were to change
/// places: the cost of the swapped order less the cost of `order`.
pub fn cost_difference_for_swap(order: &[u16], model: &CostModel, i: usize, j: usize) -> (delta:
    i64)
    requires
        is_permutation(order@, model.dim()),
        i < order@.len(),
        j < order@.len(),
    ensures
        delta == swap_delta(order@, model.costs(), model.block(), i as int, j as int),
        i == j ==> delta == 0,
{
    let ghost after = swapped(order@, i as int, j as int);
    if i == j {
        assert(after =~= order@);
        return 0;
    }
    let n = order.len();
    let block = model.block_size();
    if n < block || n - block <= block {
        proof {
            lemma_degenerate_cost(order@, model.costs(), model.block());
            lemma_degenerate_cost(after, model.costs(), model.block());
        }
        return 0;
    }
    proof {
        lemma_permutation_bound(order@, model.dim());
        lemma_swapped_is_permutation(order@, model.dim(), i as int, j as int);
    }
    let end = n - block;
    let mut diff: i64 = 0;
    let mut pos: usize = block;
    while pos < end
        invariant
            is_permutation(order@, model.dim()),
            is_permutation(after, model.dim()),
            after == swapped(order@, i as int, j as int),
            n == order@.len(),
            n <= 65536,
            block == model.block(),
            end == n - block,
            i < n,
            j < n,
            i != j,
            block <= pos <= end,
            diff == rows_cost(after, model.costs(), model.block(), block as int, pos as int)
                - rows_cost(order@, model.costs(), model.block(), block as int, pos as int),
            -drift_bound(n as int, pos as int, i as int, j as int) <= diff <= drift_bound(
                n as int,
                pos as int,
                i as int,
                j as int,
            ),
        decreases end - pos,
    {
        if pos == i || pos == j {
            let before = position_cost(order, model, pos);
            let now = position_cost_swapped(order, model, pos, i, j);
            proof {
                lemma_row_cost_bound(order@, model.costs(), model.block(), pos as int);
                lemma_row_cost_bound(after, model.costs(), model.block(), pos as int);
            }
            diff += now as i64 - before as i64;
        } else {
            let item = order[pos];
            let at_i = model.cost(item, order[i]) as i64;
            let at_j = model.cost(item, order[j]) as i64;
            proof {
                lemma_row_cost_swapped(
                    order@,
                    model.costs(),
                    model.block(),
                    pos as int,
                    i as int,
                    j as int,
                );
            }
            if i >= pos + block || i < pos - block {
                diff += at_j - at_i;
            }
            if j >= pos + block || j < pos - block {
                diff += at_i - at_j;
            }
        }
        pos += 1;
    }
    diff
}

} // verus!
