//! The windowed cost of an order.
//!
//! A position `i` at least the margin width away from both ends is charged,
//! by the row of the item it holds, for every item that lies the margin width
//! or more after it, and for every item that lies more than the margin width
//! before it.

use crate::model::CostModel;
use crate::order::{is_permutation, lemma_permutation_bound};
use rayon::iter::{IntoParallelIterator, ParallelIterator};
use vstd::prelude::*;

verus! {

/// What `row` charges for the items at the positions `lo..hi` of `order`.
pub open spec fn line_sum(row: Seq<u32>, order: Seq<u16>, lo: int, hi: int) -> nat
    decreases hi - lo,
{
    if hi <= lo {
        0
    } else {
        line_sum(row, order, lo, hi - 1) + row[order[hi - 1] as int] as nat
    }
}

/// What position `i` is charged: for the head `0 .. i - block` and for the
/// tail `i + block ..` of the order.
pub open spec fn row_cost(order: Seq<u16>, costs: Seq<Seq<u32>>, block: nat, i: int) -> nat {
    let row = costs[order[i] as int];
    line_sum(row, order, 0, i - block) + line_sum(row, order, i + block, order.len() as int)
}

/// What the positions `lo..hi` are charged together.
pub open spec fn rows_cost(
    order: Seq<u16>,
    costs: Seq<Seq<u32>>,
    block: nat,
    lo: int,
    hi: int,
) -> nat
    decreases hi - lo,
{
    if hi <= lo {
        0
    } else {
        rows_cost(order, costs, block, lo, hi - 1) + row_cost(order, costs, block, hi - 1)
    }
}

/// The cost of an order: what the positions `block .. len - block` are charged.
pub open spec fn full_cost(order: Seq<u16>, costs: Seq<Seq<u32>>, block: nat) -> nat {
    rows_cost(order, costs, block, block as int, order.len() - block)
}

/// A line of `hi - lo` charges is at most that many times the largest charge.
pub proof fn lemma_line_sum_bound(row: Seq<u32>, order: Seq<u16>, lo: int, hi: int)
    requires
        lo <= hi,
    ensures
        line_sum(row, order, lo, hi) <= (hi - lo) * 0xffff_ffff,
    decreases hi - lo,
{
    if lo < hi {
        lemma_line_sum_bound(row, order, lo, hi - 1);
    }
}

/// A position is charged for fewer items than the order holds.
pub proof fn lemma_row_cost_bound(order: Seq<u16>, costs: Seq<Seq<u32>>, block: nat, i: int)
    requires
        block <= i,
        i + block <= order.len(),
    ensures
        row_cost(order, costs, block, i) <= order.len() * 0xffff_ffff,
{
    let row = costs[order[i] as int];
    lemma_line_sum_bound(row, order, 0, i - block);
    lemma_line_sum_bound(row, order, i + block, order.len() as int);
}

/// The positions `lo..hi` are charged at most `hi - lo` full rows.
pub proof fn lemma_rows_cost_bound(
    order: Seq<u16>,
    costs: Seq<Seq<u32>>,
    block: nat,
    lo: int,
    hi: int,
)
    requires
        block <= lo <= hi,
        hi + block <= order.len(),
    ensures
        rows_cost(order, costs, block, lo, hi) <= (hi - lo) * (order.len() * 0xffff_ffff),
    decreases hi - lo,
{
    if lo < hi {
        lemma_rows_cost_bound(order, costs, block, lo, hi - 1);
        lemma_row_cost_bound(order, costs, block, hi - 1);
        let full_row = order.len() * 0xffff_ffff;
        assert((hi - lo) * full_row == (hi - 1 - lo) * full_row + full_row) by (nonlinear_arith);
    }
}

/// The cost of a permutation fits in 64 bits, with room to spare.
pub proof fn lemma_full_cost_bound(order: Seq<u16>, costs: Seq<Seq<u32>>, block: nat)
    requires
        is_permutation(order, costs.len()),
    ensures
        full_cost(order, costs, block) <= 0xffff_ffff_0000_0000,
{
    let n = order.len() as int;
    lemma_permutation_bound(order, costs.len());
    if block as int <= n - block {
        lemma_rows_cost_bound(order, costs, block, block as int, n - block);
        let rows = n - 2 * block;
        let full_row = n * 0xffff_ffff;
        assert(rows * full_row <= 65536 * (65536 * 0xffff_ffff)) by (nonlinear_arith)
            requires
                0 <= rows <= 65536,
                0 <= full_row <= 65536 * 0xffff_ffff,
        ;
    }
}

/// An order too short to have a position outside both margins costs nothing.
pub proof fn lemma_degenerate_cost(order: Seq<u16>, costs: Seq<Seq<u32>>, block: nat)
    requires
        order.len() <= 2 * block,
    ensures
        full_cost(order, costs, block) == 0,
{
}

/// What position `i` of `order` is charged.
pub fn position_cost(order: &[u16], model: &CostModel, i: usize) -> (cost: u64)
    requires
        is_permutation(order@, model.dim()),
        model.block() <= i < order@.len(),
        i + model.block() <= order@.len(),
    ensures
        cost == row_cost(order@, model.costs(), model.block(), i as int),
{
    let n = order.len();
    let block = model.block_size();
    let item = order[i];
    let ghost row = model.costs()[item as int];
    proof {
        lemma_permutation_bound(order@, model.dim());
    }
    let mut tail: u64 = 0;
    let mut k: usize = i + block;
    while k < n
        invariant
            is_permutation(order@, model.dim()),
            n == order@.len(),
            n <= 65536,
            item == order@[i as int],
            row == model.costs()[item as int],
            i + block <= k <= n,
            tail == line_sum(row, order@, i + block, k as int),
        decreases n - k,
    {
        proof {
            lemma_line_sum_bound(row, order@, i + block, k as int);
        }
        tail += model.cost(item, order[k]) as u64;
        k += 1;
    }
    let head_end = i - block;
    let mut head: u64 = 0;
    let mut k: usize = 0;
    while k < head_end
        invariant
            is_permutation(order@, model.dim()),
            n == order@.len(),
            n <= 65536,
            item == order@[i as int],
            row == model.costs()[item as int],
            head_end == i - block,
            i < n,
            k <= head_end,
            head == line_sum(row, order@, 0, k as int),
        decreases head_end - k,
    {
        proof {
            lemma_line_sum_bound(row, order@, 0, k as int);
        }
        head += model.cost(item, order[k]) as u64;
        k += 1;
    }
    proof {
        lemma_line_sum_bound(row, order@, 0, head_end as int);
        lemma_line_sum_bound(row, order@, i + block, n as int);
    }
    head + tail
}

/// rayon's `into_par_iter`, `map` and `sum` on the range `lo..hi`: the
/// positions are handed out to rayon's workers, each is charged by
/// `position_cost`, and the charges are added up. rayon leaves open in which
/// order they are added; the total is required to fit in 64 bits, so that
/// every order gives the same sum.
#[verifier::external_body]
fn par_rows_cost(order: &[u16], model: &CostModel, lo: usize, hi: usize) -> (total: u64)
    requires
        is_permutation(order@, model.dim()),
        model.block() <= lo <= hi,
        hi + model.block() <= order@.len(),
        rows_cost(order@, model.costs(), model.block(), lo as int, hi as int) <= u64::MAX,
    ensures
        total == rows_cost(order@, model.costs(), model.block(), lo as int, hi as int),
{
    (lo..hi).into_par_iter().map(|i| position_cost(order, model, i)).sum()
}

/// The cost of `order` under `model`.
pub fn cost_function(order: &[u16], model: &CostModel) -> (cost: u64)
    requires
        is_permutation(order@, model.dim()),
    ensures
        cost == full_cost(order@, model.costs(), model.block()),
        order@.len() <= 2 * model.block() ==> cost == 0,
{
    let n = order.len();
    let block = model.block_size();
    if n < block || n - block <= block {
        return 0;
    }
    proof {
        lemma_full_cost_bound(order@, model.costs(), model.block());
    }
    par_rows_cost(order, model, block, n - block)
}

} // verus!
