//! Orders to start a search from.

use crate::model::CostModel;
use crate::order::{identity_order, is_permutation};
use vstd::prelude::*;

verus! {

/// What `item` is charged for itself.
pub open spec fn diagonal(costs: Seq<Seq<u32>>, item: u16) -> u32 {
    costs[item as int][item as int]
}

/// The items stand by falling charge for themselves.
pub open spec fn falls_along_diagonal(order: Seq<u16>, costs: Seq<Seq<u32>>) -> bool {
    forall|a: int, b: int|
        0 <= a < b < order.len() ==> diagonal(costs, #[trigger] order[a]) >= diagonal(
            costs,
            #[trigger] order[b],
        )
}

/// A rearrangement of a permutation is a permutation.
pub proof fn lemma_rearranged_permutation(before: Seq<u16>, after: Seq<u16>, n: nat)
    requires
        is_permutation(before, n),
        after.to_multiset() == before.to_multiset(),
    ensures
        is_permutation(after, n),
{
    before.to_multiset_ensures();
    after.to_multiset_ensures();
    assert(before.no_duplicates());
    before.lemma_multiset_has_no_duplicates();
    after.lemma_multiset_has_no_duplicates_conv();
    assert forall|k: int| 0 <= k < after.len() implies (#[trigger] after[k]) < n by {
        assert(after.contains(after[k]));
        assert(before.to_multiset().count(after[k]) > 0);
        assert(before.contains(after[k]));
        let p = choose|p: int| 0 <= p < before.len() && before[p] == after[k];
        assert(before[p] < n);
    }
}

/// std's `sort_unstable_by_key` on the items, with the charge of an item for
/// itself, looked up by `CostModel::cost` and reversed, as the key: the items
/// are rearranged so that the charges fall. Where two charges are equal std
/// leaves open which item comes first.
#[verifier::external_body]
fn sort_by_falling_diagonal(items: &mut Vec<u16>, model: &CostModel)
    requires
        forall|k: int| 0 <= k < old(items)@.len() ==> (#[trigger] old(items)@[k]) < model.dim(),
    ensures
        final(items)@.to_multiset() == old(items)@.to_multiset(),
        falls_along_diagonal(final(items)@, model.costs()),
{
    items.sort_unstable_by_key(|&item| std::cmp::Reverse(model.cost(item, item)));
}

/// The items by falling charge for themselves, the costliest first.
pub fn order_by_descending_diagonal(model: &CostModel) -> (order: Vec<u16>)
    requires
        model.dim() <= 65536,
    ensures
        is_permutation(order@, model.dim()),
        falls_along_diagonal(order@, model.costs()),
{
    let mut order = identity_order(model.size());
    let ghost before = order@;
    sort_by_falling_diagonal(&mut order, model);
    proof {
        lemma_rearranged_permutation(before, order@, model.dim());
    }
    order
}

} // verus!
