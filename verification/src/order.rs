//! Orders: arrangements of the item indices `0..n` into positions `0..n`.

use vstd::prelude::*;
use vstd::set_lib::{lemma_int_range, lemma_len_subset, set_int_range};

verus! {

/// `order` holds each of the indices `0..n` exactly once.
pub open spec fn is_permutation(order: Seq<u16>, n: nat) -> bool {
    &&& order.len() == n
    &&& forall|k: int| 0 <= k < order.len() ==> (#[trigger] order[k]) < n
    &&& forall|a: int, b: int|
        #![trigger order[a], order[b]]
        0 <= a < b < order.len() ==> order[a] != order[b]
}

/// The order with the items at positions `i` and `j` exchanged.
pub open spec fn swapped(order: Seq<u16>, i: int, j: int) -> Seq<u16> {
    order.update(i, order[j]).update(j, order[i])
}

/// The order with the span of positions `start..=end` turned end for end.
pub open spec fn reversed(order: Seq<u16>, start: int, end: int) -> Seq<u16> {
    Seq::new(
        order.len(),
        |k: int|
            if start <= k <= end {
                order[start + end - k]
            } else {
                order[k]
            },
    )
}

/// The identity arrangement: position `k` holds item `k`.
pub open spec fn identity(n: nat) -> Seq<u16> {
    Seq::new(n, |k: int| k as u16)
}

/// Distinct 16-bit items cannot fill more than 65536 positions.
pub proof fn lemma_permutation_bound(order: Seq<u16>, n: nat)
    requires
        is_permutation(order, n),
    ensures
        n <= 65536,
{
    let ints = order.map_values(|v: u16| v as int);
    assert forall|a: int, b: int| 0 <= a < ints.len() && 0 <= b < ints.len() && a != b implies ints[a]
        != ints[b] by {
        if a < b {
            assert(order[a] != order[b]);
        } else {
            assert(order[b] != order[a]);
        }
    }
    ints.unique_seq_to_set();
    lemma_int_range(0, 65536);
    assert forall|v: int| ints.to_set().contains(v) implies set_int_range(0, 65536).contains(v) by {
        let k = choose|k: int| 0 <= k < ints.len() && ints[k] == v;
        assert(ints[k] == order[k] as int);
    }
    lemma_len_subset(ints.to_set(), set_int_range(0, 65536));
}

/// Exchanging two positions of a permutation leaves a permutation.
pub proof fn lemma_swapped_is_permutation(order: Seq<u16>, n: nat, i: int, j: int)
    requires
        is_permutation(order, n),
        0 <= i < n,
        0 <= j < n,
    ensures
        is_permutation(swapped(order, i, j), n),
{
    let after = swapped(order, i, j);
    let source = |k: int|
        if k == i {
            j
        } else if k == j {
            i
        } else {
            k
        };
    assert forall|k: int| 0 <= k < after.len() implies (#[trigger] after[k]) < n by {
        assert(after[k] == order[source(k)]);
    }
    assert forall|a: int, b: int| 0 <= a < b < after.len() implies after[a] != after[b] by {
        assert(after[a] == order[source(a)]);
        assert(after[b] == order[source(b)]);
        if source(a) < source(b) {
            assert(order[source(a)] != order[source(b)]);
        } else {
            assert(order[source(b)] != order[source(a)]);
        }
    }
}

/// Reversing a span of a permutation leaves a permutation.
pub proof fn lemma_reversed_is_permutation(order: Seq<u16>, n: nat, start: int, end: int)
    requires
        is_permutation(order, n),
        0 <= start,
        end < n,
    ensures
        is_permutation(reversed(order, start, end), n),
{
    let after = reversed(order, start, end);
    let source = |k: int|
        if start <= k <= end {
            start + end - k
        } else {
            k
        };
    assert forall|k: int| 0 <= k < after.len() implies (#[trigger] after[k]) < n by {
        assert(after[k] == order[source(k)]);
    }
    assert forall|a: int, b: int| 0 <= a < b < after.len() implies after[a] != after[b] by {
        assert(after[a] == order[source(a)]);
        assert(after[b] == order[source(b)]);
        if source(a) < source(b) {
            assert(order[source(a)] != order[source(b)]);
        } else {
            assert(order[source(b)] != order[source(a)]);
        }
    }
}

/// A swap is undone by a second swap of the same pair of positions.
pub proof fn lemma_swap_self_inverse(order: Seq<u16>, i: int, j: int)
    requires
        0 <= i < order.len(),
        0 <= j < order.len(),
    ensures
        swapped(swapped(order, i, j), i, j) == order,
{
    assert(swapped(swapped(order, i, j), i, j) =~= order);
}

/// The two positions of a swap may be named in either order.
pub proof fn lemma_swap_symmetric(order: Seq<u16>, i: int, j: int)
    requires
        0 <= i < order.len(),
        0 <= j < order.len(),
    ensures
        swapped(order, i, j) == swapped(order, j, i),
{
    assert(swapped(order, i, j) =~= swapped(order, j, i));
}

/// A reversal is undone by a second reversal of the same span.
pub proof fn lemma_reverse_self_inverse(order: Seq<u16>, start: int, end: int)
    requires
        0 <= start,
        end < order.len(),
    ensures
        reversed(reversed(order, start, end), start, end) == order,
{
    assert(reversed(reversed(order, start, end), start, end) =~= order);
}

/// The identity arrangement of at most 65536 items is a permutation.
pub proof fn lemma_identity_is_permutation(n: nat)
    requires
        n <= 65536,
    ensures
        is_permutation(identity(n), n),
{
    let id = identity(n);
    assert forall|k: int| 0 <= k < id.len() implies (#[trigger] id[k]) < n by {
        assert(id[k] == k as u16);
    }
    assert forall|a: int, b: int| 0 <= a < b < id.len() implies id[a] != id[b] by {
        assert(id[a] == a as u16);
        assert(id[b] == b as u16);
    }
}

/// Tells whether `order` holds each of the indices `0..n` exactly once.
pub fn is_valid_order(order: &[u16], n: usize) -> (ok: bool)
    ensures
        ok == is_permutation(order@, n as nat),
{
    if order.len() != n {
        return false;
    }
    let mut seen: Vec<bool> = Vec::new();
    let mut filled: usize = 0;
    while filled < n
        invariant
            filled <= n,
            seen@.len() == filled,
            forall|v: int| 0 <= v < filled ==> !seen@[v],
        decreases n - filled,
    {
        seen.push(false);
        filled += 1;
    }
    let mut k: usize = 0;
    while k < n
        invariant
            k <= n,
            order@.len() == n,
            seen@.len() == n,
            forall|p: int| 0 <= p < k ==> (#[trigger] order@[p]) < n,
            forall|a: int, b: int|
                #![trigger order@[a], order@[b]]
                0 <= a < b < k ==> order@[a] != order@[b],
            forall|v: int|
                0 <= v < n ==> (#[trigger] seen@[v] <==> exists|p: int|
                    0 <= p < k && order@[p] as int == v),
        decreases n - k,
    {
        let item = order[k] as usize;
        if item >= n {
            return false;
        }
        if seen[item] {
            let ghost p = choose|p: int| 0 <= p < k && order@[p] as int == item as int;
            assert(order@[p] == order@[k as int]);
            return false;
        }
        let ghost before = seen@;
        seen.set(item, true);
        assert forall|v: int| 0 <= v < n implies (#[trigger] seen@[v] <==> exists|p: int|
            0 <= p < k + 1 && order@[p] as int == v) by {
            if v == item as int {
                assert(order@[k as int] as int == v);
            } else if before[v] {
                let p = choose|p: int| 0 <= p < k && order@[p] as int == v;
                assert(0 <= p < k + 1 && order@[p] as int == v);
            } else {
                if exists|p: int| 0 <= p < k + 1 && order@[p] as int == v {
                    let p = choose|p: int| 0 <= p < k + 1 && order@[p] as int == v;
                    assert(p < k);
                    assert(false);
                }
            }
        }
        assert forall|a: int, b: int| 0 <= a < b < k + 1 implies order@[a] != order@[b] by {
            if b == k as int && order@[a] == order@[b] {
                assert(order@[a] as int == item as int);
                assert(before[item as int]);
            }
        }
        k += 1;
    }
    true
}

/// The identity arrangement of `n` items.
pub fn identity_order(n: usize) -> (order: Vec<u16>)
    requires
        n <= 65536,
    ensures
        order@ == identity(n as nat),
        is_permutation(order@, n as nat),
{
    let mut order: Vec<u16> = Vec::new();
    let mut k: usize = 0;
    while k < n
        invariant
            k <= n <= 65536,
            order@.len() == k,
            forall|p: int| 0 <= p < k ==> order@[p] == p as u16,
        decreases n - k,
    {
        order.push(k as u16);
        k += 1;
    }
    proof {
        assert(order@ =~= identity(n as nat));
        lemma_identity_is_permutation(n as nat);
    }
    order
}

} // verus!
