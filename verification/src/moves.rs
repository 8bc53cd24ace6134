//! The moves of the random search: exchanges of two positions and reversals of
//! a span. Each move is its own inverse, so the pair of positions that a move
//! hands back is all that is needed to take it back.

use crate::order::{
    is_permutation, lemma_reverse_self_inverse, lemma_reversed_is_permutation,
    lemma_swap_self_inverse, lemma_swapped_is_permutation, reversed, swapped,
};
use rand::rngs::ThreadRng;
use rand::Rng;
use vstd::prelude::*;

verus! {

/// rand's thread-local generator. Nothing is known of its state.
#[verifier::external_type_specification]
#[verifier::external_body]
pub struct ExThreadRng(ThreadRng);

/// rand's `Rng::random_range` on the range `0..bound`, which it refuses when
/// empty: the draw lies in the range. Which value comes back is left open.
#[verifier::external_body]
fn random_below(rng: &mut ThreadRng, bound: usize) -> (draw: usize)
    requires
        bound > 0,
    ensures
        draw < bound,
{
    rng.random_range(0..bound)
}

/// A move that was made on an order, with the positions it was made at.
#[derive(Debug, Clone, Copy, PartialEq, Eq)]
pub enum Move {
    /// The items at the two positions changed places.
    Swap(usize, usize),
    /// The span from the first position to the second, both included, was
    /// turned end for end.
    Reverse(usize, usize),
}

impl Move {
    /// The move can be made on an order of `n` items.
    pub open spec fn fits(self, n: nat) -> bool {
        match self {
            Move::Swap(i, j) => i < n && j < n,
            Move::Reverse(start, end) => start <= end + 1 && end < n,
        }
    }

    /// The move is one that the random search makes on an order of `n` items:
    /// it works on two different positions, and a reversal names the earlier
    /// one first.
    pub open spec fn drawn_for(self, n: nat) -> bool {
        match self {
            Move::Swap(i, j) => i != j && i < n && j < n,
            Move::Reverse(start, end) => start < end < n,
        }
    }

    /// The move that three draws stand for. `kind` 0 exchanges `first` with
    /// the position after it. The other kinds take a second position from
    /// `draw`, moved up by one from `first` on, so that it differs from
    /// `first`: kind 1 exchanges the two, any other kind reverses the span
    /// between them, the earlier position named first.
    pub open spec fn from_draws(kind: usize, first: usize, draw: usize) -> Move {
        let second = if draw >= first {
            (draw + 1) as usize
        } else {
            draw
        };
        if kind == 0 {
            Move::Swap(first, (first + 1) as usize)
        } else if kind == 1 {
            Move::Swap(first, second)
        } else if first > second {
            Move::Reverse(second, first)
        } else {
            Move::Reverse(first, second)
        }
    }

    /// The order after the move. Made twice, a move gives the order back.
    pub open spec fn apply(self, order: Seq<u16>) -> Seq<u16> {
        match self {
            Move::Swap(i, j) => swapped(order, i as int, j as int),
            Move::Reverse(start, end) => reversed(order, start as int, end as int),
        }
    }
}

impl Move {
    /// The two positions that the move was made at.
    pub fn positions(self) -> (token: (usize, usize))
        ensures
            token == match self {
                Move::Swap(i, j) => (i, j),
                Move::Reverse(start, end) => (start, end),
            },
    {
        match self {
            Move::Swap(i, j) => (i, j),
            Move::Reverse(start, end) => (start, end),
        }
    }
}

/// Every move is its own inverse: made a second time, it gives the order
/// back.
pub proof fn lemma_move_self_inverse(made: Move, order: Seq<u16>)
    requires
        made.fits(order.len()),
    ensures
        made.apply(made.apply(order)) == order,
{
    match made {
        Move::Swap(i, j) => lemma_swap_self_inverse(order, i as int, j as int),
        Move::Reverse(start, end) => lemma_reverse_self_inverse(order, start as int, end as int),
    }
}

/// A move made on a permutation leaves a permutation.
pub proof fn lemma_move_keeps_permutation(made: Move, order: Seq<u16>, n: nat)
    requires
        made.fits(order.len()),
        is_permutation(order, n),
    ensures
        is_permutation(made.apply(order), n),
{
    match made {
        Move::Swap(i, j) => lemma_swapped_is_permutation(order, n, i as int, j as int),
        Move::Reverse(start, end) => lemma_reversed_is_permutation(
            order,
            n,
            start as int,
            end as int,
        ),
    }
}

/// Exchanges the items at the two positions of `token`; made after a swap of
/// the same pair, it restores the order.
pub fn undo_swap(order: &mut [u16], token: (usize, usize))
    requires
        token.0 < old(order)@.len(),
        token.1 < old(order)@.len(),
    ensures
        final(order)@ == swapped(old(order)@, token.0 as int, token.1 as int),
{
    let first = order[token.0];
    let second = order[token.1];
    order[token.0] = second;
    order[token.1] = first;
}

/// Turns the span `token.0 ..= token.1` end for end; made after a reversal of
/// the same span, it restores the order. A span that ends just before it
/// starts is empty, and the order stays as it is.
pub fn undo_reverse_segment(order: &mut [u16], token: (usize, usize))
    requires
        token.0 <= token.1 + 1,
        token.1 < old(order)@.len(),
    ensures
        final(order)@ == reversed(old(order)@, token.0 as int, token.1 as int),
{
    let start = token.0;
    let end = token.1;
    let mut lo = start;
    let mut hi = end;
    while lo < hi
        invariant
            start <= lo <= hi + 1,
            hi <= end < order@.len(),
            lo + hi == start + end,
            order@.len() == old(order)@.len(),
            forall|k: int|
                0 <= k < order@.len() ==> #[trigger] order@[k] == if start <= k < lo || hi < k
                    <= end {
                    old(order)@[start + end - k]
                } else {
                    old(order)@[k]
                },
        decreases hi + 1 - lo,
    {
        let low_item = order[lo];
        let high_item = order[hi];
        order[lo] = high_item;
        order[hi] = low_item;
        lo += 1;
        hi -= 1;
    }
    assert(order@ =~= reversed(old(order)@, start as int, end as int));
}

/// The second of two distinct positions below `len`, from the first and a draw
/// below `len - 1`: the draw, moved up by one from `first` on.
pub fn distinct_from(first: usize, draw: usize) -> (second: usize)
    requires
        draw < usize::MAX,
    ensures
        second != first,
        second == if draw >= first {
            draw + 1
        } else {
            draw as int
        },
{
    if draw >= first {
        draw + 1
    } else {
        draw
    }
}

/// Makes the move that the draws stand for: `kind` says which of the three
/// kinds of move it is, `first` is its first position, and `draw`, which the
/// exchange of neighbours does not look at, gives the second.
pub fn make_move(order: &mut [u16], kind: usize, first: usize, draw: usize) -> (made: Move)
    requires
        old(order)@.len() >= 2,
        kind < 3,
        first < old(order)@.len(),
        kind == 0 ==> first + 1 < old(order)@.len(),
        draw + 1 < old(order)@.len(),
    ensures
        made == Move::from_draws(kind, first, draw),
        made.drawn_for(old(order)@.len()),
        made.fits(old(order)@.len()),
        final(order)@ == made.apply(old(order)@),
{
    assert(order@.len() == order.len());
    let made = if kind == 0 {
        Move::Swap(first, first + 1)
    } else {
        let second = distinct_from(first, draw);
        if kind == 1 {
            Move::Swap(first, second)
        } else if first > second {
            Move::Reverse(second, first)
        } else {
            Move::Reverse(first, second)
        }
    };
    undo_move(order, made);
    made
}

/// Exchanges a position drawn at random with the one after it, and hands back
/// the pair.
pub fn swap_local(rng: &mut ThreadRng, order: &mut [u16]) -> (token: (usize, usize))
    requires
        old(order)@.len() >= 2,
    ensures
        token.1 == token.0 + 1,
        token.1 < old(order)@.len(),
        final(order)@ == swapped(old(order)@, token.0 as int, token.1 as int),
{
    let len = order.len();
    let first = random_below(rng, len - 1);
    make_move(order, 0, first, 0).positions()
}

/// Exchanges two distinct positions drawn at random, and hands back the pair.
pub fn swap_two(rng: &mut ThreadRng, order: &mut [u16]) -> (token: (usize, usize))
    requires
        old(order)@.len() >= 2,
    ensures
        token.0 != token.1,
        token.0 < old(order)@.len(),
        token.1 < old(order)@.len(),
        final(order)@ == swapped(old(order)@, token.0 as int, token.1 as int),
{
    let len = order.len();
    let first = random_below(rng, len);
    let draw = random_below(rng, len - 1);
    make_move(order, 1, first, draw).positions()
}

/// Turns a span between two distinct positions drawn at random end for end,
/// and hands back its first and last position.
pub fn reverse_segment(rng: &mut ThreadRng, order: &mut [u16]) -> (token: (usize, usize))
    requires
        old(order)@.len() >= 2,
    ensures
        token.0 < token.1 < old(order)@.len(),
        final(order)@ == reversed(old(order)@, token.0 as int, token.1 as int),
{
    let len = order.len();
    let first = random_below(rng, len);
    let draw = random_below(rng, len - 1);
    make_move(order, 2, first, draw).positions()
}

/// Makes one of the three kinds of move, chosen at random, and hands back what
/// takes it back.
pub fn random_move(rng: &mut ThreadRng, order: &mut [u16]) -> (made: Move)
    requires
        old(order)@.len() >= 2,
    ensures
        made.drawn_for(old(order)@.len()),
        made.fits(old(order)@.len()),
        final(order)@ == made.apply(old(order)@),
{
    let len = order.len();
    let kind = random_below(rng, 3);
    if kind == 0 {
        let first = random_below(rng, len - 1);
        make_move(order, kind, first, 0)
    } else {
        let first = random_below(rng, len);
        let draw = random_below(rng, len - 1);
        make_move(order, kind, first, draw)
    }
}

/// Takes back the move `made`, by making it once more.
pub fn undo_move(order: &mut [u16], made: Move)
    requires
        made.fits(old(order)@.len()),
    ensures
        final(order)@ == made.apply(old(order)@),
{
    match made {
        Move::Swap(i, j) => undo_swap(order, (i, j)),
        Move::Reverse(start, end) => undo_reverse_segment(order, (start, end)),
    }
}

} // verus!
