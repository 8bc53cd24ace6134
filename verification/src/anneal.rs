//! The bookkeeping of simulated annealing: a current order and its cost, the
//! best order seen and its cost, and a move that was made and waits to be
//! kept or taken back.
//!
//! One step is two calls. `propose` makes a random move and costs the order
//! anew. `resolve` keeps the move if it lowered the cost, or if the caller,
//! who holds the temperature and draws the chances, says that a move which
//! did not may stay; else it takes the move back.

use crate::cost::{cost_function, full_cost};
use crate::model::CostModel;
use crate::moves::{
    lemma_move_keeps_permutation, lemma_move_self_inverse, random_move, undo_move, Move,
};
use crate::order::is_permutation;
use rand::rngs::ThreadRng;
use vstd::prelude::*;

verus! {

/// A move that was made, with the cost of the order that it gave.
#[derive(Debug, Clone, Copy, PartialEq, Eq)]
pub struct Proposal {
    /// The move; made once more, it is taken back.
    pub made: Move,
    /// The cost of the order with the move made.
    pub cost: u64,
}

/// The state of a search, as contracts see it.
pub struct SearchState {
    /// The table of costs.
    pub costs: Seq<Seq<u32>>,
    /// The margin width.
    pub block: nat,
    /// The working order: the current order, with the waiting move made.
    pub order: Seq<u16>,
    /// The cost of the current order.
    pub current_cost: nat,
    /// The best order seen.
    pub best_order: Seq<u16>,
    /// The cost of the best order seen.
    pub best_cost: nat,
    /// The move that waits to be resolved, with the cost of the working order.
    pub pending: Option<(Move, nat)>,
}

impl SearchState {
    /// The costs on record are the costs of the orders they belong to, and the
    /// best cost is no higher than the current one.
    pub open spec fn wf(self) -> bool {
        &&& is_permutation(self.order, self.costs.len())
        &&& is_permutation(self.best_order, self.costs.len())
        &&& self.best_cost == full_cost(self.best_order, self.costs, self.block)
        &&& self.best_cost <= self.current_cost
        &&& match self.pending {
            None => self.current_cost == full_cost(self.order, self.costs, self.block),
            Some((made, cost)) => {
                &&& made.fits(self.order.len())
                &&& cost == full_cost(self.order, self.costs, self.block)
                &&& self.current_cost == full_cost(made.apply(self.order), self.costs, self.block)
            },
        }
    }

    /// The current order: the working order without the waiting move.
    pub open spec fn current_order(self) -> Seq<u16> {
        match self.pending {
            None => self.order,
            Some((made, _)) => made.apply(self.order),
        }
    }

    /// The state once `made` has been made on the working order.
    pub open spec fn proposed(self, made: Move) -> SearchState {
        SearchState {
            order: made.apply(self.order),
            pending: Some((made, full_cost(made.apply(self.order), self.costs, self.block))),
            ..self
        }
    }

    /// Whether the waiting move stays: it does if it lowered the cost, or if
    /// `accept_worse` lets it stay though it did not.
    pub open spec fn accepts(self, accept_worse: bool) -> bool {
        match self.pending {
            None => false,
            Some((_, cost)) => cost < self.current_cost || accept_worse,
        }
    }

    /// The state once the waiting move has been kept or taken back.
    pub open spec fn resolved(self, accept_worse: bool) -> SearchState {
        match self.pending {
            None => self,
            Some((made, cost)) => if cost < self.current_cost || accept_worse {
                SearchState {
                    current_cost: cost,
                    best_order: if cost < self.best_cost {
                        self.order
                    } else {
                        self.best_order
                    },
                    best_cost: if cost < self.best_cost {
                        cost
                    } else {
                        self.best_cost
                    },
                    pending: None,
                    ..self
                }
            } else {
                SearchState { order: made.apply(self.order), pending: None, ..self }
            },
        }
    }

    /// The state after the steps `steps`: each makes a move and resolves it.
    pub open spec fn run(self, steps: Seq<(Move, bool)>) -> SearchState
        decreases steps.len(),
    {
        if steps.len() == 0 {
            self
        } else {
            self.run(steps.drop_last()).proposed(steps.last().0).resolved(steps.last().1)
        }
    }
}

/// Making a move keeps the records right.
pub proof fn lemma_proposed_wf(state: SearchState, made: Move)
    requires
        state.wf(),
        state.pending is None,
        made.fits(state.order.len()),
    ensures
        state.proposed(made).wf(),
        state.proposed(made).current_order() == state.order,
{
    lemma_move_self_inverse(made, state.order);
    lemma_move_keeps_permutation(made, state.order, state.costs.len());
}

/// Resolving a move keeps the records right, never raises the best cost, and
/// leaves it no higher than the cost of the order that the move gave.
pub proof fn lemma_resolved_wf(state: SearchState, accept_worse: bool)
    requires
        state.wf(),
        state.pending is Some,
    ensures
        state.resolved(accept_worse).wf(),
        state.resolved(accept_worse).pending is None,
        state.resolved(accept_worse).best_cost <= state.best_cost,
        state.pending matches Some(waiting) ==> state.resolved(accept_worse).best_cost
            <= waiting.1,
        state.resolved(accept_worse).order == if state.accepts(accept_worse) {
            state.order
        } else {
            state.current_order()
        },
{
    let (made, cost) = state.pending->0;
    lemma_move_keeps_permutation(made, state.order, state.costs.len());
}

/// Over a whole run the best cost on record is the cost of the best order on
/// record, and is no higher than the cost of any order that the run went
/// through: neither of the current order before any step `k`, nor of the order
/// that the move of step `k` gave, whether that move stayed or not.
pub proof fn lemma_run_tracks_best(state: SearchState, steps: Seq<(Move, bool)>, k: int)
    requires
        state.wf(),
        state.pending is None,
        forall|t: int| 0 <= t < steps.len() ==> (#[trigger] steps[t]).0.fits(state.order.len()),
        0 <= k <= steps.len(),
    ensures
        state.run(steps).wf(),
        state.run(steps).pending is None,
        state.run(steps).order.len() == state.order.len(),
        state.run(steps).costs == state.costs,
        state.run(steps).block == state.block,
        state.run(steps).best_cost == full_cost(
            state.run(steps).best_order,
            state.costs,
            state.block,
        ),
        state.run(steps).best_cost <= full_cost(
            state.run(steps.take(k)).order,
            state.costs,
            state.block,
        ),
        k < steps.len() ==> state.run(steps).best_cost <= full_cost(
            steps[k].0.apply(state.run(steps.take(k)).order),
            state.costs,
            state.block,
        ),
    decreases steps.len(),
{
    if steps.len() == 0 {
        assert(steps.take(k) =~= steps);
    } else {
        let earlier = steps.drop_last();
        let before = state.run(earlier);
        let (made, accept_worse) = steps.last();
        if k < steps.len() {
            lemma_run_tracks_best(state, earlier, k);
            assert(earlier.take(k) =~= steps.take(k));
        } else {
            lemma_run_tracks_best(state, earlier, k - 1);
            assert(steps.take(k) =~= steps);
        }
        lemma_proposed_wf(before, made);
        lemma_resolved_wf(before.proposed(made), accept_worse);
        if k == steps.len() - 1 {
            assert(earlier.take(k) =~= earlier);
        }
    }
}

/// A search in progress.
pub struct Annealer<'a> {
    model: &'a CostModel,
    order: Vec<u16>,
    current_cost: u64,
    best_order: Vec<u16>,
    best_cost: u64,
    pending: Option<Proposal>,
}

impl<'a> Annealer<'a> {
    /// The state of the search.
    pub closed spec fn view(&self) -> SearchState {
        SearchState {
            costs: self.model.costs(),
            block: self.model.block(),
            order: self.order@,
            current_cost: self.current_cost as nat,
            best_order: self.best_order@,
            best_cost: self.best_cost as nat,
            pending: match self.pending {
                None => None,
                Some(proposal) => Some((proposal.made, proposal.cost as nat)),
            },
        }
    }

    /// The records are right.
    pub open spec fn wf(&self) -> bool {
        self@.wf()
    }

    /// Starts a search at `order`, which is the best order seen so far.
    pub fn new(model: &'a CostModel, order: Vec<u16>) -> (annealer: Self)
        requires
            is_permutation(order@, model.dim()),
        ensures
            annealer.wf(),
            annealer@ == (SearchState {
                costs: model.costs(),
                block: model.block(),
                order: order@,
                current_cost: full_cost(order@, model.costs(), model.block()),
                best_order: order@,
                best_cost: full_cost(order@, model.costs(), model.block()),
                pending: None,
            }),
    {
        let cost = cost_function(order.as_slice(), model);
        let best_order = order.clone();
        Annealer { model, order, current_cost: cost, best_order, best_cost: cost, pending: None }
    }

    /// The cost of the current order.
    pub fn current_cost(&self) -> (cost: u64)
        ensures
            cost == self@.current_cost,
    {
        self.current_cost
    }

    /// The cost of the best order seen.
    pub fn best_cost(&self) -> (cost: u64)
        ensures
            cost == self@.best_cost,
    {
        self.best_cost
    }

    /// The best order seen.
    pub fn best_order(&self) -> (order: &[u16])
        ensures
            order@ == self@.best_order,
    {
        self.best_order.as_slice()
    }

    /// The move that waits to be resolved, if there is one.
    pub fn pending(&self) -> (proposal: Option<Proposal>)
        ensures
            match proposal {
                None => self@.pending is None,
                Some(p) => self@.pending == Some((p.made, p.cost as nat)),
            },
    {
        self.pending
    }

    /// Makes a random move on the working order and costs the order anew. The
    /// move then waits to be resolved.
    pub fn propose(&mut self, rng: &mut ThreadRng) -> (proposal: Proposal)
        requires
            old(self).wf(),
            old(self)@.pending is None,
            old(self)@.order.len() >= 2,
        ensures
            final(self).wf(),
            proposal.made.drawn_for(old(self)@.order.len()),
            proposal.made.fits(old(self)@.order.len()),
            final(self)@ == old(self)@.proposed(proposal.made),
            final(self)@.pending == Some((proposal.made, proposal.cost as nat)),
    {
        let ghost before = self@;
        let made = random_move(rng, self.order.as_mut_slice());
        proof {
            lemma_proposed_wf(before, made);
        }
        let cost = cost_function(self.order.as_slice(), self.model);
        let proposal = Proposal { made, cost };
        self.pending = Some(proposal);
        proposal
    }

    /// Makes the move `made` on the working order and costs the order anew. The
    /// move then waits to be resolved. With this in place of `propose` a
    /// search runs on moves of the caller's choosing.
    pub fn propose_move(&mut self, made: Move) -> (proposal: Proposal)
        requires
            old(self).wf(),
            old(self)@.pending is None,
            made.fits(old(self)@.order.len()),
        ensures
            final(self).wf(),
            proposal.made == made,
            final(self)@ == old(self)@.proposed(made),
            final(self)@.pending == Some((made, proposal.cost as nat)),
    {
        let ghost before = self@;
        undo_move(self.order.as_mut_slice(), made);
        proof {
            lemma_proposed_wf(before, made);
        }
        let cost = cost_function(self.order.as_slice(), self.model);
        let proposal = Proposal { made, cost };
        self.pending = Some(proposal);
        proposal
    }

    /// Keeps the waiting move if it lowered the cost or if `accept_worse` is
    /// set, and takes it back if not. A move that stays and gives a cost below
    /// the best one makes its order the best order. Tells whether the move
    /// stayed.
    pub fn resolve(&mut self, accept_worse: bool) -> (accepted: bool)
        requires
            old(self).wf(),
            old(self)@.pending is Some,
        ensures
            final(self).wf(),
            accepted == old(self)@.accepts(accept_worse),
            final(self)@ == old(self)@.resolved(accept_worse),
    {
        let ghost before = self@;
        proof {
            lemma_resolved_wf(before, accept_worse);
        }
        let proposal = self.pending.unwrap();
        let accepted = proposal.cost < self.current_cost || accept_worse;
        if accepted {
            self.current_cost = proposal.cost;
            if proposal.cost < self.best_cost {
                self.best_cost = proposal.cost;
                self.best_order = self.order.clone();
            }
        } else {
            undo_move(self.order.as_mut_slice(), proposal.made);
        }
        self.pending = None;
        accepted
    }

    /// Ends the search and hands out the best order seen, with its cost.
    pub fn finish(self) -> (best: (Vec<u16>, u64))
        requires
            self.wf(),
        ensures
            best.0@ == self@.best_order,
            best.1 == self@.best_cost,
            best.1 == full_cost(best.0@, self@.costs, self@.block),
            is_permutation(best.0@, self@.costs.len()),
    {
        (self.best_order, self.best_cost)
    }
}

} // verus!
