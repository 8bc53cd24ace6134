use permuter::anneal::{Annealer, Proposal};
use permuter::cost::cost_function;
use permuter::model::CostModel;
use permuter::moves::{undo_move, Move};
use permuter::order::is_valid_order;

fn patterned(n: usize) -> Vec<Vec<u32>> {
    (0..n).map(|a| (0..n).map(|b| ((a * 7 + b * 13 + a * b) % 10) as u32).collect()).collect()
}

#[test]
fn a_search_starts_with_its_order_as_the_best() {
    let model = CostModel::new(patterned(6), 1).unwrap();
    let annealer = Annealer::new(&model, vec![0, 1, 2, 3, 4, 5]);
    assert_eq!(annealer.current_cost(), 82);
    assert_eq!(annealer.best_cost(), 82);
    assert_eq!(annealer.best_order(), &[0, 1, 2, 3, 4, 5]);
    assert_eq!(annealer.pending(), None);
    assert_eq!(annealer.finish(), (vec![0, 1, 2, 3, 4, 5], 82));
}

#[test]
fn a_proposal_carries_the_cost_of_its_order() {
    let model = CostModel::new(patterned(7), 1).unwrap();
    let start: Vec<u16> = vec![3, 0, 6, 1, 5, 2, 4];
    let mut rng = rand::rng();
    for _ in 0..200 {
        let mut annealer = Annealer::new(&model, start.clone());
        let Proposal { made, cost } = annealer.propose(&mut rng);
        assert_eq!(annealer.pending(), Some(Proposal { made, cost }));
        let mut moved = start.clone();
        undo_move(&mut moved, made);
        assert_ne!(moved, start);
        assert_eq!(cost, cost_function(&moved, &model));
        // Until the move is resolved the current cost is that of the order
        // without it.
        assert_eq!(annealer.current_cost(), cost_function(&start, &model));
        match made {
            Move::Swap(i, j) => assert!(i != j && i < 7 && j < 7),
            Move::Reverse(first, last) => assert!(first < last && last < 7),
        }
    }
}

#[test]
fn a_move_that_lowers_the_cost_always_stays() {
    let model = CostModel::new(patterned(7), 1).unwrap();
    let start: Vec<u16> = vec![3, 0, 6, 1, 5, 2, 4];
    let before = cost_function(&start, &model);
    let mut rng = rand::rng();
    let mut kept = 0;
    let mut dropped = 0;
    for _ in 0..300 {
        let mut annealer = Annealer::new(&model, start.clone());
        let proposal = annealer.propose(&mut rng);
        let accepted = annealer.resolve(false);
        assert_eq!(accepted, proposal.cost < before);
        assert_eq!(annealer.pending(), None);
        if accepted {
            kept += 1;
            assert_eq!(annealer.current_cost(), proposal.cost);
            assert_eq!(annealer.best_cost(), proposal.cost);
            let mut moved = start.clone();
            undo_move(&mut moved, proposal.made);
            assert_eq!(annealer.best_order(), &moved[..]);
        } else {
            dropped += 1;
            assert_eq!(annealer.current_cost(), before);
            assert_eq!(annealer.best_cost(), before);
            assert_eq!(annealer.best_order(), &start[..]);
        }
    }
    assert!(kept > 0);
    assert!(dropped > 0);
}

#[test]
fn a_move_that_raises_the_cost_stays_when_let() {
    let model = CostModel::new(patterned(7), 1).unwrap();
    let start: Vec<u16> = vec![3, 0, 6, 1, 5, 2, 4];
    let before = cost_function(&start, &model);
    let mut rng = rand::rng();
    let mut worse = 0;
    for _ in 0..300 {
        let mut annealer = Annealer::new(&model, start.clone());
        let proposal = annealer.propose(&mut rng);
        assert!(annealer.resolve(true));
        assert_eq!(annealer.current_cost(), proposal.cost);
        if proposal.cost >= before {
            worse += 1;
            // The best order seen is still the one the search started at.
            assert_eq!(annealer.best_cost(), before);
            assert_eq!(annealer.best_order(), &start[..]);
        } else {
            assert_eq!(annealer.best_cost(), proposal.cost);
        }
    }
    assert!(worse > 0);
}

#[test]
fn the_best_cost_is_below_every_cost_of_the_run() {
    let model = CostModel::new(patterned(9), 2).unwrap();
    let start: Vec<u16> = vec![8, 0, 7, 1, 6, 2, 5, 3, 4];
    let mut rng = rand::rng();
    let mut annealer = Annealer::new(&model, start.clone());
    let mut seen: Vec<u64> = vec![annealer.current_cost()];
    let mut best_so_far = annealer.best_cost();
    for step in 0..2000 {
        let current = annealer.current_cost();
        let proposal = annealer.propose(&mut rng);
        seen.push(proposal.cost);
        let accepted = annealer.resolve(step % 3 == 0);
        assert_eq!(accepted, step % 3 == 0 || proposal.cost < current);
        assert_eq!(annealer.current_cost(), if accepted { proposal.cost } else { current });
        assert!(annealer.best_cost() <= best_so_far);
        assert!(annealer.best_cost() <= annealer.current_cost());
        assert_eq!(annealer.best_cost(), cost_function(annealer.best_order(), &model));
        best_so_far = annealer.best_cost();
    }
    let (best, cost) = annealer.finish();
    assert!(is_valid_order(&best, 9));
    assert_eq!(cost, cost_function(&best, &model));
    assert_eq!(cost, *seen.iter().min().unwrap());
}

#[test]
fn a_rejected_move_is_taken_back() {
    let model = CostModel::new(patterned(8), 1).unwrap();
    let start: Vec<u16> = vec![1, 7, 3, 5, 0, 2, 6, 4];
    let mut rng = rand::rng();
    let mut annealer = Annealer::new(&model, start.clone());
    let floor = annealer.current_cost();
    let mut rejected = 0;
    for _ in 0..500 {
        let proposal = annealer.propose(&mut rng);
        if proposal.cost >= floor {
            assert!(!annealer.resolve(false));
            rejected += 1;
        } else {
            // Take the search back to where it started.
            annealer.resolve(false);
            annealer = Annealer::new(&model, start.clone());
        }
        assert_eq!(annealer.current_cost(), floor);
    }
    assert!(rejected > 0);
    // Only improvements were ever kept, and each was started over: the best
    // order is the one the search began with.
    assert_eq!(annealer.finish(), (start, floor));
}

#[test]
fn a_search_on_given_moves() {
    let model = CostModel::new(patterned(7), 1).unwrap();
    let mut annealer = Annealer::new(&model, vec![3, 0, 6, 1, 5, 2, 4]);
    assert_eq!(annealer.current_cost(), 135);
    // The move, whether a worse order may stay, the cost of the order with the
    // move made, whether the move stayed, and the current and best cost after.
    let steps = [
        (Move::Swap(0, 6), false, 142, false, 135, 135),
        (Move::Reverse(1, 4), false, 130, true, 130, 130),
        (Move::Reverse(1, 4), true, 135, true, 135, 130),
        (Move::Swap(2, 3), false, 130, true, 130, 130),
        (Move::Swap(5, 6), true, 124, true, 124, 124),
        (Move::Reverse(0, 6), false, 127, false, 124, 124),
        (Move::Swap(0, 0), false, 124, false, 124, 124),
        (Move::Reverse(3, 2), true, 124, true, 124, 124),
        (Move::Swap(1, 5), false, 126, false, 124, 124),
    ];
    for (step, (made, accept_worse, cost, stays, current, best)) in steps.into_iter().enumerate() {
        let proposal = annealer.propose_move(made);
        assert_eq!(proposal, Proposal { made, cost });
        assert_eq!(annealer.pending(), Some(proposal));
        assert_eq!(annealer.resolve(accept_worse), stays);
        assert_eq!(annealer.pending(), None);
        assert_eq!(annealer.current_cost(), current);
        assert_eq!(annealer.best_cost(), best);
        if step == 3 {
            // A cost that only equals the best one does not replace the best
            // order.
            assert_eq!(annealer.best_order(), &[3, 5, 1, 6, 0, 2, 4]);
        }
    }
    assert_eq!(annealer.finish(), (vec![3, 0, 1, 6, 5, 4, 2], 124));
}
