use permuter::cost::cost_function;
use permuter::delta::cost_difference_for_swap;
use permuter::greedy::{greedy_pass, greedy_sort, pairs_in_pass, GreedyStats};
use permuter::model::{CostModel, BLOCK_SIZE};
use permuter::order::is_valid_order;

fn patterned(n: usize) -> Vec<Vec<u32>> {
    (0..n).map(|a| (0..n).map(|b| ((a * 7 + b * 13 + a * b) % 10) as u32).collect()).collect()
}

fn ladder() -> Vec<Vec<u32>> {
    vec![
        vec![0, 1, 2, 3],
        vec![10, 0, 20, 30],
        vec![100, 200, 0, 300],
        vec![1000, 2000, 3000, 0],
    ]
}

fn scrambled(n: usize, seed: u64) -> (Vec<Vec<u32>>, Vec<u16>) {
    let mut state = seed;
    let mut next = move || {
        state = state.wrapping_mul(6364136223846793005).wrapping_add(1442695040888963407);
        (state >> 33) as u32
    };
    let rows: Vec<Vec<u32>> = (0..n).map(|_| (0..n).map(|_| next() % 1000).collect()).collect();
    let mut order: Vec<u16> = (0..n as u16).collect();
    for k in (1..n).rev() {
        let other = next() as usize % (k + 1);
        order.swap(k, other);
    }
    (rows, order)
}

#[test]
fn greedy_sort_on_a_small_table() {
    let model = CostModel::new(ladder(), 1).unwrap();
    let mut order: Vec<u16> = vec![0, 1, 2, 3];
    assert_eq!(cost_function(&order, &model), 450);
    let stats = greedy_sort(&mut order, &model);
    assert_eq!(order, vec![3, 1, 0, 2]);
    assert_eq!(stats, GreedyStats { cost: 35, improvements: 2, passes: 2, iterations: 12 });

    let mut order: Vec<u16> = vec![3, 2, 1, 0];
    let stats = greedy_sort(&mut order, &model);
    assert_eq!(order, vec![3, 1, 0, 2]);
    assert_eq!(stats, GreedyStats { cost: 35, improvements: 2, passes: 3, iterations: 18 });

    let mut order: Vec<u16> = vec![1, 3, 0, 2];
    assert_eq!(cost_function(&order, &model), 4003);
    let stats = greedy_sort(&mut order, &model);
    assert_eq!(order, vec![3, 1, 0, 2]);
    assert_eq!(stats, GreedyStats { cost: 35, improvements: 1, passes: 2, iterations: 12 });
}

#[test]
fn greedy_sort_takes_the_first_improvement() {
    let model = CostModel::new(patterned(6), 1).unwrap();
    let mut order: Vec<u16> = vec![0, 1, 2, 3, 4, 5];
    let stats = greedy_sort(&mut order, &model);
    assert_eq!(order, vec![4, 5, 1, 3, 0, 2]);
    assert_eq!(stats, GreedyStats { cost: 68, improvements: 3, passes: 3, iterations: 45 });

    let model = CostModel::new(patterned(9), 1).unwrap();
    let mut order: Vec<u16> = (0..9).collect();
    let stats = greedy_sort(&mut order, &model);
    assert_eq!(order, vec![2, 8, 1, 3, 4, 5, 6, 0, 7]);
    assert_eq!(stats, GreedyStats { cost: 213, improvements: 10, passes: 3, iterations: 108 });

    let model = CostModel::new(patterned(9), BLOCK_SIZE).unwrap();
    let mut order: Vec<u16> = (0..9).collect();
    let stats = greedy_sort(&mut order, &model);
    assert_eq!(order, vec![0, 1, 8, 3, 6, 4, 5, 7, 2]);
    assert_eq!(stats, GreedyStats { cost: 0, improvements: 3, passes: 2, iterations: 72 });
}

#[test]
fn one_pass_reports_its_exchanges() {
    let model = CostModel::new(ladder(), 1).unwrap();
    let mut order: Vec<u16> = vec![0, 1, 2, 3];
    let (cost, gains) = greedy_pass(&mut order, &model, 450);
    assert_eq!(cost, cost_function(&order, &model));
    assert_eq!((cost, gains), (35, 2));
    let (cost, gains) = greedy_pass(&mut order, &model, cost);
    assert_eq!((cost, gains), (35, 0));
    assert_eq!(order, vec![3, 1, 0, 2]);
}

#[test]
fn the_cost_never_rises_from_pass_to_pass() {
    for n in [5usize, 9, 14] {
        let (rows, mut order) = scrambled(n, 40 + n as u64);
        let model = CostModel::new(rows, 2).unwrap();
        let mut cost = cost_function(&order, &model);
        loop {
            let (next, gains) = greedy_pass(&mut order, &model, cost);
            assert_eq!(next, cost_function(&order, &model));
            assert!(is_valid_order(&order, n));
            // Every exchange lowers the cost by one at least.
            assert!(next + gains <= cost);
            cost = next;
            if gains == 0 {
                break;
            }
        }
    }
}

#[test]
fn greedy_sort_ends_where_no_swap_helps() {
    for block in [0usize, 1, 4] {
        for n in [2usize, 6, 9, 12] {
            let (rows, mut order) = scrambled(n, 900 + 31 * block as u64 + n as u64);
            let model = CostModel::new(rows, block).unwrap();
            let before = cost_function(&order, &model);
            let stats = greedy_sort(&mut order, &model);
            assert!(is_valid_order(&order, n));
            assert_eq!(stats.cost, cost_function(&order, &model));
            assert!(stats.cost + stats.improvements <= before);
            assert!(stats.passes >= 1 && stats.passes <= stats.improvements + 1);
            assert_eq!(stats.iterations, stats.passes as u128 * (n * (n - 1) / 2) as u128);
            for i in 0..n {
                for j in 0..n {
                    assert!(cost_difference_for_swap(&order, &model, i, j) >= 0);
                }
            }
            // Made again on its own result, the descent changes nothing.
            let settled = order.clone();
            let again = greedy_sort(&mut order, &model);
            assert_eq!(order, settled);
            assert_eq!(
                again,
                GreedyStats {
                    cost: stats.cost,
                    improvements: 0,
                    passes: 1,
                    iterations: (n * (n - 1) / 2) as u128,
                }
            );
        }
    }
}

#[test]
fn a_swap_that_changes_nothing_is_not_made() {
    // In a uniform table every swap leaves the cost as it is.
    let rows: Vec<Vec<u32>> = (0..6).map(|a| (0..6).map(|b| (a != b) as u32).collect()).collect();
    let model = CostModel::new(rows, 1).unwrap();
    let mut order: Vec<u16> = vec![5, 3, 1, 0, 2, 4];
    let stats = greedy_sort(&mut order, &model);
    assert_eq!(order, vec![5, 3, 1, 0, 2, 4]);
    assert_eq!(stats, GreedyStats { cost: 16, improvements: 0, passes: 1, iterations: 15 });
}

#[test]
fn greedy_sort_on_orders_without_pairs() {
    let empty = CostModel::new(vec![], BLOCK_SIZE).unwrap();
    let mut order: Vec<u16> = vec![];
    let stats = greedy_sort(&mut order, &empty);
    assert_eq!(stats, GreedyStats { cost: 0, improvements: 0, passes: 1, iterations: 0 });
    let single = CostModel::new(vec![vec![7]], 0).unwrap();
    let mut order: Vec<u16> = vec![0];
    let stats = greedy_sort(&mut order, &single);
    assert_eq!(order, vec![0]);
    assert_eq!(stats, GreedyStats { cost: 7, improvements: 0, passes: 1, iterations: 0 });
}

#[test]
fn the_pairs_of_one_pass_are_counted() {
    assert_eq!(pairs_in_pass(0), 0);
    assert_eq!(pairs_in_pass(1), 0);
    assert_eq!(pairs_in_pass(2), 1);
    assert_eq!(pairs_in_pass(4), 6);
    assert_eq!(pairs_in_pass(9), 36);
    assert_eq!(pairs_in_pass(65536), 2147450880);
    assert_eq!(pairs_in_pass(usize::MAX), usize::MAX as u128 * (usize::MAX as u128 - 1) / 2);
}
