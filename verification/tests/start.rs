use permuter::model::CostModel;
use permuter::order::is_valid_order;
use permuter::start::order_by_descending_diagonal;

#[test]
fn the_costliest_item_comes_first() {
    let rows = vec![
        vec![5, 0, 0, 0],
        vec![0, 9, 0, 0],
        vec![0, 0, 1, 0],
        vec![0, 0, 0, 7],
    ];
    let model = CostModel::new(rows, 1).unwrap();
    assert_eq!(order_by_descending_diagonal(&model), vec![1, 3, 0, 2]);
}

#[test]
fn equal_charges_may_come_in_any_order() {
    let n = 50usize;
    let rows: Vec<Vec<u32>> =
        (0..n).map(|a| (0..n).map(|b| if a == b { (a % 4) as u32 } else { 99 }).collect()).collect();
    let model = CostModel::new(rows, 4).unwrap();
    let order = order_by_descending_diagonal(&model);
    assert!(is_valid_order(&order, n));
    for pair in order.windows(2) {
        assert!(model.cost(pair[0], pair[0]) >= model.cost(pair[1], pair[1]));
    }
}

#[test]
fn an_empty_table_gives_an_empty_order() {
    let model = CostModel::new(vec![], 4).unwrap();
    assert_eq!(order_by_descending_diagonal(&model), Vec::<u16>::new());
}
