use elixcee::formula::cycle::recalculation_order;

#[test]
fn acyclic_formulas_come_in_kahn_order_before_the_cyclic_ones() {
    let deps: Vec<Vec<usize>> = vec![vec![], vec![0], vec![1], vec![3], vec![3, 0]];
    let (order, selected) = recalculation_order(&deps, &Vec::new(), true);
    assert_eq!(order, vec![0, 1, 2, 3, 4]);
    assert_eq!(selected, vec![true; 5]);
}

#[test]
fn ready_formulas_start_ascending_and_release_dependents_in_turn() {
    let deps: Vec<Vec<usize>> = vec![vec![2], vec![], vec![]];
    let (order, _) = recalculation_order(&deps, &Vec::new(), true);
    assert_eq!(order, vec![1, 2, 0]);
}

#[test]
fn a_change_selects_the_formulas_that_depend_on_it() {
    let deps: Vec<Vec<usize>> = vec![vec![2], vec![], vec![], vec![0, 1]];
    let (order, selected) = recalculation_order(&deps, &vec![2], false);
    assert_eq!(order, vec![1, 2, 0, 3]);
    assert_eq!(selected, vec![true, false, true, true]);
    let (_, none) = recalculation_order(&deps, &Vec::new(), false);
    assert_eq!(none, vec![false; 4]);
}
