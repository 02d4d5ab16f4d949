use openstack_cost_dashboard::ranking::{descending_order, order_key};

fn keys_of(costs: &[f64]) -> Vec<u64> {
    costs.iter().map(|cost| order_key(cost.to_bits())).collect()
}

#[test]
fn order_lists_positions_by_descending_cost() {
    let order = descending_order(&keys_of(&[3.0, 9.0, 6.0]));
    assert_eq!(order, vec![1, 2, 0]);
}

#[test]
fn equal_costs_keep_their_order() {
    let order = descending_order(&keys_of(&[1.0, 2.0, 1.0, 2.0, 1.0]));
    assert_eq!(order, vec![1, 3, 0, 2, 4]);
}

#[test]
fn order_of_nothing_is_empty() {
    assert_eq!(descending_order(&Vec::new()), Vec::<usize>::new());
    assert_eq!(descending_order(&vec![5]), vec![0]);
}

#[test]
fn order_ranks_plain_keys() {
    assert_eq!(descending_order(&vec![0, u64::MAX, 7, 7, 1]), vec![1, 2, 3, 4, 0]);
    assert_eq!(descending_order(&vec![1, 2, 3, 4]), vec![3, 2, 1, 0]);
    assert_eq!(descending_order(&vec![4, 3, 2, 1]), vec![0, 1, 2, 3]);
}

#[test]
fn keys_grow_with_the_number() {
    let ascending = [
        f64::NEG_INFINITY,
        -1.0e300,
        -2.5,
        -1.0,
        -f64::MIN_POSITIVE,
        -0.0,
        0.0,
        f64::MIN_POSITIVE,
        0.1,
        1.0,
        1.5,
        15.0,
        1.0e300,
        f64::INFINITY,
    ];
    let keys = keys_of(&ascending);
    for pair in keys.windows(2) {
        assert!(pair[0] < pair[1]);
    }
}

#[test]
fn keys_of_known_patterns() {
    assert_eq!(order_key(0), 0x8000_0000_0000_0000);
    assert_eq!(order_key(0x8000_0000_0000_0000), 0x7fff_ffff_ffff_ffff);
    assert_eq!(order_key(u64::MAX), 0);
    assert_eq!(order_key(0x7fff_ffff_ffff_ffff), u64::MAX);
    assert_eq!(order_key(1.0f64.to_bits()), 0xbff0_0000_0000_0000);
}

#[test]
fn negative_costs_rank_last() {
    let costs = [-1.0, 4.0, 0.0, -3.0];
    let order = descending_order(&keys_of(&costs));
    assert_eq!(order, vec![1, 2, 0, 3]);
}
