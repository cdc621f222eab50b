use smt_core::common_types::Side;
use smt_core::driver::{
    admission_permits, order_seq_num, order_side, orders_for_connection, rate_limit_period_ms,
    spread_orders,
};

#[test]
fn ten_connections_are_admitted_for_each_worker() {
    assert_eq!(admission_permits(0), 0);
    assert_eq!(admission_permits(1), 10);
    assert_eq!(admission_permits(10), 100);
}

#[test]
fn orders_are_spread_evenly_with_the_remainder_first() {
    assert_eq!(orders_for_connection(10, 3, 0), 4);
    assert_eq!(orders_for_connection(10, 3, 1), 3);
    assert_eq!(orders_for_connection(10, 3, 2), 3);
    assert_eq!(orders_for_connection(1000, 10, 9), 100);
    assert_eq!(orders_for_connection(2, 5, 1), 1);
    assert_eq!(orders_for_connection(2, 5, 2), 0);
    assert_eq!(orders_for_connection(0, 4, 0), 0);
}

#[test]
fn no_order_is_lost_in_spreading() {
    for (num_orders, concurrency) in [(10usize, 3usize), (1000, 10), (7, 7), (3, 8), (0, 2), (99, 1)]
    {
        let total: usize =
            (0..concurrency).map(|i| orders_for_connection(num_orders, concurrency, i)).sum();
        assert_eq!(total, num_orders);
        let shares = spread_orders(num_orders, concurrency);
        assert_eq!(shares.len(), concurrency);
        assert_eq!(shares.iter().sum::<usize>(), num_orders);
    }
}

#[test]
fn orders_alternate_between_buying_and_selling() {
    assert_eq!(order_side(0), Side::Buy);
    assert_eq!(order_side(1), Side::Sell);
    assert_eq!(order_side(2), Side::Buy);
    assert_eq!(order_side(usize::MAX), Side::Sell);
}

#[test]
fn orders_are_numbered_behind_the_logon() {
    assert_eq!(order_seq_num(0), 2);
    assert_eq!(order_seq_num(1), 3);
    assert_eq!(order_seq_num(4294967293), u32::MAX);
}

#[test]
fn the_pause_is_the_share_of_a_second() {
    assert_eq!(rate_limit_period_ms(0), None);
    assert_eq!(rate_limit_period_ms(1), Some(1000));
    assert_eq!(rate_limit_period_ms(3), Some(333));
    assert_eq!(rate_limit_period_ms(1000), Some(1));
    assert_eq!(rate_limit_period_ms(1001), Some(0));
}

#[test]
fn the_shares_are_listed_connection_by_connection() {
    assert_eq!(spread_orders(10, 3), vec![4, 3, 3]);
    assert_eq!(spread_orders(2, 5), vec![1, 1, 0, 0, 0]);
    assert_eq!(spread_orders(0, 1), vec![0]);
}
