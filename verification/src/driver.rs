//! The arithmetic of the drivers: how many connections a server admits, and
//! how a benchmark spreads its orders over its connections.

use crate::common_types::Side;
use vstd::arithmetic::div_mod::lemma_fundamental_div_mod;
use vstd::prelude::*;

verus! {

/// The number of connections that a server with `worker_threads` workers
/// admits at a time: ten for each worker.
pub fn admission_permits(worker_threads: usize) -> (permits: usize)
    requires
        worker_threads * 10 <= usize::MAX,
    ensures
        permits == worker_threads * 10,
{
    worker_threads * 10
}

/// The number of orders that connection `index` of `concurrency` sends when
/// `num_orders` are spread evenly: the quotient, and one more on as many of
/// the first connections as the remainder counts.
pub open spec fn share_of_orders(num_orders: nat, concurrency: nat, index: nat) -> nat {
    if index < num_orders % concurrency {
        num_orders / concurrency + 1
    } else {
        num_orders / concurrency
    }
}

/// The orders of the first `connections` connections together.
pub open spec fn orders_of_first(num_orders: nat, concurrency: nat, connections: nat) -> nat
    decreases connections,
{
    if connections == 0 {
        0
    } else {
        orders_of_first(num_orders, concurrency, (connections - 1) as nat) + share_of_orders(
            num_orders,
            concurrency,
            (connections - 1) as nat,
        )
    }
}

/// The number of orders that connection `index` of `concurrency` sends.
pub fn orders_for_connection(num_orders: usize, concurrency: usize, index: usize) -> (orders:
    usize)
    requires
        concurrency > 0,
    ensures
        orders == share_of_orders(num_orders as nat, concurrency as nat, index as nat),
{
    let orders_per_connection = num_orders / concurrency;
    let remainder = num_orders % concurrency;
    if index < remainder {
        proof {
            assert(orders_per_connection < num_orders) by (nonlinear_arith)
                requires
                    orders_per_connection == num_orders / concurrency,
                    remainder == num_orders % concurrency,
                    index < remainder,
                    concurrency > 0,
            ;
        }
        orders_per_connection + 1
    } else {
        orders_per_connection
    }
}

/// The first connections send the quotient each, and one more on as many of
/// them as the remainder reaches.
proof fn lemma_orders_of_first(num_orders: nat, concurrency: nat, connections: nat)
    requires
        concurrency > 0,
    ensures
        orders_of_first(num_orders, concurrency, connections) == connections * (num_orders
            / concurrency) + if connections <= num_orders % concurrency {
            connections
        } else {
            num_orders % concurrency
        },
    decreases connections,
{
    let q = num_orders / concurrency;
    if connections > 0 {
        let before = (connections - 1) as nat;
        lemma_orders_of_first(num_orders, concurrency, before);
        assert(connections * q == before * q + q) by (nonlinear_arith)
            requires
                connections == before + 1,
        ;
    } else {
        assert(connections * q == 0) by (nonlinear_arith)
            requires
                connections == 0,
        ;
    }
}

/// Spreading loses no order and adds none: the orders of all connections
/// together are the orders of the benchmark.
pub proof fn lemma_orders_are_spread(num_orders: nat, concurrency: nat)
    requires
        concurrency > 0,
    ensures
        orders_of_first(num_orders, concurrency, concurrency) == num_orders,
{
    lemma_orders_of_first(num_orders, concurrency, concurrency);
    lemma_fundamental_div_mod(num_orders as int, concurrency as int);
    let q = num_orders / concurrency;
    assert(concurrency * q == (concurrency as int) * (num_orders as int / concurrency as int));
}

/// The number of orders of each connection of a benchmark, connection by
/// connection. Together they are all orders of the benchmark.
pub fn spread_orders(num_orders: usize, concurrency: usize) -> (shares: Vec<usize>)
    requires
        concurrency > 0,
    ensures
        shares@.len() == concurrency,
        forall|i: int|
            0 <= i < concurrency ==> shares@[i] == share_of_orders(
                num_orders as nat,
                concurrency as nat,
                i as nat,
            ),
        orders_of_first(num_orders as nat, concurrency as nat, concurrency as nat) == num_orders,
{
    let mut shares: Vec<usize> = Vec::new();
    let mut i: usize = 0;
    while i < concurrency
        invariant
            i <= concurrency,
            concurrency > 0,
            shares@.len() == i,
            forall|j: int|
                0 <= j < i ==> shares@[j] == share_of_orders(
                    num_orders as nat,
                    concurrency as nat,
                    j as nat,
                ),
        decreases concurrency - i,
    {
        shares.push(orders_for_connection(num_orders, concurrency, i));
        i = i + 1;
    }
    proof {
        lemma_orders_are_spread(num_orders as nat, concurrency as nat);
    }
    shares
}

/// The side of the order with the number `order_index` on its connection:
/// to buy for even numbers, to sell for odd ones.
pub fn order_side(order_index: usize) -> (side: Side)
    ensures
        side == if order_index % 2 == 0 {
            Side::Buy
        } else {
            Side::Sell
        },
{
    if order_index % 2 == 0 {
        Side::Buy
    } else {
        Side::Sell
    }
}

/// The sequence number of the order with the number `order_index` on its
/// connection: the Logon has the number 1, the first order the number 2.
pub fn order_seq_num(order_index: usize) -> (seq: u32)
    requires
        order_index + 2 <= u32::MAX,
    ensures
        seq == order_index + 2,
{
    (order_index + 2) as u32
}

/// The pause between two connections of a benchmark that is limited to
/// `rate_limit` orders per second, in milliseconds; no pause where the rate
/// is 0, which stands for no limit.
pub fn rate_limit_period_ms(rate_limit: u64) -> (period: Option<u64>)
    ensures
        period == if rate_limit > 0 {
            Some((1000int / rate_limit as int) as u64)
        } else {
            None::<u64>
        },
{
    if rate_limit > 0 {
        Some(1000 / rate_limit)
    } else {
        None
    }
}

} // verus!
