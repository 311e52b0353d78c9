//! What writes cost: the balance left after mutations and transfers, in
//! nanos.

use vstd::prelude::*;

verus! {

/// Cost of one mutation, in nanos.
pub const COST_OF_PUT: u64 = 1;

/// The balance left when `mutation_count` mutations were paid and
/// `transferred_coins` were sent.
pub open spec fn spec_new_balance(
    balance: u64,
    mutation_count: Option<u64>,
    transferred_coins: Option<u64>,
) -> int {
    balance - (match mutation_count {
        Some(count) => count * COST_OF_PUT,
        None => 0,
    }) - (match transferred_coins {
        Some(coins) => coins as int,
        None => 0,
    })
}

/// The balance left after `mutation_count` mutations at the cost of a put
/// each, and after sending `transferred_coins`. The balance must cover
/// both.
pub fn calculate_new_balance(
    balance: u64,
    mutation_count: Option<u64>,
    transferred_coins: Option<u64>,
) -> (left: u64)
    requires
        spec_new_balance(balance, mutation_count, transferred_coins) >= 0,
    ensures
        left == spec_new_balance(balance, mutation_count, transferred_coins),
{
    let mut left: u64 = balance;
    if let Some(count) = mutation_count {
        left = left - count * COST_OF_PUT;
    }
    if let Some(coins) = transferred_coins {
        left = left - coins;
    }
    left
}

/// What `count` operations cost at `rate` nanos each; `None` where the cost
/// is more than 64 bits hold.
pub fn cost_at_rate(count: u64, rate: u64) -> (cost: Option<u64>)
    ensures
        match cost {
            Some(cost) => cost == count * rate,
            None => count * rate > u64::MAX,
        },
{
    count.checked_mul(rate)
}

/// The balance left as [`calculate_new_balance`] computes it, or `None`
/// where the balance does not cover mutations and transfer.
pub fn checked_new_balance(
    balance: u64,
    mutation_count: Option<u64>,
    transferred_coins: Option<u64>,
) -> (left: Option<u64>)
    ensures
        match left {
            Some(left) => left == spec_new_balance(balance, mutation_count, transferred_coins),
            None => spec_new_balance(balance, mutation_count, transferred_coins) < 0,
        },
{
    let spent: u64 = match mutation_count {
        Some(count) => count,
        None => 0,
    };
    let sent: u64 = match transferred_coins {
        Some(coins) => coins,
        None => 0,
    };
    if spent > balance || sent > balance - spent {
        None
    } else {
        Some(calculate_new_balance(balance, mutation_count, transferred_coins))
    }
}

} // verus!
