//! Properties of the AMM that hold across operations.

use vstd::arithmetic::div_mod::{
    lemma_div_is_ordered, lemma_div_multiples_vanish, lemma_fundamental_div_mod,
};
use vstd::prelude::*;

use crate::amm::AMM;
use crate::book::total;
use crate::ids::{Address, MarketId};
use crate::pool::{fee_for, swap_out, AmmError, Pool};

verus! {

/// Every pool of a well-formed AMM has both reserves above zero. Every operation of
/// `AMM` keeps it well-formed, so this holds after any sequence of successful (or
/// rejected) trades and liquidity changes.
pub proof fn lemma_reserves_stay_positive(amm: AMM, market_id: MarketId)
    requires
        amm.wf(),
        amm.has_pool(market_id),
    ensures
        amm.pool(market_id).yes_reserve > 0,
        amm.pool(market_id).no_reserve > 0,
{
    let i = amm.pool_index(market_id);
    assert(amm.pools@[i].wf());
}

/// In every pool of a well-formed AMM the LP supply is the sum of all LP balances.
pub proof fn lemma_lp_supply_is_sum_of_balances(amm: AMM, market_id: MarketId)
    requires
        amm.wf(),
        amm.has_pool(market_id),
    ensures
        amm.pool(market_id).lp_total_supply == total(amm.pool(market_id).lp_balances@),
{
    let i = amm.pool_index(market_id);
    assert(amm.pools@[i].wf());
}

/// Depositing `amount` and at once redeeming exactly the minted LP tokens returns no
/// more than `amount` in all: only rounding is lost, never gained.
pub proof fn lemma_add_then_remove_returns_at_most_deposit(
    before: AMM,
    between: AMM,
    provider: Address,
    market_id: MarketId,
    amount: u128,
    minted: u128,
    yes_out: u128,
    no_out: u128,
)
    requires
        before.wf(),
        before.add_liquidity_result(market_id, amount as int) == Ok::<u128, AmmError>(minted),
        between.only_pool_changed(before, before.pool_index(market_id)),
        between.pool(market_id).added(
            before.pool(market_id),
            provider,
            amount as int,
            minted as int,
        ),
        between.remove_liquidity_result(provider, market_id, minted as int) == Ok::<
            (u128, u128),
            AmmError,
        >((yes_out, no_out)),
    ensures
        yes_out + no_out <= amount,
{
    let pool_before = before.pool(market_id);
    let pool_between = between.pool(market_id);
    assert(pool_before.wf());
    let a = amount as int;
    let s = pool_before.lp_total_supply as int;
    let t = pool_before.yes_reserve + pool_before.no_reserve;
    let m = minted as int;
    let ya = pool_before.yes_part(a);
    let s1 = pool_between.lp_total_supply as int;
    // The minted amount is rounded down: m * t <= a * s.
    lemma_fundamental_div_mod(a * s, t);
    assert(m * t <= a * s) by (nonlinear_arith)
        requires
            m == (a * s) / t,
            a * s == t * ((a * s) / t) + (a * s) % t,
            0 <= (a * s) % t,
    ;
    assert(m * (t + a) <= a * s1) by (nonlinear_arith)
        requires
            m * t <= a * s,
            s1 == s + m,
    ;
    let yn = m * pool_between.yes_reserve;
    let nn = m * pool_between.no_reserve;
    assert(yn + nn == m * (t + a)) by (nonlinear_arith)
        requires
            yn == m * pool_between.yes_reserve,
            nn == m * pool_between.no_reserve,
            pool_between.yes_reserve == pool_before.yes_reserve + ya,
            pool_between.no_reserve == pool_before.no_reserve + (a - ya),
            t == pool_before.yes_reserve + pool_before.no_reserve,
    ;
    assert(0 <= yn && 0 <= nn) by (nonlinear_arith)
        requires
            yn == m * pool_between.yes_reserve,
            nn == m * pool_between.no_reserve,
            0 <= m,
            0 <= pool_between.yes_reserve,
            0 <= pool_between.no_reserve,
    ;
    assert(s1 > 0);
    crate::math::lemma_div_sum_le(yn, nn, s1);
    lemma_div_is_ordered(m * (t + a), a * s1, s1);
    assert(a * s1 == s1 * a) by (nonlinear_arith);
    lemma_div_multiples_vanish(a, s1);
}

/// A buy of `amount` at `fee_bps` logs exactly `amount` as paid by the buyer and its fee
/// `amount * fee_bps / 10000`, and grows the two reserves together by `amount` less that
/// fee, less the shares paid out of the bought side.
pub proof fn lemma_buy_moves_amount_less_fee(
    before: Pool,
    after: Pool,
    buyer: Address,
    outcome: u32,
    amount: u128,
    fee_bps: u32,
    shares: u128,
    now: u64,
)
    requires
        before.wf(),
        fee_bps <= 10000,
        outcome <= 1,
        after.bought(
            before,
            buyer,
            outcome,
            amount as int,
            fee_for(amount as int, fee_bps as int),
            shares as int,
            now,
        ),
    ensures
        0 <= fee_for(amount as int, fee_bps as int) <= amount,
        after.trades@.last().amount == amount,
        after.trades@.last().fee == fee_for(amount as int, fee_bps as int),
        after.yes_reserve + after.no_reserve == before.yes_reserve + before.no_reserve + (amount
            - fee_for(amount as int, fee_bps as int)) - shares,
{
    crate::math::lemma_scaled_le(fee_bps as int, 10000, amount as int);
    assert(amount * fee_bps == fee_bps * amount) by (nonlinear_arith);
}

/// A buy at the constant-product price never lowers `yes_reserve * no_reserve`.
pub proof fn lemma_buy_keeps_product(
    before: Pool,
    after: Pool,
    buyer: Address,
    outcome: u32,
    amount: u128,
    fee: int,
    now: u64,
)
    requires
        before.wf(),
        outcome <= 1,
        0 <= fee <= amount,
        after.bought(
            before,
            buyer,
            outcome,
            amount as int,
            fee,
            swap_out(amount - fee, before.reserve_against(outcome), before.reserve_of(outcome)),
            now,
        ),
    ensures
        after.yes_reserve * after.no_reserve >= before.yes_reserve * before.no_reserve,
{
    let x = before.reserve_against(outcome);
    let y = before.reserve_of(outcome);
    let net = amount - fee;
    let d = x + net;
    let s = swap_out(net, x, y);
    lemma_fundamental_div_mod(net * y, d);
    assert(d * s <= net * y) by (nonlinear_arith)
        requires
            s == (net * y) / d,
            net * y == d * ((net * y) / d) + (net * y) % d,
            0 <= (net * y) % d,
    ;
    assert(d * (y - s) >= x * y) by (nonlinear_arith)
        requires
            d * s <= net * y,
            d == x + net,
    ;
    assert(after.reserve_against(outcome) * after.reserve_of(outcome) == d * (y - s));
    assert(after.yes_reserve * after.no_reserve == after.reserve_against(outcome)
        * after.reserve_of(outcome)) by (nonlinear_arith)
        requires
            outcome == 1 ==> after.reserve_of(outcome) == after.yes_reserve
                && after.reserve_against(outcome) == after.no_reserve,
            outcome != 1 ==> after.reserve_of(outcome) == after.no_reserve
                && after.reserve_against(outcome) == after.yes_reserve,
    ;
    assert(before.yes_reserve * before.no_reserve == x * y) by (nonlinear_arith)
        requires
            outcome == 1 ==> y == before.yes_reserve && x == before.no_reserve,
            outcome != 1 ==> y == before.no_reserve && x == before.yes_reserve,
    ;
}

} // verus!
