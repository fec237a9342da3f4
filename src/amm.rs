//! The AMM engine: pools keyed by market id, and the trading and liquidity operations
//! with their exact outcomes.

use vstd::prelude::*;

use crate::book::{self, balance_of, total};
use crate::ids::{Address, MarketId};
use crate::pool::{fee_for, reserves_fit, swap_out, AmmError, Pool, TradeRecord};

verus! {

/// Slippage tolerance set at initialization: 2%.
pub const DEFAULT_SLIPPAGE_PROTECTION_BPS: u32 = 200;

/// Trading fee set at initialization: 0.2%.
pub const DEFAULT_TRADING_FEE_BPS: u32 = 20;

/// How the AMM prices shares.
#[derive(Clone, Copy, Debug, PartialEq, Eq, Structural)]
pub enum PricingModel {
    /// `yes_reserve * no_reserve` is held across a trade.
    ConstantProduct,
}

/// The AMM's configuration record.
#[derive(Clone, Copy, Debug, PartialEq, Eq, Structural)]
pub struct AmmConfig {
    pub admin: Address,
    pub factory: Address,
    pub usdc_token: Address,
    pub max_liquidity_cap: u128,
    pub slippage_protection_bps: u32,
    pub trading_fee_bps: u32,
    pub pricing_model: PricingModel,
}

/// A read-only view of one pool.
#[derive(Clone, Copy, Debug, PartialEq, Eq, Structural)]
pub struct PoolState {
    pub yes_reserve: u128,
    pub no_reserve: u128,
    pub total_liquidity: u128,
    pub k: u128,
    pub lp_total_supply: u128,
    pub trade_count: usize,
}

/// The automated market maker: one constant-product pool per market.
///
/// Custody of the asset is the host's: on success, `create_pool`, `buy_shares` and
/// `add_liquidity` are owed their amount by the caller, and `sell_shares` and
/// `remove_liquidity` owe the caller what they return. A rejected call changes nothing.
/// Trading fees stay in custody outside the reserves; the trade log records each one.
#[derive(Debug)]
pub struct AMM {
    pub config: AmmConfig,
    pub pools: Vec<Pool>,
}

impl AMM {
    pub open spec fn wf(self) -> bool {
        &&& self.config.trading_fee_bps <= 10000
        &&& forall|i: int| 0 <= i < self.pools@.len() ==> #[trigger] self.pools@[i].wf()
        &&& forall|i: int, j: int|
            0 <= i < j < self.pools@.len() ==> #[trigger] self.pools@[i].market_id
                != #[trigger] self.pools@[j].market_id
    }

    pub open spec fn has_pool(self, market_id: MarketId) -> bool {
        exists|i: int| 0 <= i < self.pools@.len() && #[trigger] self.pools@[i].market_id == market_id
    }

    pub open spec fn pool_index(self, market_id: MarketId) -> int {
        choose|i: int| 0 <= i < self.pools@.len() && #[trigger] self.pools@[i].market_id == market_id
    }

    /// The pool of `market_id` (meaningful when `has_pool(market_id)`).
    pub open spec fn pool(self, market_id: MarketId) -> Pool {
        self.pools@[self.pool_index(market_id)]
    }

    /// `self` is `old` with at most the pool at index `i` changed, under the same market id.
    pub open spec fn only_pool_changed(self, old: AMM, i: int) -> bool {
        &&& self.config == old.config
        &&& self.pools@.len() == old.pools@.len()
        &&& self.pools@[i].market_id == old.pools@[i].market_id
        &&& forall|j: int|
            0 <= j < self.pools@.len() && j != i ==> #[trigger] self.pools@[j] == old.pools@[j]
    }

    pub open spec fn unchanged(self, old: AMM) -> bool {
        &&& self.config == old.config
        &&& self.pools@ == old.pools@
    }

    pub open spec fn create_pool_result(self, market_id: MarketId, seed: int) -> Result<
        (),
        AmmError,
    > {
        if seed == 0 {
            Err(AmmError::InvalidAmount)
        } else if self.has_pool(market_id) {
            Err(AmmError::AlreadyExists)
        } else if seed == 1 {
            Err(AmmError::AmountTooSmall)
        } else if !reserves_fit(seed / 2, seed - seed / 2) {
            Err(AmmError::Overflow)
        } else {
            Ok(())
        }
    }

    pub open spec fn buy_shares_result(
        self,
        buyer: Address,
        market_id: MarketId,
        outcome: u32,
        amount: int,
        min_shares: int,
    ) -> Result<u128, AmmError> {
        if outcome > 1 {
            Err(AmmError::InvalidOutcome)
        } else if amount == 0 {
            Err(AmmError::InvalidAmount)
        } else if !self.has_pool(market_id) {
            Err(AmmError::PoolNotFound)
        } else {
            self.pool(market_id).buy_result(
                self.config.trading_fee_bps as int,
                buyer,
                outcome,
                amount,
                min_shares,
            )
        }
    }

    pub open spec fn sell_shares_result(
        self,
        seller: Address,
        market_id: MarketId,
        outcome: u32,
        shares: int,
        min_payout: int,
    ) -> Result<u128, AmmError> {
        if outcome > 1 {
            Err(AmmError::InvalidOutcome)
        } else if shares == 0 {
            Err(AmmError::InvalidAmount)
        } else if !self.has_pool(market_id) {
            Err(AmmError::PoolNotFound)
        } else {
            self.pool(market_id).sell_result(
                self.config.trading_fee_bps as int,
                seller,
                outcome,
                shares,
                min_payout,
            )
        }
    }

    pub open spec fn add_liquidity_result(self, market_id: MarketId, amount: int) -> Result<
        u128,
        AmmError,
    > {
        if amount == 0 {
            Err(AmmError::InvalidAmount)
        } else if !self.has_pool(market_id) {
            Err(AmmError::PoolNotFound)
        } else {
            self.pool(market_id).add_result(self.config.max_liquidity_cap as int, amount)
        }
    }

    pub open spec fn remove_liquidity_result(
        self,
        provider: Address,
        market_id: MarketId,
        lp_tokens: int,
    ) -> Result<(u128, u128), AmmError> {
        if lp_tokens == 0 {
            Err(AmmError::InvalidAmount)
        } else if !self.has_pool(market_id) {
            Err(AmmError::PoolNotFound)
        } else {
            self.pool(market_id).remove_result(provider, lp_tokens)
        }
    }

    /// Replacing one well-formed pool by another of the same market keeps the AMM
    /// well-formed and every market where it was.
    pub proof fn lemma_replace_pool(old: AMM, new: AMM, i: int)
        requires
            old.wf(),
            0 <= i < old.pools@.len(),
            new.only_pool_changed(old, i),
            new.pools@[i].wf(),
        ensures
            new.wf(),
            forall|m: MarketId| #[trigger]
                new.has_pool(m) == old.has_pool(m) && (old.has_pool(m) ==> new.pool_index(m)
                    == old.pool_index(m)),
    {
        assert forall|m: MarketId| #[trigger]
            new.has_pool(m) == old.has_pool(m) && (old.has_pool(m) ==> new.pool_index(m)
                == old.pool_index(m)) by {
            if old.has_pool(m) {
                let j = old.pool_index(m);
                assert(new.pools@[j].market_id == m);
                let k = new.pool_index(m);
                assert(old.pools@[k].market_id == m);
            }
            if new.has_pool(m) {
                let k = new.pool_index(m);
                assert(old.pools@[k].market_id == m);
            }
        }
    }

    /// Sets up an AMM with no pools and the default fee and slippage settings.
    pub fn initialize(
        admin: Address,
        factory: Address,
        usdc_token: Address,
        max_liquidity_cap: u128,
    ) -> (r: AMM)
        ensures
            r.wf(),
            r.config == (AmmConfig {
                admin,
                factory,
                usdc_token,
                max_liquidity_cap,
                slippage_protection_bps: DEFAULT_SLIPPAGE_PROTECTION_BPS,
                trading_fee_bps: DEFAULT_TRADING_FEE_BPS,
                pricing_model: PricingModel::ConstantProduct,
            }),
            r.pools@.len() == 0,
    {
        AMM {
            config: AmmConfig {
                admin,
                factory,
                usdc_token,
                max_liquidity_cap,
                slippage_protection_bps: DEFAULT_SLIPPAGE_PROTECTION_BPS,
                trading_fee_bps: DEFAULT_TRADING_FEE_BPS,
                pricing_model: PricingModel::ConstantProduct,
            },
            pools: Vec::new(),
        }
    }

    /// The index of the pool of `market_id`, if there is one.
    fn find_pool(&self, market_id: &MarketId) -> (r: Option<usize>)
        requires
            self.wf(),
        ensures
            match r {
                Some(i) => self.has_pool(*market_id) && i == self.pool_index(*market_id),
                None => !self.has_pool(*market_id),
            },
    {
        let mut i: usize = 0;
        while i < self.pools.len()
            invariant
                self.wf(),
                i <= self.pools@.len(),
                forall|j: int| 0 <= j < i ==> #[trigger] self.pools@[j].market_id != *market_id,
            decreases self.pools@.len() - i,
        {
            if self.pools[i].market_id.same(market_id) {
                proof {
                    assert(self.has_pool(*market_id));
                    let k = self.pool_index(*market_id);
                    assert(self.pools@[k].market_id == *market_id);
                }
                return Some(i);
            }
            i = i + 1;
        }
        None
    }

    /// Opens the pool of `market_id` with `initial_liquidity`, split 50/50 (odd unit to NO);
    /// the creator receives `initial_liquidity` LP tokens. A seed of 1 would leave the YES
    /// reserve empty and is refused.
    pub fn create_pool(&mut self, creator: Address, market_id: MarketId, initial_liquidity: u128) -> (r:
        Result<(), AmmError>)
        requires
            old(self).wf(),
        ensures
            final(self).wf(),
            r == old(self).create_pool_result(market_id, initial_liquidity as int),
            r is Err ==> final(self).unchanged(*old(self)),
            r is Ok ==> {
                &&& final(self).config == old(self).config
                &&& final(self).pools@.len() == old(self).pools@.len() + 1
                &&& final(self).pools@.drop_last() == old(self).pools@
                &&& final(self).pools@.last().seeded(market_id, creator, initial_liquidity as int)
                &&& final(self).pools@.last().lp_total_supply == total(
                    final(self).pools@.last().lp_balances@,
                )
            },
    {
        if initial_liquidity == 0 {
            return Err(AmmError::InvalidAmount);
        }
        if self.find_pool(&market_id).is_some() {
            return Err(AmmError::AlreadyExists);
        }
        if initial_liquidity == 1 {
            return Err(AmmError::AmountTooSmall);
        }
        let yes = initial_liquidity / 2;
        let no = initial_liquidity - yes;
        if yes.checked_mul(no).is_none() {
            return Err(AmmError::Overflow);
        }
        let pool = Pool::seed(market_id, creator, initial_liquidity);
        let ghost old_pools = self.pools@;
        self.pools.push(pool);
        proof {
            assert(self.pools@.drop_last() =~= old_pools);
            assert forall|i: int, j: int|
                0 <= i < j < self.pools@.len() implies #[trigger] self.pools@[i].market_id
                != #[trigger] self.pools@[j].market_id by {
                if j == old_pools.len() {
                    assert(old_pools[i].market_id != market_id);
                }
            }
        }
        Ok(())
    }

    /// Buys `outcome` shares of `market_id` for `amount` (fee included), at no fewer than
    /// `min_shares`.
    pub fn buy_shares(
        &mut self,
        now: u64,
        buyer: Address,
        market_id: MarketId,
        outcome: u32,
        amount: u128,
        min_shares: u128,
    ) -> (r: Result<u128, AmmError>)
        requires
            old(self).wf(),
        ensures
            final(self).wf(),
            r == old(self).buy_shares_result(
                buyer,
                market_id,
                outcome,
                amount as int,
                min_shares as int,
            ),
            r is Err ==> final(self).unchanged(*old(self)),
            r matches Ok(s) ==> {
                &&& final(self).only_pool_changed(*old(self), old(self).pool_index(market_id))
                &&& final(self).pool(market_id).bought(
                    old(self).pool(market_id),
                    buyer,
                    outcome,
                    amount as int,
                    fee_for(amount as int, old(self).config.trading_fee_bps as int),
                    s as int,
                    now,
                )
            },
    {
        if outcome > 1 {
            return Err(AmmError::InvalidOutcome);
        }
        if amount == 0 {
            return Err(AmmError::InvalidAmount);
        }
        let i = match self.find_pool(&market_id) {
            Some(i) => i,
            None => return Err(AmmError::PoolNotFound),
        };
        let fee_bps = self.config.trading_fee_bps;
        let ghost old_self = *self;
        let r = self.pools[i].buy(fee_bps, now, buyer, outcome, amount, min_shares);
        proof {
            if r is Err {
                assert(self.pools@ =~= old_self.pools@);
            } else {
                Self::lemma_replace_pool(old_self, *self, i as int);
            }
        }
        r
    }

    /// Sells `shares` of `outcome` of `market_id` back to the pool, for no less than
    /// `min_payout` after the fee.
    pub fn sell_shares(
        &mut self,
        now: u64,
        seller: Address,
        market_id: MarketId,
        outcome: u32,
        shares: u128,
        min_payout: u128,
    ) -> (r: Result<u128, AmmError>)
        requires
            old(self).wf(),
        ensures
            final(self).wf(),
            r == old(self).sell_shares_result(
                seller,
                market_id,
                outcome,
                shares as int,
                min_payout as int,
            ),
            r is Err ==> final(self).unchanged(*old(self)),
            r is Ok ==> {
                let p = old(self).pool(market_id);
                let gross = swap_out(shares as int, p.reserve_of(outcome), p.reserve_against(outcome));
                &&& final(self).only_pool_changed(*old(self), old(self).pool_index(market_id))
                &&& final(self).pool(market_id).sold(
                    p,
                    seller,
                    outcome,
                    shares as int,
                    gross,
                    fee_for(gross, old(self).config.trading_fee_bps as int),
                    now,
                )
            },
    {
        if outcome > 1 {
            return Err(AmmError::InvalidOutcome);
        }
        if shares == 0 {
            return Err(AmmError::InvalidAmount);
        }
        let i = match self.find_pool(&market_id) {
            Some(i) => i,
            None => return Err(AmmError::PoolNotFound),
        };
        let fee_bps = self.config.trading_fee_bps;
        let ghost old_self = *self;
        let r = self.pools[i].sell(fee_bps, now, seller, outcome, shares, min_payout);
        proof {
            if r is Err {
                assert(self.pools@ =~= old_self.pools@);
            } else {
                Self::lemma_replace_pool(old_self, *self, i as int);
            }
        }
        r
    }

    /// Deposits `amount` into the pool of `market_id` and mints LP tokens to `provider`.
    pub fn add_liquidity(&mut self, provider: Address, market_id: MarketId, amount: u128) -> (r:
        Result<u128, AmmError>)
        requires
            old(self).wf(),
        ensures
            final(self).wf(),
            r == old(self).add_liquidity_result(market_id, amount as int),
            r is Err ==> final(self).unchanged(*old(self)),
            r matches Ok(m) ==> {
                &&& final(self).only_pool_changed(*old(self), old(self).pool_index(market_id))
                &&& final(self).pool(market_id).added(
                    old(self).pool(market_id),
                    provider,
                    amount as int,
                    m as int,
                )
            },
    {
        if amount == 0 {
            return Err(AmmError::InvalidAmount);
        }
        let i = match self.find_pool(&market_id) {
            Some(i) => i,
            None => return Err(AmmError::PoolNotFound),
        };
        let cap = self.config.max_liquidity_cap;
        let ghost old_self = *self;
        let r = self.pools[i].add(cap, provider, amount);
        proof {
            if r is Err {
                assert(self.pools@ =~= old_self.pools@);
            } else {
                Self::lemma_replace_pool(old_self, *self, i as int);
            }
        }
        r
    }

    /// Burns `lp_tokens` of `provider` in the pool of `market_id`; returns the YES and NO
    /// amounts they redeem, owed to the provider together.
    pub fn remove_liquidity(&mut self, provider: Address, market_id: MarketId, lp_tokens: u128) -> (r:
        Result<(u128, u128), AmmError>)
        requires
            old(self).wf(),
        ensures
            final(self).wf(),
            r == old(self).remove_liquidity_result(provider, market_id, lp_tokens as int),
            r is Err ==> final(self).unchanged(*old(self)),
            r matches Ok((y, n)) ==> {
                &&& final(self).only_pool_changed(*old(self), old(self).pool_index(market_id))
                &&& final(self).pool(market_id).removed(
                    old(self).pool(market_id),
                    provider,
                    lp_tokens as int,
                    y as int,
                    n as int,
                )
            },
    {
        if lp_tokens == 0 {
            return Err(AmmError::InvalidAmount);
        }
        let i = match self.find_pool(&market_id) {
            Some(i) => i,
            None => return Err(AmmError::PoolNotFound),
        };
        let ghost old_self = *self;
        let r = self.pools[i].remove(provider, lp_tokens);
        proof {
            if r is Err {
                assert(self.pools@ =~= old_self.pools@);
            } else {
                Self::lemma_replace_pool(old_self, *self, i as int);
            }
        }
        r
    }

    /// Reserves, total liquidity, `k`, LP supply and trade count of the pool of `market_id`.
    pub fn get_pool_state(&self, market_id: MarketId) -> (r: Result<PoolState, AmmError>)
        requires
            self.wf(),
        ensures
            !self.has_pool(market_id) ==> r == Err::<PoolState, AmmError>(AmmError::PoolNotFound),
            self.has_pool(market_id) ==> r == Ok::<PoolState, AmmError>(
                PoolState {
                    yes_reserve: self.pool(market_id).yes_reserve,
                    no_reserve: self.pool(market_id).no_reserve,
                    total_liquidity: (self.pool(market_id).yes_reserve
                        + self.pool(market_id).no_reserve) as u128,
                    k: self.pool(market_id).k,
                    lp_total_supply: self.pool(market_id).lp_total_supply,
                    trade_count: self.pool(market_id).trades@.len() as usize,
                },
            ),
    {
        let i = match self.find_pool(&market_id) {
            Some(i) => i,
            None => return Err(AmmError::PoolNotFound),
        };
        let p = &self.pools[i];
        proof {
            assert(self.pools@[i as int].wf());
        }
        Ok(
            PoolState {
                yes_reserve: p.yes_reserve,
                no_reserve: p.no_reserve,
                total_liquidity: p.yes_reserve + p.no_reserve,
                k: p.k,
                lp_total_supply: p.lp_total_supply,
                trade_count: p.trades.len(),
            },
        )
    }

    /// Each outcome's share of the pool's liquidity, in basis points (rounded down).
    pub fn get_odds(&self, market_id: MarketId) -> (r: Result<(u128, u128), AmmError>)
        requires
            self.wf(),
        ensures
            !self.has_pool(market_id) ==> r == Err::<(u128, u128), AmmError>(
                AmmError::PoolNotFound,
            ),
            self.has_pool(market_id) ==> {
                let p = self.pool(market_id);
                let t = p.yes_reserve + p.no_reserve;
                if p.yes_reserve * 10000 > u128::MAX || p.no_reserve * 10000 > u128::MAX {
                    r == Err::<(u128, u128), AmmError>(AmmError::Overflow)
                } else {
                    r == Ok::<(u128, u128), AmmError>(
                        ((p.yes_reserve * 10000 / t) as u128, (p.no_reserve * 10000 / t) as u128),
                    )
                }
            },
    {
        let i = match self.find_pool(&market_id) {
            Some(i) => i,
            None => return Err(AmmError::PoolNotFound),
        };
        let p = &self.pools[i];
        proof {
            assert(self.pools@[i as int].wf());
        }
        let t = p.yes_reserve + p.no_reserve;
        let y = match p.yes_reserve.checked_mul(10000) {
            Some(v) => v,
            None => return Err(AmmError::Overflow),
        };
        let n = match p.no_reserve.checked_mul(10000) {
            Some(v) => v,
            None => return Err(AmmError::Overflow),
        };
        Ok((y / t, n / t))
    }

    /// The LP tokens that `provider` holds in the pool of `market_id` (zero without a pool).
    pub fn get_lp_balance(&self, provider: Address, market_id: MarketId) -> (r: u128)
        requires
            self.wf(),
        ensures
            r == if self.has_pool(market_id) {
                balance_of(self.pool(market_id).lp_balances@, provider)
            } else {
                0
            },
    {
        match self.find_pool(&market_id) {
            Some(i) => {
                proof {
                    assert(self.pools@[i as int].wf());
                }
                book::balance(&self.pools[i].lp_balances, provider)
            },
            None => 0,
        }
    }

    /// The YES and NO shares that `user` holds in `market_id` (zero without a pool).
    pub fn get_user_shares(&self, user: Address, market_id: MarketId) -> (r: (u128, u128))
        requires
            self.wf(),
        ensures
            r == if self.has_pool(market_id) {
                (
                    balance_of(self.pool(market_id).yes_shares@, user) as u128,
                    balance_of(self.pool(market_id).no_shares@, user) as u128,
                )
            } else {
                (0u128, 0u128)
            },
    {
        match self.find_pool(&market_id) {
            Some(i) => {
                let p = &self.pools[i];
                proof {
                    assert(self.pools@[i as int].wf());
                }
                (book::balance(&p.yes_shares, user), book::balance(&p.no_shares, user))
            },
            None => (0, 0),
        }
    }

    /// Entry `index` of the trade log of `market_id`, if it exists.
    pub fn get_trade(&self, market_id: MarketId, index: usize) -> (r: Option<TradeRecord>)
        requires
            self.wf(),
        ensures
            r == if self.has_pool(market_id) && index < self.pool(market_id).trades@.len() {
                Some(self.pool(market_id).trades@[index as int])
            } else {
                None::<TradeRecord>
            },
    {
        match self.find_pool(&market_id) {
            Some(i) => {
                if index < self.pools[i].trades.len() {
                    Some(self.pools[i].trades[index])
                } else {
                    None
                }
            },
            None => None,
        }
    }

    /// Up to `limit` entries of the trade log of `market_id`, newest first, skipping the
    /// `offset` newest (empty without a pool).
    pub fn get_trade_history(&self, market_id: MarketId, offset: usize, limit: usize) -> (r: Vec<
        TradeRecord,
    >)
        requires
            self.wf(),
        ensures
            !self.has_pool(market_id) ==> r@.len() == 0,
            self.has_pool(market_id) ==> {
                let t = self.pool(market_id).trades@;
                let n = if offset >= t.len() {
                    0
                } else if t.len() - offset < limit {
                    t.len() - offset
                } else {
                    limit as int
                };
                &&& r@.len() == n
                &&& forall|i: int| 0 <= i < n ==> #[trigger] r@[i] == t[t.len() - 1 - offset - i]
            },
    {
        let mut out: Vec<TradeRecord> = Vec::new();
        let i = match self.find_pool(&market_id) {
            Some(i) => i,
            None => return out,
        };
        let trades = &self.pools[i].trades;
        let len = trades.len();
        if offset >= len {
            return out;
        }
        let n = if len - offset < limit {
            len - offset
        } else {
            limit
        };
        let mut k: usize = 0;
        while k < n
            invariant
                k <= n,
                n <= len - offset,
                offset < len,
                len == trades@.len(),
                out@.len() == k,
                forall|j: int| 0 <= j < k ==> #[trigger] out@[j] == trades@[len - 1 - offset - j],
            decreases n - k,
        {
            out.push(trades[len - 1 - offset - k]);
            k = k + 1;
        }
        out
    }
}

} // verus!
