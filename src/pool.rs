//! One constant-product YES/NO pool and the pricing rules on it.

use vstd::prelude::*;

use crate::book::{self, balance_of, book_wf, total, Balance};
use crate::ids::{Address, MarketId};
use crate::math::{lemma_scaled_below, lemma_scaled_le, portion};

verus! {

/// Basis points in one whole.
pub const BPS_SCALE: u128 = 10_000;

/// Why an AMM operation was rejected. A rejected operation changes nothing.
#[derive(Clone, Copy, Debug, PartialEq, Eq, Structural)]
pub enum AmmError {
    /// A zero amount (seed, trade, deposit or LP tokens).
    InvalidAmount,
    /// An outcome other than 0 (NO) or 1 (YES).
    InvalidOutcome,
    /// A pool already exists for the market.
    AlreadyExists,
    /// No pool exists for the market.
    PoolNotFound,
    /// The trade would give less than the caller's floor.
    SlippageExceeded,
    /// The deposit or withdrawal rounds down to zero.
    AmountTooSmall,
    /// The deposit would take the pool above the configured cap.
    MaxLiquidityExceeded,
    /// The provider holds fewer LP tokens than asked for.
    InsufficientLpTokens,
    /// The seller holds fewer shares than offered.
    InsufficientShares,
    /// The withdrawal would empty a reserve.
    PoolDrainForbidden,
    /// A quantity would not fit in 128 bits.
    Overflow,
}

/// Direction of a trade against a pool.
#[derive(Clone, Copy, Debug, PartialEq, Eq, Structural)]
pub enum TradeSide {
    Buy,
    Sell,
}

/// One entry of a pool's append-only trade log.
///
/// `amount` is the gross value moved (paid in on a buy, taken from the reserves on a
/// sell); `fee` is the part of it kept outside the reserves.
#[derive(Clone, Copy, Debug, PartialEq, Eq, Structural)]
pub struct TradeRecord {
    pub trader: Address,
    pub side: TradeSide,
    pub outcome: u32,
    pub shares: u128,
    pub amount: u128,
    pub fee: u128,
    pub timestamp: u64,
}

/// The fee on `amount` at `fee_bps` basis points, rounded down.
pub open spec fn fee_for(amount: int, fee_bps: int) -> int {
    amount * fee_bps / 10000
}

/// Constant-product swap: what leaves the `reserve_out` side when `amount_in` enters the
/// `reserve_in` side, rounded down.
pub open spec fn swap_out(amount_in: int, reserve_in: int, reserve_out: int) -> int {
    amount_in * reserve_out / (reserve_in + amount_in)
}

/// Both the product and the sum of two reserves fit in 128 bits.
pub open spec fn reserves_fit(yes: int, no: int) -> bool {
    yes * no <= u128::MAX && yes + no <= u128::MAX
}

/// The YES/NO liquidity pool of one market.
#[derive(Debug)]
pub struct Pool {
    pub market_id: MarketId,
    pub yes_reserve: u128,
    pub no_reserve: u128,
    /// `yes_reserve * no_reserve`, kept after every change of the reserves.
    pub k: u128,
    pub lp_total_supply: u128,
    pub lp_balances: Vec<Balance>,
    pub yes_shares: Vec<Balance>,
    pub no_shares: Vec<Balance>,
    pub trades: Vec<TradeRecord>,
}

impl Pool {
    pub open spec fn wf(self) -> bool {
        &&& self.yes_reserve > 0
        &&& self.no_reserve > 0
        &&& reserves_fit(self.yes_reserve as int, self.no_reserve as int)
        &&& self.k == self.yes_reserve * self.no_reserve
        &&& self.lp_total_supply > 0
        &&& self.lp_total_supply == total(self.lp_balances@)
        &&& book_wf(self.lp_balances@)
        &&& book_wf(self.yes_shares@)
        &&& book_wf(self.no_shares@)
    }

    /// The reserve of `outcome`: what a buyer of that outcome draws from.
    pub open spec fn reserve_of(self, outcome: u32) -> int {
        if outcome == 1 {
            self.yes_reserve as int
        } else {
            self.no_reserve as int
        }
    }

    /// The reserve of the other outcome: where a buyer's payment goes.
    pub open spec fn reserve_against(self, outcome: u32) -> int {
        if outcome == 1 {
            self.no_reserve as int
        } else {
            self.yes_reserve as int
        }
    }

    /// Holders' shares of `outcome`.
    pub open spec fn shares_of(self, outcome: u32) -> Seq<Balance> {
        if outcome == 1 {
            self.yes_shares@
        } else {
            self.no_shares@
        }
    }

    /// Holders' shares of the other outcome.
    pub open spec fn shares_against(self, outcome: u32) -> Seq<Balance> {
        if outcome == 1 {
            self.no_shares@
        } else {
            self.yes_shares@
        }
    }

    /// The pool that a seed of `seed` opens: odd remainder to NO, all LP tokens to the creator.
    pub open spec fn seeded(self, market_id: MarketId, creator: Address, seed: int) -> bool {
        &&& self.market_id == market_id
        &&& self.yes_reserve == seed / 2
        &&& self.no_reserve == seed - seed / 2
        &&& self.lp_total_supply == seed
        &&& forall|w: Address| #[trigger]
            balance_of(self.lp_balances@, w) == if w == creator {
                seed
            } else {
                0
            }
        &&& self.yes_shares@.len() == 0
        &&& self.no_shares@.len() == 0
        &&& self.trades@.len() == 0
    }

    /// What a buy returns, or why it is rejected (outcome and amount already checked).
    pub open spec fn buy_result(
        self,
        fee_bps: int,
        buyer: Address,
        outcome: u32,
        amount: int,
        min_shares: int,
    ) -> Result<u128, AmmError> {
        let net = amount - fee_for(amount, fee_bps);
        let x = self.reserve_against(outcome);
        let y = self.reserve_of(outcome);
        if net * y > u128::MAX || x + net > u128::MAX {
            Err(AmmError::Overflow)
        } else {
            let s = swap_out(net, x, y);
            if s < min_shares {
                Err(AmmError::SlippageExceeded)
            } else if !reserves_fit(x + net, y - s) || balance_of(self.shares_of(outcome), buyer)
                + s > u128::MAX {
                Err(AmmError::Overflow)
            } else {
                Ok(s as u128)
            }
        }
    }

    /// `self` is `old` after `buyer` paid `amount` (of which `fee` is kept aside) for
    /// `shares` of `outcome`.
    pub open spec fn bought(
        self,
        old: Pool,
        buyer: Address,
        outcome: u32,
        amount: int,
        fee: int,
        shares: int,
        now: u64,
    ) -> bool {
        &&& self.market_id == old.market_id
        &&& self.reserve_against(outcome) == old.reserve_against(outcome) + (amount - fee)
        &&& self.reserve_of(outcome) == old.reserve_of(outcome) - shares
        &&& self.lp_total_supply == old.lp_total_supply
        &&& self.lp_balances@ == old.lp_balances@
        &&& forall|w: Address| #[trigger]
            balance_of(self.shares_of(outcome), w) == balance_of(old.shares_of(outcome), w) + if w
                == buyer {
                shares
            } else {
                0
            }
        &&& self.shares_against(outcome) == old.shares_against(outcome)
        &&& self.trades@ == old.trades@.push(
            TradeRecord {
                trader: buyer,
                side: TradeSide::Buy,
                outcome,
                shares: shares as u128,
                amount: amount as u128,
                fee: fee as u128,
                timestamp: now,
            },
        )
    }

    /// What a sale pays out, or why it is rejected (outcome and amount already checked).
    pub open spec fn sell_result(
        self,
        fee_bps: int,
        seller: Address,
        outcome: u32,
        shares: int,
        min_payout: int,
    ) -> Result<u128, AmmError> {
        let y = self.reserve_of(outcome);
        let x = self.reserve_against(outcome);
        if balance_of(self.shares_of(outcome), seller) < shares {
            Err(AmmError::InsufficientShares)
        } else if shares * x > u128::MAX || y + shares > u128::MAX {
            Err(AmmError::Overflow)
        } else {
            let gross = swap_out(shares, y, x);
            let payout = gross - fee_for(gross, fee_bps);
            if payout < min_payout {
                Err(AmmError::SlippageExceeded)
            } else if !reserves_fit(y + shares, x - gross) {
                Err(AmmError::Overflow)
            } else {
                Ok(payout as u128)
            }
        }
    }

    /// `self` is `old` after `seller` returned `shares` of `outcome` for `gross` taken from
    /// the other reserve, of which `fee` is kept aside.
    pub open spec fn sold(
        self,
        old: Pool,
        seller: Address,
        outcome: u32,
        shares: int,
        gross: int,
        fee: int,
        now: u64,
    ) -> bool {
        &&& self.market_id == old.market_id
        &&& self.reserve_of(outcome) == old.reserve_of(outcome) + shares
        &&& self.reserve_against(outcome) == old.reserve_against(outcome) - gross
        &&& self.lp_total_supply == old.lp_total_supply
        &&& self.lp_balances@ == old.lp_balances@
        &&& forall|w: Address| #[trigger]
            balance_of(self.shares_of(outcome), w) == balance_of(old.shares_of(outcome), w) - if w
                == seller {
                shares
            } else {
                0
            }
        &&& self.shares_against(outcome) == old.shares_against(outcome)
        &&& self.trades@ == old.trades@.push(
            TradeRecord {
                trader: seller,
                side: TradeSide::Sell,
                outcome,
                shares: shares as u128,
                amount: gross as u128,
                fee: fee as u128,
                timestamp: now,
            },
        )
    }

    /// LP tokens that a deposit of `amount` mints.
    pub open spec fn lp_for_deposit(self, amount: int) -> int {
        amount * self.lp_total_supply / (self.yes_reserve + self.no_reserve)
    }

    /// The YES part of a deposit of `amount`, in the pool's current ratio.
    pub open spec fn yes_part(self, amount: int) -> int {
        amount * self.yes_reserve / (self.yes_reserve + self.no_reserve)
    }

    /// LP tokens that a deposit mints, or why it is rejected (amount already checked).
    pub open spec fn add_result(self, cap: int, amount: int) -> Result<u128, AmmError> {
        let t = self.yes_reserve + self.no_reserve;
        if amount * self.lp_total_supply > u128::MAX {
            Err(AmmError::Overflow)
        } else if self.lp_for_deposit(amount) == 0 {
            Err(AmmError::AmountTooSmall)
        } else if amount * self.yes_reserve > u128::MAX {
            Err(AmmError::Overflow)
        } else if !reserves_fit(
            self.yes_reserve + self.yes_part(amount),
            self.no_reserve + (amount - self.yes_part(amount)),
        ) {
            Err(AmmError::Overflow)
        } else if t + amount > cap {
            Err(AmmError::MaxLiquidityExceeded)
        } else if self.lp_total_supply + self.lp_for_deposit(amount) > u128::MAX {
            Err(AmmError::Overflow)
        } else {
            Ok(self.lp_for_deposit(amount) as u128)
        }
    }

    /// `self` is `old` after `provider` deposited `amount` and received `minted` LP tokens.
    pub open spec fn added(self, old: Pool, provider: Address, amount: int, minted: int) -> bool {
        &&& self.market_id == old.market_id
        &&& self.yes_reserve == old.yes_reserve + old.yes_part(amount)
        &&& self.no_reserve == old.no_reserve + (amount - old.yes_part(amount))
        &&& self.lp_total_supply == old.lp_total_supply + minted
        &&& forall|w: Address| #[trigger]
            balance_of(self.lp_balances@, w) == balance_of(old.lp_balances@, w) + if w
                == provider {
                minted
            } else {
                0
            }
        &&& self.yes_shares@ == old.yes_shares@
        &&& self.no_shares@ == old.no_shares@
        &&& self.trades@ == old.trades@
    }

    /// The YES amount that `lp_tokens` redeem.
    pub open spec fn yes_for_lp(self, lp_tokens: int) -> int {
        lp_tokens * self.yes_reserve / self.lp_total_supply as int
    }

    /// The NO amount that `lp_tokens` redeem.
    pub open spec fn no_for_lp(self, lp_tokens: int) -> int {
        lp_tokens * self.no_reserve / self.lp_total_supply as int
    }

    /// What a withdrawal pays out, or why it is rejected (amount already checked).
    pub open spec fn remove_result(self, provider: Address, lp_tokens: int) -> Result<
        (u128, u128),
        AmmError,
    > {
        if balance_of(self.lp_balances@, provider) < lp_tokens {
            Err(AmmError::InsufficientLpTokens)
        } else if lp_tokens * self.yes_reserve > u128::MAX || lp_tokens * self.no_reserve
            > u128::MAX {
            Err(AmmError::Overflow)
        } else if self.yes_for_lp(lp_tokens) == 0 || self.no_for_lp(lp_tokens) == 0 {
            Err(AmmError::AmountTooSmall)
        } else if self.yes_for_lp(lp_tokens) == self.yes_reserve || self.no_for_lp(lp_tokens)
            == self.no_reserve {
            Err(AmmError::PoolDrainForbidden)
        } else {
            Ok((self.yes_for_lp(lp_tokens) as u128, self.no_for_lp(lp_tokens) as u128))
        }
    }

    /// `self` is `old` after `provider` burned `lp_tokens` for `yes_out` and `no_out`.
    pub open spec fn removed(
        self,
        old: Pool,
        provider: Address,
        lp_tokens: int,
        yes_out: int,
        no_out: int,
    ) -> bool {
        &&& self.market_id == old.market_id
        &&& self.yes_reserve == old.yes_reserve - yes_out
        &&& self.no_reserve == old.no_reserve - no_out
        &&& self.lp_total_supply == old.lp_total_supply - lp_tokens
        &&& forall|w: Address| #[trigger]
            balance_of(self.lp_balances@, w) == balance_of(old.lp_balances@, w) - if w
                == provider {
                lp_tokens
            } else {
                0
            }
        &&& self.yes_shares@ == old.yes_shares@
        &&& self.no_shares@ == old.no_shares@
        &&& self.trades@ == old.trades@
    }

    /// Opens a pool with a seed of `seed`.
    pub fn seed(market_id: MarketId, creator: Address, seed: u128) -> (r: Pool)
        requires
            seed >= 2,
            reserves_fit((seed / 2) as int, (seed - seed / 2) as int),
        ensures
            r.wf(),
            r.seeded(market_id, creator, seed as int),
    {
        let yes = seed / 2;
        let no = seed - yes;
        let mut lp_balances: Vec<Balance> = Vec::new();
        book::credit(&mut lp_balances, creator, seed);
        proof {
            assert(total(Seq::<Balance>::empty()) == 0);
        }
        Pool {
            market_id,
            yes_reserve: yes,
            no_reserve: no,
            k: yes * no,
            lp_total_supply: seed,
            lp_balances,
            yes_shares: Vec::new(),
            no_shares: Vec::new(),
            trades: Vec::new(),
        }
    }

    /// Buys `outcome` shares for `amount`, the fee of `fee_bps` basis points kept aside.
    pub fn buy(
        &mut self,
        fee_bps: u32,
        now: u64,
        buyer: Address,
        outcome: u32,
        amount: u128,
        min_shares: u128,
    ) -> (r: Result<u128, AmmError>)
        requires
            old(self).wf(),
            fee_bps <= 10000,
            outcome <= 1,
            amount > 0,
        ensures
            r == old(self).buy_result(
                fee_bps as int,
                buyer,
                outcome,
                amount as int,
                min_shares as int,
            ),
            r is Err ==> *final(self) == *old(self),
            r matches Ok(s) ==> final(self).wf() && final(self).bought(
                *old(self),
                buyer,
                outcome,
                amount as int,
                fee_for(amount as int, fee_bps as int),
                s as int,
                now,
            ),
    {
        let fee = portion(amount, fee_bps as u128, BPS_SCALE);
        let net = amount - fee;
        let (x, y) = if outcome == 1 {
            (self.no_reserve, self.yes_reserve)
        } else {
            (self.yes_reserve, self.no_reserve)
        };
        let num = match net.checked_mul(y) {
            Some(v) => v,
            None => return Err(AmmError::Overflow),
        };
        let den = match x.checked_add(net) {
            Some(v) => v,
            None => return Err(AmmError::Overflow),
        };
        let shares = num / den;
        if shares < min_shares {
            return Err(AmmError::SlippageExceeded);
        }
        proof {
            lemma_scaled_below(net as int, den as int, y as int);
        }
        let new_y = y - shares;
        let new_x = den;
        let k = match new_x.checked_mul(new_y) {
            Some(v) => v,
            None => return Err(AmmError::Overflow),
        };
        if new_x.checked_add(new_y).is_none() {
            return Err(AmmError::Overflow);
        }
        let held = if outcome == 1 {
            book::balance(&self.yes_shares, buyer)
        } else {
            book::balance(&self.no_shares, buyer)
        };
        if held.checked_add(shares).is_none() {
            return Err(AmmError::Overflow);
        }
        if outcome == 1 {
            self.yes_reserve = new_y;
            self.no_reserve = new_x;
            book::credit(&mut self.yes_shares, buyer, shares);
        } else {
            self.yes_reserve = new_x;
            self.no_reserve = new_y;
            book::credit(&mut self.no_shares, buyer, shares);
        }
        self.k = k;
        self.trades.push(
            TradeRecord {
                trader: buyer,
                side: TradeSide::Buy,
                outcome,
                shares,
                amount,
                fee,
                timestamp: now,
            },
        );
        Ok(shares)
    }

    /// Sells `shares` of `outcome` back to the pool; the fee of `fee_bps` basis points comes
    /// out of the payout and is kept aside.
    pub fn sell(
        &mut self,
        fee_bps: u32,
        now: u64,
        seller: Address,
        outcome: u32,
        shares: u128,
        min_payout: u128,
    ) -> (r: Result<u128, AmmError>)
        requires
            old(self).wf(),
            fee_bps <= 10000,
            outcome <= 1,
            shares > 0,
        ensures
            r == old(self).sell_result(
                fee_bps as int,
                seller,
                outcome,
                shares as int,
                min_payout as int,
            ),
            r is Err ==> *final(self) == *old(self),
            r is Ok ==> final(self).wf() && final(self).sold(
                *old(self),
                seller,
                outcome,
                shares as int,
                swap_out(shares as int, old(self).reserve_of(outcome), old(self).reserve_against(outcome)),
                fee_for(
                    swap_out(shares as int, old(self).reserve_of(outcome), old(self).reserve_against(outcome)),
                    fee_bps as int,
                ),
                now,
            ),
    {
        let held = if outcome == 1 {
            book::balance(&self.yes_shares, seller)
        } else {
            book::balance(&self.no_shares, seller)
        };
        if held < shares {
            return Err(AmmError::InsufficientShares);
        }
        let (y, x) = if outcome == 1 {
            (self.yes_reserve, self.no_reserve)
        } else {
            (self.no_reserve, self.yes_reserve)
        };
        let num = match shares.checked_mul(x) {
            Some(v) => v,
            None => return Err(AmmError::Overflow),
        };
        let den = match y.checked_add(shares) {
            Some(v) => v,
            None => return Err(AmmError::Overflow),
        };
        let gross = num / den;
        proof {
            lemma_scaled_below(shares as int, den as int, x as int);
        }
        let fee = portion(gross, fee_bps as u128, BPS_SCALE);
        let payout = gross - fee;
        if payout < min_payout {
            return Err(AmmError::SlippageExceeded);
        }
        let new_y = den;
        let new_x = x - gross;
        let k = match new_y.checked_mul(new_x) {
            Some(v) => v,
            None => return Err(AmmError::Overflow),
        };
        if new_y.checked_add(new_x).is_none() {
            return Err(AmmError::Overflow);
        }
        proof {
            assert(new_y * new_x == new_x * new_y) by (nonlinear_arith);
        }
        if outcome == 1 {
            self.yes_reserve = new_y;
            self.no_reserve = new_x;
            book::debit(&mut self.yes_shares, seller, shares);
        } else {
            self.yes_reserve = new_x;
            self.no_reserve = new_y;
            book::debit(&mut self.no_shares, seller, shares);
        }
        self.k = k;
        self.trades.push(
            TradeRecord {
                trader: seller,
                side: TradeSide::Sell,
                outcome,
                shares,
                amount: gross,
                fee,
                timestamp: now,
            },
        );
        Ok(payout)
    }

    /// Deposits `amount` in the pool's current YES/NO ratio and mints LP tokens for it.
    pub fn add(&mut self, cap: u128, provider: Address, amount: u128) -> (r: Result<u128, AmmError>)
        requires
            old(self).wf(),
            amount > 0,
        ensures
            r == old(self).add_result(cap as int, amount as int),
            r is Err ==> *final(self) == *old(self),
            r matches Ok(m) ==> final(self).wf() && final(self).added(
                *old(self),
                provider,
                amount as int,
                m as int,
            ),
    {
        let t = self.yes_reserve + self.no_reserve;
        let num = match amount.checked_mul(self.lp_total_supply) {
            Some(v) => v,
            None => return Err(AmmError::Overflow),
        };
        let minted = num / t;
        if minted == 0 {
            return Err(AmmError::AmountTooSmall);
        }
        let ynum = match amount.checked_mul(self.yes_reserve) {
            Some(v) => v,
            None => return Err(AmmError::Overflow),
        };
        let yes_add = ynum / t;
        proof {
            lemma_scaled_le(self.yes_reserve as int, t as int, amount as int);
            assert(amount * self.yes_reserve == self.yes_reserve * amount) by (nonlinear_arith);
        }
        let no_add = amount - yes_add;
        let new_yes = match self.yes_reserve.checked_add(yes_add) {
            Some(v) => v,
            None => return Err(AmmError::Overflow),
        };
        let new_no = match self.no_reserve.checked_add(no_add) {
            Some(v) => v,
            None => return Err(AmmError::Overflow),
        };
        let k = match new_yes.checked_mul(new_no) {
            Some(v) => v,
            None => return Err(AmmError::Overflow),
        };
        let new_total = match new_yes.checked_add(new_no) {
            Some(v) => v,
            None => return Err(AmmError::Overflow),
        };
        if new_total > cap {
            return Err(AmmError::MaxLiquidityExceeded);
        }
        let new_supply = match self.lp_total_supply.checked_add(minted) {
            Some(v) => v,
            None => return Err(AmmError::Overflow),
        };
        proof {
            book::lemma_nonneg(self.lp_balances@, provider);
        }
        self.yes_reserve = new_yes;
        self.no_reserve = new_no;
        self.k = k;
        self.lp_total_supply = new_supply;
        book::credit(&mut self.lp_balances, provider, minted);
        Ok(minted)
    }

    /// Burns `lp_tokens` of `provider` for their proportional YES and NO amounts.
    pub fn remove(&mut self, provider: Address, lp_tokens: u128) -> (r: Result<
        (u128, u128),
        AmmError,
    >)
        requires
            old(self).wf(),
            lp_tokens > 0,
        ensures
            r == old(self).remove_result(provider, lp_tokens as int),
            r is Err ==> *final(self) == *old(self),
            r matches Ok((y, n)) ==> final(self).wf() && final(self).removed(
                *old(self),
                provider,
                lp_tokens as int,
                y as int,
                n as int,
            ),
    {
        let held = book::balance(&self.lp_balances, provider);
        if held < lp_tokens {
            return Err(AmmError::InsufficientLpTokens);
        }
        let yn = match lp_tokens.checked_mul(self.yes_reserve) {
            Some(v) => v,
            None => return Err(AmmError::Overflow),
        };
        let nn = match lp_tokens.checked_mul(self.no_reserve) {
            Some(v) => v,
            None => return Err(AmmError::Overflow),
        };
        let yes_out = yn / self.lp_total_supply;
        let no_out = nn / self.lp_total_supply;
        if yes_out == 0 || no_out == 0 {
            return Err(AmmError::AmountTooSmall);
        }
        proof {
            book::lemma_nonneg(self.lp_balances@, provider);
            lemma_scaled_le(lp_tokens as int, self.lp_total_supply as int, self.yes_reserve as int);
            lemma_scaled_le(lp_tokens as int, self.lp_total_supply as int, self.no_reserve as int);
        }
        if yes_out == self.yes_reserve || no_out == self.no_reserve {
            return Err(AmmError::PoolDrainForbidden);
        }
        let new_yes = self.yes_reserve - yes_out;
        let new_no = self.no_reserve - no_out;
        proof {
            vstd::arithmetic::mul::lemma_mul_upper_bound(
                new_yes as int,
                self.yes_reserve as int,
                new_no as int,
                self.no_reserve as int,
            );
        }
        self.yes_reserve = new_yes;
        self.no_reserve = new_no;
        self.k = new_yes * new_no;
        self.lp_total_supply = self.lp_total_supply - lp_tokens;
        book::debit(&mut self.lp_balances, provider, lp_tokens);
        Ok((yes_out, no_out))
    }
}

} // verus!
