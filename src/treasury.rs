//! The treasury: fee split into pools, and reward and withdrawal payouts.

use vstd::prelude::*;

use crate::ids::Address;
use crate::math::{lemma_scaled_le, lemma_sum_prefix_le, lemma_sum_prefix_step, portion, sum_of};

verus! {

/// Why a treasury operation was rejected. A rejected operation changes nothing.
#[derive(Clone, Copy, Debug, PartialEq, Eq, Structural)]
pub enum TreasuryError {
    /// The caller is not the administrator.
    Unauthorized,
    /// The three fee ratios do not add up to 100.
    InvalidRatios,
    /// A deposit that is not positive, or a negative payout.
    InvalidAmount,
    /// The reward shares do not add up to 100.
    InvalidShares,
    /// The leaderboard pool holds nothing to distribute.
    EmptyPool,
    /// The pool or the treasury holds less than asked for.
    InsufficientFunds,
    /// A total would not fit in 128 bits.
    Overflow,
}

/// How deposited fees are split between the three pools, in percent.
#[derive(Clone, Copy, Debug, PartialEq, Eq, Structural)]
pub struct FeeRatios {
    pub platform: u32,
    pub leaderboard: u32,
    pub creator: u32,
}

/// An amount that the treasury owes a recipient.
#[derive(Clone, Copy, Debug, PartialEq, Eq, Structural)]
pub struct Payout {
    pub recipient: Address,
    pub amount: i128,
}

/// The shares of a leaderboard distribution, in order.
pub open spec fn shares_in(d: Seq<(Address, u32)>) -> Seq<int> {
    d.map_values(|e: (Address, u32)| e.1 as int)
}

/// The amounts of a creator distribution, in order.
pub open spec fn amounts_in(d: Seq<(Address, i128)>) -> Seq<int> {
    d.map_values(|e: (Address, i128)| e.1 as int)
}

/// The amounts of a list of payouts, in order.
pub open spec fn paid_in(p: Seq<Payout>) -> Seq<int> {
    p.map_values(|x: Payout| x.amount as int)
}

/// `pool * share / 100` for each entry of a leaderboard distribution.
pub open spec fn leaderboard_payouts(pool: int, d: Seq<(Address, u32)>) -> Seq<Payout> {
    Seq::new(d.len(), |i: int| Payout { recipient: d[i].0, amount: (pool * d[i].1 / 100) as i128 })
}

/// The payouts of a creator distribution, one per entry.
pub open spec fn creator_payouts(d: Seq<(Address, i128)>) -> Seq<Payout> {
    Seq::new(d.len(), |i: int| Payout { recipient: d[i].0, amount: d[i].1 })
}

/// The payouts of a result, as a sequence.
pub open spec fn payout_view(r: Result<Vec<Payout>, TreasuryError>) -> Result<Seq<Payout>, TreasuryError> {
    match r {
        Ok(v) => Ok(v@),
        Err(e) => Err(e),
    }
}

/// The treasury: collected fees split into three pools, and what it holds in custody.
#[derive(Debug)]
pub struct Treasury {
    pub admin: Address,
    pub usdc_contract: Address,
    pub factory: Address,
    pub ratios: FeeRatios,
    pub platform_fees: i128,
    pub leaderboard_fees: i128,
    pub creator_fees: i128,
    pub total_fees: i128,
    /// What the treasury holds: deposits in, payouts and withdrawals out.
    pub balance: i128,
}

impl Treasury {
    pub open spec fn wf(self) -> bool {
        &&& self.ratios.platform + self.ratios.leaderboard + self.ratios.creator == 100
        &&& self.platform_fees >= 0
        &&& self.leaderboard_fees >= 0
        &&& self.creator_fees >= 0
        &&& self.platform_fees + self.leaderboard_fees + self.creator_fees <= self.total_fees
        &&& self.balance >= 0
    }

    pub open spec fn deposit_result(self, amount: int) -> Result<(), TreasuryError> {
        if amount <= 0 {
            Err(TreasuryError::InvalidAmount)
        } else if self.total_fees + amount > i128::MAX || self.balance + amount > i128::MAX {
            Err(TreasuryError::Overflow)
        } else {
            Ok(())
        }
    }

    pub open spec fn leaderboard_result(self, caller: Address, d: Seq<(Address, u32)>) -> Result<
        Seq<Payout>,
        TreasuryError,
    > {
        let payouts = leaderboard_payouts(self.leaderboard_fees as int, d);
        if caller != self.admin {
            Err(TreasuryError::Unauthorized)
        } else if sum_of(shares_in(d)) != 100 {
            Err(TreasuryError::InvalidShares)
        } else if self.leaderboard_fees <= 0 {
            Err(TreasuryError::EmptyPool)
        } else if sum_of(paid_in(payouts)) > self.balance {
            Err(TreasuryError::InsufficientFunds)
        } else {
            Ok(payouts)
        }
    }

    pub open spec fn creator_result(self, caller: Address, d: Seq<(Address, i128)>) -> Result<
        Seq<Payout>,
        TreasuryError,
    > {
        if caller != self.admin {
            Err(TreasuryError::Unauthorized)
        } else if exists|k: int| 0 <= k < d.len() && #[trigger] d[k].1 < 0 {
            Err(TreasuryError::InvalidAmount)
        } else if sum_of(amounts_in(d)) > self.creator_fees || sum_of(amounts_in(d)) > self.balance {
            Err(TreasuryError::InsufficientFunds)
        } else {
            Ok(creator_payouts(d))
        }
    }

    /// Sets up a treasury with empty pools and the 50/30/20 split.
    pub fn initialize(admin: Address, usdc_contract: Address, factory: Address) -> (r: Treasury)
        ensures
            r.wf(),
            r.admin == admin,
            r.usdc_contract == usdc_contract,
            r.factory == factory,
            r.ratios == (FeeRatios { platform: 50, leaderboard: 30, creator: 20 }),
            r.platform_fees == 0 && r.leaderboard_fees == 0 && r.creator_fees == 0,
            r.total_fees == 0 && r.balance == 0,
    {
        Treasury {
            admin,
            usdc_contract,
            factory,
            ratios: FeeRatios { platform: 50, leaderboard: 30, creator: 20 },
            platform_fees: 0,
            leaderboard_fees: 0,
            creator_fees: 0,
            total_fees: 0,
            balance: 0,
        }
    }

    /// Replaces the fee split (administrator only); the three percentages must add up to 100.
    pub fn set_fee_distribution(
        &mut self,
        caller: Address,
        platform_fee_pct: u32,
        leaderboard_fee_pct: u32,
        creator_fee_pct: u32,
    ) -> (r: Result<(), TreasuryError>)
        requires
            old(self).wf(),
        ensures
            final(self).wf(),
            r == if caller != old(self).admin {
                Err(TreasuryError::Unauthorized)
            } else if platform_fee_pct + leaderboard_fee_pct + creator_fee_pct != 100 {
                Err(TreasuryError::InvalidRatios)
            } else {
                Ok(())
            },
            r is Err ==> *final(self) == *old(self),
            r is Ok ==> *final(self) == (Treasury {
                ratios: FeeRatios {
                    platform: platform_fee_pct,
                    leaderboard: leaderboard_fee_pct,
                    creator: creator_fee_pct,
                },
                ..*old(self)
            }),
    {
        if caller != self.admin {
            return Err(TreasuryError::Unauthorized);
        }
        let sum = platform_fee_pct as u64 + leaderboard_fee_pct as u64 + creator_fee_pct as u64;
        if sum != 100 {
            return Err(TreasuryError::InvalidRatios);
        }
        self.ratios = FeeRatios {
            platform: platform_fee_pct,
            leaderboard: leaderboard_fee_pct,
            creator: creator_fee_pct,
        };
        Ok(())
    }

    /// Takes in `amount` of fees from `source` and splits it by the current ratios; the
    /// creator pool gets the rounding remainder.
    pub fn deposit_fees(&mut self, source: Address, amount: i128) -> (r: Result<(), TreasuryError>)
        requires
            old(self).wf(),
        ensures
            final(self).wf(),
            r == old(self).deposit_result(amount as int),
            r is Err ==> *final(self) == *old(self),
            r is Ok ==> {
                let p = amount * old(self).ratios.platform / 100;
                let l = amount * old(self).ratios.leaderboard / 100;
                &&& final(self).platform_fees == old(self).platform_fees + p
                &&& final(self).leaderboard_fees == old(self).leaderboard_fees + l
                &&& final(self).creator_fees == old(self).creator_fees + (amount - p - l)
                &&& final(self).total_fees == old(self).total_fees + amount
                &&& final(self).balance == old(self).balance + amount
                &&& final(self).ratios == old(self).ratios
                &&& final(self).admin == old(self).admin
            },
    {
        if amount <= 0 {
            return Err(TreasuryError::InvalidAmount);
        }
        let total = match self.total_fees.checked_add(amount) {
            Some(v) => v,
            None => return Err(TreasuryError::Overflow),
        };
        let balance = match self.balance.checked_add(amount) {
            Some(v) => v,
            None => return Err(TreasuryError::Overflow),
        };
        let platform = portion(amount as u128, self.ratios.platform as u128, 100) as i128;
        let leaderboard = portion(amount as u128, self.ratios.leaderboard as u128, 100) as i128;
        proof {
            assert(platform + leaderboard <= amount) by (nonlinear_arith)
                requires
                    platform == amount * self.ratios.platform / 100,
                    leaderboard == amount * self.ratios.leaderboard / 100,
                    self.ratios.platform + self.ratios.leaderboard <= 100,
                    amount > 0,
            {
                crate::math::lemma_div_sum_le(
                    amount * self.ratios.platform,
                    amount * self.ratios.leaderboard,
                    100,
                );
                lemma_scaled_le(
                    (self.ratios.platform + self.ratios.leaderboard) as int,
                    100,
                    amount as int,
                );
            }
        }
        let creator = amount - platform - leaderboard;
        self.platform_fees = self.platform_fees + platform;
        self.leaderboard_fees = self.leaderboard_fees + leaderboard;
        self.creator_fees = self.creator_fees + creator;
        self.total_fees = total;
        self.balance = balance;
        Ok(())
    }

    pub fn get_platform_fees(&self) -> (r: i128)
        ensures
            r == self.platform_fees,
    {
        self.platform_fees
    }

    pub fn get_leaderboard_fees(&self) -> (r: i128)
        ensures
            r == self.leaderboard_fees,
    {
        self.leaderboard_fees
    }

    pub fn get_creator_fees(&self) -> (r: i128)
        ensures
            r == self.creator_fees,
    {
        self.creator_fees
    }

    pub fn get_total_fees(&self) -> (r: i128)
        ensures
            r == self.total_fees,
    {
        self.total_fees
    }

    /// What the treasury holds.
    pub fn get_treasury_balance(&self) -> (r: i128)
        ensures
            r == self.balance,
    {
        self.balance
    }

    /// Pays `amount` to `recipient` outside the pools (administrator only).
    pub fn emergency_withdraw(&mut self, caller: Address, recipient: Address, amount: i128) -> (r:
        Result<Payout, TreasuryError>)
        requires
            old(self).wf(),
        ensures
            final(self).wf(),
            r == if caller != old(self).admin {
                Err(TreasuryError::Unauthorized)
            } else if amount < 0 {
                Err(TreasuryError::InvalidAmount)
            } else if amount > old(self).balance {
                Err(TreasuryError::InsufficientFunds)
            } else {
                Ok(Payout { recipient, amount })
            },
            r is Err ==> *final(self) == *old(self),
            r is Ok ==> *final(self) == (Treasury { balance: (old(self).balance - amount) as i128, ..*old(self) }),
    {
        if caller != self.admin {
            return Err(TreasuryError::Unauthorized);
        }
        if amount < 0 {
            return Err(TreasuryError::InvalidAmount);
        }
        if amount > self.balance {
            return Err(TreasuryError::InsufficientFunds);
        }
        self.balance = self.balance - amount;
        Ok(Payout { recipient, amount })
    }

    /// Pays the whole leaderboard pool out by percentage shares (administrator only): each
    /// entry gets `pool * share / 100`, and the pool is emptied.
    #[verifier::loop_isolation(false)]
    pub fn distribute_leaderboard_rewards(&mut self, caller: Address, distributions: Vec<(Address, u32)>) -> (r:
        Result<Vec<Payout>, TreasuryError>)
        requires
            old(self).wf(),
        ensures
            final(self).wf(),
            payout_view(r) == old(self).leaderboard_result(caller, distributions@),
            r is Err ==> *final(self) == *old(self),
            r matches Ok(v) ==> *final(self) == (Treasury {
                leaderboard_fees: 0,
                balance: (old(self).balance - sum_of(paid_in(v@))) as i128,
                ..*old(self)
            }),
    {
        if caller != self.admin {
            return Err(TreasuryError::Unauthorized);
        }
        let ghost sh = shares_in(distributions@);
        let mut total: u64 = 0;
        let mut i: usize = 0;
        while i < distributions.len()
            invariant
                i <= distributions@.len(),
                sh == shares_in(distributions@),
                total == sum_of(sh.subrange(0, i as int)),
                total <= 100,
            decreases distributions@.len() - i,
        {
            proof {
                lemma_sum_prefix_step(sh, i as int);
            }
            total = total + distributions[i].1 as u64;
            if total > 100 {
                proof {
                    lemma_sum_prefix_le(sh, i + 1);
                }
                return Err(TreasuryError::InvalidShares);
            }
            i = i + 1;
        }
        proof {
            assert(sh.subrange(0, sh.len() as int) =~= sh);
        }
        if total != 100 {
            return Err(TreasuryError::InvalidShares);
        }
        let pool = self.leaderboard_fees;
        if pool <= 0 {
            return Err(TreasuryError::EmptyPool);
        }
        let ghost expected = leaderboard_payouts(pool as int, distributions@);
        let mut payouts: Vec<Payout> = Vec::new();
        let mut paid: i128 = 0;
        let mut j: usize = 0;
        while j < distributions.len()
            invariant
                j <= distributions@.len(),
                sh == shares_in(distributions@),
                sum_of(sh) == 100,
                pool > 0,
                expected == leaderboard_payouts(pool as int, distributions@),
                payouts@ == expected.subrange(0, j as int),
                paid == sum_of(paid_in(payouts@)),
                0 <= paid,
                100 * paid <= pool * sum_of(sh.subrange(0, j as int)),
                forall|k: int| 0 <= k < sh.len() ==> #[trigger] sh[k] >= 0,
            decreases distributions@.len() - j,
        {
            let share = distributions[j].1;
            proof {
                lemma_sum_prefix_le(sh, j as int);
                lemma_sum_prefix_le(sh, j + 1);
                lemma_sum_prefix_step(sh, j as int);
                assert(sh[j as int] == share);
            }
            let amount = portion(pool as u128, share as u128, 100) as i128;
            proof {
                vstd::arithmetic::div_mod::lemma_fundamental_div_mod(pool * share, 100);
                assert(100 * (paid + amount) <= pool * sum_of(sh.subrange(0, j + 1))) by (
                nonlinear_arith)
                    requires
                        100 * paid <= pool * sum_of(sh.subrange(0, j as int)),
                        sum_of(sh.subrange(0, j + 1)) == sum_of(sh.subrange(0, j as int)) + share,
                        amount == (pool * share) / 100,
                        pool * share == 100 * ((pool * share) / 100) + (pool * share) % 100,
                        0 <= (pool * share) % 100,
                ;
                assert(pool * sum_of(sh.subrange(0, j + 1)) <= pool * 100) by (nonlinear_arith)
                    requires
                        sum_of(sh.subrange(0, j + 1)) <= 100,
                        pool > 0,
                ;
                let np = payouts@.push(Payout { recipient: distributions[j as int].0, amount });
                assert(np.drop_last() =~= payouts@);
                assert(paid_in(np).drop_last() =~= paid_in(payouts@));
                assert(np =~= expected.subrange(0, j + 1));
            }
            payouts.push(Payout { recipient: distributions[j].0, amount });
            paid = paid + amount;
            j = j + 1;
        }
        proof {
            assert(sh.subrange(0, sh.len() as int) =~= sh);
            assert(payouts@ =~= expected);
        }
        if paid > self.balance {
            return Err(TreasuryError::InsufficientFunds);
        }
        self.leaderboard_fees = 0;
        self.balance = self.balance - paid;
        Ok(payouts)
    }

    /// Pays creators the given amounts out of the creator pool (administrator only).
    #[verifier::loop_isolation(false)]
    pub fn distribute_creator_rewards(&mut self, caller: Address, distributions: Vec<(Address, i128)>) -> (r:
        Result<Vec<Payout>, TreasuryError>)
        requires
            old(self).wf(),
        ensures
            final(self).wf(),
            payout_view(r) == old(self).creator_result(caller, distributions@),
            r is Err ==> *final(self) == *old(self),
            r is Ok ==> *final(self) == (Treasury {
                creator_fees: (old(self).creator_fees - sum_of(amounts_in(distributions@))) as i128,
                balance: (old(self).balance - sum_of(amounts_in(distributions@))) as i128,
                ..*old(self)
            }),
    {
        if caller != self.admin {
            return Err(TreasuryError::Unauthorized);
        }
        let mut i: usize = 0;
        while i < distributions.len()
            invariant
                i <= distributions@.len(),
                forall|k: int| 0 <= k < i ==> #[trigger] distributions@[k].1 >= 0,
            decreases distributions@.len() - i,
        {
            if distributions[i].1 < 0 {
                return Err(TreasuryError::InvalidAmount);
            }
            i = i + 1;
        }
        let ghost am = amounts_in(distributions@);
        let pool = self.creator_fees;
        let mut total: i128 = 0;
        let mut payouts: Vec<Payout> = Vec::new();
        let mut j: usize = 0;
        while j < distributions.len()
            invariant
                j <= distributions@.len(),
                am == amounts_in(distributions@),
                forall|k: int| 0 <= k < am.len() ==> #[trigger] am[k] >= 0,
                total == sum_of(am.subrange(0, j as int)),
                0 <= total <= pool,
                payouts@ == creator_payouts(distributions@).subrange(0, j as int),
            decreases distributions@.len() - j,
        {
            proof {
                lemma_sum_prefix_step(am, j as int);
            }
            let amount = distributions[j].1;
            if amount > pool - total {
                proof {
                    lemma_sum_prefix_le(am, j + 1);
                }
                return Err(TreasuryError::InsufficientFunds);
            }
            total = total + amount;
            proof {
                let np = payouts@.push(Payout { recipient: distributions[j as int].0, amount });
                assert(np =~= creator_payouts(distributions@).subrange(0, j + 1));
            }
            payouts.push(Payout { recipient: distributions[j].0, amount });
            j = j + 1;
        }
        proof {
            assert(am.subrange(0, am.len() as int) =~= am);
            assert(payouts@ =~= creator_payouts(distributions@));
        }
        if total > self.balance {
            return Err(TreasuryError::InsufficientFunds);
        }
        self.creator_fees = self.creator_fees - total;
        self.balance = self.balance - total;
        Ok(payouts)
    }
}

} // verus!
