//! The market factory: timing checks, the market registry and market ids.

use vstd::prelude::*;

use crate::ids::{Address, MarketId};

verus! {

/// What creating a market costs its creator, paid to the treasury (1 USDC at 7 decimals).
pub const CREATION_FEE: i128 = 10_000_000;

/// Why a market could not be created. A rejected call changes nothing.
#[derive(Clone, Copy, Debug, PartialEq, Eq, Structural)]
pub enum FactoryError {
    /// The closing time is not after now, or not before the resolution time.
    InvalidTimestamps,
    /// The market counter is at its maximum.
    Overflow,
}

/// A market in the registry.
#[derive(Debug)]
pub struct MarketRecord {
    pub market_id: MarketId,
    pub creator: Address,
    pub title: String,
    pub description: String,
    pub category: String,
    pub closing_time: u64,
    pub resolution_time: u64,
}

#[verifier::external_type_specification]
#[verifier::external_body]
pub struct ExEnv(soroban_sdk::Env);

/// The SHA-256 digest of `data`.
pub uninterp spec fn sha256_of(data: Seq<u8>) -> Seq<u8>;

/// Relies on soroban_sdk's `Crypto::sha256`: the host's SHA-256 digest of the bytes, which
/// depends on the bytes alone.
#[verifier::external_body]
fn sha256(env: &soroban_sdk::Env, data: &Vec<u8>) -> (r: [u8; 32])
    ensures
        r@ == sha256_of(data@),
{
    env.crypto().sha256(&soroban_sdk::Bytes::from_slice(env, data)).to_array()
}

/// The `n` low bytes of `x`, most significant first.
pub open spec fn be_bytes(x: int, n: nat) -> Seq<u8>
    decreases n,
{
    if n == 0 {
        Seq::empty()
    } else {
        be_bytes(x / 256, (n - 1) as nat).push((x % 256) as u8)
    }
}

/// The bytes whose hash names the market created as number `market_count` at `now`:
/// the counter in 4 bytes, then the time in 8, both big-endian.
pub open spec fn market_id_preimage(market_count: u32, now: u64) -> Seq<u8> {
    be_bytes(market_count as int, 4) + be_bytes(now as int, 8)
}

fn push_be(out: &mut Vec<u8>, x: u64, n: usize)
    requires
        n <= 8,
    ensures
        final(out)@ == old(out)@ + be_bytes(x as int, n as nat),
    decreases n,
{
    if n > 0 {
        push_be(out, x / 256, n - 1);
        let ghost mid = out@;
        out.push((x % 256) as u8);
        proof {
            assert(old(out)@ + be_bytes(x as int, n as nat) =~= mid.push((x % 256) as u8));
        }
    } else {
        proof {
            assert(old(out)@ + be_bytes(x as int, 0) =~= old(out)@);
        }
    }
}

/// The hash input for the id of the market created as number `market_count` at `now`.
pub fn market_id_seed(market_count: u32, now: u64) -> (r: Vec<u8>)
    ensures
        r@ == market_id_preimage(market_count, now),
        r@.len() == 12,
{
    let mut out: Vec<u8> = Vec::new();
    push_be(&mut out, market_count as u64, 4);
    push_be(&mut out, now, 8);
    proof {
        assert(Seq::<u8>::empty() + be_bytes(market_count as int, 4) =~= be_bytes(
            market_count as int,
            4,
        ));
        lemma_be_len(market_count as int, 4);
        lemma_be_len(now as int, 8);
    }
    out
}

proof fn lemma_be_len(x: int, n: nat)
    ensures
        be_bytes(x, n).len() == n,
    decreases n,
{
    if n > 0 {
        lemma_be_len(x / 256, (n - 1) as nat);
    }
}

/// The market factory: validates market timing and keeps the registry of created markets.
#[derive(Debug)]
pub struct MarketFactory {
    pub admin: Address,
    pub usdc: Address,
    pub treasury: Address,
    pub market_count: u32,
    pub markets: Vec<MarketRecord>,
}

impl MarketFactory {
    /// Sets up a factory with an empty registry.
    pub fn initialize(admin: Address, usdc: Address, treasury: Address) -> (r: MarketFactory)
        ensures
            r.admin == admin,
            r.usdc == usdc,
            r.treasury == treasury,
            r.market_count == 0,
            r.markets@.len() == 0,
    {
        MarketFactory { admin, usdc, treasury, market_count: 0, markets: Vec::new() }
    }

    /// How many markets have been created.
    pub fn get_market_count(&self) -> (r: u32)
        ensures
            r == self.market_count,
    {
        self.market_count
    }

    /// Where creation fees go.
    pub fn get_treasury(&self) -> (r: Address)
        ensures
            r == self.treasury,
    {
        self.treasury
    }

    /// Records a market under `market_id` that closes at `closing_time` and resolves at
    /// `resolution_time`, checking the timing against `now`.
    pub fn record_market(
        &mut self,
        now: u64,
        creator: Address,
        title: String,
        description: String,
        category: String,
        closing_time: u64,
        resolution_time: u64,
        market_id: MarketId,
    ) -> (r: Result<MarketId, FactoryError>)
        ensures
            r == if closing_time <= now || closing_time >= resolution_time {
                Err(FactoryError::InvalidTimestamps)
            } else if old(self).market_count == u32::MAX {
                Err(FactoryError::Overflow)
            } else {
                Ok::<MarketId, FactoryError>(market_id)
            },
            r is Err ==> final(self).market_count == old(self).market_count && final(self).markets@
                == old(self).markets@,
            r is Ok ==> {
                &&& final(self).market_count == old(self).market_count + 1
                &&& final(self).markets@.drop_last() == old(self).markets@
                &&& final(self).markets@.len() == old(self).markets@.len() + 1
                &&& final(self).markets@.last().market_id == market_id
                &&& final(self).markets@.last().creator == creator
                &&& final(self).markets@.last().title@ == title@
                &&& final(self).markets@.last().description@ == description@
                &&& final(self).markets@.last().category@ == category@
                &&& final(self).markets@.last().closing_time == closing_time
                &&& final(self).markets@.last().resolution_time == resolution_time
            },
            final(self).admin == old(self).admin,
            final(self).usdc == old(self).usdc,
            final(self).treasury == old(self).treasury,
    {
        if closing_time <= now || closing_time >= resolution_time {
            return Err(FactoryError::InvalidTimestamps);
        }
        if self.market_count == u32::MAX {
            return Err(FactoryError::Overflow);
        }
        let ghost old_markets = self.markets@;
        self.markets.push(
            MarketRecord {
                market_id,
                creator,
                title,
                description,
                category,
                closing_time,
                resolution_time,
            },
        );
        proof {
            assert(self.markets@.drop_last() =~= old_markets);
        }
        self.market_count = self.market_count + 1;
        Ok(market_id)
    }

    /// Creates a market that closes at `closing_time` and resolves at `resolution_time`.
    /// Its id is the SHA-256 of the market counter and `now` (see `market_id_seed`). On
    /// success the creator owes `CREATION_FEE` to the treasury.
    pub fn create_market(
        &mut self,
        env: &soroban_sdk::Env,
        now: u64,
        creator: Address,
        title: String,
        description: String,
        category: String,
        closing_time: u64,
        resolution_time: u64,
    ) -> (r: Result<MarketId, FactoryError>)
        ensures
            closing_time <= now || closing_time >= resolution_time ==> r == Err::<
                MarketId,
                FactoryError,
            >(FactoryError::InvalidTimestamps),
            !(closing_time <= now || closing_time >= resolution_time) && old(self).market_count
                == u32::MAX ==> r == Err::<MarketId, FactoryError>(FactoryError::Overflow),
            !(closing_time <= now || closing_time >= resolution_time) && old(self).market_count
                < u32::MAX ==> r is Ok,
            r is Err ==> final(self).market_count == old(self).market_count && final(self).markets@
                == old(self).markets@,
            r matches Ok(id) ==> {
                &&& id.bytes@ == sha256_of(market_id_preimage(old(self).market_count, now))
                &&& !(closing_time <= now || closing_time >= resolution_time)
                &&& final(self).market_count == old(self).market_count + 1
                &&& final(self).markets@.drop_last() == old(self).markets@
                &&& final(self).markets@.len() == old(self).markets@.len() + 1
                &&& final(self).markets@.last().market_id == id
                &&& final(self).markets@.last().creator == creator
                &&& final(self).markets@.last().title@ == title@
                &&& final(self).markets@.last().description@ == description@
                &&& final(self).markets@.last().category@ == category@
                &&& final(self).markets@.last().closing_time == closing_time
                &&& final(self).markets@.last().resolution_time == resolution_time
            },
            final(self).admin == old(self).admin,
            final(self).usdc == old(self).usdc,
            final(self).treasury == old(self).treasury,
    {
        let seed = market_id_seed(self.market_count, now);
        let market_id = MarketId::from_array(sha256(env, &seed));
        self.record_market(
            now,
            creator,
            title,
            description,
            category,
            closing_time,
            resolution_time,
            market_id,
        )
    }
}

} // verus!
