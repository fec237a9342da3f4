//! The oracle consensus engine: a bounded attestor registry, votes per market and the
//! quorum-plus-plurality rule.

use vstd::prelude::*;

use crate::ids::{Address, MarketId};

verus! {

/// At most this many oracles can be registered.
pub const MAX_ORACLES: usize = 10;

/// The accuracy score a newly registered oracle starts with.
pub const INITIAL_ACCURACY: u32 = 100;

/// Why an oracle operation was rejected. A rejected operation changes nothing.
#[derive(Clone, Copy, Debug, PartialEq, Eq, Structural)]
pub enum OracleError {
    /// The caller is not the administrator.
    Unauthorized,
    /// The registry already holds the maximum number of oracles.
    LimitReached,
    /// The oracle is registered already.
    AlreadyRegistered,
    /// The attestor is not a registered oracle.
    NotRegistered,
    /// The market was never registered for attestation.
    MarketNotRegistered,
    /// The market's resolution time has not come yet.
    TooEarly,
    /// An outcome other than 0 (NO) or 1 (YES).
    InvalidOutcome,
    /// The oracle has attested for this market already.
    DuplicateAttestation,
    /// No outcome has reached consensus.
    ConsensusNotReached,
}

/// A registered oracle.
#[derive(Debug)]
pub struct OracleInfo {
    pub oracle: Address,
    pub name: String,
    pub accuracy: u32,
    pub registered_at: u64,
}

/// One oracle's immutable claim about a market's outcome.
#[derive(Clone, Copy, Debug, PartialEq, Eq, Structural)]
pub struct Attestation {
    pub attestor: Address,
    pub outcome: u32,
    pub timestamp: u64,
}

/// The attestation state of one registered market; `attestations` keeps the order of voting.
#[derive(Debug)]
pub struct MarketAttestations {
    pub market_id: MarketId,
    pub resolution_time: u64,
    pub yes_count: u32,
    pub no_count: u32,
    pub attestations: Vec<Attestation>,
}

/// How many attestations in `s` name `outcome`.
pub open spec fn votes_for(s: Seq<Attestation>, outcome: u32) -> int
    decreases s.len(),
{
    if s.len() == 0 {
        0
    } else {
        votes_for(s.drop_last(), outcome) + if s.last().outcome == outcome {
            1int
        } else {
            0
        }
    }
}

/// Whether `who` has an attestation in `s`.
pub open spec fn has_attested(s: Seq<Attestation>, who: Address) -> bool {
    exists|i: int| 0 <= i < s.len() && #[trigger] s[i].attestor == who
}

/// The quorum-plus-plurality rule: an outcome wins when its votes reach the threshold
/// and exceed the other side's. A tie never resolves.
pub open spec fn consensus(yes: int, no: int, threshold: int) -> (bool, u32) {
    if yes >= threshold && yes > no {
        (true, 1)
    } else if no >= threshold && no > yes {
        (true, 0)
    } else {
        (false, 0)
    }
}

proof fn lemma_votes_push(s: Seq<Attestation>, a: Attestation)
    ensures
        forall|o: u32| #[trigger]
            votes_for(s.push(a), o) == votes_for(s, o) + if a.outcome == o {
                1int
            } else {
                0
            },
{
    assert(s.push(a).drop_last() =~= s);
}

proof fn lemma_votes_split(s: Seq<Attestation>)
    requires
        forall|i: int| 0 <= i < s.len() ==> #[trigger] s[i].outcome <= 1,
    ensures
        votes_for(s, 1) + votes_for(s, 0) == s.len(),
        0 <= votes_for(s, 1),
        0 <= votes_for(s, 0),
    decreases s.len(),
{
    if s.len() > 0 {
        let d = s.drop_last();
        assert forall|i: int| 0 <= i < d.len() implies #[trigger] d[i].outcome <= 1 by {
            assert(s[i].outcome <= 1);
        }
        lemma_votes_split(d);
    }
}

impl MarketAttestations {
    pub open spec fn wf(self) -> bool {
        &&& self.attestations@.len() <= MAX_ORACLES
        &&& forall|i: int|
            0 <= i < self.attestations@.len() ==> #[trigger] self.attestations@[i].outcome <= 1
        &&& forall|i: int, j: int|
            0 <= i < j < self.attestations@.len() ==> #[trigger] self.attestations@[i].attestor
                != #[trigger] self.attestations@[j].attestor
        &&& self.yes_count == votes_for(self.attestations@, 1)
        &&& self.no_count == votes_for(self.attestations@, 0)
    }

    /// A freshly registered market: no votes yet.
    pub fn fresh(market_id: MarketId, resolution_time: u64) -> (r: MarketAttestations)
        ensures
            r.wf(),
            r.market_id == market_id,
            r.resolution_time == resolution_time,
            r.attestations@.len() == 0,
    {
        MarketAttestations {
            market_id,
            resolution_time,
            yes_count: 0,
            no_count: 0,
            attestations: Vec::new(),
        }
    }

    /// The index of `who`'s attestation, if any.
    pub fn find_attestation(&self, who: Address) -> (r: Option<usize>)
        ensures
            match r {
                Some(i) => i < self.attestations@.len() && self.attestations@[i as int].attestor
                    == who,
                None => !has_attested(self.attestations@, who),
            },
    {
        let mut i: usize = 0;
        while i < self.attestations.len()
            invariant
                i <= self.attestations@.len(),
                forall|j: int| 0 <= j < i ==> #[trigger] self.attestations@[j].attestor != who,
            decreases self.attestations@.len() - i,
        {
            if self.attestations[i].attestor == who {
                return Some(i);
            }
            i = i + 1;
        }
        None
    }

    /// Appends a new attestation and counts it.
    pub fn record(&mut self, a: Attestation)
        requires
            old(self).wf(),
            a.outcome <= 1,
            !has_attested(old(self).attestations@, a.attestor),
            old(self).attestations@.len() < MAX_ORACLES,
        ensures
            final(self).wf(),
            final(self).market_id == old(self).market_id,
            final(self).resolution_time == old(self).resolution_time,
            final(self).attestations@ == old(self).attestations@.push(a),
    {
        proof {
            lemma_votes_split(self.attestations@);
            lemma_votes_push(self.attestations@, a);
        }
        let ghost old_atts = self.attestations@;
        if a.outcome == 1 {
            self.yes_count = self.yes_count + 1;
        } else {
            self.no_count = self.no_count + 1;
        }
        self.attestations.push(a);
        proof {
            assert forall|i: int, j: int|
                0 <= i < j < self.attestations@.len() implies #[trigger] self.attestations@[i].attestor
                != #[trigger] self.attestations@[j].attestor by {
                if j == old_atts.len() {
                    assert(old_atts[i].attestor != a.attestor);
                }
            }
        }
    }
}

/// Distinct attestors that are all registered are no more than the registered oracles.
proof fn lemma_voters_bounded(s: Seq<Attestation>, reg: OracleManager)
    requires
        forall|i: int, j: int|
            0 <= i < j < s.len() ==> #[trigger] s[i].attestor != #[trigger] s[j].attestor,
        forall|i: int| 0 <= i < s.len() ==> reg.is_registered(#[trigger] s[i].attestor),
    ensures
        s.len() <= reg.oracles@.len(),
{
    let a = s.map_values(|x: Attestation| x.attestor);
    let o = reg.oracles@.map_values(|x: OracleInfo| x.oracle);
    assert(a.no_duplicates()) by {
        assert forall|i: int, j: int| 0 <= i < a.len() && 0 <= j < a.len() && i != j implies a[i]
            != a[j] by {
            if i < j {
                assert(s[i].attestor != s[j].attestor);
            } else {
                assert(s[j].attestor != s[i].attestor);
            }
        }
    }
    a.unique_seq_to_set();
    assert(a.to_set().subset_of(o.to_set())) by {
        assert forall|w: Address| a.to_set().contains(w) implies o.to_set().contains(w) by {
            let i = choose|i: int| 0 <= i < a.len() && a[i] == w;
            assert(reg.is_registered(s[i].attestor));
            let k = choose|k: int|
                0 <= k < reg.oracles@.len() && #[trigger] reg.oracles@[k].oracle == w;
            assert(o[k] == w);
        }
    }
    o.lemma_cardinality_of_set();
    vstd::set_lib::lemma_len_subset(a.to_set(), o.to_set());
}

/// The oracle consensus engine: a bounded registry of attestors and the votes per market.
#[derive(Debug)]
pub struct OracleManager {
    pub admin: Address,
    pub required_consensus: u32,
    pub oracles: Vec<OracleInfo>,
    pub markets: Vec<MarketAttestations>,
}

impl OracleManager {
    pub open spec fn is_registered(self, who: Address) -> bool {
        exists|i: int| 0 <= i < self.oracles@.len() && #[trigger] self.oracles@[i].oracle == who
    }

    pub open spec fn has_market(self, market_id: MarketId) -> bool {
        exists|i: int|
            0 <= i < self.markets@.len() && #[trigger] self.markets@[i].market_id == market_id
    }

    pub open spec fn market_index(self, market_id: MarketId) -> int {
        choose|i: int|
            0 <= i < self.markets@.len() && #[trigger] self.markets@[i].market_id == market_id
    }

    /// The attestation state of `market_id` (meaningful when `has_market(market_id)`).
    pub open spec fn market(self, market_id: MarketId) -> MarketAttestations {
        self.markets@[self.market_index(market_id)]
    }

    /// The attestations recorded for `market_id` (none when it is not registered).
    pub open spec fn votes(self, market_id: MarketId) -> Seq<Attestation> {
        if self.has_market(market_id) {
            self.market(market_id).attestations@
        } else {
            Seq::empty()
        }
    }

    /// What `check_consensus` reports for `market_id`.
    pub open spec fn consensus_of(self, market_id: MarketId) -> (bool, u32) {
        consensus(
            votes_for(self.votes(market_id), 1),
            votes_for(self.votes(market_id), 0),
            self.required_consensus as int,
        )
    }

    pub open spec fn wf(self) -> bool {
        &&& self.oracles@.len() <= MAX_ORACLES
        &&& forall|i: int, j: int|
            0 <= i < j < self.oracles@.len() ==> #[trigger] self.oracles@[i].oracle
                != #[trigger] self.oracles@[j].oracle
        &&& forall|i: int, j: int|
            0 <= i < j < self.markets@.len() ==> #[trigger] self.markets@[i].market_id
                != #[trigger] self.markets@[j].market_id
        &&& forall|i: int| 0 <= i < self.markets@.len() ==> #[trigger] self.markets@[i].wf()
        &&& forall|i: int, j: int|
            0 <= i < self.markets@.len() && 0 <= j < self.markets@[i].attestations@.len()
                ==> self.is_registered(#[trigger] self.markets@[i].attestations@[j].attestor)
    }

    /// The registry and the other markets are as in `old`; only the market at `i` may differ.
    pub open spec fn only_market_changed(self, old: OracleManager, i: int) -> bool {
        &&& self.admin == old.admin
        &&& self.required_consensus == old.required_consensus
        &&& self.oracles@ == old.oracles@
        &&& self.markets@.len() == old.markets@.len()
        &&& self.markets@[i].market_id == old.markets@[i].market_id
        &&& forall|j: int|
            0 <= j < self.markets@.len() && j != i ==> #[trigger] self.markets@[j] == old.markets@[j]
    }

    pub open spec fn unchanged(self, old: OracleManager) -> bool {
        &&& self.admin == old.admin
        &&& self.required_consensus == old.required_consensus
        &&& self.oracles@ == old.oracles@
        &&& self.markets@ == old.markets@
    }

    pub open spec fn register_oracle_result(self, caller: Address, oracle: Address) -> Result<
        (),
        OracleError,
    > {
        if caller != self.admin {
            Err(OracleError::Unauthorized)
        } else if self.oracles@.len() >= MAX_ORACLES {
            Err(OracleError::LimitReached)
        } else if self.is_registered(oracle) {
            Err(OracleError::AlreadyRegistered)
        } else {
            Ok(())
        }
    }

    pub open spec fn submit_attestation_result(
        self,
        now: u64,
        oracle: Address,
        market_id: MarketId,
        outcome: u32,
    ) -> Result<(), OracleError> {
        if !self.is_registered(oracle) {
            Err(OracleError::NotRegistered)
        } else if !self.has_market(market_id) {
            Err(OracleError::MarketNotRegistered)
        } else if now < self.market(market_id).resolution_time {
            Err(OracleError::TooEarly)
        } else if outcome > 1 {
            Err(OracleError::InvalidOutcome)
        } else if has_attested(self.market(market_id).attestations@, oracle) {
            Err(OracleError::DuplicateAttestation)
        } else {
            Ok(())
        }
    }

    /// Sets up an engine with an empty registry and the given quorum.
    pub fn initialize(admin: Address, required_consensus: u32) -> (r: OracleManager)
        ensures
            r.wf(),
            r.admin == admin,
            r.required_consensus == required_consensus,
            r.oracles@.len() == 0,
            r.markets@.len() == 0,
    {
        OracleManager { admin, required_consensus, oracles: Vec::new(), markets: Vec::new() }
    }

    fn find_oracle(&self, who: Address) -> (r: Option<usize>)
        ensures
            match r {
                Some(i) => i < self.oracles@.len() && self.oracles@[i as int].oracle == who,
                None => !self.is_registered(who),
            },
    {
        let mut i: usize = 0;
        while i < self.oracles.len()
            invariant
                i <= self.oracles@.len(),
                forall|j: int| 0 <= j < i ==> #[trigger] self.oracles@[j].oracle != who,
            decreases self.oracles@.len() - i,
        {
            if self.oracles[i].oracle == who {
                return Some(i);
            }
            i = i + 1;
        }
        None
    }

    fn find_market(&self, market_id: &MarketId) -> (r: Option<usize>)
        requires
            self.wf(),
        ensures
            match r {
                Some(i) => self.has_market(*market_id) && i == self.market_index(*market_id),
                None => !self.has_market(*market_id),
            },
    {
        let mut i: usize = 0;
        while i < self.markets.len()
            invariant
                self.wf(),
                i <= self.markets@.len(),
                forall|j: int| 0 <= j < i ==> #[trigger] self.markets@[j].market_id != *market_id,
            decreases self.markets@.len() - i,
        {
            if self.markets[i].market_id.same(market_id) {
                proof {
                    assert(self.has_market(*market_id));
                    let k = self.market_index(*market_id);
                    assert(self.markets@[k].market_id == *market_id);
                }
                return Some(i);
            }
            i = i + 1;
        }
        None
    }

    /// Adds `oracle` to the registry (administrator only), with accuracy 100 and `now` as
    /// its registration time.
    pub fn register_oracle(
        &mut self,
        caller: Address,
        now: u64,
        oracle: Address,
        oracle_name: String,
    ) -> (r: Result<(), OracleError>)
        requires
            old(self).wf(),
        ensures
            final(self).wf(),
            r == old(self).register_oracle_result(caller, oracle),
            r is Err ==> final(self).unchanged(*old(self)),
            r is Ok ==> {
                &&& final(self).admin == old(self).admin
                &&& final(self).required_consensus == old(self).required_consensus
                &&& final(self).markets@ == old(self).markets@
                &&& final(self).oracles@.len() == old(self).oracles@.len() + 1
                &&& final(self).oracles@.drop_last() == old(self).oracles@
                &&& final(self).oracles@.last().oracle == oracle
                &&& final(self).oracles@.last().name@ == oracle_name@
                &&& final(self).oracles@.last().accuracy == INITIAL_ACCURACY
                &&& final(self).oracles@.last().registered_at == now
            },
    {
        if caller != self.admin {
            return Err(OracleError::Unauthorized);
        }
        if self.oracles.len() >= MAX_ORACLES {
            return Err(OracleError::LimitReached);
        }
        if self.find_oracle(oracle).is_some() {
            return Err(OracleError::AlreadyRegistered);
        }
        let ghost old_oracles = self.oracles@;
        self.oracles.push(
            OracleInfo {
                oracle,
                name: oracle_name,
                accuracy: INITIAL_ACCURACY,
                registered_at: now,
            },
        );
        proof {
            assert(self.oracles@.drop_last() =~= old_oracles);
            assert forall|i: int, j: int|
                0 <= i < self.markets@.len() && 0 <= j < self.markets@[i].attestations@.len()
                    implies self.is_registered(
                #[trigger] self.markets@[i].attestations@[j].attestor,
            ) by {
                let w = self.markets@[i].attestations@[j].attestor;
                assert(old(self).is_registered(w));
                let k = choose|k: int| 0 <= k < old_oracles.len() && #[trigger] old_oracles[k].oracle == w;
                assert(self.oracles@[k].oracle == w);
            }
            assert forall|i: int, j: int|
                0 <= i < j < self.oracles@.len() implies #[trigger] self.oracles@[i].oracle
                != #[trigger] self.oracles@[j].oracle by {
                if j == old_oracles.len() {
                    assert(old_oracles[i].oracle != oracle);
                }
            }
        }
        Ok(())
    }

    /// Replacing one well-formed market by another of the same id, whose attestors are
    /// registered, keeps the engine well-formed and every market where it was.
    proof fn lemma_replace_market(old: OracleManager, new: OracleManager, i: int)
        requires
            old.wf(),
            0 <= i < old.markets@.len(),
            new.only_market_changed(old, i),
            new.markets@[i].wf(),
            forall|j: int|
                0 <= j < new.markets@[i].attestations@.len() ==> old.is_registered(
                    #[trigger] new.markets@[i].attestations@[j].attestor,
                ),
        ensures
            new.wf(),
            forall|m: MarketId| #[trigger]
                new.has_market(m) == old.has_market(m) && (old.has_market(m) ==> new.market_index(m)
                    == old.market_index(m)),
            forall|w: Address| #[trigger] new.is_registered(w) == old.is_registered(w),
    {
        assert forall|w: Address| #[trigger] new.is_registered(w) == old.is_registered(w) by {
            if old.is_registered(w) {
                let k = choose|k: int| 0 <= k < old.oracles@.len() && #[trigger] old.oracles@[k].oracle == w;
                assert(new.oracles@[k].oracle == w);
            }
            if new.is_registered(w) {
                let k = choose|k: int| 0 <= k < new.oracles@.len() && #[trigger] new.oracles@[k].oracle == w;
                assert(old.oracles@[k].oracle == w);
            }
        }
        assert forall|m: MarketId| #[trigger]
            new.has_market(m) == old.has_market(m) && (old.has_market(m) ==> new.market_index(m)
                == old.market_index(m)) by {
            if old.has_market(m) {
                let j = old.market_index(m);
                assert(new.markets@[j].market_id == m);
                let k = new.market_index(m);
                assert(old.markets@[k].market_id == m);
            }
            if new.has_market(m) {
                let k = new.market_index(m);
                assert(old.markets@[k].market_id == m);
            }
        }
        assert forall|a: int, j: int|
            0 <= a < new.markets@.len() && 0 <= j < new.markets@[a].attestations@.len()
                implies new.is_registered(#[trigger] new.markets@[a].attestations@[j].attestor) by {
            if a != i {
                assert(new.markets@[a] == old.markets@[a]);
            }
        }
    }

    /// Registers `market_id` for attestation with `resolution_time` (administrator only).
    /// Registering it again starts it afresh: new time, no votes, both counters at zero.
    pub fn register_market(&mut self, caller: Address, market_id: MarketId, resolution_time: u64) -> (r:
        Result<(), OracleError>)
        requires
            old(self).wf(),
        ensures
            final(self).wf(),
            r == if caller != old(self).admin {
                Err(OracleError::Unauthorized)
            } else {
                Ok::<(), OracleError>(())
            },
            r is Err ==> final(self).unchanged(*old(self)),
            r is Ok ==> final(self).admin == old(self).admin && final(self).required_consensus
                == old(self).required_consensus && final(self).oracles@ == old(self).oracles@,
            r is Ok ==> final(self).has_market(market_id),
            r is Ok ==> final(self).market(market_id).resolution_time == resolution_time,
            r is Ok ==> final(self).market(market_id).yes_count == 0,
            r is Ok ==> final(self).market(market_id).no_count == 0,
            r is Ok ==> final(self).market(market_id).attestations@.len() == 0,
            r is Ok ==> forall|m: MarketId|
                m != market_id ==> #[trigger] final(self).has_market(m) == old(self).has_market(m),
            r is Ok ==> forall|m: MarketId|
                m != market_id && old(self).has_market(m) ==> #[trigger] final(self).market(m)
                    == old(self).market(m),
    {
        if caller != self.admin {
            return Err(OracleError::Unauthorized);
        }
        let fresh = MarketAttestations::fresh(market_id, resolution_time);
        let ghost old_self = *self;
        match self.find_market(&market_id) {
            Some(i) => {
                self.markets.set(i, fresh);
                proof {
                    Self::lemma_replace_market(old_self, *self, i as int);
                }
            },
            None => {
                self.markets.push(fresh);
                proof {
                    let n = old_self.markets@.len() as int;
                    assert(self.markets@[n].market_id == market_id);
                    assert forall|a: int, b: int|
                        0 <= a < b < self.markets@.len() implies #[trigger] self.markets@[a].market_id
                        != #[trigger] self.markets@[b].market_id by {
                        if b == n {
                            assert(old_self.markets@[a].market_id != market_id);
                        }
                    }
                    assert forall|m: MarketId| #[trigger]
                        self.has_market(m) == (old_self.has_market(m) || m == market_id) && (
                        old_self.has_market(m) ==> self.market_index(m) == old_self.market_index(
                            m,
                        )) by {
                        if old_self.has_market(m) {
                            let j = old_self.market_index(m);
                            assert(self.markets@[j].market_id == m);
                            let k = self.market_index(m);
                            assert(k == j);
                        }
                        if self.has_market(m) && m != market_id {
                            let k = self.market_index(m);
                            assert(k != n);
                            assert(old_self.markets@[k].market_id == m);
                        }
                    }
                    let k = self.market_index(market_id);
                    assert(k == n);
                    assert(self.oracles@ == old_self.oracles@);
                }
            },
        }
        proof {
            assert(old_self == *old(self));
            assert(self.has_market(market_id));
            assert(self.oracles@ == old(self).oracles@);
            assert forall|m: MarketId|
                m != market_id implies self.has_market(m) == old(self).has_market(m) && (old(
                    self,
                ).has_market(m) ==> self.market(m) == old(self).market(m)) by {
                if old(self).has_market(m) {
                    let j = old(self).market_index(m);
                    assert(old(self).markets@[j].market_id == m);
                    assert(self.markets@[j] == old(self).markets@[j]);
                    assert(self.has_market(m));
                    let k = self.market_index(m);
                    assert(self.markets@[k].market_id == m);
                    assert(k == j);
                }
                if self.has_market(m) {
                    let k = self.market_index(m);
                    assert(self.markets@[k].market_id == m);
                    assert(k < old(self).markets@.len());
                    assert(old(self).markets@[k] == self.markets@[k]);
                }
            }
        }
        Ok(())
    }

    /// Records `oracle`'s vote `outcome` for `market_id` at time `now`.
    pub fn submit_attestation(
        &mut self,
        now: u64,
        oracle: Address,
        market_id: MarketId,
        outcome: u32,
        _data_hash: [u8; 32],
    ) -> (r: Result<(), OracleError>)
        requires
            old(self).wf(),
        ensures
            final(self).wf(),
            r == old(self).submit_attestation_result(now, oracle, market_id, outcome),
            r is Err ==> final(self).unchanged(*old(self)),
            r is Ok ==> {
                &&& final(self).only_market_changed(*old(self), old(self).market_index(market_id))
                &&& final(self).market(market_id).resolution_time == old(self).market(
                    market_id,
                ).resolution_time
                &&& final(self).market(market_id).attestations@ == old(self).market(
                    market_id,
                ).attestations@.push(Attestation { attestor: oracle, outcome, timestamp: now })
            },
    {
        if self.find_oracle(oracle).is_none() {
            return Err(OracleError::NotRegistered);
        }
        let i = match self.find_market(&market_id) {
            Some(i) => i,
            None => return Err(OracleError::MarketNotRegistered),
        };
        if now < self.markets[i].resolution_time {
            return Err(OracleError::TooEarly);
        }
        if outcome > 1 {
            return Err(OracleError::InvalidOutcome);
        }
        if self.markets[i].find_attestation(oracle).is_some() {
            return Err(OracleError::DuplicateAttestation);
        }
        let a = Attestation { attestor: oracle, outcome, timestamp: now };
        let ghost old_self = *self;
        proof {
            let s = self.markets@[i as int].attestations@.push(a);
            assert(self.markets@[i as int].wf());
            assert forall|x: int, y: int|
                0 <= x < y < s.len() implies #[trigger] s[x].attestor != #[trigger] s[y].attestor by {
                if y == s.len() - 1 {
                    assert(self.markets@[i as int].attestations@[x].attestor != oracle);
                } else {
                    assert(self.markets@[i as int].attestations@[x].attestor
                        != self.markets@[i as int].attestations@[y].attestor);
                }
            }
            assert forall|x: int| 0 <= x < s.len() implies self.is_registered(
                #[trigger] s[x].attestor,
            ) by {
                if x < s.len() - 1 {
                    assert(s[x] == self.markets@[i as int].attestations@[x]);
                }
            }
            lemma_voters_bounded(s, *self);
        }
        self.markets[i].record(a);
        proof {
            assert forall|j: int|
                0 <= j < self.markets@[i as int].attestations@.len() implies old_self.is_registered(
                #[trigger] self.markets@[i as int].attestations@[j].attestor,
            ) by {
                if j < old_self.markets@[i as int].attestations@.len() {
                    assert(self.markets@[i as int].attestations@[j]
                        == old_self.markets@[i as int].attestations@[j]);
                }
            }
            Self::lemma_replace_market(old_self, *self, i as int);
        }
        Ok(())
    }

    /// Whether an outcome has reached consensus for `market_id`, and which.
    ///
    /// Below the quorum of distinct voters the answer is `(false, 0)` at once; otherwise an
    /// outcome wins when its votes reach the quorum and exceed the other side's.
    pub fn check_consensus(&self, market_id: MarketId) -> (r: (bool, u32))
        requires
            self.wf(),
        ensures
            r == self.consensus_of(market_id),
    {
        let threshold = self.required_consensus;
        let i = match self.find_market(&market_id) {
            Some(i) => i,
            None => {
                return (false, 0);
            },
        };
        let votes = &self.markets[i].attestations;
        proof {
            assert(self.markets@[i as int].wf());
            lemma_votes_split(votes@);
        }
        if votes.len() < threshold as usize {
            return (false, 0);
        }
        let mut yes_votes: u32 = 0;
        let mut no_votes: u32 = 0;
        let mut k: usize = 0;
        while k < votes.len()
            invariant
                k <= votes@.len(),
                votes@.len() <= MAX_ORACLES,
                yes_votes == votes_for(votes@.subrange(0, k as int), 1),
                no_votes == votes_for(votes@.subrange(0, k as int), 0),
                yes_votes + no_votes <= k,
                forall|j: int| 0 <= j < votes@.len() ==> #[trigger] votes@[j].outcome <= 1,
            decreases votes@.len() - k,
        {
            proof {
                assert(votes@.subrange(0, k + 1).drop_last() =~= votes@.subrange(0, k as int));
            }
            if votes[k].outcome == 1 {
                yes_votes = yes_votes + 1;
            } else {
                no_votes = no_votes + 1;
            }
            k = k + 1;
        }
        proof {
            assert(votes@.subrange(0, votes@.len() as int) =~= votes@);
        }
        if yes_votes >= threshold && yes_votes > no_votes {
            (true, 1)
        } else if no_votes >= threshold && no_votes > yes_votes {
            (true, 0)
        } else {
            (false, 0)
        }
    }

    /// The outcome that has reached consensus for `market_id`.
    pub fn get_consensus_result(&self, market_id: MarketId) -> (r: Result<u32, OracleError>)
        requires
            self.wf(),
        ensures
            r == if self.consensus_of(market_id).0 {
                Ok::<u32, OracleError>(self.consensus_of(market_id).1)
            } else {
                Err(OracleError::ConsensusNotReached)
            },
    {
        let (reached, outcome) = self.check_consensus(market_id);
        if reached {
            Ok(outcome)
        } else {
            Err(OracleError::ConsensusNotReached)
        }
    }

    /// The resolution time of `market_id`, if it is registered.
    pub fn get_market_resolution_time(&self, market_id: MarketId) -> (r: Option<u64>)
        requires
            self.wf(),
        ensures
            r == if self.has_market(market_id) {
                Some(self.market(market_id).resolution_time)
            } else {
                None::<u64>
            },
    {
        match self.find_market(&market_id) {
            Some(i) => Some(self.markets[i].resolution_time),
            None => None,
        }
    }

    /// The YES and NO attestation counts of `market_id` (zero when it is not registered).
    pub fn get_attestation_counts(&self, market_id: MarketId) -> (r: (u32, u32))
        requires
            self.wf(),
        ensures
            r.0 == votes_for(self.votes(market_id), 1),
            r.1 == votes_for(self.votes(market_id), 0),
    {
        match self.find_market(&market_id) {
            Some(i) => {
                proof {
                    assert(self.markets@[i as int].wf());
                }
                (self.markets[i].yes_count, self.markets[i].no_count)
            },
            None => (0, 0),
        }
    }

    /// `oracle`'s attestation for `market_id`, if it has made one.
    pub fn get_attestation(&self, market_id: MarketId, oracle: Address) -> (r: Option<Attestation>)
        requires
            self.wf(),
        ensures
            match r {
                Some(a) => a.attestor == oracle && self.votes(market_id).contains(a),
                None => !has_attested(self.votes(market_id), oracle),
            },
    {
        match self.find_market(&market_id) {
            Some(i) => match self.markets[i].find_attestation(oracle) {
                Some(j) => {
                    let a = self.markets[i].attestations[j];
                    proof {
                        assert(self.votes(market_id)[j as int] == a);
                    }
                    Some(a)
                },
                None => None,
            },
            None => None,
        }
    }

    /// Whether `oracle` is registered.
    pub fn is_oracle_registered(&self, oracle: Address) -> (r: bool)
        ensures
            r == self.is_registered(oracle),
    {
        self.find_oracle(oracle).is_some()
    }

    /// How many oracles are registered.
    pub fn get_oracle_count(&self) -> (r: usize)
        ensures
            r == self.oracles@.len(),
    {
        self.oracles.len()
    }

    /// The accuracy score of `oracle`, if it is registered.
    pub fn get_oracle_accuracy(&self, oracle: Address) -> (r: Option<u32>)
        requires
            self.wf(),
        ensures
            match r {
                Some(acc) => exists|i: int|
                    0 <= i < self.oracles@.len() && #[trigger] self.oracles@[i].oracle == oracle
                        && self.oracles@[i].accuracy == acc,
                None => !self.is_registered(oracle),
            },
    {
        match self.find_oracle(oracle) {
            Some(i) => Some(self.oracles[i].accuracy),
            None => None,
        }
    }
}

/// In a well-formed engine each oracle has at most one attestation per market, and the
/// stored counters equal the attestations for each outcome.
pub proof fn lemma_one_vote_per_oracle(manager: OracleManager, market_id: MarketId)
    requires
        manager.wf(),
        manager.has_market(market_id),
    ensures
        forall|i: int, j: int|
            0 <= i < j < manager.votes(market_id).len() ==> #[trigger] manager.votes(
                market_id,
            )[i].attestor != #[trigger] manager.votes(market_id)[j].attestor,
        manager.market(market_id).yes_count == votes_for(manager.votes(market_id), 1),
        manager.market(market_id).no_count == votes_for(manager.votes(market_id), 0),
{
    assert(manager.markets@[manager.market_index(market_id)].wf());
}

/// A tie never resolves: with as many YES as NO votes there is no consensus, whatever
/// the quorum.
pub proof fn lemma_tie_never_resolves(manager: OracleManager, market_id: MarketId)
    requires
        votes_for(manager.votes(market_id), 1) == votes_for(manager.votes(market_id), 0),
    ensures
        manager.consensus_of(market_id) == (false, 0u32),
{
}

} // verus!
