//! The market actor's settlement core: per-outcome liability pools, the
//! market lifecycle state machine, bet admission, the parimutuel payout
//! calculator, and the resolution orchestrator.

use vstd::prelude::*;
use vstd::arithmetic::div_mod::{
    lemma_div_is_ordered, lemma_div_multiples_vanish, lemma_div_of0, lemma_fundamental_div_mod,
    lemma_mod_division_less_than_divisor, lemma_mod_multiples_basic,
};
use vstd::arithmetic::mul::{
    lemma_mul_inequality, lemma_mul_is_commutative, lemma_mul_nonnegative,
};
use crate::shared::{
    Bet, EventId, EventResult, FlashBetError, MarketEvent, MarketInfo, MarketStatus, Outcome,
    spec_legal_outcome, spec_valid_event_id, validate_event_id, validate_outcome_for_market,
};

verus! {

/// The total amount wagered on one outcome across a sequence of bets.
pub open spec fn sum_amounts(bets: Seq<Bet>, outcome: Outcome) -> int
    decreases bets.len(),
{
    if bets.len() == 0 {
        0
    } else {
        sum_amounts(bets.drop_last(), outcome) + if bets.last().outcome == outcome {
            bets.last().amount as int
        } else {
            0
        }
    }
}

/// Some admitted bet carries the given bet identifier.
pub open spec fn has_bet_id(bets: Seq<Bet>, id: u64) -> bool {
    exists|i: int| 0 <= i < bets.len() && (#[trigger] bets[i]).bet_id == id
}

/// No two admitted bets carry the same bet identifier: together with the
/// event identifier it is the idempotence key that keeps a redelivered bet
/// from entering the pools twice.
pub open spec fn unique_bet_keys(bets: Seq<Bet>) -> bool {
    forall|i: int, j: int|
        0 <= i < bets.len() && 0 <= j < bets.len() && i != j ==> (#[trigger] bets[i]).bet_id != (
        #[trigger] bets[j]).bet_id
}

/// The bets that chose the given outcome, in order of admission.
pub open spec fn winning_bets(bets: Seq<Bet>, outcome: Outcome) -> Seq<Bet>
    decreases bets.len(),
{
    if bets.len() == 0 {
        Seq::empty()
    } else {
        let rest = winning_bets(bets.drop_last(), outcome);
        if bets.last().outcome == outcome {
            rest.push(bets.last())
        } else {
            rest
        }
    }
}

/// Every term of a per-outcome sum is non-negative.
proof fn lemma_sum_nonneg(bets: Seq<Bet>, outcome: Outcome)
    ensures
        sum_amounts(bets, outcome) >= 0,
    decreases bets.len(),
{
    if bets.len() > 0 {
        lemma_sum_nonneg(bets.drop_last(), outcome);
    }
}

/// Appending a bet grows exactly the sum of its own outcome, by its amount.
proof fn lemma_sum_push(bets: Seq<Bet>, bet: Bet, outcome: Outcome)
    ensures
        sum_amounts(bets.push(bet), outcome) == sum_amounts(bets, outcome)
            + if bet.outcome == outcome {
                bet.amount as int
            } else {
                0
            },
{
    assert(bets.push(bet).drop_last() =~= bets);
}

/// A bet on an outcome contributes no more than that outcome's sum.
proof fn lemma_sum_element_bound(bets: Seq<Bet>, j: int, outcome: Outcome)
    requires
        0 <= j < bets.len(),
        bets[j].outcome == outcome,
    ensures
        bets[j].amount as int <= sum_amounts(bets, outcome),
    decreases bets.len(),
{
    lemma_sum_nonneg(bets.drop_last(), outcome);
    if j < bets.len() - 1 {
        lemma_sum_element_bound(bets.drop_last(), j, outcome);
    }
}

/// With strictly positive amounts, a bet list is no longer than the total it
/// contributes across the three outcomes.
proof fn lemma_len_le_sums(bets: Seq<Bet>)
    requires
        forall|j: int| 0 <= j < bets.len() ==> (#[trigger] bets[j]).amount > 0,
    ensures
        bets.len() as int <= sum_amounts(bets, Outcome::Home) + sum_amounts(bets, Outcome::Away)
            + sum_amounts(bets, Outcome::Draw),
    decreases bets.len(),
{
    if bets.len() > 0 {
        assert(forall|j: int|
            0 <= j < bets.drop_last().len() ==> (#[trigger] bets.drop_last()[j]).amount > 0);
        lemma_len_le_sums(bets.drop_last());
        assert(bets.last() == bets[bets.len() - 1]);
    }
}

/// One market's durable record: metadata, lifecycle status, per-outcome
/// pools, the running total, and every admitted bet.
pub struct MarketEntry {
    /// Immutable market metadata.
    pub info: MarketInfo,
    /// Current lifecycle status.
    pub status: MarketStatus,
    /// Amount wagered on the home outcome.
    pub pool_home: u64,
    /// Amount wagered on the away outcome.
    pub pool_away: u64,
    /// Amount wagered on the draw outcome.
    pub pool_draw: u64,
    /// Total amount wagered across all outcomes.
    pub total_pool: u64,
    /// Every admitted bet, in admission order.  Audit history; never mutated.
    pub bets: Vec<Bet>,
    /// Number of admitted bets.
    pub bet_count: u64,
}

impl MarketEntry {
    /// The pool accumulated for one outcome.
    pub open spec fn pool_for(self, outcome: Outcome) -> u64 {
        match outcome {
            Outcome::Home => self.pool_home,
            Outcome::Away => self.pool_away,
            Outcome::Draw => self.pool_draw,
        }
    }

    /// Well-formedness: each pool equals the sum of the amounts of the bets
    /// on its outcome, the total pool equals the sum of the three pools, the
    /// bet counter matches the record list, bet identifiers are unique
    /// within the market, and every admitted bet carries a positive amount,
    /// this market's event, and a legal outcome.
    pub open spec fn wf(self) -> bool {
        &&& unique_bet_keys(self.bets@)
        &&& self.pool_home as int == sum_amounts(self.bets@, Outcome::Home)
        &&& self.pool_away as int == sum_amounts(self.bets@, Outcome::Away)
        &&& self.pool_draw as int == sum_amounts(self.bets@, Outcome::Draw)
        &&& self.total_pool as int == self.pool_home as int + self.pool_away as int
            + self.pool_draw as int
        &&& self.bet_count as int == self.bets@.len() as int
        &&& forall|j: int|
            0 <= j < self.bets@.len() ==> (#[trigger] self.bets@[j]).amount > 0
        &&& forall|j: int|
            0 <= j < self.bets@.len() ==> (#[trigger] self.bets@[j]).event_id.0@
                == self.info.event_id.0@
        &&& forall|j: int|
            0 <= j < self.bets@.len() ==> spec_legal_outcome(
                (#[trigger] self.bets@[j]).outcome,
                self.info.market_type,
            )
    }
}

/// State of one market actor: every market it hosts, keyed by event
/// identifier.
pub struct FlashbetMarketState {
    /// The hosted markets.  Event identifiers are unique across entries.
    pub markets: Vec<MarketEntry>,
}

impl FlashbetMarketState {
    /// A market exists for the event.
    pub open spec fn spec_has_market(self, id: Seq<char>) -> bool {
        exists|i: int|
            0 <= i < self.markets@.len() && (#[trigger] self.markets@[i]).info.event_id.0@ == id
    }

    /// The index of the market for the event (well defined when one exists,
    /// by uniqueness of event identifiers).
    pub open spec fn spec_market_idx(self, id: Seq<char>) -> int {
        choose|i: int|
            0 <= i < self.markets@.len() && (#[trigger] self.markets@[i]).info.event_id.0@ == id
    }

    /// The market entry for the event.
    pub open spec fn spec_market(self, id: Seq<char>) -> MarketEntry {
        self.markets@[self.spec_market_idx(id)]
    }

    /// The status of the market for the event; an unknown event reads as
    /// `Open`, mirroring the store's default.
    pub open spec fn spec_status(self, id: Seq<char>) -> MarketStatus {
        if self.spec_has_market(id) {
            self.spec_market(id).status
        } else {
            MarketStatus::Open
        }
    }

    /// The total pool for the event; zero for an unknown event.
    pub open spec fn spec_total_pool(self, id: Seq<char>) -> u64 {
        if self.spec_has_market(id) {
            self.spec_market(id).total_pool
        } else {
            0
        }
    }

    /// The pool for one outcome of the event; zero for an unknown event.
    pub open spec fn spec_pool(self, id: Seq<char>, outcome: Outcome) -> u64 {
        if self.spec_has_market(id) {
            self.spec_market(id).pool_for(outcome)
        } else {
            0
        }
    }

    /// The admitted bets of the event's market; empty for an unknown event.
    pub open spec fn spec_bets(self, id: Seq<char>) -> Seq<Bet> {
        if self.spec_has_market(id) {
            self.spec_market(id).bets@
        } else {
            Seq::empty()
        }
    }

    /// Well-formedness: every entry is well formed and event identifiers are
    /// unique, so each event names at most one market.
    pub open spec fn wf(self) -> bool {
        &&& forall|i: int| 0 <= i < self.markets@.len() ==> (#[trigger] self.markets@[i]).wf()
        &&& forall|i: int, j: int|
            0 <= i < self.markets@.len() && 0 <= j < self.markets@.len() && i != j
                ==> (#[trigger] self.markets@[i]).info.event_id.0@
                    != (#[trigger] self.markets@[j]).info.event_id.0@
    }

    /// In a well-formed state, an index holding the event's identifier is the
    /// index the model functions denote.
    pub proof fn lemma_idx_is(self, i: int)
        requires
            self.wf(),
            0 <= i < self.markets@.len(),
        ensures
            self.spec_has_market(self.markets@[i].info.event_id.0@),
            self.spec_market_idx(self.markets@[i].info.event_id.0@) == i,
    {
        let id = self.markets@[i].info.event_id.0@;
        assert(self.spec_has_market(id));
        let j = self.spec_market_idx(id);
        assert(0 <= j < self.markets@.len() && self.markets@[j].info.event_id.0@ == id);
        assert(j == i);
    }

    /// A fresh actor hosting no markets.
    pub fn new() -> (r: Self)
        ensures
            r.wf(),
            r.markets@.len() == 0,
    {
        FlashbetMarketState { markets: Vec::new() }
    }

    /// The index of the market for the event, if one exists.
    fn find_entry(&self, event_id: &EventId) -> (r: Option<usize>)
        ensures
            match r {
                Some(i) => i < self.markets@.len() && self.markets@[i as int].info.event_id.0@
                    == event_id.0@,
                None => !self.spec_has_market(event_id.0@),
            },
    {
        let n = self.markets.len();
        let mut i: usize = 0;
        while i < n
            invariant
                i <= n,
                n == self.markets@.len(),
                forall|k: int|
                    0 <= k < i ==> (#[trigger] self.markets@[k]).info.event_id.0@ != event_id.0@,
            decreases n - i,
        {
            if self.markets[i].info.event_id.0 == event_id.0 {
                return Some(i);
            }
            i += 1;
        }
        None
    }

    /// Market metadata for the event, if the market exists.
    pub fn get_market(&self, event_id: &EventId) -> (r: Option<MarketInfo>)
        requires
            self.wf(),
        ensures
            match r {
                Some(info) => self.spec_has_market(event_id.0@) && info == self.spec_market(
                    event_id.0@,
                ).info,
                None => !self.spec_has_market(event_id.0@),
            },
    {
        match self.find_entry(event_id) {
            Some(i) => {
                proof {
                    self.lemma_idx_is(i as int);
                }
                Some(self.markets[i].info.clone())
            },
            None => None,
        }
    }

    /// Current status of the market for the event; `Open` when no market
    /// exists, mirroring the store's default.
    pub fn get_status(&self, event_id: &EventId) -> (r: MarketStatus)
        requires
            self.wf(),
        ensures
            r == self.spec_status(event_id.0@),
    {
        match self.find_entry(event_id) {
            Some(i) => {
                proof {
                    self.lemma_idx_is(i as int);
                }
                self.markets[i].status
            },
            None => MarketStatus::Open,
        }
    }

    /// Whether a market exists for the event.
    pub fn market_exists(&self, event_id: &EventId) -> (r: bool)
        ensures
            r == self.spec_has_market(event_id.0@),
    {
        self.find_entry(event_id).is_some()
    }

    /// Whether the market exists and is open for betting.
    pub fn is_open(&self, event_id: &EventId) -> (r: bool)
        requires
            self.wf(),
        ensures
            r == (self.spec_has_market(event_id.0@) && self.spec_status(event_id.0@)
                is Open),
    {
        match self.find_entry(event_id) {
            Some(i) => {
                proof {
                    self.lemma_idx_is(i as int);
                }
                matches!(self.markets[i].status, MarketStatus::Open)
            },
            None => false,
        }
    }

    /// Total pool for the event; zero for an unknown event.
    pub fn get_total_pool(&self, event_id: &EventId) -> (r: u64)
        requires
            self.wf(),
        ensures
            r == self.spec_total_pool(event_id.0@),
    {
        match self.find_entry(event_id) {
            Some(i) => {
                proof {
                    self.lemma_idx_is(i as int);
                }
                self.markets[i].total_pool
            },
            None => 0,
        }
    }

    /// Pool for one outcome of the event; zero for an unknown event.
    pub fn get_pool_for_outcome(&self, event_id: &EventId, outcome: &Outcome) -> (r: u64)
        requires
            self.wf(),
        ensures
            r == self.spec_pool(event_id.0@, *outcome),
    {
        match self.find_entry(event_id) {
            Some(i) => {
                proof {
                    self.lemma_idx_is(i as int);
                }
                match outcome {
                    Outcome::Home => self.markets[i].pool_home,
                    Outcome::Away => self.markets[i].pool_away,
                    Outcome::Draw => self.markets[i].pool_draw,
                }
            },
            None => 0,
        }
    }

    /// Number of admitted bets on the event's market; zero for an unknown
    /// event.
    pub fn get_bet_count(&self, event_id: &EventId) -> (r: u64)
        requires
            self.wf(),
        ensures
            r as int == (if self.spec_has_market(event_id.0@) {
                self.spec_market(event_id.0@).bet_count as int
            } else {
                0
            }),
    {
        match self.find_entry(event_id) {
            Some(i) => {
                proof {
                    self.lemma_idx_is(i as int);
                }
                self.markets[i].bet_count
            },
            None => 0,
        }
    }

    /// The event identifiers of every hosted market, in creation order.
    /// The read-only reporting layer lists markets through this.
    pub fn get_all_market_ids(&self) -> (r: Vec<String>)
        ensures
            r@.len() == self.markets@.len(),
            forall|i: int|
                0 <= i < r@.len() ==> (#[trigger] r@[i])@ == self.markets@[i].info.event_id.0@,
    {
        let mut r: Vec<String> = Vec::new();
        let n = self.markets.len();
        let mut i: usize = 0;
        while i < n
            invariant
                i <= n,
                n == self.markets@.len(),
                r@.len() == i,
                forall|k: int|
                    0 <= k < i ==> (#[trigger] r@[k])@ == self.markets@[k].info.event_id.0@,
            decreases n - i,
        {
            r.push(self.markets[i].info.event_id.0.clone());
            i += 1;
        }
        r
    }

    /// The most recently created market's event identifier, if any.
    pub fn get_latest_market_event_id(&self) -> (r: Option<EventId>)
        ensures
            match r {
                Some(id) => self.markets@.len() > 0 && id == self.markets@.last().info.event_id,
                None => self.markets@.len() == 0,
            },
    {
        let n = self.markets.len();
        if n == 0 {
            None
        } else {
            Some(self.markets[n - 1].info.event_id.clone())
        }
    }

    /// Every admitted bet of the event's market, in admission order; empty
    /// for an unknown event.
    pub fn get_bets(&self, event_id: &EventId) -> (r: Vec<Bet>)
        requires
            self.wf(),
        ensures
            r@ == self.spec_bets(event_id.0@),
    {
        let mut r: Vec<Bet> = Vec::new();
        match self.find_entry(event_id) {
            Some(i) => {
                proof {
                    self.lemma_idx_is(i as int);
                }
                let bets = &self.markets[i].bets;
                let n = bets.len();
                let mut j: usize = 0;
                while j < n
                    invariant
                        j <= n,
                        n == bets@.len(),
                        r@ == bets@.take(j as int),
                    decreases n - j,
                {
                    r.push(bets[j].clone());
                    proof {
                        assert(bets@.take(j + 1) =~= bets@.take(j as int).push(bets@[j as int]));
                    }
                    j += 1;
                }
                proof {
                    assert(bets@.take(n as int) =~= bets@);
                }
                r
            },
            None => r,
        }
    }

    /// All admitted bets that chose the given outcome, in admission order.
    pub fn get_bets_for_outcome(&self, event_id: &EventId, outcome: &Outcome) -> (r: Vec<Bet>)
        requires
            self.wf(),
        ensures
            r@ == winning_bets(self.spec_bets(event_id.0@), *outcome),
    {
        let mut r: Vec<Bet> = Vec::new();
        match self.find_entry(event_id) {
            Some(i) => {
                proof {
                    self.lemma_idx_is(i as int);
                }
                let bets = &self.markets[i].bets;
                let n = bets.len();
                let mut j: usize = 0;
                while j < n
                    invariant
                        j <= n,
                        n == bets@.len(),
                        r@ == winning_bets(bets@.take(j as int), *outcome),
                    decreases n - j,
                {
                    proof {
                        assert(bets@.take(j + 1).drop_last() =~= bets@.take(j as int));
                        assert(bets@.take(j + 1).last() == bets@[j as int]);
                    }
                    if bets[j].outcome == *outcome {
                        r.push(bets[j].clone());
                    }
                    j += 1;
                }
                proof {
                    assert(bets@.take(n as int) =~= bets@);
                }
                r
            },
            None => r,
        }
    }

    /// Create a new market for the event.  Fails on a malformed event
    /// identifier or on a duplicate; on success the market starts `Open`
    /// with empty pools.
    pub fn create_market(&mut self, info: MarketInfo) -> (r: Result<MarketEvent, FlashBetError>)
        requires
            old(self).wf(),
        ensures
            final(self).wf(),
            r is Ok <==> (spec_valid_event_id(info.event_id.0@) && !old(self).spec_has_market(
                info.event_id.0@,
            )),
            r is Err ==> *final(self) == *old(self),
            !spec_valid_event_id(info.event_id.0@) ==> r == Err::<MarketEvent, FlashBetError>(
                FlashBetError::InvalidEventId(info.event_id.0),
            ),
            spec_valid_event_id(info.event_id.0@) && old(self).spec_has_market(info.event_id.0@)
                ==> r == Err::<MarketEvent, FlashBetError>(
                FlashBetError::DuplicateMarket(info.event_id),
            ),
            r is Ok ==> {
                &&& final(self).markets@.len() == old(self).markets@.len() + 1
                &&& forall|j: int|
                    0 <= j < old(self).markets@.len() ==> final(self).markets@[j] == old(
                        self,
                    ).markets@[j]
                &&& final(self).markets@.last().info == info
                &&& final(self).markets@.last().status is Open
                &&& final(self).markets@.last().total_pool == 0
                &&& final(self).markets@.last().bets@.len() == 0
                &&& r == Ok::<MarketEvent, FlashBetError>(MarketEvent::MarketCreated {
                    event_id: info.event_id,
                    description: info.description,
                })
            },
    {
        if let Err(e) = validate_event_id(&info.event_id) {
            return Err(e);
        }
        if self.find_entry(&info.event_id).is_some() {
            return Err(FlashBetError::DuplicateMarket(info.event_id));
        }
        let event = MarketEvent::MarketCreated {
            event_id: info.event_id.clone(),
            description: info.description.clone(),
        };
        let entry = MarketEntry {
            info,
            status: MarketStatus::Open,
            pool_home: 0,
            pool_away: 0,
            pool_draw: 0,
            total_pool: 0,
            bets: Vec::new(),
            bet_count: 0,
        };
        self.markets.push(entry);
        Ok(event)
    }

    /// Fold an already-admitted bet into the pools and the audit history.
    /// Callers must have run the admission check; `register_bet` does.
    pub fn add_bet(&mut self, bet: Bet)
        requires
            old(self).wf(),
            old(self).spec_has_market(bet.event_id.0@),
            bet.amount > 0,
            spec_legal_outcome(
                bet.outcome,
                old(self).spec_market(bet.event_id.0@).info.market_type,
            ),
            !has_bet_id(old(self).spec_market(bet.event_id.0@).bets@, bet.bet_id),
            old(self).spec_total_pool(bet.event_id.0@) + bet.amount <= u64::MAX,
        ensures
            final(self).wf(),
            bet_added(*old(self), bet, *final(self)),
    {
        let idx = match self.find_entry(&bet.event_id) {
            Some(i) => i,
            None => {
                proof {
                    assert(false);
                }
                0
            },
        };
        proof {
            self.lemma_idx_is(idx as int);
            let e = self.markets@[idx as int];
            lemma_sum_nonneg(e.bets@, Outcome::Home);
            lemma_sum_nonneg(e.bets@, Outcome::Away);
            lemma_sum_nonneg(e.bets@, Outcome::Draw);
            lemma_len_le_sums(e.bets@);
            lemma_sum_push(e.bets@, bet, Outcome::Home);
            lemma_sum_push(e.bets@, bet, Outcome::Away);
            lemma_sum_push(e.bets@, bet, Outcome::Draw);
        }
        let ghost pre = *self;
        let e = &mut self.markets[idx];
        match bet.outcome {
            Outcome::Home => {
                e.pool_home = e.pool_home + bet.amount;
            },
            Outcome::Away => {
                e.pool_away = e.pool_away + bet.amount;
            },
            Outcome::Draw => {
                e.pool_draw = e.pool_draw + bet.amount;
            },
        }
        e.total_pool = e.total_pool + bet.amount;
        e.bet_count = e.bet_count + 1;
        e.bets.push(bet);
        proof {
            let pre_bets = pre.markets@[idx as int].bets@;
            let post_bets = self.markets@[idx as int].bets@;
            assert(post_bets == pre_bets.push(bet));
            assert forall|a: int, b: int|
                0 <= a < post_bets.len() && 0 <= b < post_bets.len() && a != b implies (
            #[trigger] post_bets[a]).bet_id != (#[trigger] post_bets[b]).bet_id by {
                if a < pre_bets.len() && b < pre_bets.len() {
                    assert(pre_bets[a].bet_id != pre_bets[b].bet_id);
                } else if a < pre_bets.len() {
                    assert(pre_bets[a].bet_id != bet.bet_id);
                    assert(post_bets[b] == bet);
                } else if b < pre_bets.len() {
                    assert(pre_bets[b].bet_id != bet.bet_id);
                    assert(post_bets[a] == bet);
                }
            }
        }
    }

    /// Admit a bet: the market must exist and be open, the outcome must be
    /// legal for the market's type, the amount strictly positive, the bet
    /// identifier fresh on this market (a redelivered bet is rejected, not
    /// pooled twice), and the pool must not overflow.  A rejected bet
    /// leaves all state untouched.  Both entry points — direct
    /// administrative submission and inbound cross-actor message — go
    /// through this one function.
    pub fn register_bet(&mut self, bet: Bet) -> (r: Result<MarketEvent, FlashBetError>)
        requires
            old(self).wf(),
        ensures
            final(self).wf(),
            r is Ok <==> spec_admissible(*old(self), bet),
            r is Err ==> *final(self) == *old(self),
            !old(self).spec_has_market(bet.event_id.0@) ==> r
                == Err::<MarketEvent, FlashBetError>(FlashBetError::MarketNotFound(bet.event_id)),
            old(self).spec_has_market(bet.event_id.0@) && !(old(self).spec_status(bet.event_id.0@)
                is Open) ==> r == Err::<MarketEvent, FlashBetError>(FlashBetError::MarketNotOpen(
                old(self).spec_status(bet.event_id.0@),
            )),
            old(self).spec_has_market(bet.event_id.0@) && old(self).spec_status(bet.event_id.0@)
                is Open && !spec_legal_outcome(
                bet.outcome,
                old(self).spec_market(bet.event_id.0@).info.market_type,
            ) ==> r == Err::<MarketEvent, FlashBetError>(FlashBetError::InvalidOutcome),
            old(self).spec_has_market(bet.event_id.0@) && old(self).spec_status(bet.event_id.0@)
                is Open && spec_legal_outcome(
                bet.outcome,
                old(self).spec_market(bet.event_id.0@).info.market_type,
            ) && bet.amount == 0 ==> r == Err::<MarketEvent, FlashBetError>(
                FlashBetError::InvalidBetAmount(bet.amount),
            ),
            old(self).spec_has_market(bet.event_id.0@) && old(self).spec_status(bet.event_id.0@)
                is Open && spec_legal_outcome(
                bet.outcome,
                old(self).spec_market(bet.event_id.0@).info.market_type,
            ) && bet.amount > 0 && has_bet_id(
                old(self).spec_market(bet.event_id.0@).bets@,
                bet.bet_id,
            ) ==> r == Err::<MarketEvent, FlashBetError>(FlashBetError::DuplicateBet(bet.bet_id)),
            old(self).spec_has_market(bet.event_id.0@) && old(self).spec_status(bet.event_id.0@)
                is Open && spec_legal_outcome(
                bet.outcome,
                old(self).spec_market(bet.event_id.0@).info.market_type,
            ) && bet.amount > 0 && !has_bet_id(
                old(self).spec_market(bet.event_id.0@).bets@,
                bet.bet_id,
            ) && old(self).spec_total_pool(bet.event_id.0@) + bet.amount > u64::MAX ==> r
                == Err::<MarketEvent, FlashBetError>(FlashBetError::PoolOverflow),
            r is Ok ==> {
                &&& bet_added(*old(self), bet, *final(self))
                &&& r == Ok::<MarketEvent, FlashBetError>(MarketEvent::BetPlaced {
                    market_id: bet.market_id,
                    bet_id: bet.bet_id,
                    outcome: bet.outcome,
                    amount: bet.amount,
                    total_pool: (old(self).spec_total_pool(bet.event_id.0@) + bet.amount) as u64,
                })
            },
    {
        let idx = match self.find_entry(&bet.event_id) {
            Some(i) => i,
            None => {
                return Err(FlashBetError::MarketNotFound(bet.event_id));
            },
        };
        proof {
            self.lemma_idx_is(idx as int);
        }
        let status = self.markets[idx].status;
        if !matches!(status, MarketStatus::Open) {
            return Err(FlashBetError::MarketNotOpen(status));
        }
        if !validate_outcome_for_market(bet.outcome, &self.markets[idx].info.market_type) {
            return Err(FlashBetError::InvalidOutcome);
        }
        if bet.amount == 0 {
            return Err(FlashBetError::InvalidBetAmount(bet.amount));
        }
        let bets = &self.markets[idx].bets;
        let n = bets.len();
        let mut j: usize = 0;
        while j < n
            invariant
                j <= n,
                n == bets@.len(),
                *self == *old(self),
                old(self).wf(),
                bet.amount > 0,
                old(self).spec_has_market(bet.event_id.0@),
                old(self).spec_status(bet.event_id.0@) is Open,
                spec_legal_outcome(
                    bet.outcome,
                    old(self).spec_market(bet.event_id.0@).info.market_type,
                ),
                bets@ == old(self).spec_market(bet.event_id.0@).bets@,
                forall|k: int| 0 <= k < j ==> (#[trigger] bets@[k]).bet_id != bet.bet_id,
            decreases n - j,
        {
            if bets[j].bet_id == bet.bet_id {
                return Err(FlashBetError::DuplicateBet(bet.bet_id));
            }
            j += 1;
        }
        proof {
            assert(!has_bet_id(self.markets@[idx as int].bets@, bet.bet_id));
        }
        let total = self.markets[idx].total_pool;
        if bet.amount > u64::MAX - total {
            return Err(FlashBetError::PoolOverflow);
        }
        let market_id = bet.market_id;
        let bet_id = bet.bet_id;
        let outcome = bet.outcome;
        let amount = bet.amount;
        self.add_bet(bet);
        Ok(MarketEvent::BetPlaced {
            market_id,
            bet_id,
            outcome,
            amount,
            total_pool: total + amount,
        })
    }

    /// Lock the market: legal only from `Open`; no more bets are accepted.
    pub fn lock_market(&mut self, event_id: &EventId) -> (r: Result<MarketEvent, FlashBetError>)
        requires
            old(self).wf(),
        ensures
            final(self).wf(),
            r is Ok <==> (old(self).spec_has_market(event_id.0@) && old(self).spec_status(
                event_id.0@,
            ) is Open),
            r is Err ==> *final(self) == *old(self),
            !old(self).spec_has_market(event_id.0@) ==> r == Err::<MarketEvent, FlashBetError>(
                FlashBetError::MarketNotFound(*event_id),
            ),
            old(self).spec_has_market(event_id.0@) && !(old(self).spec_status(event_id.0@)
                is Open) ==> r == Err::<MarketEvent, FlashBetError>(FlashBetError::MarketNotOpen(
                old(self).spec_status(event_id.0@),
            )),
            r is Ok ==> {
                &&& status_updated(*old(self), event_id.0@, MarketStatus::Locked, *final(self))
                &&& r == Ok::<MarketEvent, FlashBetError>(MarketEvent::MarketLocked {
                    event_id: *event_id,
                })
            },
    {
        let idx = match self.find_entry(event_id) {
            Some(i) => i,
            None => {
                return Err(FlashBetError::MarketNotFound(event_id.clone()));
            },
        };
        proof {
            self.lemma_idx_is(idx as int);
        }
        let status = self.markets[idx].status;
        if !matches!(status, MarketStatus::Open) {
            return Err(FlashBetError::MarketNotOpen(status));
        }
        let e = &mut self.markets[idx];
        e.status = MarketStatus::Locked;
        Ok(MarketEvent::MarketLocked { event_id: event_id.clone() })
    }

    /// Cancel the market: legal from `Open` or `Locked`; fails loudly once
    /// the market is resolved, since funds are already committed to payout.
    pub fn cancel_market(&mut self, event_id: &EventId) -> (r: Result<(), FlashBetError>)
        requires
            old(self).wf(),
        ensures
            final(self).wf(),
            r is Ok <==> (old(self).spec_has_market(event_id.0@) && (old(self).spec_status(
                event_id.0@,
            ) is Open || old(self).spec_status(event_id.0@) is Locked)),
            r is Err ==> *final(self) == *old(self),
            !old(self).spec_has_market(event_id.0@) ==> r == Err::<(), FlashBetError>(
                FlashBetError::MarketNotFound(*event_id),
            ),
            old(self).spec_has_market(event_id.0@) && old(self).spec_status(event_id.0@)
                is Resolved ==> r == Err::<(), FlashBetError>(FlashBetError::MarketAlreadyResolved),
            old(self).spec_has_market(event_id.0@) && old(self).spec_status(event_id.0@)
                is Cancelled ==> r == Err::<(), FlashBetError>(FlashBetError::MarketNotOpen(
                MarketStatus::Cancelled,
            )),
            r is Ok ==> status_updated(
                *old(self),
                event_id.0@,
                MarketStatus::Cancelled,
                *final(self),
            ),
    {
        let idx = match self.find_entry(event_id) {
            Some(i) => i,
            None => {
                return Err(FlashBetError::MarketNotFound(event_id.clone()));
            },
        };
        proof {
            self.lemma_idx_is(idx as int);
        }
        match self.markets[idx].status {
            MarketStatus::Resolved(_) => Err(FlashBetError::MarketAlreadyResolved),
            MarketStatus::Cancelled => Err(FlashBetError::MarketNotOpen(MarketStatus::Cancelled)),
            _ => {
                let e = &mut self.markets[idx];
                e.status = MarketStatus::Cancelled;
                Ok(())
            },
        }
    }

    /// Record the winning outcome: legal from `Open` or `Locked` (a result
    /// may arrive before an explicit lock).  On a market that is already
    /// resolved or cancelled, or unknown, this is a silent no-op, because
    /// the oracle stream may redeliver a result.
    pub fn resolve_market(&mut self, event_id: &EventId, winning_outcome: Outcome)
        requires
            old(self).wf(),
        ensures
            final(self).wf(),
            old(self).spec_has_market(event_id.0@) && (old(self).spec_status(event_id.0@) is Open
                || old(self).spec_status(event_id.0@) is Locked) ==> status_updated(
                *old(self),
                event_id.0@,
                MarketStatus::Resolved(winning_outcome),
                *final(self),
            ),
            !(old(self).spec_has_market(event_id.0@) && (old(self).spec_status(event_id.0@)
                is Open || old(self).spec_status(event_id.0@) is Locked)) ==> *final(self) == *old(
                self,
            ),
    {
        let idx = match self.find_entry(event_id) {
            Some(i) => i,
            None => {
                return ;
            },
        };
        proof {
            self.lemma_idx_is(idx as int);
        }
        match self.markets[idx].status {
            MarketStatus::Resolved(_) => {},
            MarketStatus::Cancelled => {},
            _ => {
                let e = &mut self.markets[idx];
                e.status = MarketStatus::Resolved(winning_outcome);
            },
        }
    }

    /// In a well-formed state, no outcome's pool exceeds the total pool.
    pub proof fn lemma_pool_le_total(self, id: Seq<char>, outcome: Outcome)
        requires
            self.wf(),
        ensures
            self.spec_pool(id, outcome) <= self.spec_total_pool(id),
    {
        if self.spec_has_market(id) {
            let i = self.spec_market_idx(id);
            assert(0 <= i < self.markets@.len() && self.markets@[i].info.event_id.0@ == id);
            let e = self.markets@[i];
            assert(e.wf());
            lemma_sum_nonneg(e.bets@, Outcome::Home);
            lemma_sum_nonneg(e.bets@, Outcome::Away);
            lemma_sum_nonneg(e.bets@, Outcome::Draw);
        }
    }

    /// Payout for one bet against this state's pools, by the parimutuel
    /// rule.  For a bet recorded on the winning outcome the stake never
    /// exceeds the winning pool, which is what the bound below asks.
    pub fn calculate_payout(&self, bet: &Bet, winning_outcome: &Outcome) -> (r: u64)
        requires
            self.wf(),
            self.spec_has_market(bet.event_id.0@) && bet.outcome == *winning_outcome
                ==> bet.amount <= self.spec_pool(bet.event_id.0@, *winning_outcome),
        ensures
            r as int == payout_spec(
                bet.amount as int,
                bet.outcome,
                *winning_outcome,
                self.spec_total_pool(bet.event_id.0@) as int,
                self.spec_pool(bet.event_id.0@, *winning_outcome) as int,
            ),
    {
        if bet.outcome != *winning_outcome {
            return 0;
        }
        if !self.market_exists(&bet.event_id) {
            return 0;
        }
        let total = self.get_total_pool(&bet.event_id);
        let wpool = self.get_pool_for_outcome(&bet.event_id, winning_outcome);
        proof {
            self.lemma_pool_le_total(bet.event_id.0@, *winning_outcome);
        }
        payout_amount(bet.amount, bet.outcome, *winning_outcome, total, wpool)
    }

    /// The resolution orchestrator.  Looks the market up; ignores the
    /// result if the market is unknown, already resolved, or cancelled;
    /// otherwise resolves the market at most once and returns, in order,
    /// one `MarketResolved` notification and one payout instruction per
    /// winning bet with a positive payout.
    pub fn handle_oracle_result(&mut self, result: &EventResult) -> (events: Vec<MarketEvent>)
        requires
            old(self).wf(),
        ensures
            final(self).wf(),
            resolves(*old(self), *result, *final(self), events@),
    {
        let idx = match self.find_entry(&result.event_id) {
            Some(i) => i,
            None => {
                return Vec::new();
            },
        };
        proof {
            self.lemma_idx_is(idx as int);
        }
        match self.markets[idx].status {
            MarketStatus::Resolved(_) => {
                return Vec::new();
            },
            MarketStatus::Cancelled => {
                return Vec::new();
            },
            _ => {},
        }
        proof {
            self.lemma_pool_le_total(result.event_id.0@, result.outcome);
        }
        {
            let e = &mut self.markets[idx];
            e.status = MarketStatus::Resolved(result.outcome);
        }
        let entry = &self.markets[idx];
        let total = entry.total_pool;
        let wpool = match result.outcome {
            Outcome::Home => entry.pool_home,
            Outcome::Away => entry.pool_away,
            Outcome::Draw => entry.pool_draw,
        };
        let n = entry.bets.len();
        let mut num_winners: u64 = 0;
        let mut j: usize = 0;
        while j < n
            invariant
                j <= n,
                n == entry.bets@.len(),
                num_winners as int == winning_bets(entry.bets@.take(j as int), result.outcome).len(),
            decreases n - j,
        {
            proof {
                assert(entry.bets@.take(j + 1).drop_last() =~= entry.bets@.take(j as int));
                assert(entry.bets@.take(j + 1).last() == entry.bets@[j as int]);
                lemma_winning_le_len(entry.bets@.take(j as int), result.outcome);
            }
            if entry.bets[j].outcome == result.outcome {
                num_winners = num_winners + 1;
            }
            j += 1;
        }
        proof {
            assert(entry.bets@.take(n as int) =~= entry.bets@);
        }
        let ghost resolved_ev = MarketEvent::MarketResolved {
            event_id: entry.info.event_id,
            winning_outcome: result.outcome,
            total_pool: total,
            winning_pool: wpool,
            num_winners,
        };
        let mut events: Vec<MarketEvent> = Vec::new();
        events.push(
            MarketEvent::MarketResolved {
                event_id: entry.info.event_id.clone(),
                winning_outcome: result.outcome,
                total_pool: total,
                winning_pool: wpool,
                num_winners,
            },
        );
        proof {
            assert(events@ =~= seq![resolved_ev] + payout_events(
                entry.bets@.take(0),
                result.outcome,
                total as int,
                wpool as int,
            ));
        }
        let mut k: usize = 0;
        while k < n
            invariant
                k <= n,
                n == entry.bets@.len(),
                entry.wf(),
                wpool == entry.pool_for(result.outcome),
                wpool <= total,
                total == entry.total_pool,
                events@ == seq![resolved_ev] + payout_events(
                    entry.bets@.take(k as int),
                    result.outcome,
                    total as int,
                    wpool as int,
                ),
            decreases n - k,
        {
            proof {
                assert(entry.bets@.take(k + 1).drop_last() =~= entry.bets@.take(k as int));
                assert(entry.bets@.take(k + 1).last() == entry.bets@[k as int]);
            }
            let b = &entry.bets[k];
            if b.outcome == result.outcome {
                proof {
                    lemma_sum_element_bound(entry.bets@, k as int, result.outcome);
                }
                let p = payout_amount(b.amount, b.outcome, result.outcome, total, wpool);
                if p > 0 {
                    events.push(
                        MarketEvent::PayoutDistributed {
                            market_id: b.market_id,
                            bet_id: b.bet_id,
                            user_chain: b.user_chain.clone(),
                            amount: p,
                        },
                    );
                }
            }
            k += 1;
        }
        proof {
            assert(entry.bets@.take(n as int) =~= entry.bets@);
        }
        events
    }
}

/// The parimutuel payout rule of the settlement core.  A bet on a losing
/// outcome pays nothing.  A bet on the winning outcome pays its pro-rata
/// share of the entire pool, rounded down:
/// `floor(amount * total / winning_pool)`.  When nobody bet on the winner
/// the payout is defined as zero for every bet.
pub open spec fn payout_spec(
    amount: int,
    bet_outcome: Outcome,
    winning_outcome: Outcome,
    total: int,
    wpool: int,
) -> int {
    if bet_outcome != winning_outcome {
        0
    } else if wpool == 0 {
        0
    } else {
        amount * total / wpool
    }
}

/// Compute one bet's payout with a double-width intermediate, so the
/// product cannot overflow; the quotient never exceeds the total pool.
pub fn payout_amount(
    bet_amount: u64,
    bet_outcome: Outcome,
    winning_outcome: Outcome,
    total_pool: u64,
    winning_pool: u64,
) -> (r: u64)
    requires
        winning_pool <= total_pool,
        bet_outcome == winning_outcome ==> bet_amount <= winning_pool,
    ensures
        r as int == payout_spec(
            bet_amount as int,
            bet_outcome,
            winning_outcome,
            total_pool as int,
            winning_pool as int,
        ),
{
    if bet_outcome != winning_outcome {
        return 0;
    }
    if winning_pool == 0 {
        return 0;
    }
    let a = bet_amount as u128;
    let t = total_pool as u128;
    let w = winning_pool as u128;
    proof {
        assert((bet_amount as int) * (total_pool as int)
            < 0x100000000000000000000000000000000) by (nonlinear_arith)
            requires
                bet_amount <= 0xffffffffffffffffu64,
                total_pool <= 0xffffffffffffffffu64,
        ;
        lemma_mul_inequality(bet_amount as int, winning_pool as int, total_pool as int);
        lemma_div_is_ordered(
            (bet_amount as int) * (total_pool as int),
            (winning_pool as int) * (total_pool as int),
            winning_pool as int,
        );
        lemma_mul_is_commutative(winning_pool as int, total_pool as int);
        lemma_div_multiples_vanish(total_pool as int, winning_pool as int);
    }
    let q = (a * t) / w;
    q as u64
}

/// The payout instructions for a resolved market: one `PayoutDistributed`
/// per winning bet whose computed payout is strictly positive, in admission
/// order, addressed to the bettor's recorded chain.
pub open spec fn payout_events(bets: Seq<Bet>, win: Outcome, total: int, wpool: int) -> Seq<
    MarketEvent,
>
    decreases bets.len(),
{
    if bets.len() == 0 {
        Seq::empty()
    } else {
        let rest = payout_events(bets.drop_last(), win, total, wpool);
        let b = bets.last();
        if b.outcome == win && payout_spec(b.amount as int, b.outcome, win, total, wpool) > 0 {
            rest.push(MarketEvent::PayoutDistributed {
                market_id: b.market_id,
                bet_id: b.bet_id,
                user_chain: b.user_chain,
                amount: payout_spec(b.amount as int, b.outcome, win, total, wpool) as u64,
            })
        } else {
            rest
        }
    }
}

/// The resolution step, exactly.  A result for an unknown market, or for a
/// market already resolved or cancelled, changes nothing and emits nothing
/// (duplicate-result tolerance).  Otherwise the market's status becomes
/// `Resolved`, pools and history are untouched, and the emissions are one
/// `MarketResolved` notification followed by the payout instructions.
pub open spec fn resolves(
    pre: FlashbetMarketState,
    result: EventResult,
    post: FlashbetMarketState,
    events: Seq<MarketEvent>,
) -> bool {
    let id = result.event_id.0@;
    if !pre.spec_has_market(id) || !(pre.spec_status(id) is Open || pre.spec_status(id)
        is Locked) {
        post == pre && events == Seq::<MarketEvent>::empty()
    } else {
        let i = pre.spec_market_idx(id);
        let entry = pre.markets@[i];
        let total = entry.total_pool as int;
        let wpool = entry.pool_for(result.outcome) as int;
        &&& post.markets@ == pre.markets@.update(
            i,
            MarketEntry { status: MarketStatus::Resolved(result.outcome), ..entry },
        )
        &&& events == seq![
            MarketEvent::MarketResolved {
                event_id: entry.info.event_id,
                winning_outcome: result.outcome,
                total_pool: entry.total_pool,
                winning_pool: entry.pool_for(result.outcome),
                num_winners: winning_bets(entry.bets@, result.outcome).len() as u64,
            },
        ] + payout_events(entry.bets@, result.outcome, total, wpool)
    }
}

/// No more bets chose an outcome than there are bets.
proof fn lemma_winning_le_len(bets: Seq<Bet>, outcome: Outcome)
    ensures
        winning_bets(bets, outcome).len() <= bets.len(),
    decreases bets.len(),
{
    if bets.len() > 0 {
        lemma_winning_le_len(bets.drop_last(), outcome);
    }
}

/// Exactly the admission conditions: the market exists and is open, the
/// outcome is legal for its type, the amount is strictly positive, no
/// admitted bet of the market already carries the bet's identifier (the
/// idempotence key for redelivered bets), and the total pool has room for
/// the stake.
pub open spec fn spec_admissible(pre: FlashbetMarketState, bet: Bet) -> bool {
    let id = bet.event_id.0@;
    &&& pre.spec_has_market(id)
    &&& pre.spec_status(id) is Open
    &&& spec_legal_outcome(bet.outcome, pre.spec_market(id).info.market_type)
    &&& bet.amount > 0
    &&& !has_bet_id(pre.spec_market(id).bets@, bet.bet_id)
    &&& pre.spec_total_pool(id) + bet.amount <= u64::MAX
}

/// The state after folding one bet into its market: the bet's outcome pool
/// and the total grow by exactly the amount, the bet joins the history, and
/// nothing else changes.
pub open spec fn bet_added(pre: FlashbetMarketState, bet: Bet, post: FlashbetMarketState) -> bool {
    let id = bet.event_id.0@;
    let i = pre.spec_market_idx(id);
    let e = pre.markets@[i];
    let e2 = post.markets@[i];
    &&& post.markets@.len() == pre.markets@.len()
    &&& forall|j: int|
        0 <= j < pre.markets@.len() && j != i ==> post.markets@[j] == pre.markets@[j]
    &&& e2.info == e.info
    &&& e2.status == e.status
    &&& e2.bets@ == e.bets@.push(bet)
    &&& e2.bet_count == e.bet_count + 1
    &&& e2.total_pool == e.total_pool + bet.amount
    &&& e2.pool_for(bet.outcome) == e.pool_for(bet.outcome) + bet.amount
    &&& forall|o: Outcome| o != bet.outcome ==> #[trigger] e2.pool_for(o) == e.pool_for(o)
}

/// The state after a pure status transition on one market: only that
/// market's status changes.
pub open spec fn status_updated(
    pre: FlashbetMarketState,
    id: Seq<char>,
    status: MarketStatus,
    post: FlashbetMarketState,
) -> bool {
    let i = pre.spec_market_idx(id);
    post.markets@ == pre.markets@.update(i, MarketEntry { status, ..pre.markets@[i] })
}

/// The payouts owed across a sequence of bets for a given winning outcome
/// and pool sizes, by the parimutuel rule.
pub open spec fn sum_payouts(bets: Seq<Bet>, win: Outcome, total: int, wpool: int) -> int
    decreases bets.len(),
{
    if bets.len() == 0 {
        0
    } else {
        sum_payouts(bets.drop_last(), win, total, wpool) + payout_spec(
            bets.last().amount as int,
            bets.last().outcome,
            win,
            total,
            wpool,
        )
    }
}

/// The total amount carried by the payout instructions in an emission
/// sequence; other notifications carry no payout.
pub open spec fn sum_payout_event_amounts(events: Seq<MarketEvent>) -> int
    decreases events.len(),
{
    if events.len() == 0 {
        0
    } else {
        sum_payout_event_amounts(events.drop_last()) + match events.last() {
            MarketEvent::PayoutDistributed { amount, .. } => amount as int,
            _ => 0,
        }
    }
}

/// Integer division is superadditive over a sum of non-negative numerators:
/// rounding each share down loses at least as much as rounding their sum.
proof fn lemma_div_subadd(x: int, y: int, d: int)
    requires
        0 <= x,
        0 <= y,
        0 < d,
    ensures
        x / d + y / d <= (x + y) / d,
{
    lemma_fundamental_div_mod(x, d);
    lemma_fundamental_div_mod(y, d);
    lemma_fundamental_div_mod(x + y, d);
    lemma_mod_division_less_than_divisor(x, d);
    lemma_mod_division_less_than_divisor(y, d);
    lemma_mod_division_less_than_divisor(x + y, d);
    let qx = x / d;
    let qy = y / d;
    let q = (x + y) / d;
    let rx = x % d;
    let ry = y % d;
    let r = (x + y) % d;
    if q < qx + qy {
        assert(false) by (nonlinear_arith)
            requires
                x == d * qx + rx,
                y == d * qy + ry,
                x + y == d * q + r,
                0 <= rx < d,
                0 <= ry < d,
                0 <= r < d,
                q <= qx + qy - 1,
                0 < d,
        ;
    }
}

/// When both numerators divide exactly, integer division distributes over
/// their sum with no remainder.
proof fn lemma_div_add_exact(x: int, y: int, d: int)
    requires
        0 <= x,
        0 <= y,
        0 < d,
        x % d == 0,
        y % d == 0,
    ensures
        (x + y) / d == x / d + y / d,
        (x + y) % d == 0,
{
    lemma_fundamental_div_mod(x, d);
    lemma_fundamental_div_mod(y, d);
    let qx = x / d;
    let qy = y / d;
    assert(x + y == d * (qx + qy)) by (nonlinear_arith)
        requires
            x == d * qx,
            y == d * qy,
    ;
    lemma_div_multiples_vanish(qx + qy, d);
    lemma_mul_is_commutative(qx + qy, d);
    lemma_mod_multiples_basic(qx + qy, d);
}

/// With an empty winning pool every payout is zero.
proof fn lemma_sum_payouts_zero_wpool(bets: Seq<Bet>, win: Outcome, total: int)
    ensures
        sum_payouts(bets, win, total, 0) == 0,
    decreases bets.len(),
{
    if bets.len() > 0 {
        lemma_sum_payouts_zero_wpool(bets.drop_last(), win, total);
    }
}

/// The rounded-down payouts over any bets never exceed the exact pro-rata
/// share of the amounts they sum to.
proof fn lemma_sum_payouts_le(bets: Seq<Bet>, win: Outcome, total: int, wpool: int)
    requires
        0 < wpool,
        0 <= total,
    ensures
        sum_payouts(bets, win, total, wpool) <= sum_amounts(bets, win) * total / wpool,
    decreases bets.len(),
{
    if bets.len() == 0 {
        assert(sum_amounts(bets, win) * total == 0) by (nonlinear_arith)
            requires
                sum_amounts(bets, win) == 0,
        ;
        lemma_div_of0(wpool);
    } else {
        let rest = bets.drop_last();
        let b = bets.last();
        lemma_sum_payouts_le(rest, win, total, wpool);
        lemma_sum_nonneg(rest, win);
        let ar = sum_amounts(rest, win);
        if b.outcome == win {
            let a = b.amount as int;
            lemma_mul_nonnegative(ar, total);
            lemma_mul_nonnegative(a, total);
            lemma_div_subadd(ar * total, a * total, wpool);
            assert((ar + a) * total == ar * total + a * total) by (nonlinear_arith);
            assert(sum_amounts(bets, win) == ar + a);
        }
    }
}

/// Payout conservation: however the amounts divide, the payouts owed to the
/// winners of a market sum to at most the market's total pool, because each
/// share is rounded down.
pub proof fn lemma_payout_conservation(bets: Seq<Bet>, win: Outcome, total: int, wpool: int)
    requires
        wpool == sum_amounts(bets, win),
        wpool <= total,
        0 <= total,
    ensures
        sum_payouts(bets, win, total, wpool) <= total,
{
    lemma_sum_nonneg(bets, win);
    if wpool == 0 {
        lemma_sum_payouts_zero_wpool(bets, win, total);
    } else {
        lemma_sum_payouts_le(bets, win, total, wpool);
        lemma_mul_is_commutative(wpool, total);
        lemma_div_multiples_vanish(total, wpool);
    }
}

/// When every winner's share divides exactly, the payouts sum to the
/// pro-rata share with no remainder.
proof fn lemma_sum_payouts_exact_helper(bets: Seq<Bet>, win: Outcome, total: int, wpool: int)
    requires
        0 < wpool,
        0 <= total,
        forall|j: int|
            0 <= j < bets.len() && (#[trigger] bets[j]).outcome == win ==> (bets[j].amount as int)
                * total % wpool == 0,
    ensures
        sum_payouts(bets, win, total, wpool) == sum_amounts(bets, win) * total / wpool,
        sum_amounts(bets, win) * total % wpool == 0,
    decreases bets.len(),
{
    if bets.len() == 0 {
        assert(sum_amounts(bets, win) * total == 0) by (nonlinear_arith)
            requires
                sum_amounts(bets, win) == 0,
        ;
        lemma_div_of0(wpool);
        lemma_fundamental_div_mod(0, wpool);
    } else {
        let rest = bets.drop_last();
        let b = bets.last();
        assert(forall|j: int| 0 <= j < rest.len() ==> rest[j] == bets[j]);
        lemma_sum_payouts_exact_helper(rest, win, total, wpool);
        lemma_sum_nonneg(rest, win);
        let ar = sum_amounts(rest, win);
        if b.outcome == win {
            let a = b.amount as int;
            assert(bets[bets.len() - 1] == b);
            lemma_mul_nonnegative(ar, total);
            lemma_mul_nonnegative(a, total);
            lemma_div_add_exact(ar * total, a * total, wpool);
            assert((ar + a) * total == ar * total + a * total) by (nonlinear_arith);
            assert(sum_amounts(bets, win) == ar + a);
        }
    }
}

/// The equality half of payout conservation: when the winning pool divides
/// `amount * total` exactly for every winner, nothing is lost to rounding
/// and the payouts sum to exactly the total pool.
pub proof fn lemma_payout_exact(bets: Seq<Bet>, win: Outcome, total: int, wpool: int)
    requires
        wpool == sum_amounts(bets, win),
        0 < wpool <= total,
        forall|j: int|
            0 <= j < bets.len() && (#[trigger] bets[j]).outcome == win ==> (bets[j].amount as int)
                * total % wpool == 0,
    ensures
        sum_payouts(bets, win, total, wpool) == total,
{
    lemma_sum_payouts_exact_helper(bets, win, total, wpool);
    lemma_mul_is_commutative(wpool, total);
    lemma_div_multiples_vanish(total, wpool);
}

/// The emitted payout instructions carry exactly the payouts owed: skipped
/// zero payouts contribute nothing, and no amount truncates, because each
/// payout is bounded by the total pool.
proof fn lemma_payout_events_amounts(bets: Seq<Bet>, win: Outcome, total: int, wpool: int)
    requires
        0 <= wpool <= total <= u64::MAX,
        forall|j: int|
            0 <= j < bets.len() && (#[trigger] bets[j]).outcome == win ==> bets[j].amount as int
                <= wpool,
    ensures
        sum_payout_event_amounts(payout_events(bets, win, total, wpool)) == sum_payouts(
            bets,
            win,
            total,
            wpool,
        ),
    decreases bets.len(),
{
    if bets.len() > 0 {
        let rest = bets.drop_last();
        let b = bets.last();
        assert(forall|j: int| 0 <= j < rest.len() ==> rest[j] == bets[j]);
        lemma_payout_events_amounts(rest, win, total, wpool);
        if b.outcome == win && wpool > 0 {
            let a = b.amount as int;
            let p = payout_spec(a, b.outcome, win, total, wpool);
            assert(bets[bets.len() - 1] == b);
            lemma_mul_nonnegative(a, total);
            lemma_mul_inequality(a, wpool, total);
            lemma_div_is_ordered(0, a * total, wpool);
            lemma_div_of0(wpool);
            lemma_div_is_ordered(a * total, wpool * total, wpool);
            lemma_mul_is_commutative(wpool, total);
            lemma_div_multiples_vanish(total, wpool);
            assert(0 <= p <= total);
            if p > 0 {
                let ev = MarketEvent::PayoutDistributed {
                    market_id: b.market_id,
                    bet_id: b.bet_id,
                    user_chain: b.user_chain,
                    amount: p as u64,
                };
                let evs = payout_events(rest, win, total, wpool).push(ev);
                assert(evs.drop_last() =~= payout_events(rest, win, total, wpool));
            }
        }
    }
}

/// Payout amounts sum independently over concatenated emission sequences.
proof fn lemma_sum_events_concat(a: Seq<MarketEvent>, b: Seq<MarketEvent>)
    ensures
        sum_payout_event_amounts(a + b) == sum_payout_event_amounts(a) + sum_payout_event_amounts(
            b,
        ),
    decreases b.len(),
{
    if b.len() == 0 {
        assert(a + b =~= a);
    } else {
        assert((a + b).drop_last() =~= a + b.drop_last());
        assert((a + b).last() == b.last());
        lemma_sum_events_concat(a, b.drop_last());
    }
}

/// Pool conservation: in a well-formed state the total pool of any event
/// equals the sum of its per-outcome pools.  Every operation of this module
/// both requires and re-establishes well-formedness, so the equality holds
/// after every operation.
pub proof fn lemma_pool_conservation(s: FlashbetMarketState, id: Seq<char>)
    requires
        s.wf(),
    ensures
        s.spec_total_pool(id) as int == s.spec_pool(id, Outcome::Home) as int + s.spec_pool(
            id,
            Outcome::Away,
        ) as int + s.spec_pool(id, Outcome::Draw) as int,
{
    if s.spec_has_market(id) {
        let i = s.spec_market_idx(id);
        assert(0 <= i < s.markets@.len() && s.markets@[i].info.event_id.0@ == id);
        assert(s.markets@[i].wf());
    }
}

/// Payout conservation for an actual resolution: whatever emissions a
/// result produces, their payout amounts sum to at most the market's total
/// pool as it stood before the call.
pub proof fn lemma_resolution_payout_conservation(
    pre: FlashbetMarketState,
    result: EventResult,
    post: FlashbetMarketState,
    events: Seq<MarketEvent>,
)
    requires
        pre.wf(),
        resolves(pre, result, post, events),
    ensures
        sum_payout_event_amounts(events) <= pre.spec_total_pool(result.event_id.0@),
{
    let id = result.event_id.0@;
    if pre.spec_has_market(id) && (pre.spec_status(id) is Open || pre.spec_status(id)
        is Locked) {
        let i = pre.spec_market_idx(id);
        assert(0 <= i < pre.markets@.len() && pre.markets@[i].info.event_id.0@ == id);
        let entry = pre.markets@[i];
        assert(entry.wf());
        lemma_sum_nonneg(entry.bets@, Outcome::Home);
        lemma_sum_nonneg(entry.bets@, Outcome::Away);
        lemma_sum_nonneg(entry.bets@, Outcome::Draw);
        let total = entry.total_pool as int;
        let wpool = entry.pool_for(result.outcome) as int;
        assert(wpool == sum_amounts(entry.bets@, result.outcome));
        assert forall|j: int|
            0 <= j < entry.bets@.len() && (#[trigger] entry.bets@[j]).outcome == result.outcome
                implies entry.bets@[j].amount as int <= wpool by {
            lemma_sum_element_bound(entry.bets@, j, result.outcome);
        }
        lemma_payout_events_amounts(entry.bets@, result.outcome, total, wpool);
        lemma_payout_conservation(entry.bets@, result.outcome, total, wpool);
        let head = seq![
            MarketEvent::MarketResolved {
                event_id: entry.info.event_id,
                winning_outcome: result.outcome,
                total_pool: entry.total_pool,
                winning_pool: entry.pool_for(result.outcome),
                num_winners: winning_bets(entry.bets@, result.outcome).len() as u64,
            },
        ];
        let tail = payout_events(entry.bets@, result.outcome, total, wpool);
        lemma_sum_events_concat(head, tail);
        assert(sum_payout_event_amounts(Seq::<MarketEvent>::empty()) == 0);
        assert(head.drop_last() =~= Seq::<MarketEvent>::empty());
        assert(head.last() == head[0]);
        assert(sum_payout_event_amounts(head) == 0);
    }
}

/// Resolution idempotence: once a result has resolved a market, any second
/// result for the same event — identical or different — changes nothing
/// and emits nothing, so status, pools, and the emitted payout set after
/// two calls equal the single-call outcome.
pub proof fn lemma_resolution_idempotent(
    s0: FlashbetMarketState,
    r1: EventResult,
    s1: FlashbetMarketState,
    e1: Seq<MarketEvent>,
    r2: EventResult,
    s2: FlashbetMarketState,
    e2: Seq<MarketEvent>,
)
    requires
        s0.wf(),
        s0.spec_has_market(r1.event_id.0@),
        s0.spec_status(r1.event_id.0@) is Open || s0.spec_status(r1.event_id.0@) is Locked,
        resolves(s0, r1, s1, e1),
        r2.event_id.0@ == r1.event_id.0@,
        resolves(s1, r2, s2, e2),
    ensures
        s2 == s1,
        e2 == Seq::<MarketEvent>::empty(),
{
    let id = r1.event_id.0@;
    let i = s0.spec_market_idx(id);
    assert(0 <= i < s0.markets@.len() && s0.markets@[i].info.event_id.0@ == id);
    assert(s1.markets@[i].info.event_id.0@ == id);
    assert(s1.spec_has_market(id));
    let j = s1.spec_market_idx(id);
    assert(0 <= j < s1.markets@.len() && s1.markets@[j].info.event_id.0@ == id);
    if j != i {
        assert(s0.markets@[j].info.event_id.0@ == id);
        assert(false);
    }
    assert(s1.spec_status(id) is Resolved);
}

} // verus!
