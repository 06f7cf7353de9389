//! The bettor's actor state: active bets, betting history, payout history,
//! and the monotonic bet-identifier counter.

use vstd::prelude::*;
use crate::shared::{Bet, EventId, FlashBetError, MarketId, Outcome, Payout, UserEvent};

verus! {

/// Some recorded bet is for the given market.
pub open spec fn seq_has_market_bet(s: Seq<Bet>, mid: MarketId) -> bool {
    exists|i: int| 0 <= i < s.len() && (#[trigger] s[i]).market_id == mid
}

/// The index of the market's active bet (well defined when one exists).
pub open spec fn market_bet_idx(s: Seq<Bet>, mid: MarketId) -> int {
    choose|i: int| 0 <= i < s.len() && (#[trigger] s[i]).market_id == mid
}

/// The active bet recorded for a market, if any.
pub open spec fn active_lookup(s: Seq<Bet>, mid: MarketId) -> Option<Bet> {
    if seq_has_market_bet(s, mid) {
        Some(s[market_bet_idx(s, mid)])
    } else {
        None
    }
}

/// At most one active bet per market.
pub open spec fn unique_market_bets(s: Seq<Bet>) -> bool {
    forall|i: int, j: int|
        0 <= i < s.len() && 0 <= j < s.len() && i != j ==> (#[trigger] s[i]).market_id != (
        #[trigger] s[j]).market_id
}

/// Some recorded bet carries the given bet identifier.
pub open spec fn seq_has_bet_id(s: Seq<Bet>, id: u64) -> bool {
    exists|i: int| 0 <= i < s.len() && (#[trigger] s[i]).bet_id == id
}

/// At most one recorded bet per bet identifier.
pub open spec fn unique_bet_ids(s: Seq<Bet>) -> bool {
    forall|i: int, j: int|
        0 <= i < s.len() && 0 <= j < s.len() && i != j ==> (#[trigger] s[i]).bet_id != (
        #[trigger] s[j]).bet_id
}

/// Some recorded payout is for the given bet identifier.
pub open spec fn seq_has_payout_id(s: Seq<Payout>, id: u64) -> bool {
    exists|i: int| 0 <= i < s.len() && (#[trigger] s[i]).bet_id == id
}

/// At most one recorded payout per bet identifier.
pub open spec fn unique_payout_ids(s: Seq<Payout>) -> bool {
    forall|i: int, j: int|
        0 <= i < s.len() && 0 <= j < s.len() && i != j ==> (#[trigger] s[i]).bet_id != (
        #[trigger] s[j]).bet_id
}

/// Replacing one market's entry changes only that market's lookup.
proof fn lemma_active_update(pre: Seq<Bet>, post: Seq<Bet>, i: int)
    requires
        unique_market_bets(pre),
        0 <= i < pre.len(),
        post.len() == pre.len(),
        forall|j: int| 0 <= j < pre.len() && j != i ==> post[j] == pre[j],
        post[i].market_id == pre[i].market_id,
    ensures
        unique_market_bets(post),
        forall|m: MarketId|
            #[trigger] active_lookup(post, m) == if m == pre[i].market_id {
                Some(post[i])
            } else {
                active_lookup(pre, m)
            },
{
    assert forall|a: int, b: int|
        0 <= a < post.len() && 0 <= b < post.len() && a != b implies (#[trigger] post[a]).market_id
        != (#[trigger] post[b]).market_id by {
        assert(post[a].market_id == pre[a].market_id);
        assert(post[b].market_id == pre[b].market_id);
        assert(pre[a].market_id != pre[b].market_id);
    }
    assert forall|m: MarketId|
        #[trigger] active_lookup(post, m) == (if m == pre[i].market_id {
            Some(post[i])
        } else {
            active_lookup(pre, m)
        }) by {
        if seq_has_market_bet(pre, m) {
            let k = choose|k: int| 0 <= k < pre.len() && (#[trigger] pre[k]).market_id == m;
            assert(post[k].market_id == m);
            let k2 = market_bet_idx(post, m);
            assert(post[k2].market_id == m);
            assert(k2 == k);
            assert(market_bet_idx(pre, m) == k);
        } else {
            if seq_has_market_bet(post, m) {
                let k = market_bet_idx(post, m);
                assert(pre[k].market_id == m);
                assert(false);
            }
        }
    }
}

/// Appending an entry for a new market changes only that market's lookup.
proof fn lemma_active_push(pre: Seq<Bet>, b: Bet)
    requires
        unique_market_bets(pre),
        !seq_has_market_bet(pre, b.market_id),
    ensures
        unique_market_bets(pre.push(b)),
        forall|m: MarketId|
            #[trigger] active_lookup(pre.push(b), m) == if m == b.market_id {
                Some(b)
            } else {
                active_lookup(pre, m)
            },
{
    let post = pre.push(b);
    assert(post[pre.len() as int] == b);
    assert forall|x: int, y: int|
        0 <= x < post.len() && 0 <= y < post.len() && x != y implies (#[trigger] post[x]).market_id
        != (#[trigger] post[y]).market_id by {
        if x < pre.len() && y < pre.len() {
            assert(pre[x].market_id != pre[y].market_id);
        } else if x < pre.len() {
            assert(pre[x].market_id != b.market_id);
        } else if y < pre.len() {
            assert(pre[y].market_id != b.market_id);
        }
    }
    assert forall|m: MarketId|
        #[trigger] active_lookup(post, m) == (if m == b.market_id {
            Some(b)
        } else {
            active_lookup(pre, m)
        }) by {
        if m == b.market_id {
            assert(seq_has_market_bet(post, m));
            let k = market_bet_idx(post, m);
            assert(post[k].market_id == m);
            if k < pre.len() {
                assert(pre[k].market_id == m);
                assert(false);
            }
        } else {
            if seq_has_market_bet(pre, m) {
                let k = choose|k: int| 0 <= k < pre.len() && (#[trigger] pre[k]).market_id == m;
                assert(post[k].market_id == m);
                let k2 = market_bet_idx(post, m);
                assert(post[k2].market_id == m);
                assert(k2 == k);
                assert(market_bet_idx(pre, m) == k);
            } else {
                if seq_has_market_bet(post, m) {
                    let k = market_bet_idx(post, m);
                    if k < pre.len() {
                        assert(pre[k].market_id == m);
                    }
                    assert(false);
                }
            }
        }
    }
}

/// Removing one market's entry changes only that market's lookup.
proof fn lemma_active_remove(pre: Seq<Bet>, i: int)
    requires
        unique_market_bets(pre),
        0 <= i < pre.len(),
    ensures
        unique_market_bets(pre.remove(i)),
        forall|m: MarketId|
            #[trigger] active_lookup(pre.remove(i), m) == if m == pre[i].market_id {
                None
            } else {
                active_lookup(pre, m)
            },
{
    let post = pre.remove(i);
    assert(post =~= pre.subrange(0, i) + pre.subrange(i + 1, pre.len() as int));
    assert forall|a: int, b: int|
        0 <= a < post.len() && 0 <= b < post.len() && a != b implies (#[trigger] post[a]).market_id
        != (#[trigger] post[b]).market_id by {
        let a0 = if a < i {
            a
        } else {
            a + 1
        };
        let b0 = if b < i {
            b
        } else {
            b + 1
        };
        assert(post[a] == pre[a0]);
        assert(post[b] == pre[b0]);
        assert(pre[a0].market_id != pre[b0].market_id);
    }
    assert forall|m: MarketId|
        #[trigger] active_lookup(post, m) == (if m == pre[i].market_id {
            None
        } else {
            active_lookup(pre, m)
        }) by {
        if m == pre[i].market_id {
            if seq_has_market_bet(post, m) {
                let k = market_bet_idx(post, m);
                assert(post[k].market_id == m);
                if k < i {
                    assert(pre[k].market_id == m);
                    assert(pre[k].market_id != pre[i].market_id);
                } else {
                    assert(pre[k + 1].market_id == m);
                    assert(pre[k + 1].market_id != pre[i].market_id);
                }
                assert(false);
            }
        } else {
            if seq_has_market_bet(pre, m) {
                let k = choose|k: int| 0 <= k < pre.len() && (#[trigger] pre[k]).market_id == m;
                assert(k != i);
                if k < i {
                    assert(post[k].market_id == m);
                } else {
                    assert(post[k - 1].market_id == m);
                }
                let k2 = market_bet_idx(post, m);
                assert(post[k2].market_id == m);
                let k3 = if k2 < i {
                    k2
                } else {
                    k2 + 1
                };
                assert(pre[k3].market_id == m);
                assert(k3 == k);
                assert(market_bet_idx(pre, m) == k);
            } else {
                if seq_has_market_bet(post, m) {
                    let k = market_bet_idx(post, m);
                    let k0 = if k < i {
                        k
                    } else {
                        k + 1
                    };
                    assert(pre[k0].market_id == m);
                    assert(false);
                }
            }
        }
    }
}

/// State of one bettor's actor.
pub struct FlashbetUserState {
    /// Bets not yet settled, at most one per market.
    pub active_bets: Vec<Bet>,
    /// Every bet ever placed, keyed by bet identifier.
    pub bet_history: Vec<Bet>,
    /// Every payout ever received, keyed by bet identifier.
    pub payout_history: Vec<Payout>,
    /// Counter for assigning unique bet identifiers.
    pub next_bet_id: u64,
}

impl FlashbetUserState {
    /// Well-formedness: one active bet per market, one history entry per
    /// bet identifier, one payout per bet identifier, and no recorded bet
    /// identifier at or past the counter.
    pub open spec fn wf(self) -> bool {
        &&& unique_market_bets(self.active_bets@)
        &&& unique_bet_ids(self.bet_history@)
        &&& unique_payout_ids(self.payout_history@)
        &&& forall|i: int|
            0 <= i < self.bet_history@.len() ==> (#[trigger] self.bet_history@[i]).bet_id
                < self.next_bet_id
    }

    /// A fresh actor with no bets and the counter at zero.
    pub fn new() -> (r: Self)
        ensures
            r.wf(),
            r.active_bets@.len() == 0,
            r.bet_history@.len() == 0,
            r.payout_history@.len() == 0,
            r.next_bet_id == 0,
    {
        FlashbetUserState {
            active_bets: Vec::new(),
            bet_history: Vec::new(),
            payout_history: Vec::new(),
            next_bet_id: 0,
        }
    }

    /// Hand out the next bet identifier and advance the counter.
    pub fn get_next_bet_id(&mut self) -> (r: u64)
        requires
            old(self).next_bet_id < u64::MAX,
        ensures
            r == old(self).next_bet_id,
            final(self).next_bet_id == old(self).next_bet_id + 1,
            final(self).active_bets == old(self).active_bets,
            final(self).bet_history == old(self).bet_history,
            final(self).payout_history == old(self).payout_history,
    {
        let id = self.next_bet_id;
        self.next_bet_id = self.next_bet_id + 1;
        id
    }

    /// Build the bet record for a wager: the amount must be strictly
    /// positive; the bet receives the next identifier and the counter
    /// advances.  Nothing is stored yet — the caller first moves the stake,
    /// then records the bet.
    pub fn prepare_bet(
        &mut self,
        market_id: MarketId,
        event_id: EventId,
        user: String,
        outcome: Outcome,
        amount: u64,
        timestamp: u64,
        user_chain: String,
    ) -> (r: Result<Bet, FlashBetError>)
        requires
            old(self).next_bet_id < u64::MAX,
        ensures
            r is Ok <==> amount > 0,
            amount == 0 ==> r == Err::<Bet, FlashBetError>(FlashBetError::InvalidBetAmount(0))
                && *final(self) == *old(self),
            amount > 0 ==> {
                &&& r == Ok::<Bet, FlashBetError>(Bet {
                    bet_id: old(self).next_bet_id,
                    market_id,
                    event_id,
                    user,
                    outcome,
                    amount,
                    timestamp,
                    user_chain,
                })
                &&& final(self).next_bet_id == old(self).next_bet_id + 1
                &&& final(self).active_bets == old(self).active_bets
                &&& final(self).bet_history == old(self).bet_history
                &&& final(self).payout_history == old(self).payout_history
            },
    {
        if amount == 0 {
            return Err(FlashBetError::InvalidBetAmount(0));
        }
        let bet_id = self.get_next_bet_id();
        Ok(Bet { bet_id, market_id, event_id, user, outcome, amount, timestamp, user_chain })
    }

    /// Whether a payout was already recorded for the bet.
    pub fn has_payout(&self, bet_id: u64) -> (r: bool)
        ensures
            r == seq_has_payout_id(self.payout_history@, bet_id),
    {
        let n = self.payout_history.len();
        let mut i: usize = 0;
        while i < n
            invariant
                i <= n,
                n == self.payout_history@.len(),
                forall|k: int|
                    0 <= k < i ==> (#[trigger] self.payout_history@[k]).bet_id != bet_id,
            decreases n - i,
        {
            if self.payout_history[i].bet_id == bet_id {
                return true;
            }
            i += 1;
        }
        false
    }

    /// The index of the market's active bet, if one is recorded.
    fn find_active(&self, market_id: MarketId) -> (r: Option<usize>)
        ensures
            match r {
                Some(i) => i < self.active_bets@.len() && self.active_bets@[i as int].market_id
                    == market_id,
                None => !seq_has_market_bet(self.active_bets@, market_id),
            },
    {
        let n = self.active_bets.len();
        let mut i: usize = 0;
        while i < n
            invariant
                i <= n,
                n == self.active_bets@.len(),
                forall|k: int|
                    0 <= k < i ==> (#[trigger] self.active_bets@[k]).market_id != market_id,
            decreases n - i,
        {
            if self.active_bets[i].market_id == market_id {
                return Some(i);
            }
            i += 1;
        }
        None
    }

    /// Record an admitted bet: it becomes the market's active bet
    /// (replacing any earlier one) and joins the history, and the actor
    /// announces it for the market's chain to process.
    pub fn record_bet(&mut self, market_chain: String, bet: Bet) -> (r: UserEvent)
        requires
            old(self).wf(),
            bet.bet_id < old(self).next_bet_id,
            !seq_has_bet_id(old(self).bet_history@, bet.bet_id),
        ensures
            final(self).wf(),
            forall|m: MarketId|
                #[trigger] active_lookup(final(self).active_bets@, m) == if m == bet.market_id {
                    Some(bet)
                } else {
                    active_lookup(old(self).active_bets@, m)
                },
            final(self).bet_history@ == old(self).bet_history@.push(bet),
            final(self).payout_history == old(self).payout_history,
            final(self).next_bet_id == old(self).next_bet_id,
            r == (UserEvent::BetPlaced { market_chain, bet }),
    {
        let event = UserEvent::BetPlaced { market_chain, bet: bet.clone() };
        match self.find_active(bet.market_id) {
            Some(i) => {
                proof {
                    let m = self.active_bets@[i as int].market_id;
                    assert(seq_has_market_bet(self.active_bets@, m));
                    let j = market_bet_idx(self.active_bets@, m);
                    assert(self.active_bets@[j].market_id == m);
                    assert(j == i as int);
                }
                let ghost pre = self.active_bets@;
                let replacement = bet.clone();
                let e = &mut self.active_bets[i];
                *e = replacement;
                proof {
                    lemma_active_update(pre, self.active_bets@, i as int);
                }
            },
            None => {
                let ghost pre = self.active_bets@;
                let addition = bet.clone();
                proof {
                    lemma_active_push(pre, addition);
                }
                self.active_bets.push(addition);
            },
        }
        self.bet_history.push(bet);
        proof {
            let post = self.bet_history@;
            let pre = old(self).bet_history@;
            assert forall|a: int, b: int|
                0 <= a < post.len() && 0 <= b < post.len() && a != b implies (
            #[trigger] post[a]).bet_id != (#[trigger] post[b]).bet_id by {
                if a < pre.len() && b < pre.len() {
                    assert(pre[a].bet_id != pre[b].bet_id);
                } else if a < pre.len() {
                    assert(pre[a].bet_id != bet.bet_id);
                    assert(post[b] == bet);
                } else if b < pre.len() {
                    assert(pre[b].bet_id != bet.bet_id);
                    assert(post[a] == bet);
                }
            }
        }
        event
    }

    /// Settle a payout: the market's active bet retires and the payout
    /// joins the history, and the actor announces the receipt.
    pub fn apply_payout(&mut self, payout: Payout) -> (r: UserEvent)
        requires
            old(self).wf(),
            !seq_has_payout_id(old(self).payout_history@, payout.bet_id),
        ensures
            final(self).wf(),
            forall|m: MarketId|
                #[trigger] active_lookup(final(self).active_bets@, m) == if m == payout.market_id {
                    None
                } else {
                    active_lookup(old(self).active_bets@, m)
                },
            final(self).payout_history@ == old(self).payout_history@.push(payout),
            final(self).bet_history == old(self).bet_history,
            final(self).next_bet_id == old(self).next_bet_id,
            r == (UserEvent::PayoutReceived {
                market_id: payout.market_id,
                bet_id: payout.bet_id,
                amount: payout.amount,
            }),
    {
        match self.find_active(payout.market_id) {
            Some(i) => {
                proof {
                    lemma_active_remove(self.active_bets@, i as int);
                }
                self.active_bets.remove(i);
            },
            None => {
                proof {
                    assert forall|m: MarketId|
                        #[trigger] active_lookup(self.active_bets@, m) == (if m
                            == payout.market_id {
                            None
                        } else {
                            active_lookup(old(self).active_bets@, m)
                        }) by {}
                }
            },
        }
        let ghost pre = self.payout_history@;
        self.payout_history.push(payout);
        proof {
            let post = self.payout_history@;
            assert forall|a: int, b: int|
                0 <= a < post.len() && 0 <= b < post.len() && a != b implies (
            #[trigger] post[a]).bet_id != (#[trigger] post[b]).bet_id by {
                if a < pre.len() && b < pre.len() {
                    assert(pre[a].bet_id != pre[b].bet_id);
                } else if a < pre.len() {
                    assert(pre[a].bet_id == post[a].bet_id);
                } else if b < pre.len() {
                    assert(pre[b].bet_id == post[b].bet_id);
                }
            }
        }
        UserEvent::PayoutReceived {
            market_id: payout.market_id,
            bet_id: payout.bet_id,
            amount: payout.amount,
        }
    }
}

} // verus!
