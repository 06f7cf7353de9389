//! The oracle actor's state: published event results, at most one per
//! event, and the set of publishers authorized to submit them.

use vstd::prelude::*;
use crate::shared::{EventId, EventResult, FlashBetError, OracleEvent};

verus! {

/// Some entry of the list reads as the given name.
pub open spec fn seq_has_name(s: Seq<String>, x: Seq<char>) -> bool {
    exists|i: int| 0 <= i < s.len() && (#[trigger] s[i])@ == x
}

/// No two entries of the list read as the same name.
pub open spec fn unique_names(s: Seq<String>) -> bool {
    forall|i: int, j: int|
        0 <= i < s.len() && 0 <= j < s.len() && i != j ==> (#[trigger] s[i])@ != (#[trigger] s[j])@
}

/// No two results are for the same event.
pub open spec fn unique_result_events(s: Seq<EventResult>) -> bool {
    forall|i: int, j: int|
        0 <= i < s.len() && 0 <= j < s.len() && i != j ==> (#[trigger] s[i]).event_id.0@ != (
        #[trigger] s[j]).event_id.0@
}

/// State of the oracle actor.
pub struct FlashbetOracleState {
    /// Published event results.  Event identifiers are unique: at most one
    /// result is ever accepted per event.
    pub event_results: Vec<EventResult>,
    /// Accounts authorized to publish results.  No duplicates.
    pub authorized_oracles: Vec<String>,
    /// The actor's owner, who may authorize and revoke oracles.
    pub owner: Option<String>,
    /// Number of results published so far.
    pub result_count: u64,
}

impl FlashbetOracleState {
    /// A result has been published for the event.
    pub open spec fn spec_has_result(self, id: Seq<char>) -> bool {
        exists|i: int|
            0 <= i < self.event_results@.len() && (#[trigger] self.event_results@[i]).event_id.0@
                == id
    }

    /// The index of the event's result (well defined when one exists).
    pub open spec fn spec_result_idx(self, id: Seq<char>) -> int {
        choose|i: int|
            0 <= i < self.event_results@.len() && (#[trigger] self.event_results@[i]).event_id.0@
                == id
    }

    /// The published result for the event.
    pub open spec fn spec_result(self, id: Seq<char>) -> EventResult {
        self.event_results@[self.spec_result_idx(id)]
    }

    /// The account is an authorized publisher.
    pub open spec fn spec_is_authorized(self, oracle: Seq<char>) -> bool {
        seq_has_name(self.authorized_oracles@, oracle)
    }

    /// Well-formedness: one result per event, no duplicate publishers, and
    /// the counter matches the published list.
    pub open spec fn wf(self) -> bool {
        &&& unique_result_events(self.event_results@)
        &&& unique_names(self.authorized_oracles@)
        &&& self.result_count as int == self.event_results@.len() as int
    }

    /// A fresh oracle actor owned by the given account, with no authorized
    /// publishers and no results.
    pub fn new(owner: String) -> (r: Self)
        ensures
            r.wf(),
            r.owner matches Some(o) && o@ == owner@,
            r.event_results@.len() == 0,
            r.authorized_oracles@.len() == 0,
            r.result_count == 0,
    {
        FlashbetOracleState {
            event_results: Vec::new(),
            authorized_oracles: Vec::new(),
            owner: Some(owner),
            result_count: 0,
        }
    }

    /// The index of the event's result, if one was published.
    fn find_result(&self, event_id: &EventId) -> (r: Option<usize>)
        ensures
            match r {
                Some(i) => i < self.event_results@.len() && self.event_results@[
                    i as int
                ].event_id.0@ == event_id.0@,
                None => !self.spec_has_result(event_id.0@),
            },
    {
        let n = self.event_results.len();
        let mut i: usize = 0;
        while i < n
            invariant
                i <= n,
                n == self.event_results@.len(),
                forall|k: int|
                    0 <= k < i ==> (#[trigger] self.event_results@[k]).event_id.0@
                        != event_id.0@,
            decreases n - i,
        {
            if self.event_results[i].event_id.0 == event_id.0 {
                return Some(i);
            }
            i += 1;
        }
        None
    }

    /// In a well-formed state, an index holding the event's result is the
    /// index the model functions denote.
    proof fn lemma_result_idx_is(self, i: int)
        requires
            self.wf(),
            0 <= i < self.event_results@.len(),
        ensures
            self.spec_has_result(self.event_results@[i].event_id.0@),
            self.spec_result_idx(self.event_results@[i].event_id.0@) == i,
    {
        let id = self.event_results@[i].event_id.0@;
        assert(self.spec_has_result(id));
        let j = self.spec_result_idx(id);
        assert(0 <= j < self.event_results@.len() && self.event_results@[j].event_id.0@ == id);
        assert(j == i);
    }

    /// Whether the account is an authorized publisher.
    pub fn is_authorized(&self, oracle: &String) -> (r: bool)
        ensures
            r == self.spec_is_authorized(oracle@),
    {
        let n = self.authorized_oracles.len();
        let mut i: usize = 0;
        while i < n
            invariant
                i <= n,
                n == self.authorized_oracles@.len(),
                forall|k: int|
                    0 <= k < i ==> (#[trigger] self.authorized_oracles@[k])@ != oracle@,
            decreases n - i,
        {
            if self.authorized_oracles[i] == *oracle {
                return true;
            }
            i += 1;
        }
        false
    }

    /// Whether a result was already published for the event.
    pub fn has_result(&self, event_id: &EventId) -> (r: bool)
        ensures
            r == self.spec_has_result(event_id.0@),
    {
        self.find_result(event_id).is_some()
    }

    /// The published result for the event, if any.
    pub fn get_result(&self, event_id: &EventId) -> (r: Option<EventResult>)
        requires
            self.wf(),
        ensures
            match r {
                Some(res) => self.spec_has_result(event_id.0@) && res == self.spec_result(
                    event_id.0@,
                ),
                None => !self.spec_has_result(event_id.0@),
            },
    {
        match self.find_result(event_id) {
            Some(i) => {
                proof {
                    self.lemma_result_idx_is(i as int);
                }
                Some(self.event_results[i].clone())
            },
            None => None,
        }
    }

    /// Store a result for an event that has none yet and bump the counter.
    /// `try_publish` runs the authorization and duplicate checks first.
    pub fn publish_result(&mut self, result: EventResult)
        requires
            old(self).wf(),
            !old(self).spec_has_result(result.event_id.0@),
            old(self).result_count < u64::MAX,
        ensures
            final(self).wf(),
            final(self).event_results@ == old(self).event_results@.push(result),
            final(self).result_count == old(self).result_count + 1,
            final(self).authorized_oracles == old(self).authorized_oracles,
            final(self).owner == old(self).owner,
    {
        self.event_results.push(result);
        self.result_count = self.result_count + 1;
    }

    /// Accept a result from a publisher: the publisher must be authorized
    /// and the event must not have a result yet — duplicate submissions are
    /// rejected, which makes resolution inputs at-most-once per event.
    pub fn try_publish(&mut self, oracle: &String, result: EventResult) -> (r: Result<
        OracleEvent,
        FlashBetError,
    >)
        requires
            old(self).wf(),
            old(self).result_count < u64::MAX,
        ensures
            final(self).wf(),
            r is Ok <==> (old(self).spec_is_authorized(oracle@) && !old(self).spec_has_result(
                result.event_id.0@,
            )),
            r is Err ==> *final(self) == *old(self),
            !old(self).spec_is_authorized(oracle@) ==> r == Err::<OracleEvent, FlashBetError>(
                FlashBetError::UnauthorizedOracle,
            ),
            old(self).spec_is_authorized(oracle@) && old(self).spec_has_result(result.event_id.0@)
                ==> r == Err::<OracleEvent, FlashBetError>(FlashBetError::DuplicateResult(
                result.event_id,
            )),
            r is Ok ==> {
                &&& final(self).event_results@ == old(self).event_results@.push(result)
                &&& final(self).result_count == old(self).result_count + 1
                &&& r == Ok::<OracleEvent, FlashBetError>(OracleEvent::ResultPublished { result })
            },
    {
        if !self.is_authorized(oracle) {
            return Err(FlashBetError::UnauthorizedOracle);
        }
        if self.has_result(&result.event_id) {
            return Err(FlashBetError::DuplicateResult(result.event_id));
        }
        let event = OracleEvent::ResultPublished { result: result.clone() };
        self.publish_result(result);
        Ok(event)
    }

    /// Authorize a publisher.  Adding an account twice leaves the set as it
    /// was, so redelivered authorizations are harmless.
    pub fn authorize_oracle(&mut self, oracle: String)
        requires
            old(self).wf(),
        ensures
            final(self).wf(),
            forall|x: Seq<char>|
                final(self).spec_is_authorized(x) <==> (old(self).spec_is_authorized(x) || x
                    == oracle@),
            final(self).event_results == old(self).event_results,
            final(self).owner == old(self).owner,
            final(self).result_count == old(self).result_count,
    {
        if !self.is_authorized(&oracle) {
            let ghost pre = self.authorized_oracles@;
            self.authorized_oracles.push(oracle);
            proof {
                let post = self.authorized_oracles@;
                assert(post[pre.len() as int]@ == oracle@);
                assert forall|x: Seq<char>|
                    self.spec_is_authorized(x) implies (seq_has_name(pre, x) || x
                    == oracle@) by {
                    let k = choose|k: int| 0 <= k < post.len() && (#[trigger] post[k])@ == x;
                    if k < pre.len() {
                        assert(pre[k]@ == x);
                    }
                }
                assert forall|x: Seq<char>|
                    seq_has_name(pre, x) || x == oracle@ implies self.spec_is_authorized(
                    x,
                ) by {
                    if seq_has_name(pre, x) {
                        let k = choose|k: int| 0 <= k < pre.len() && (#[trigger] pre[k])@ == x;
                        assert(post[k]@ == x);
                    } else {
                        assert(post[pre.len() as int]@ == x);
                    }
                }
                assert forall|i: int, j: int|
                    0 <= i < post.len() && 0 <= j < post.len() && i != j implies (
                #[trigger] post[i])@ != (#[trigger] post[j])@ by {
                    if i < pre.len() && j < pre.len() {
                        assert(pre[i]@ != pre[j]@);
                    } else if i < pre.len() {
                        assert(pre[i]@ != oracle@);
                    } else if j < pre.len() {
                        assert(pre[j]@ != oracle@);
                    }
                }
            }
        }
    }

    /// Revoke a publisher's authorization; unknown accounts are ignored.
    pub fn revoke_oracle(&mut self, oracle: &String)
        requires
            old(self).wf(),
        ensures
            final(self).wf(),
            forall|x: Seq<char>|
                final(self).spec_is_authorized(x) <==> (old(self).spec_is_authorized(x) && x
                    != oracle@),
            final(self).event_results == old(self).event_results,
            final(self).owner == old(self).owner,
            final(self).result_count == old(self).result_count,
    {
        let n = self.authorized_oracles.len();
        let mut i: usize = 0;
        while i < n
            invariant
                i <= n,
                *self == *old(self),
                old(self).wf(),
                n == self.authorized_oracles@.len(),
                forall|k: int|
                    0 <= k < i ==> (#[trigger] self.authorized_oracles@[k])@ != oracle@,
            decreases n - i,
        {
            if self.authorized_oracles[i] == *oracle {
                let ghost pre = self.authorized_oracles@;
                self.authorized_oracles.remove(i);
                proof {
                    let post = self.authorized_oracles@;
                    assert(pre == old(self).authorized_oracles@);
                    assert(post =~= pre.subrange(0, i as int) + pre.subrange(
                        i + 1,
                        pre.len() as int,
                    ));
                    assert forall|x: Seq<char>|
                        self.spec_is_authorized(x) implies (old(self).spec_is_authorized(x) && x
                        != oracle@) by {
                        let k = choose|k: int|
                            0 <= k < post.len() && (#[trigger] post[k])@ == x;
                        if k < i {
                            assert(pre[k]@ == x);
                            assert(pre[k]@ != oracle@);
                        } else {
                            assert(pre[k + 1]@ == x);
                            assert(pre[k + 1]@ != pre[i as int]@);
                        }
                    }
                    assert forall|x: Seq<char>|
                        old(self).spec_is_authorized(x) && x != oracle@ implies self
                        .spec_is_authorized(x) by {
                        let k = choose|k: int|
                            0 <= k < pre.len() && (#[trigger] pre[k])@ == x;
                        if k < i {
                            assert(post[k]@ == x);
                        } else {
                            assert(k != i);
                            assert(post[k - 1]@ == x);
                        }
                    }
                    assert forall|a: int, b: int|
                        0 <= a < post.len() && 0 <= b < post.len() && a != b implies (
                    #[trigger] post[a])@ != (#[trigger] post[b])@ by {
                        let a0 = if a < i { a } else { a + 1 };
                        let b0 = if b < i { b } else { b + 1 };
                        assert(post[a] == pre[a0]);
                        assert(post[b] == pre[b0]);
                        assert(pre[a0]@ != pre[b0]@);
                    }
                }
                return ;
            }
            i += 1;
        }
    }

    /// Authorize a publisher on the owner's instruction: only the owner may
    /// extend the authorized set.
    pub fn try_authorize_oracle(&mut self, signer: &String, oracle: String) -> (r: Result<
        OracleEvent,
        FlashBetError,
    >)
        requires
            old(self).wf(),
        ensures
            final(self).wf(),
            r is Ok <==> (old(self).owner matches Some(o) && o@ == signer@),
            r is Err ==> *final(self) == *old(self) && r == Err::<OracleEvent, FlashBetError>(
                FlashBetError::UnauthorizedOracle,
            ),
            r is Ok ==> {
                &&& forall|x: Seq<char>|
                    final(self).spec_is_authorized(x) <==> (old(self).spec_is_authorized(x) || x
                        == oracle@)
                &&& final(self).event_results == old(self).event_results
                &&& final(self).owner == old(self).owner
                &&& final(self).result_count == old(self).result_count
                &&& r == Ok::<OracleEvent, FlashBetError>(OracleEvent::OracleAuthorized { oracle })
            },
    {
        if !self.is_owner(signer) {
            return Err(FlashBetError::UnauthorizedOracle);
        }
        let event = OracleEvent::OracleAuthorized { oracle: oracle.clone() };
        self.authorize_oracle(oracle);
        Ok(event)
    }

    /// Revoke a publisher on the owner's instruction: only the owner may
    /// shrink the authorized set.
    pub fn try_revoke_oracle(&mut self, signer: &String, oracle: &String) -> (r: Result<
        (),
        FlashBetError,
    >)
        requires
            old(self).wf(),
        ensures
            final(self).wf(),
            r is Ok <==> (old(self).owner matches Some(o) && o@ == signer@),
            r is Err ==> *final(self) == *old(self) && r == Err::<(), FlashBetError>(
                FlashBetError::UnauthorizedOracle,
            ),
            r is Ok ==> {
                &&& forall|x: Seq<char>|
                    final(self).spec_is_authorized(x) <==> (old(self).spec_is_authorized(x) && x
                        != oracle@)
                &&& final(self).event_results == old(self).event_results
                &&& final(self).owner == old(self).owner
                &&& final(self).result_count == old(self).result_count
            },
    {
        if !self.is_owner(signer) {
            return Err(FlashBetError::UnauthorizedOracle);
        }
        self.revoke_oracle(oracle);
        Ok(())
    }

    /// The actor's owner, if set.
    pub fn get_owner(&self) -> (r: Option<&String>)
        ensures
            match r {
                Some(o) => self.owner matches Some(x) && x == o,
                None => self.owner is None,
            },
    {
        self.owner.as_ref()
    }

    /// Whether the account is the actor's owner.
    pub fn is_owner(&self, account: &String) -> (r: bool)
        ensures
            r == (self.owner matches Some(o) && o@ == account@),
    {
        match &self.owner {
            Some(o) => *o == *account,
            None => false,
        }
    }
}

} // verus!
