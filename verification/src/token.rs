//! The token ledger actor's state: account balances for the betting token.

use vstd::prelude::*;
use vstd::string::StringExecFns;

verus! {

/// The betting token's ticker symbol.
pub fn ticker_symbol() -> (s: String)
    ensures
        s@ == "BET"@,
{
    String::from_str("BET")
}

/// One account's balance.
pub struct AccountBalance {
    /// The account owner.
    pub owner: String,
    /// The tokens the account holds.
    pub balance: u64,
}

/// Some entry of the ledger belongs to the given owner.
pub open spec fn seq_has_owner(s: Seq<AccountBalance>, x: Seq<char>) -> bool {
    exists|i: int| 0 <= i < s.len() && (#[trigger] s[i]).owner@ == x
}

/// The index of the owner's entry (well defined when one exists).
pub open spec fn owner_idx(s: Seq<AccountBalance>, x: Seq<char>) -> int {
    choose|i: int| 0 <= i < s.len() && (#[trigger] s[i]).owner@ == x
}

/// The balance the ledger records for an owner; zero for an unknown owner.
pub open spec fn balance_of(s: Seq<AccountBalance>, x: Seq<char>) -> u64 {
    if seq_has_owner(s, x) {
        s[owner_idx(s, x)].balance
    } else {
        0
    }
}

/// No two entries belong to the same owner.
pub open spec fn unique_owners(s: Seq<AccountBalance>) -> bool {
    forall|i: int, j: int|
        0 <= i < s.len() && 0 <= j < s.len() && i != j ==> (#[trigger] s[i]).owner@ != (
        #[trigger] s[j]).owner@
}

/// Changing only the balance at one entry changes only that owner's
/// balance.
proof fn lemma_balance_of_update(pre: Seq<AccountBalance>, post: Seq<AccountBalance>, i: int)
    requires
        unique_owners(pre),
        0 <= i < pre.len(),
        post.len() == pre.len(),
        forall|j: int| 0 <= j < pre.len() && j != i ==> post[j] == pre[j],
        post[i].owner@ == pre[i].owner@,
    ensures
        unique_owners(post),
        forall|x: Seq<char>|
            #[trigger] balance_of(post, x) == if x == pre[i].owner@ {
                post[i].balance
            } else {
                balance_of(pre, x)
            },
{
    assert forall|a: int, b: int|
        0 <= a < post.len() && 0 <= b < post.len() && a != b implies (#[trigger] post[a]).owner@
        != (#[trigger] post[b]).owner@ by {
        assert(post[a].owner@ == pre[a].owner@);
        assert(post[b].owner@ == pre[b].owner@);
        assert(pre[a].owner@ != pre[b].owner@);
    }
    assert forall|x: Seq<char>|
        #[trigger] balance_of(post, x) == (if x == pre[i].owner@ {
            post[i].balance
        } else {
            balance_of(pre, x)
        }) by {
        if seq_has_owner(pre, x) {
            let k = choose|k: int| 0 <= k < pre.len() && (#[trigger] pre[k]).owner@ == x;
            assert(post[k].owner@ == x);
            assert(seq_has_owner(post, x));
            let k2 = owner_idx(post, x);
            assert(post[k2].owner@ == x);
            assert(k2 == k);
            assert(owner_idx(pre, x) == k);
        } else {
            if seq_has_owner(post, x) {
                let k = owner_idx(post, x);
                assert(pre[k].owner@ == x);
                assert(false);
            }
        }
    }
}

/// Appending an entry for a new owner changes only that owner's balance.
proof fn lemma_balance_of_push(pre: Seq<AccountBalance>, a: AccountBalance)
    requires
        unique_owners(pre),
        !seq_has_owner(pre, a.owner@),
    ensures
        unique_owners(pre.push(a)),
        forall|x: Seq<char>|
            #[trigger] balance_of(pre.push(a), x) == if x == a.owner@ {
                a.balance
            } else {
                balance_of(pre, x)
            },
{
    let post = pre.push(a);
    assert(post[pre.len() as int] == a);
    assert forall|i: int, j: int|
        0 <= i < post.len() && 0 <= j < post.len() && i != j implies (#[trigger] post[i]).owner@
        != (#[trigger] post[j]).owner@ by {
        if i < pre.len() && j < pre.len() {
            assert(pre[i].owner@ != pre[j].owner@);
        } else if i < pre.len() {
            assert(pre[i].owner@ != a.owner@);
        } else if j < pre.len() {
            assert(pre[j].owner@ != a.owner@);
        }
    }
    assert forall|x: Seq<char>|
        #[trigger] balance_of(post, x) == (if x == a.owner@ {
            a.balance
        } else {
            balance_of(pre, x)
        }) by {
        if x == a.owner@ {
            assert(seq_has_owner(post, x));
            let k = owner_idx(post, x);
            assert(post[k].owner@ == x);
            if k < pre.len() {
                assert(pre[k].owner@ == x);
                assert(false);
            }
        } else {
            if seq_has_owner(pre, x) {
                let k = choose|k: int| 0 <= k < pre.len() && (#[trigger] pre[k]).owner@ == x;
                assert(post[k].owner@ == x);
                let k2 = owner_idx(post, x);
                assert(post[k2].owner@ == x);
                assert(k2 == k);
                assert(owner_idx(pre, x) == k);
            } else {
                if seq_has_owner(post, x) {
                    let k = owner_idx(post, x);
                    assert(post[k].owner@ == x);
                    if k < pre.len() {
                        assert(pre[k].owner@ == x);
                    }
                    assert(false);
                }
            }
        }
    }
}

/// State of the token ledger actor.
pub struct TokenState {
    /// Account balances.  Owners are unique across entries.
    pub balances: Vec<AccountBalance>,
}

impl TokenState {
    /// The balance recorded for an owner; zero for an unknown owner.
    pub open spec fn spec_balance_of(self, x: Seq<char>) -> u64 {
        balance_of(self.balances@, x)
    }

    /// Well-formedness: one entry per owner.
    pub open spec fn wf(self) -> bool {
        unique_owners(self.balances@)
    }

    /// A fresh ledger with no accounts.
    pub fn new() -> (r: Self)
        ensures
            r.wf(),
            r.balances@.len() == 0,
    {
        TokenState { balances: Vec::new() }
    }

    /// The index of the owner's entry, if one exists.
    fn find_account(&self, owner: &String) -> (r: Option<usize>)
        ensures
            match r {
                Some(i) => i < self.balances@.len() && self.balances@[i as int].owner@ == owner@,
                None => !seq_has_owner(self.balances@, owner@),
            },
    {
        let n = self.balances.len();
        let mut i: usize = 0;
        while i < n
            invariant
                i <= n,
                n == self.balances@.len(),
                forall|k: int| 0 <= k < i ==> (#[trigger] self.balances@[k]).owner@ != owner@,
            decreases n - i,
        {
            if self.balances[i].owner == *owner {
                return Some(i);
            }
            i += 1;
        }
        None
    }

    /// Balance for an account; zero when the account does not exist.
    pub fn get_balance(&self, owner: &String) -> (r: u64)
        requires
            self.wf(),
        ensures
            r == self.spec_balance_of(owner@),
    {
        match self.find_account(owner) {
            Some(i) => {
                proof {
                    let id = self.balances@[i as int].owner@;
                    assert(seq_has_owner(self.balances@, id));
                    let j = owner_idx(self.balances@, id);
                    assert(self.balances@[j].owner@ == id);
                    assert(j == i as int);
                }
                self.balances[i].balance
            },
            None => 0,
        }
    }

    /// Credit tokens to an account, creating it if needed; the balance
    /// saturates at the numeric ceiling rather than wrapping.
    pub fn credit(&mut self, owner: &String, amount: u64)
        requires
            old(self).wf(),
        ensures
            final(self).wf(),
            final(self).spec_balance_of(owner@) as int == if old(self).spec_balance_of(owner@)
                as int + amount <= u64::MAX {
                old(self).spec_balance_of(owner@) as int + amount
            } else {
                u64::MAX as int
            },
            forall|x: Seq<char>|
                x != owner@ ==> #[trigger] final(self).spec_balance_of(x) == old(
                    self,
                ).spec_balance_of(x),
    {
        match self.find_account(owner) {
            Some(i) => {
                proof {
                    let id = self.balances@[i as int].owner@;
                    assert(seq_has_owner(self.balances@, id));
                    let j = owner_idx(self.balances@, id);
                    assert(self.balances@[j].owner@ == id);
                    assert(j == i as int);
                }
                let ghost pre = self.balances@;
                let current = self.balances[i].balance;
                let updated = if amount > u64::MAX - current {
                    u64::MAX
                } else {
                    current + amount
                };
                let e = &mut self.balances[i];
                e.balance = updated;
                proof {
                    lemma_balance_of_update(pre, self.balances@, i as int);
                }
            },
            None => {
                let ghost pre = self.balances@;
                let entry = AccountBalance { owner: owner.clone(), balance: amount };
                proof {
                    lemma_balance_of_push(pre, entry);
                }
                self.balances.push(entry);
            },
        }
    }

    /// Debit tokens from an account.  The account must hold at least the
    /// amount; the settlement core never debits more than it verified.
    pub fn debit(&mut self, owner: &String, amount: u64)
        requires
            old(self).wf(),
            amount <= old(self).spec_balance_of(owner@),
        ensures
            final(self).wf(),
            final(self).spec_balance_of(owner@) as int == old(self).spec_balance_of(owner@) as int
                - amount,
            forall|x: Seq<char>|
                x != owner@ ==> #[trigger] final(self).spec_balance_of(x) == old(
                    self,
                ).spec_balance_of(x),
    {
        match self.find_account(owner) {
            Some(i) => {
                proof {
                    let id = self.balances@[i as int].owner@;
                    assert(seq_has_owner(self.balances@, id));
                    let j = owner_idx(self.balances@, id);
                    assert(self.balances@[j].owner@ == id);
                    assert(j == i as int);
                }
                let ghost pre = self.balances@;
                let current = self.balances[i].balance;
                let e = &mut self.balances[i];
                e.balance = current - amount;
                proof {
                    lemma_balance_of_update(pre, self.balances@, i as int);
                }
            },
            None => {},
        }
    }
}

} // verus!
