//! The balance book of one asset.
//!
//! The host platform keeps each asset's balances behind its own token
//! contract; the models here carry that state explicitly as a [`Ledger`]: a
//! list of accounts with their holdings, one entry per account, every holding
//! non-negative, and the sum of all holdings within the range of the amount
//! type. The contracts' guarantees — a transfer moves exactly the stated
//! amount and conserves the total — are stated over [`Ledger::balance_of`]
//! and [`Ledger::total`] and proved here once.

use vstd::prelude::*;

use crate::errors::Error;

verus! {

/// One account's holding of the asset.
#[derive(Clone, Copy, Debug, PartialEq, Eq, Structural)]
struct Entry {
    /// The account identifier.
    addr: u64,
    /// The account's balance, in the asset's smallest unit.
    amount: i128,
}

/// The sum of the amounts that the entries of `s` hold for account `a`.
/// With one entry per account this is that entry's amount, or zero when
/// the account never appears.
spec fn bal_in(s: Seq<Entry>, a: u64) -> int
    decreases s.len(),
{
    if s.len() == 0 {
        0
    } else {
        bal_in(s.drop_last(), a) + (if s.last().addr == a {
            s.last().amount as int
        } else {
            0int
        })
    }
}

/// The sum of all amounts held in `s`.
spec fn total_in(s: Seq<Entry>) -> int
    decreases s.len(),
{
    if s.len() == 0 {
        0
    } else {
        total_in(s.drop_last()) + s.last().amount
    }
}

/// No account appears in two entries.
spec fn addrs_unique(s: Seq<Entry>) -> bool {
    forall|i: int, j: int| 0 <= i < j < s.len() ==> s[i].addr != s[j].addr
}

/// Every entry holds a non-negative amount.
spec fn entries_nonneg(s: Seq<Entry>) -> bool {
    forall|i: int| 0 <= i < s.len() ==> s[i].amount >= 0
}

/// Replacing the amount of the entry at `i` moves that entry's account's
/// balance, and the total, by exactly the difference, and no other balance.
proof fn lemma_bal_update(s: Seq<Entry>, i: int, v: i128, a: u64)
    requires
        0 <= i < s.len(),
    ensures
        bal_in(s.update(i, (Entry { addr: s[i].addr, amount: v })), a) == bal_in(s, a) + (if s[i].addr
            == a {
            v - s[i].amount
        } else {
            0int
        }),
        total_in(s.update(i, (Entry { addr: s[i].addr, amount: v }))) == total_in(s) + v
            - s[i].amount,
    decreases s.len(),
{
    let t = s.update(i, (Entry { addr: s[i].addr, amount: v }));
    if i == s.len() - 1 {
        assert(t.drop_last() =~= s.drop_last());
    } else {
        lemma_bal_update(s.drop_last(), i, v, a);
        assert(t.drop_last() =~= s.drop_last().update(
            i,
            (Entry { addr: s.drop_last()[i].addr, amount: v }),
        ));
        assert(t.last() == s.last());
    }
}

/// Appending an entry raises its account's balance, and the total, by its
/// amount, and no other account's balance.
proof fn lemma_bal_push(s: Seq<Entry>, e: Entry, a: u64)
    ensures
        bal_in(s.push(e), a) == bal_in(s, a) + (if e.addr == a {
            e.amount as int
        } else {
            0int
        }),
        total_in(s.push(e)) == total_in(s) + e.amount,
{
    assert(s.push(e).drop_last() =~= s);
}

/// An account that appears in no entry holds nothing.
proof fn lemma_bal_absent(s: Seq<Entry>, a: u64)
    requires
        forall|j: int| 0 <= j < s.len() ==> s[j].addr != a,
    ensures
        bal_in(s, a) == 0,
    decreases s.len(),
{
    if s.len() > 0 {
        lemma_bal_absent(s.drop_last(), a);
    }
}

/// With one entry per account, the balance of the account at `i` is that
/// entry's amount.
proof fn lemma_bal_found(s: Seq<Entry>, i: int)
    requires
        addrs_unique(s),
        0 <= i < s.len(),
    ensures
        bal_in(s, s[i].addr) == s[i].amount,
    decreases s.len(),
{
    if i == s.len() - 1 {
        lemma_bal_absent(s.drop_last(), s[i].addr);
    } else {
        lemma_bal_found(s.drop_last(), i);
    }
}

/// With non-negative entries, every balance lies between zero and the total.
proof fn lemma_bal_bounds(s: Seq<Entry>, a: u64)
    requires
        entries_nonneg(s),
    ensures
        0 <= bal_in(s, a) <= total_in(s),
    decreases s.len(),
{
    if s.len() > 0 {
        lemma_bal_bounds(s.drop_last(), a);
    }
}

/// The balances of one asset: who holds how much.
pub struct Ledger {
    entries: Vec<Entry>,
}

impl Ledger {
    /// The book is well formed: one entry per account, no negative holding,
    /// and the total in range of the amount type.
    pub closed spec fn wf(self) -> bool {
        &&& addrs_unique(self.entries@)
        &&& entries_nonneg(self.entries@)
        &&& total_in(self.entries@) <= i128::MAX
    }

    /// The balance the book holds for account `a`; zero when `a` never
    /// received anything.
    pub closed spec fn balance_of(self, a: u64) -> int {
        bal_in(self.entries@, a)
    }

    /// The sum of all balances in the book.
    pub closed spec fn total(self) -> int {
        total_in(self.entries@)
    }

    /// Every balance of a well-formed book lies between zero and the total.
    pub proof fn lemma_in_range(self, a: u64)
        requires
            self.wf(),
        ensures
            0 <= self.balance_of(a) <= self.total() <= i128::MAX,
    {
        lemma_bal_bounds(self.entries@, a);
    }

    /// An empty book: nobody holds anything.
    pub fn new() -> (r: Ledger)
        ensures
            r.wf(),
            r.total() == 0,
            forall|a: u64| r.balance_of(a) == 0,
    {
        let r = Ledger { entries: Vec::new() };
        proof {
            assert forall|a: u64| r.balance_of(a) == 0 by {
                lemma_bal_absent(r.entries@, a);
            }
        }
        r
    }

    /// The position of account `a`'s entry, if it has one.
    fn find(&self, a: u64) -> (r: Option<usize>)
        ensures
            match r {
                Some(i) => i < self.entries@.len() && self.entries@[i as int].addr == a,
                None => forall|j: int| 0 <= j < self.entries@.len() ==> self.entries@[j].addr != a,
            },
    {
        let mut i: usize = 0;
        while i < self.entries.len()
            invariant
                i <= self.entries@.len(),
                forall|j: int| 0 <= j < i ==> self.entries@[j].addr != a,
            decreases self.entries@.len() - i,
        {
            if self.entries[i].addr == a {
                return Some(i);
            }
            i = i + 1;
        }
        None
    }

    /// The balance of account `a`.
    pub fn balance(&self, a: u64) -> (r: i128)
        requires
            self.wf(),
        ensures
            r as int == self.balance_of(a),
            0 <= r,
    {
        proof {
            self.lemma_in_range(a);
        }
        match self.find(a) {
            Some(i) => {
                proof {
                    lemma_bal_found(self.entries@, i as int);
                }
                self.entries[i].amount
            },
            None => {
                proof {
                    lemma_bal_absent(self.entries@, a);
                }
                0
            },
        }
    }

    /// Create `amount` new units on account `a`'s balance, as the token
    /// standard's issuance primitive does. The caller establishes that the
    /// grown total still fits the amount type.
    pub fn credit(&mut self, a: u64, amount: i128)
        requires
            old(self).wf(),
            amount >= 0,
            old(self).total() + amount <= i128::MAX,
        ensures
            final(self).wf(),
            forall|x: u64|
                final(self).balance_of(x) == old(self).balance_of(x) + (if x == a {
                    amount as int
                } else {
                    0int
                }),
            final(self).total() == old(self).total() + amount,
    {
        proof {
            self.lemma_in_range(a);
        }
        let ghost s0 = self.entries@;
        match self.find(a) {
            Some(i) => {
                proof {
                    lemma_bal_found(s0, i as int);
                }
                let cur = self.entries[i].amount;
                self.entries[i] = Entry { addr: a, amount: cur + amount };
                proof {
                    assert forall|x: u64|
                        self.balance_of(x) == old(self).balance_of(x) + (if x == a {
                            amount as int
                        } else {
                            0int
                        }) by {
                        lemma_bal_update(s0, i as int, (cur + amount) as i128, x);
                    }
                    lemma_bal_update(s0, i as int, (cur + amount) as i128, a);
                    assert forall|p: int, q: int|
                        0 <= p < q < self.entries@.len() implies self.entries@[p].addr
                        != self.entries@[q].addr by {
                        assert(s0[p].addr != s0[q].addr);
                    }
                }
            },
            None => {
                let e = Entry { addr: a, amount };
                self.entries.push(e);
                proof {
                    lemma_bal_absent(s0, a);
                    assert forall|x: u64|
                        self.balance_of(x) == old(self).balance_of(x) + (if x == a {
                            amount as int
                        } else {
                            0int
                        }) by {
                        lemma_bal_push(s0, e, x);
                    }
                    lemma_bal_push(s0, e, a);
                }
            },
        }
    }

    /// Remove `amount` units from account `a`'s balance, as the token
    /// standard's burn primitive does. Fails, changing nothing, on a negative
    /// amount or a balance below the amount.
    pub fn debit(&mut self, a: u64, amount: i128) -> (r: Result<(), Error>)
        requires
            old(self).wf(),
        ensures
            final(self).wf(),
            (r is Ok) <==> 0 <= amount <= old(self).balance_of(a),
            r is Ok ==> (forall|x: u64|
                final(self).balance_of(x) == old(self).balance_of(x) - (if x == a {
                    amount as int
                } else {
                    0int
                })) && final(self).total() == old(self).total() - amount,
            r matches Err(e) ==> *final(self) == *old(self) && ((e == Error::NegativeAmount
                <==> amount < 0) && (e == Error::InsufficientBalance <==> amount >= 0 && old(
                self,
            ).balance_of(a) < amount)),
    {
        if amount < 0 {
            return Err(Error::NegativeAmount);
        }
        let b = self.balance(a);
        if b < amount {
            return Err(Error::InsufficientBalance);
        }
        if amount == 0 {
            return Ok(());
        }
        // The amount is positive, so the account holds a positive balance
        // and therefore has an entry.
        let ghost s0 = self.entries@;
        match self.find(a) {
            Some(i) => {
                proof {
                    lemma_bal_found(s0, i as int);
                    lemma_bal_bounds(s0, a);
                }
                let cur = self.entries[i].amount;
                self.entries[i] = Entry { addr: a, amount: cur - amount };
                proof {
                    assert forall|x: u64|
                        self.balance_of(x) == old(self).balance_of(x) - (if x == a {
                            amount as int
                        } else {
                            0int
                        }) by {
                        lemma_bal_update(s0, i as int, (cur - amount) as i128, x);
                    }
                    lemma_bal_update(s0, i as int, (cur - amount) as i128, a);
                    assert forall|p: int, q: int|
                        0 <= p < q < self.entries@.len() implies self.entries@[p].addr
                        != self.entries@[q].addr by {
                        assert(s0[p].addr != s0[q].addr);
                    }
                }
                Ok(())
            },
            None => {
                proof {
                    lemma_bal_absent(s0, a);
                }
                // Unreachable: the balance was at least the positive amount.
                assert(false);
                Err(Error::InsufficientBalance)
            },
        }
    }

    /// Move `amount` units from `from` to `to`, as the token standard's
    /// transfer primitive does. Fails, changing nothing, on a negative amount
    /// or a balance below the amount; conserves the total otherwise.
    pub fn transfer(&mut self, from: u64, to: u64, amount: i128) -> (r: Result<(), Error>)
        requires
            old(self).wf(),
        ensures
            final(self).wf(),
            (r is Ok) <==> 0 <= amount <= old(self).balance_of(from),
            r is Ok ==> (forall|x: u64|
                final(self).balance_of(x) == old(self).balance_of(x) - (if x == from {
                    amount as int
                } else {
                    0int
                }) + (if x == to {
                    amount as int
                } else {
                    0int
                })) && final(self).total() == old(self).total(),
            r matches Err(e) ==> *final(self) == *old(self) && ((e == Error::NegativeAmount
                <==> amount < 0) && (e == Error::InsufficientBalance <==> amount >= 0 && old(
                self,
            ).balance_of(from) < amount)),
    {
        match self.debit(from, amount) {
            Ok(()) => {
                self.credit(to, amount);
                Ok(())
            },
            Err(e) => Err(e),
        }
    }
}

} // verus!
