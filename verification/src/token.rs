//! The fungible token contract: name "IRL", symbol "IRL", seven decimals,
//! and an initial supply of one million display units minted to the owner at
//! construction.
//!
//! The contract composes the token standard's balance and allowance
//! bookkeeping with one owner-gated entry point, `mint`. Authorization
//! signatures and the current ledger sequence number belong to the host
//! environment; entry points take the authenticated party and the current
//! ledger number as arguments where the behaviour depends on them. Every
//! failed call leaves the contract exactly as it was.

use vstd::prelude::*;

use crate::errors::Error;
use crate::ledger::Ledger;

verus! {

/// Token decimals.
pub const DECIMALS: u32 = 7;

/// Initial supply in display units (one million tokens).
pub const INITIAL_SUPPLY_DISPLAY: i128 = 1_000_000;

/// Initial supply in smallest units: one million tokens of seven decimals,
/// scaled by ten to the seventh.
pub const INITIAL_SUPPLY: i128 = INITIAL_SUPPLY_DISPLAY * 10_000_000;

/// One allowance record: what `spender` may move out of `owner`'s balance,
/// and the last ledger number at which the permission is alive.
#[derive(Clone, Copy, Debug, PartialEq, Eq, Structural)]
struct AllowanceEntry {
    owner: u64,
    spender: u64,
    amount: i128,
    live_until: u32,
}

/// The allowance record for `(o, sp)`, if one was ever written.
spec fn allow_in(s: Seq<AllowanceEntry>, o: u64, sp: u64) -> Option<AllowanceEntry>
    decreases s.len(),
{
    if s.len() == 0 {
        None
    } else if s.last().owner == o && s.last().spender == sp {
        Some(s.last())
    } else {
        allow_in(s.drop_last(), o, sp)
    }
}

/// No `(owner, spender)` pair appears in two records.
spec fn pairs_unique(s: Seq<AllowanceEntry>) -> bool {
    forall|i: int, j: int|
        0 <= i < j < s.len() ==> !(s[i].owner == s[j].owner && s[i].spender == s[j].spender)
}

/// Every record holds a non-negative amount.
spec fn allowances_nonneg(s: Seq<AllowanceEntry>) -> bool {
    forall|i: int| 0 <= i < s.len() ==> s[i].amount >= 0
}

/// Replacing the amounts of the record at `i` changes the lookup of that
/// record's pair and of no other pair.
proof fn lemma_allow_update(s: Seq<AllowanceEntry>, i: int, v: i128, l: u32, o: u64, sp: u64)
    requires
        pairs_unique(s),
        0 <= i < s.len(),
    ensures
        allow_in(
            s.update(
                i,
                (AllowanceEntry {
                    owner: s[i].owner,
                    spender: s[i].spender,
                    amount: v,
                    live_until: l,
                }),
            ),
            o,
            sp,
        ) == (if s[i].owner == o && s[i].spender == sp {
            Some(
                (AllowanceEntry {
                    owner: s[i].owner,
                    spender: s[i].spender,
                    amount: v,
                    live_until: l,
                }),
            )
        } else {
            allow_in(s, o, sp)
        }),
    decreases s.len(),
{
    let e = AllowanceEntry { owner: s[i].owner, spender: s[i].spender, amount: v, live_until: l };
    let t = s.update(i, e);
    if i == s.len() - 1 {
        assert(t.drop_last() =~= s.drop_last());
    } else {
        lemma_allow_update(s.drop_last(), i, v, l, o, sp);
        assert(t.drop_last() =~= s.drop_last().update(
            i,
            (AllowanceEntry {
                owner: s.drop_last()[i].owner,
                spender: s.drop_last()[i].spender,
                amount: v,
                live_until: l,
            }),
        ));
        assert(t.last() == s.last());
    }
}

/// Appending a record changes the lookup of its pair and of no other pair.
proof fn lemma_allow_push(s: Seq<AllowanceEntry>, e: AllowanceEntry, o: u64, sp: u64)
    ensures
        allow_in(s.push(e), o, sp) == (if e.owner == o && e.spender == sp {
            Some(e)
        } else {
            allow_in(s, o, sp)
        }),
{
    assert(s.push(e).drop_last() =~= s);
}

/// A pair that appears in no record has no record.
proof fn lemma_allow_absent(s: Seq<AllowanceEntry>, o: u64, sp: u64)
    requires
        forall|j: int| 0 <= j < s.len() ==> !(s[j].owner == o && s[j].spender == sp),
    ensures
        allow_in(s, o, sp) is None,
    decreases s.len(),
{
    if s.len() > 0 {
        lemma_allow_absent(s.drop_last(), o, sp);
    }
}

/// With unique pairs, the lookup of the pair at `i` finds exactly that
/// record.
proof fn lemma_allow_found(s: Seq<AllowanceEntry>, i: int)
    requires
        pairs_unique(s),
        0 <= i < s.len(),
    ensures
        allow_in(s, s[i].owner, s[i].spender) == Some(s[i]),
    decreases s.len(),
{
    if i < s.len() - 1 {
        lemma_allow_found(s.drop_last(), i);
    }
}

/// The fungible token contract's state.
pub struct IRLToken {
    name: String,
    symbol: String,
    decimals: u32,
    owner: u64,
    ledger: Ledger,
    total_supply: i128,
    allowances: Vec<AllowanceEntry>,
}

impl IRLToken {
    /// The state is well formed: the balance book is, the supply counter is
    /// the sum of all balances, and the allowance records are unique per
    /// pair and non-negative.
    pub closed spec fn wf(self) -> bool {
        &&& self.ledger.wf()
        &&& self.total_supply as int == self.ledger.total()
        &&& pairs_unique(self.allowances@)
        &&& allowances_nonneg(self.allowances@)
    }

    /// The token name, as a sequence of characters.
    pub closed spec fn spec_name(self) -> Seq<char> {
        self.name@
    }

    /// The token symbol, as a sequence of characters.
    pub closed spec fn spec_symbol(self) -> Seq<char> {
        self.symbol@
    }

    /// The token decimals.
    pub closed spec fn spec_decimals(self) -> u32 {
        self.decimals
    }

    /// The contract owner.
    pub closed spec fn spec_owner(self) -> u64 {
        self.owner
    }

    /// Account `a`'s balance, in smallest units.
    pub closed spec fn balance_of(self, a: u64) -> int {
        self.ledger.balance_of(a)
    }

    /// The total supply: the sum of all balances.
    pub closed spec fn spec_total_supply(self) -> int {
        self.total_supply as int
    }

    /// What `sp` may still move out of `o`'s balance at ledger number `at`:
    /// the recorded amount while the record is alive, zero otherwise.
    pub closed spec fn allowance_of(self, o: u64, sp: u64, at: u32) -> int {
        match allow_in(self.allowances@, o, sp) {
            Some(e) => if e.live_until >= at {
                e.amount as int
            } else {
                0
            },
            None => 0,
        }
    }

    /// The metadata and the owner of `b` are those of `a`.
    pub open spec fn same_config(a: IRLToken, b: IRLToken) -> bool {
        &&& a.spec_name() == b.spec_name()
        &&& a.spec_symbol() == b.spec_symbol()
        &&& a.spec_decimals() == b.spec_decimals()
        &&& a.spec_owner() == b.spec_owner()
    }

    /// Construction: fixed metadata, the given owner, and the whole initial
    /// supply on the owner's balance.
    pub fn __constructor(owner: u64) -> (r: IRLToken)
        ensures
            r.wf(),
            r.spec_name() == "IRL"@,
            r.spec_symbol() == "IRL"@,
            r.spec_decimals() == DECIMALS,
            r.spec_owner() == owner,
            r.balance_of(owner) == INITIAL_SUPPLY as int,
            forall|a: u64| a != owner ==> r.balance_of(a) == 0,
            r.spec_total_supply() == INITIAL_SUPPLY as int,
            forall|o: u64, sp: u64, at: u32| r.allowance_of(o, sp, at) == 0,
    {
        let mut ledger = Ledger::new();
        ledger.credit(owner, INITIAL_SUPPLY);
        let r = IRLToken {
            name: String::from_str("IRL"),
            symbol: String::from_str("IRL"),
            decimals: DECIMALS,
            owner,
            ledger,
            total_supply: INITIAL_SUPPLY,
            allowances: Vec::new(),
        };
        proof {
            assert forall|o: u64, sp: u64, at: u32| r.allowance_of(o, sp, at) == 0 by {
                lemma_allow_absent(r.allowances@, o, sp);
            }
        }
        r
    }

    /// Owner-gated issuance: create `amount` new units on `to`'s balance.
    /// `caller` is the address whose authorization the transaction carries.
    pub fn mint(&mut self, caller: u64, to: u64, amount: i128) -> (r: Result<(), Error>)
        requires
            old(self).wf(),
        ensures
            final(self).wf(),
            Self::same_config(*final(self), *old(self)),
            (r is Ok) <==> caller == old(self).spec_owner() && amount >= 0 && old(
                self,
            ).spec_total_supply() + amount <= i128::MAX,
            r is Ok ==> (forall|x: u64|
                final(self).balance_of(x) == old(self).balance_of(x) + (if x == to {
                    amount as int
                } else {
                    0int
                })) && final(self).spec_total_supply() == old(self).spec_total_supply() + amount,
            forall|o: u64, sp: u64, at: u32|
                final(self).allowance_of(o, sp, at) == old(self).allowance_of(o, sp, at),
            r matches Err(e) ==> *final(self) == *old(self) && ((e == Error::Unauthorized
                <==> caller != old(self).spec_owner()) && (e == Error::NegativeAmount <==> caller
                == old(self).spec_owner() && amount < 0) && (e == Error::Overflow <==> caller
                == old(self).spec_owner() && amount >= 0 && old(self).spec_total_supply() + amount
                > i128::MAX)),
    {
        if caller != self.owner {
            return Err(Error::Unauthorized);
        }
        if amount < 0 {
            return Err(Error::NegativeAmount);
        }
        proof {
            self.ledger.lemma_in_range(to);
        }
        if amount > i128::MAX - self.total_supply {
            return Err(Error::Overflow);
        }
        self.ledger.credit(to, amount);
        self.total_supply = self.total_supply + amount;
        Ok(())
    }

    /// What `spender` may currently move out of `from`'s balance.
    /// `current_ledger` is the host's ledger sequence number.
    pub fn allowance(&self, from: u64, spender: u64, current_ledger: u32) -> (r: i128)
        requires
            self.wf(),
        ensures
            r as int == self.allowance_of(from, spender, current_ledger),
            0 <= r,
    {
        match self.find_allowance(from, spender) {
            Some(i) => {
                proof {
                    lemma_allow_found(self.allowances@, i as int);
                }
                let e = self.allowances[i];
                if e.live_until >= current_ledger {
                    e.amount
                } else {
                    0
                }
            },
            None => {
                proof {
                    lemma_allow_absent(self.allowances@, from, spender);
                }
                0
            },
        }
    }

    /// Record that `spender` may move up to `amount` out of `from`'s balance
    /// until ledger number `expiration_ledger`. A positive amount must not
    /// expire in the past. `from`'s authorization is the host's business;
    /// the host also bounds `expiration_ledger` by its maximum entry
    /// lifetime, which no model of the contract alone can state.
    pub fn approve(
        &mut self,
        from: u64,
        spender: u64,
        amount: i128,
        expiration_ledger: u32,
        current_ledger: u32,
    ) -> (r: Result<(), Error>)
        requires
            old(self).wf(),
        ensures
            final(self).wf(),
            Self::same_config(*final(self), *old(self)),
            (r is Ok) <==> amount >= 0 && !(amount > 0 && expiration_ledger < current_ledger),
            r is Ok ==> (forall|at: u32|
                final(self).allowance_of(from, spender, at) == (if expiration_ledger >= at {
                    amount as int
                } else {
                    0int
                })) && (forall|o: u64, sp: u64, at: u32|
                !(o == from && sp == spender) ==> final(self).allowance_of(o, sp, at) == old(
                    self,
                ).allowance_of(o, sp, at)) && (forall|x: u64|
                final(self).balance_of(x) == old(self).balance_of(x))
                && final(self).spec_total_supply() == old(self).spec_total_supply(),
            r matches Err(e) ==> *final(self) == *old(self) && ((e == Error::NegativeAmount
                <==> amount < 0) && (e == Error::InvalidExpiration <==> amount > 0
                && expiration_ledger < current_ledger)),
    {
        if amount < 0 {
            return Err(Error::NegativeAmount);
        }
        if amount > 0 && expiration_ledger < current_ledger {
            return Err(Error::InvalidExpiration);
        }
        self.set_allowance(from, spender, amount, expiration_ledger);
        Ok(())
    }

    /// Account `id`'s balance, in smallest units.
    pub fn balance(&self, id: u64) -> (r: i128)
        requires
            self.wf(),
        ensures
            r as int == self.balance_of(id),
            0 <= r,
    {
        self.ledger.balance(id)
    }

    /// Move `amount` from `from` to `to`. `from` is the authenticated party.
    /// The total supply is conserved.
    pub fn transfer(&mut self, from: u64, to: u64, amount: i128) -> (r: Result<(), Error>)
        requires
            old(self).wf(),
        ensures
            final(self).wf(),
            Self::same_config(*final(self), *old(self)),
            (r is Ok) <==> 0 <= amount <= old(self).balance_of(from),
            r is Ok ==> (forall|x: u64|
                final(self).balance_of(x) == old(self).balance_of(x) - (if x == from {
                    amount as int
                } else {
                    0int
                }) + (if x == to {
                    amount as int
                } else {
                    0int
                })),
            final(self).spec_total_supply() == old(self).spec_total_supply(),
            forall|o: u64, sp: u64, at: u32|
                final(self).allowance_of(o, sp, at) == old(self).allowance_of(o, sp, at),
            r matches Err(e) ==> *final(self) == *old(self) && ((e == Error::NegativeAmount
                <==> amount < 0) && (e == Error::InsufficientBalance <==> amount >= 0 && old(
                self,
            ).balance_of(from) < amount)),
    {
        match self.ledger.transfer(from, to, amount) {
            Ok(()) => Ok(()),
            Err(e) => Err(e),
        }
    }

    /// Move `amount` from `from` to `to` on `spender`'s authorization,
    /// consuming that much of `spender`'s allowance.
    pub fn transfer_from(
        &mut self,
        spender: u64,
        from: u64,
        to: u64,
        amount: i128,
        current_ledger: u32,
    ) -> (r: Result<(), Error>)
        requires
            old(self).wf(),
        ensures
            final(self).wf(),
            Self::same_config(*final(self), *old(self)),
            (r is Ok) <==> 0 <= amount <= old(self).allowance_of(from, spender, current_ledger)
                && amount <= old(self).balance_of(from),
            r is Ok ==> (forall|x: u64|
                final(self).balance_of(x) == old(self).balance_of(x) - (if x == from {
                    amount as int
                } else {
                    0int
                }) + (if x == to {
                    amount as int
                } else {
                    0int
                })) && (forall|at: u32|
                final(self).allowance_of(from, spender, at) == (if old(self).allowance_of(
                    from,
                    spender,
                    at,
                ) > 0 {
                    old(self).allowance_of(from, spender, at) - amount
                } else {
                    0int
                })) && (forall|o: u64, sp: u64, at: u32|
                !(o == from && sp == spender) ==> final(self).allowance_of(o, sp, at) == old(
                    self,
                ).allowance_of(o, sp, at)) && final(self).spec_total_supply() == old(
                self,
            ).spec_total_supply(),
            r matches Err(e) ==> *final(self) == *old(self) && ((e == Error::NegativeAmount
                <==> amount < 0) && (e == Error::InsufficientAllowance <==> amount >= 0 && old(
                self,
            ).allowance_of(from, spender, current_ledger) < amount) && (e
                == Error::InsufficientBalance <==> 0 <= amount <= old(self).allowance_of(
                from,
                spender,
                current_ledger,
            ) && old(self).balance_of(from) < amount)),
    {
        if amount < 0 {
            return Err(Error::NegativeAmount);
        }
        // All guards run before any state changes: on the host platform a
        // failure anywhere unwinds the whole transaction.
        if self.allowance(from, spender, current_ledger) < amount {
            return Err(Error::InsufficientAllowance);
        }
        if self.ledger.balance(from) < amount {
            return Err(Error::InsufficientBalance);
        }
        let spent = self.spend_allowance(from, spender, amount, current_ledger);
        assert(spent is Ok);
        let ghost mid = *self;
        let moved = self.ledger.transfer(from, to, amount);
        assert(moved is Ok);
        proof {
            // The transfer leaves the allowance records untouched.
            assert forall|o: u64, sp: u64, at: u32|
                #[trigger] self.allowance_of(o, sp, at) == mid.allowance_of(o, sp, at) by {
                assert(self.allowances@ == mid.allowances@);
            }
        }
        Ok(())
    }

    /// Destroy `amount` units of `from`'s balance. `from` is the
    /// authenticated party. The total supply shrinks by the amount.
    pub fn burn(&mut self, from: u64, amount: i128) -> (r: Result<(), Error>)
        requires
            old(self).wf(),
        ensures
            final(self).wf(),
            Self::same_config(*final(self), *old(self)),
            (r is Ok) <==> 0 <= amount <= old(self).balance_of(from),
            r is Ok ==> (forall|x: u64|
                final(self).balance_of(x) == old(self).balance_of(x) - (if x == from {
                    amount as int
                } else {
                    0int
                })) && final(self).spec_total_supply() == old(self).spec_total_supply() - amount,
            forall|o: u64, sp: u64, at: u32|
                final(self).allowance_of(o, sp, at) == old(self).allowance_of(o, sp, at),
            r matches Err(e) ==> *final(self) == *old(self) && ((e == Error::NegativeAmount
                <==> amount < 0) && (e == Error::InsufficientBalance <==> amount >= 0 && old(
                self,
            ).balance_of(from) < amount)),
    {
        proof {
            self.ledger.lemma_in_range(from);
        }
        match self.ledger.debit(from, amount) {
            Ok(()) => {
                // The burnt amount is at most the account's balance, which is
                // at most the total supply.
                self.total_supply = self.total_supply - amount;
                Ok(())
            },
            Err(e) => Err(e),
        }
    }

    /// Destroy `amount` units of `from`'s balance on `spender`'s
    /// authorization, consuming that much of `spender`'s allowance.
    pub fn burn_from(
        &mut self,
        spender: u64,
        from: u64,
        amount: i128,
        current_ledger: u32,
    ) -> (r: Result<(), Error>)
        requires
            old(self).wf(),
        ensures
            final(self).wf(),
            Self::same_config(*final(self), *old(self)),
            (r is Ok) <==> 0 <= amount <= old(self).allowance_of(from, spender, current_ledger)
                && amount <= old(self).balance_of(from),
            r is Ok ==> (forall|x: u64|
                final(self).balance_of(x) == old(self).balance_of(x) - (if x == from {
                    amount as int
                } else {
                    0int
                })) && (forall|at: u32|
                final(self).allowance_of(from, spender, at) == (if old(self).allowance_of(
                    from,
                    spender,
                    at,
                ) > 0 {
                    old(self).allowance_of(from, spender, at) - amount
                } else {
                    0int
                })) && (forall|o: u64, sp: u64, at: u32|
                !(o == from && sp == spender) ==> final(self).allowance_of(o, sp, at) == old(
                    self,
                ).allowance_of(o, sp, at)) && final(self).spec_total_supply() == old(
                self,
            ).spec_total_supply() - amount,
            r matches Err(e) ==> *final(self) == *old(self) && ((e == Error::NegativeAmount
                <==> amount < 0) && (e == Error::InsufficientAllowance <==> amount >= 0 && old(
                self,
            ).allowance_of(from, spender, current_ledger) < amount) && (e
                == Error::InsufficientBalance <==> 0 <= amount <= old(self).allowance_of(
                from,
                spender,
                current_ledger,
            ) && old(self).balance_of(from) < amount)),
    {
        if amount < 0 {
            return Err(Error::NegativeAmount);
        }
        // All guards run before any state changes: on the host platform a
        // failure anywhere unwinds the whole transaction.
        if self.allowance(from, spender, current_ledger) < amount {
            return Err(Error::InsufficientAllowance);
        }
        proof {
            self.ledger.lemma_in_range(from);
        }
        if self.ledger.balance(from) < amount {
            return Err(Error::InsufficientBalance);
        }
        let spent = self.spend_allowance(from, spender, amount, current_ledger);
        assert(spent is Ok);
        let ghost mid = *self;
        let burnt = self.ledger.debit(from, amount);
        assert(burnt is Ok);
        self.total_supply = self.total_supply - amount;
        proof {
            // The burn leaves the allowance records untouched.
            assert forall|o: u64, sp: u64, at: u32|
                #[trigger] self.allowance_of(o, sp, at) == mid.allowance_of(o, sp, at) by {
                assert(self.allowances@ == mid.allowances@);
            }
        }
        Ok(())
    }

    /// The token decimals.
    pub fn decimals(&self) -> (r: u32)
        ensures
            r == self.spec_decimals(),
    {
        self.decimals
    }

    /// The token name.
    pub fn name(&self) -> (r: String)
        ensures
            r@ == self.spec_name(),
    {
        self.name.clone()
    }

    /// The token symbol.
    pub fn symbol(&self) -> (r: String)
        ensures
            r@ == self.spec_symbol(),
    {
        self.symbol.clone()
    }

    /// The total supply: the sum of all balances.
    pub fn total_supply(&self) -> (r: i128)
        ensures
            r as int == self.spec_total_supply(),
    {
        self.total_supply
    }

    /// The position of the allowance record for `(o, sp)`, if it has one.
    fn find_allowance(&self, o: u64, sp: u64) -> (r: Option<usize>)
        ensures
            match r {
                Some(i) => i < self.allowances@.len() && self.allowances@[i as int].owner == o
                    && self.allowances@[i as int].spender == sp,
                None => forall|j: int|
                    0 <= j < self.allowances@.len() ==> !(self.allowances@[j].owner == o
                        && self.allowances@[j].spender == sp),
            },
    {
        let mut i: usize = 0;
        while i < self.allowances.len()
            invariant
                i <= self.allowances@.len(),
                forall|j: int|
                    0 <= j < i ==> !(self.allowances@[j].owner == o && self.allowances@[j].spender
                        == sp),
            decreases self.allowances@.len() - i,
        {
            let e = self.allowances[i];
            if e.owner == o && e.spender == sp {
                return Some(i);
            }
            i = i + 1;
        }
        None
    }

    /// Write the allowance record for `(o, sp)`, overriding any earlier one.
    fn set_allowance(&mut self, o: u64, sp: u64, amount: i128, live_until: u32)
        requires
            old(self).wf(),
            amount >= 0,
        ensures
            final(self).wf(),
            final(self).name == old(self).name,
            final(self).symbol == old(self).symbol,
            final(self).decimals == old(self).decimals,
            final(self).owner == old(self).owner,
            final(self).ledger == old(self).ledger,
            final(self).total_supply == old(self).total_supply,
            forall|at: u32|
                final(self).allowance_of(o, sp, at) == (if live_until >= at {
                    amount as int
                } else {
                    0int
                }),
            forall|o2: u64, sp2: u64, at: u32|
                !(o2 == o && sp2 == sp) ==> final(self).allowance_of(o2, sp2, at) == old(
                    self,
                ).allowance_of(o2, sp2, at),
    {
        let ghost s0 = self.allowances@;
        match self.find_allowance(o, sp) {
            Some(i) => {
                self.allowances[i] = AllowanceEntry { owner: o, spender: sp, amount, live_until };
                proof {
                    assert forall|o2: u64, sp2: u64|
                        allow_in(self.allowances@, o2, sp2) == (if o2 == o && sp2 == sp {
                            Some(
                                (AllowanceEntry { owner: o, spender: sp, amount, live_until }),
                            )
                        } else {
                            allow_in(s0, o2, sp2)
                        }) by {
                        lemma_allow_update(s0, i as int, amount, live_until, o2, sp2);
                    }
                    assert forall|p: int, q: int|
                        0 <= p < q < self.allowances@.len() implies !(self.allowances@[p].owner
                        == self.allowances@[q].owner && self.allowances@[p].spender
                        == self.allowances@[q].spender) by {
                        assert(!(s0[p].owner == s0[q].owner && s0[p].spender == s0[q].spender));
                    }
                }
            },
            None => {
                let e = AllowanceEntry { owner: o, spender: sp, amount, live_until };
                self.allowances.push(e);
                proof {
                    assert forall|o2: u64, sp2: u64|
                        allow_in(self.allowances@, o2, sp2) == (if o2 == o && sp2 == sp {
                            Some(e)
                        } else {
                            allow_in(s0, o2, sp2)
                        }) by {
                        lemma_allow_push(s0, e, o2, sp2);
                    }
                }
            },
        }
    }

    /// Consume `amount` of the allowance `(from, spender)`, as the token
    /// standard does before a delegated transfer or burn.
    fn spend_allowance(
        &mut self,
        from: u64,
        spender: u64,
        amount: i128,
        current_ledger: u32,
    ) -> (r: Result<(), Error>)
        requires
            old(self).wf(),
        ensures
            final(self).wf(),
            final(self).name == old(self).name,
            final(self).symbol == old(self).symbol,
            final(self).decimals == old(self).decimals,
            final(self).owner == old(self).owner,
            final(self).ledger == old(self).ledger,
            final(self).total_supply == old(self).total_supply,
            (r is Ok) <==> 0 <= amount <= old(self).allowance_of(from, spender, current_ledger),
            r is Ok ==> (forall|at: u32|
                final(self).allowance_of(from, spender, at) == (if old(self).allowance_of(
                    from,
                    spender,
                    at,
                ) > 0 {
                    old(self).allowance_of(from, spender, at) - amount
                } else {
                    0int
                })) && (forall|o: u64, sp: u64, at: u32|
                !(o == from && sp == spender) ==> final(self).allowance_of(o, sp, at) == old(
                    self,
                ).allowance_of(o, sp, at)),
            r matches Err(e) ==> *final(self) == *old(self) && ((e == Error::NegativeAmount
                <==> amount < 0) && (e == Error::InsufficientAllowance <==> amount >= 0 && old(
                self,
            ).allowance_of(from, spender, current_ledger) < amount)),
    {
        if amount < 0 {
            return Err(Error::NegativeAmount);
        }
        let ghost s0 = self.allowances@;
        match self.find_allowance(from, spender) {
            Some(i) => {
                proof {
                    lemma_allow_found(s0, i as int);
                }
                let e = self.allowances[i];
                let effective: i128 = if e.live_until >= current_ledger {
                    e.amount
                } else {
                    0
                };
                if effective < amount {
                    return Err(Error::InsufficientAllowance);
                }
                if amount > 0 {
                    // A positive amount implies a live record, so the stored
                    // expiry carries over unchanged.
                    self.set_allowance(from, spender, effective - amount, e.live_until);
                }
                Ok(())
            },
            None => {
                proof {
                    lemma_allow_absent(s0, from, spender);
                }
                if amount > 0 {
                    return Err(Error::InsufficientAllowance);
                }
                Ok(())
            },
        }
    }
}

} // verus!
