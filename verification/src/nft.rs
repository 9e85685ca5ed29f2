//! The NFT collection contract: paid sequential minting against a supply
//! cap, owner-gated withdrawal of the collected fees, pausable transfers
//! and burns, and the standard ownership queries.
//!
//! Token identifiers are issued sequentially starting at one. The supply
//! counter counts every token ever minted and never decreases; a burn
//! removes the token but leaves the counter alone. Minting charges a fixed
//! fee in the native asset from the recipient to the contract before the
//! token is created; on the host platform a failure at any point unwinds
//! the whole transaction, fee included, and every error case here leaves
//! both the collection and the fee book unchanged.

use vstd::prelude::*;

use crate::errors::Error;
use crate::guards;
use crate::ledger::Ledger;

verus! {

/// The fee one mint charges, in stroops of the native asset
/// (one hundredth of one unit of the asset).
pub const MINT_COST: i128 = 100_000;

/// A live approval on one token: who may move it, and the last ledger
/// number at which the permission is alive.
#[derive(Clone, Copy, Debug)]
struct Approval {
    approved: u64,
    live_until: u32,
}

/// One token of the collection: its identifier, its holder, and the
/// approval on it, if any.
#[derive(Clone, Copy, Debug)]
struct NftEntry {
    token_id: u32,
    owner: u64,
    approval: Option<Approval>,
}

/// The token record with identifier `id`, if the token exists.
spec fn nft_in(s: Seq<NftEntry>, id: u32) -> Option<NftEntry>
    decreases s.len(),
{
    if s.len() == 0 {
        None
    } else if s.last().token_id == id {
        Some(s.last())
    } else {
        nft_in(s.drop_last(), id)
    }
}

/// How many tokens of `s` the account `o` holds.
spec fn count_of(s: Seq<NftEntry>, o: u64) -> int
    decreases s.len(),
{
    if s.len() == 0 {
        0
    } else {
        count_of(s.drop_last(), o) + (if s.last().owner == o {
            1int
        } else {
            0int
        })
    }
}

/// No identifier appears in two records.
spec fn ids_unique(s: Seq<NftEntry>) -> bool {
    forall|i: int, j: int| 0 <= i < j < s.len() ==> s[i].token_id != s[j].token_id
}

/// Every identifier was issued: between one and the supply counter.
spec fn ids_issued(s: Seq<NftEntry>, supply: u32) -> bool {
    forall|i: int| 0 <= i < s.len() ==> 1 <= #[trigger] s[i].token_id <= supply
}

/// Replacing the record at `i` with one whose identifier appears nowhere
/// else changes the lookups of the two identifiers involved and no other.
proof fn lemma_nft_replace(s: Seq<NftEntry>, i: int, e: NftEntry, id: u32)
    requires
        ids_unique(s),
        0 <= i < s.len(),
        forall|j: int| 0 <= j < s.len() && j != i ==> s[j].token_id != e.token_id,
    ensures
        nft_in(s.update(i, e), id) == (if id == e.token_id {
            Some(e)
        } else if id == s[i].token_id {
            None
        } else {
            nft_in(s, id)
        }),
    decreases s.len(),
{
    let t = s.update(i, e);
    if i == s.len() - 1 {
        assert(t.drop_last() =~= s.drop_last());
        if id != e.token_id && id == s[i].token_id {
            lemma_nft_absent(s.drop_last(), id);
        }
    } else {
        lemma_nft_replace(s.drop_last(), i, e, id);
        assert(t.drop_last() =~= s.drop_last().update(i, e));
        assert(t.last() == s.last());
    }
}

/// Replacing the record at `i` moves the holder counts by one token from
/// the old record's holder to the new one's.
proof fn lemma_count_update(s: Seq<NftEntry>, i: int, e: NftEntry, o: u64)
    requires
        0 <= i < s.len(),
    ensures
        count_of(s.update(i, e), o) == count_of(s, o) - (if s[i].owner == o {
            1int
        } else {
            0int
        }) + (if e.owner == o {
            1int
        } else {
            0int
        }),
    decreases s.len(),
{
    let t = s.update(i, e);
    if i == s.len() - 1 {
        assert(t.drop_last() =~= s.drop_last());
    } else {
        lemma_count_update(s.drop_last(), i, e, o);
        assert(t.drop_last() =~= s.drop_last().update(i, e));
        assert(t.last() == s.last());
    }
}

/// Appending a record adds one token for its holder and changes the lookup
/// of its identifier only.
proof fn lemma_nft_push(s: Seq<NftEntry>, e: NftEntry, id: u32, o: u64)
    ensures
        nft_in(s.push(e), id) == (if e.token_id == id {
            Some(e)
        } else {
            nft_in(s, id)
        }),
        count_of(s.push(e), o) == count_of(s, o) + (if e.owner == o {
            1int
        } else {
            0int
        }),
{
    assert(s.push(e).drop_last() =~= s);
}

/// An identifier that appears in no record has no token.
proof fn lemma_nft_absent(s: Seq<NftEntry>, id: u32)
    requires
        forall|j: int| 0 <= j < s.len() ==> s[j].token_id != id,
    ensures
        nft_in(s, id) is None,
    decreases s.len(),
{
    if s.len() > 0 {
        lemma_nft_absent(s.drop_last(), id);
    }
}

/// With unique identifiers, the lookup of the identifier at `i` finds
/// exactly that record.
proof fn lemma_nft_found(s: Seq<NftEntry>, i: int)
    requires
        ids_unique(s),
        0 <= i < s.len(),
    ensures
        nft_in(s, s[i].token_id) == Some(s[i]),
    decreases s.len(),
{
    if i < s.len() - 1 {
        lemma_nft_found(s.drop_last(), i);
    }
}

/// Every holder's count is at least zero and at most the number of records.
proof fn lemma_count_bounds(s: Seq<NftEntry>, o: u64)
    ensures
        0 <= count_of(s, o) <= s.len(),
    decreases s.len(),
{
    if s.len() > 0 {
        lemma_count_bounds(s.drop_last(), o);
    }
}

/// The NFT collection contract's state.
pub struct NonFungibleTokenContract {
    uri: String,
    name: String,
    symbol: String,
    owner: u64,
    contract_address: u64,
    native_asset: u64,
    max_supply: u32,
    supply: u32,
    tokens: Vec<NftEntry>,
    paused: bool,
}

impl NonFungibleTokenContract {
    /// The state is well formed: one record per identifier, every
    /// identifier issued by the sequential counter, no more records than
    /// the counter has issued, and the counter within a nonzero cap.
    pub closed spec fn wf(self) -> bool {
        &&& ids_unique(self.tokens@)
        &&& ids_issued(self.tokens@, self.supply)
        &&& self.tokens@.len() <= self.supply
        &&& self.max_supply > 0 ==> self.supply <= self.max_supply
    }

    /// The collection's metadata URI, as a sequence of characters.
    pub closed spec fn spec_uri(self) -> Seq<char> {
        self.uri@
    }

    /// The collection name, as a sequence of characters.
    pub closed spec fn spec_name(self) -> Seq<char> {
        self.name@
    }

    /// The collection symbol, as a sequence of characters.
    pub closed spec fn spec_symbol(self) -> Seq<char> {
        self.symbol@
    }

    /// The contract owner.
    pub closed spec fn spec_owner(self) -> u64 {
        self.owner
    }

    /// The contract's own address: where mint fees accumulate.
    pub closed spec fn spec_contract_address(self) -> u64 {
        self.contract_address
    }

    /// The native asset's contract address: what mint fees are paid in.
    pub closed spec fn spec_native_asset(self) -> u64 {
        self.native_asset
    }

    /// The supply cap; zero means unlimited.
    pub closed spec fn spec_max_supply(self) -> u32 {
        self.max_supply
    }

    /// How many tokens were ever minted. Burns do not decrease it.
    pub closed spec fn spec_supply(self) -> u32 {
        self.supply
    }

    /// Whether the contract is paused.
    pub closed spec fn spec_paused(self) -> bool {
        self.paused
    }

    /// The holder of token `id`, or `None` when no such token exists.
    pub closed spec fn owner_of_spec(self, id: u32) -> Option<u64> {
        match nft_in(self.tokens@, id) {
            Some(e) => Some(e.owner),
            None => None,
        }
    }

    /// Who may move token `id` at ledger number `at` besides its holder,
    /// if anyone.
    pub closed spec fn approved_of(self, id: u32, at: u32) -> Option<u64> {
        match nft_in(self.tokens@, id) {
            Some(e) => match e.approval {
                Some(ap) => if ap.live_until >= at {
                    Some(ap.approved)
                } else {
                    None
                },
                None => None,
            },
            None => None,
        }
    }

    /// How many tokens account `o` holds.
    pub closed spec fn nft_balance(self, o: u64) -> int {
        count_of(self.tokens@, o)
    }

    /// The deployment configuration of `a` is that of `b`: metadata, owner,
    /// addresses and cap.
    pub open spec fn same_config(a: NonFungibleTokenContract, b: NonFungibleTokenContract) -> bool {
        &&& a.spec_uri() == b.spec_uri()
        &&& a.spec_name() == b.spec_name()
        &&& a.spec_symbol() == b.spec_symbol()
        &&& a.spec_owner() == b.spec_owner()
        &&& a.spec_contract_address() == b.spec_contract_address()
        &&& a.spec_native_asset() == b.spec_native_asset()
        &&& a.spec_max_supply() == b.spec_max_supply()
    }

    /// Construction: fixed metadata, the given owner, the native asset the
    /// mint fee is paid in, the supply cap (zero for unlimited), and the
    /// address the contract is deployed at. No tokens exist yet and the
    /// contract starts unpaused.
    pub fn __constructor(
        owner: u64,
        native_asset_address: u64,
        max_supply: u32,
        contract_address: u64,
    ) -> (r: NonFungibleTokenContract)
        ensures
            r.wf(),
            r.spec_uri()
                == "https://gateway.pinata.cloud/ipfs/bafkreifdsya4dc3cgv7dwfq4az76apqkomgqlivxwbmjertxzvn2jsjc5q"@,
            r.spec_name() == "IRL Test Collection"@,
            r.spec_symbol() == "IRL001"@,
            r.spec_owner() == owner,
            r.spec_native_asset() == native_asset_address,
            r.spec_max_supply() == max_supply,
            r.spec_contract_address() == contract_address,
            r.spec_supply() == 0,
            !r.spec_paused(),
            forall|id: u32| r.owner_of_spec(id) is None,
            forall|id: u32, at: u32| r.approved_of(id, at) is None,
            forall|o: u64| r.nft_balance(o) == 0,
    {
        let r = NonFungibleTokenContract {
            uri: String::from_str(
                "https://gateway.pinata.cloud/ipfs/bafkreifdsya4dc3cgv7dwfq4az76apqkomgqlivxwbmjertxzvn2jsjc5q",
            ),
            name: String::from_str("IRL Test Collection"),
            symbol: String::from_str("IRL001"),
            owner,
            contract_address,
            native_asset: native_asset_address,
            max_supply,
            supply: 0,
            tokens: Vec::new(),
            paused: false,
        };
        proof {
            assert forall|id: u32| r.owner_of_spec(id) is None by {
                lemma_nft_absent(r.tokens@, id);
            }
            assert forall|id: u32, at: u32| r.approved_of(id, at) is None by {
                lemma_nft_absent(r.tokens@, id);
            }
        }
        r
    }

    /// The native asset's contract address, as set at construction.
    pub fn get_native_asset_address(&self) -> (r: u64)
        ensures
            r == self.spec_native_asset(),
    {
        self.native_asset
    }

    /// The supply cap, as set at construction; zero means unlimited.
    pub fn get_max_supply(&self) -> (r: u32)
        ensures
            r == self.spec_max_supply(),
    {
        self.max_supply
    }

    /// How many tokens were ever minted.
    pub fn get_current_supply(&self) -> (r: u32)
        ensures
            r == self.spec_supply(),
    {
        self.supply
    }

    /// Step the ever-minted counter after a successful mint.
    fn increment_supply(&mut self)
        requires
            old(self).supply < u32::MAX,
        ensures
            final(self).supply == old(self).supply + 1,
            final(self).tokens == old(self).tokens,
            final(self).uri == old(self).uri,
            final(self).name == old(self).name,
            final(self).symbol == old(self).symbol,
            final(self).owner == old(self).owner,
            final(self).contract_address == old(self).contract_address,
            final(self).native_asset == old(self).native_asset,
            final(self).max_supply == old(self).max_supply,
            final(self).paused == old(self).paused,
    {
        self.supply = self.supply + 1;
    }

    /// Mint the next token to `to` for the fixed fee, paid out of `to`'s
    /// native-asset balance into the contract's. `ledger` is the native
    /// asset's balance book; `to` has authorized the transaction. The new
    /// token's identifier is one past the previous supply counter.
    pub fn mint(&mut self, ledger: &mut Ledger, to: u64) -> (r: Result<u32, Error>)
        requires
            old(self).wf(),
            old(ledger).wf(),
        ensures
            final(self).wf(),
            final(ledger).wf(),
            Self::same_config(*final(self), *old(self)),
            final(self).spec_paused() == old(self).spec_paused(),
            (r is Ok) <==> to != old(self).spec_contract_address() && !(old(self).spec_max_supply()
                > 0 && old(self).spec_supply() >= old(self).spec_max_supply()) && old(
                self,
            ).spec_supply() < u32::MAX && old(ledger).balance_of(to) >= MINT_COST,
            r matches Ok(id) ==> id == old(self).spec_supply() + 1 && final(self).spec_supply()
                == old(self).spec_supply() + 1 && final(self).owner_of_spec(id) == Some(to) && (
            forall|i: u32| i != id ==> final(self).owner_of_spec(i) == old(self).owner_of_spec(i))
                && (forall|i: u32, at: u32|
                final(self).approved_of(i, at) == (if i == id {
                    None
                } else {
                    old(self).approved_of(i, at)
                })) && (forall|o: u64|
                final(self).nft_balance(o) == old(self).nft_balance(o) + (if o == to {
                    1int
                } else {
                    0int
                })) && (forall|x: u64|
                final(ledger).balance_of(x) == old(ledger).balance_of(x) - (if x == to {
                    MINT_COST as int
                } else {
                    0int
                }) + (if x == old(self).spec_contract_address() {
                    MINT_COST as int
                } else {
                    0int
                })) && final(ledger).total() == old(ledger).total(),
            r matches Err(e) ==> *final(self) == *old(self) && *final(ledger) == *old(ledger) && ((
            e == Error::SelfTarget <==> to == old(self).spec_contract_address()) && (e
                == Error::SupplyCapReached <==> to != old(self).spec_contract_address() && old(
                self,
            ).spec_max_supply() > 0 && old(self).spec_supply() >= old(self).spec_max_supply()) && (
            e == Error::Overflow <==> to != old(self).spec_contract_address() && !(old(
                self,
            ).spec_max_supply() > 0 && old(self).spec_supply() >= old(self).spec_max_supply())
                && old(self).spec_supply() == u32::MAX) && (e == Error::InsufficientBalance
                <==> to != old(self).spec_contract_address() && !(old(self).spec_max_supply() > 0
                && old(self).spec_supply() >= old(self).spec_max_supply()) && old(
                self,
            ).spec_supply() < u32::MAX && old(ledger).balance_of(to) < MINT_COST)),
    {
        if to == self.contract_address {
            return Err(Error::SelfTarget);
        }
        let token_id = match guards::next_token_id(self.supply, self.max_supply) {
            Ok(id) => id,
            Err(e) => {
                return Err(e);
            },
        };
        match ledger.transfer(to, self.contract_address, MINT_COST) {
            Ok(()) => {},
            Err(e) => {
                assert(e == Error::InsufficientBalance);
                return Err(e);
            },
        }
        let ghost s0 = self.tokens@;
        let e = NftEntry { token_id, owner: to, approval: None };
        self.tokens.push(e);
        self.increment_supply();
        proof {
            lemma_nft_absent(s0, token_id);
            assert forall|i: u32| i != token_id implies self.owner_of_spec(i) == old(
                self,
            ).owner_of_spec(i) by {
                lemma_nft_push(s0, e, i, 0);
            }
            assert forall|i: u32, at: u32|
                #[trigger] self.approved_of(i, at) == (if i == token_id {
                    None
                } else {
                    old(self).approved_of(i, at)
                }) by {
                lemma_nft_push(s0, e, i, 0);
            }
            assert forall|o: u64|
                #[trigger] self.nft_balance(o) == old(self).nft_balance(o) + (if o == to {
                    1int
                } else {
                    0int
                }) by {
                lemma_nft_push(s0, e, token_id, o);
            }
            lemma_nft_push(s0, e, token_id, to);
        }
        Ok(token_id)
    }

    /// Owner-gated withdrawal of collected mint fees: move `amount` of the
    /// native asset — or the contract's whole balance when no amount is
    /// given — from the contract to the owner. `ledger` is the native
    /// asset's balance book; `caller` is the address whose authorization
    /// the transaction carries. Returns the amount withdrawn.
    pub fn withdraw(&self, ledger: &mut Ledger, caller: u64, amount: Option<i128>) -> (r: Result<
        i128,
        Error,
    >)
        requires
            old(ledger).wf(),
        ensures
            final(ledger).wf(),
            (r is Ok) <==> caller == self.spec_owner() && (match amount {
                Some(a) => 0 < a <= old(ledger).balance_of(self.spec_contract_address()),
                None => true,
            }),
            r matches Ok(w) ==> w == (match amount {
                Some(a) => a as int,
                None => old(ledger).balance_of(self.spec_contract_address()),
            }) && (forall|x: u64|
                final(ledger).balance_of(x) == old(ledger).balance_of(x) - (if x
                    == self.spec_contract_address() {
                    w as int
                } else {
                    0int
                }) + (if x == self.spec_owner() {
                    w as int
                } else {
                    0int
                })) && final(ledger).total() == old(ledger).total(),
            r matches Err(e) ==> *final(ledger) == *old(ledger) && ((e == Error::Unauthorized
                <==> caller != self.spec_owner()) && (e == Error::NonPositiveAmount <==> caller
                == self.spec_owner() && (amount matches Some(a) && a <= 0)) && (e
                == Error::InsufficientBalance <==> caller == self.spec_owner() && (amount matches
            Some(a) && a > 0 && a as int > old(ledger).balance_of(self.spec_contract_address())))),
    {
        if caller != self.owner {
            return Err(Error::Unauthorized);
        }
        let held = ledger.balance(self.contract_address);
        let withdraw_amount: i128 = match guards::withdraw_amount(amount, held) {
            Ok(w) => w,
            Err(e) => {
                return Err(e);
            },
        };
        let moved = ledger.transfer(self.contract_address, self.owner, withdraw_amount);
        assert(moved is Ok);
        Ok(withdraw_amount)
    }

    /// Move token `token_id` from its holder `from` to `to`. `from` is the
    /// authenticated party. Unavailable while paused; clears any approval
    /// on the token.
    pub fn transfer(&mut self, from: u64, to: u64, token_id: u32) -> (r: Result<(), Error>)
        requires
            old(self).wf(),
        ensures
            final(self).wf(),
            Self::same_config(*final(self), *old(self)),
            final(self).spec_paused() == old(self).spec_paused(),
            final(self).spec_supply() == old(self).spec_supply(),
            (r is Ok) <==> !old(self).spec_paused() && old(self).owner_of_spec(token_id) == Some(
                from,
            ),
            r is Ok ==> final(self).owner_of_spec(token_id) == Some(to) && (forall|i: u32|
                i != token_id ==> final(self).owner_of_spec(i) == old(self).owner_of_spec(i)) && (
            forall|i: u32, at: u32|
                final(self).approved_of(i, at) == (if i == token_id {
                    None
                } else {
                    old(self).approved_of(i, at)
                })) && (forall|o: u64|
                final(self).nft_balance(o) == old(self).nft_balance(o) - (if o == from {
                    1int
                } else {
                    0int
                }) + (if o == to {
                    1int
                } else {
                    0int
                })),
            r matches Err(e) ==> *final(self) == *old(self) && ((e == Error::Paused <==> old(
                self,
            ).spec_paused()) && (e == Error::NonexistentToken <==> !old(self).spec_paused() && old(
                self,
            ).owner_of_spec(token_id) is None) && (e == Error::IncorrectOwner <==> !old(
                self,
            ).spec_paused() && (old(self).owner_of_spec(token_id) matches Some(h) && h != from))),
    {
        if self.paused {
            return Err(Error::Paused);
        }
        self.update_holder(from, to, token_id)
    }

    /// Move token `token_id` from `from` to `to` on `spender`'s
    /// authorization: the spender must be the holder or hold a live
    /// approval on the token at ledger number `current_ledger`.
    pub fn transfer_from(
        &mut self,
        spender: u64,
        from: u64,
        to: u64,
        token_id: u32,
        current_ledger: u32,
    ) -> (r: Result<(), Error>)
        requires
            old(self).wf(),
        ensures
            final(self).wf(),
            Self::same_config(*final(self), *old(self)),
            final(self).spec_paused() == old(self).spec_paused(),
            final(self).spec_supply() == old(self).spec_supply(),
            (r is Ok) <==> !old(self).spec_paused() && (spender == from || old(self).approved_of(
                token_id,
                current_ledger,
            ) == Some(spender)) && old(self).owner_of_spec(token_id) == Some(from),
            r is Ok ==> final(self).owner_of_spec(token_id) == Some(to) && (forall|i: u32|
                i != token_id ==> final(self).owner_of_spec(i) == old(self).owner_of_spec(i)) && (
            forall|i: u32, at: u32|
                final(self).approved_of(i, at) == (if i == token_id {
                    None
                } else {
                    old(self).approved_of(i, at)
                })) && (forall|o: u64|
                final(self).nft_balance(o) == old(self).nft_balance(o) - (if o == from {
                    1int
                } else {
                    0int
                }) + (if o == to {
                    1int
                } else {
                    0int
                })),
            r matches Err(e) ==> *final(self) == *old(self) && ((e == Error::Paused <==> old(
                self,
            ).spec_paused()) && (e == Error::InsufficientApproval <==> !old(self).spec_paused()
                && !(spender == from || old(self).approved_of(token_id, current_ledger) == Some(
                spender,
            ))) && (e == Error::NonexistentToken <==> !old(self).spec_paused() && (spender == from
                || old(self).approved_of(token_id, current_ledger) == Some(spender)) && old(
                self,
            ).owner_of_spec(token_id) is None) && (e == Error::IncorrectOwner <==> !old(
                self,
            ).spec_paused() && (spender == from || old(self).approved_of(token_id, current_ledger)
                == Some(spender)) && (old(self).owner_of_spec(token_id) matches Some(h) && h
                != from))),
    {
        if self.paused {
            return Err(Error::Paused);
        }
        if !(spender == from || self.is_approved(spender, token_id, current_ledger)) {
            return Err(Error::InsufficientApproval);
        }
        self.update_holder(from, to, token_id)
    }

    /// How many tokens `owner` holds. Unavailable while paused.
    pub fn balance(&self, owner: u64) -> (r: Result<u32, Error>)
        requires
            self.wf(),
        ensures
            (r is Ok) <==> !self.spec_paused(),
            r matches Ok(n) ==> n as int == self.nft_balance(owner),
            r matches Err(e) ==> e == Error::Paused,
    {
        if self.paused {
            return Err(Error::Paused);
        }
        proof {
            lemma_count_bounds(self.tokens@, owner);
        }
        let mut n: u32 = 0;
        let mut i: usize = 0;
        while i < self.tokens.len()
            invariant
                self.wf(),
                i <= self.tokens@.len(),
                n as int == count_of(self.tokens@.take(i as int), owner),
                n as int <= i,
            decreases self.tokens@.len() - i,
        {
            proof {
                assert(self.tokens@.take(i + 1).drop_last() =~= self.tokens@.take(i as int));
                assert(self.tokens@.take(i + 1).last() == self.tokens@[i as int]);
            }
            if self.tokens[i].owner == owner {
                n = n + 1;
            }
            i = i + 1;
        }
        proof {
            assert(self.tokens@.take(self.tokens@.len() as int) =~= self.tokens@);
        }
        Ok(n)
    }

    /// The holder of token `token_id`. Unavailable while paused; asking
    /// about a token that does not exist is an error.
    pub fn owner_of(&self, token_id: u32) -> (r: Result<u64, Error>)
        requires
            self.wf(),
        ensures
            (r is Ok) <==> !self.spec_paused() && self.owner_of_spec(token_id) is Some,
            r matches Ok(h) ==> self.owner_of_spec(token_id) == Some(h),
            r matches Err(e) ==> (e == Error::Paused <==> self.spec_paused()) && (e
                == Error::NonexistentToken <==> !self.spec_paused() && self.owner_of_spec(token_id)
                is None),
    {
        if self.paused {
            return Err(Error::Paused);
        }
        match self.find_token(token_id) {
            Some(i) => {
                proof {
                    lemma_nft_found(self.tokens@, i as int);
                }
                Ok(self.tokens[i].owner)
            },
            None => {
                proof {
                    lemma_nft_absent(self.tokens@, token_id);
                }
                Err(Error::NonexistentToken)
            },
        }
    }

    /// Destroy token `token_id`, held by `from`. `from` is the
    /// authenticated party. Unavailable while paused. The supply counter
    /// counts tokens ever minted and does not decrease.
    pub fn burn(&mut self, from: u64, token_id: u32) -> (r: Result<(), Error>)
        requires
            old(self).wf(),
        ensures
            final(self).wf(),
            Self::same_config(*final(self), *old(self)),
            final(self).spec_paused() == old(self).spec_paused(),
            final(self).spec_supply() == old(self).spec_supply(),
            (r is Ok) <==> !old(self).spec_paused() && old(self).owner_of_spec(token_id) == Some(
                from,
            ),
            r is Ok ==> final(self).owner_of_spec(token_id) is None && (forall|i: u32|
                i != token_id ==> final(self).owner_of_spec(i) == old(self).owner_of_spec(i)) && (
            forall|i: u32, at: u32|
                final(self).approved_of(i, at) == (if i == token_id {
                    None
                } else {
                    old(self).approved_of(i, at)
                })) && (forall|o: u64|
                final(self).nft_balance(o) == old(self).nft_balance(o) - (if o == from {
                    1int
                } else {
                    0int
                })),
            r matches Err(e) ==> *final(self) == *old(self) && ((e == Error::Paused <==> old(
                self,
            ).spec_paused()) && (e == Error::NonexistentToken <==> !old(self).spec_paused() && old(
                self,
            ).owner_of_spec(token_id) is None) && (e == Error::IncorrectOwner <==> !old(
                self,
            ).spec_paused() && (old(self).owner_of_spec(token_id) matches Some(h) && h != from))),
    {
        if self.paused {
            return Err(Error::Paused);
        }
        self.remove_token(from, token_id)
    }

    /// Destroy token `token_id`, held by `from`, on `spender`'s
    /// authorization: the spender must be the holder or hold a live
    /// approval on the token at ledger number `current_ledger`.
    pub fn burn_from(
        &mut self,
        spender: u64,
        from: u64,
        token_id: u32,
        current_ledger: u32,
    ) -> (r: Result<(), Error>)
        requires
            old(self).wf(),
        ensures
            final(self).wf(),
            Self::same_config(*final(self), *old(self)),
            final(self).spec_paused() == old(self).spec_paused(),
            final(self).spec_supply() == old(self).spec_supply(),
            (r is Ok) <==> !old(self).spec_paused() && (spender == from || old(self).approved_of(
                token_id,
                current_ledger,
            ) == Some(spender)) && old(self).owner_of_spec(token_id) == Some(from),
            r is Ok ==> final(self).owner_of_spec(token_id) is None && (forall|i: u32|
                i != token_id ==> final(self).owner_of_spec(i) == old(self).owner_of_spec(i)) && (
            forall|i: u32, at: u32|
                final(self).approved_of(i, at) == (if i == token_id {
                    None
                } else {
                    old(self).approved_of(i, at)
                })) && (forall|o: u64|
                final(self).nft_balance(o) == old(self).nft_balance(o) - (if o == from {
                    1int
                } else {
                    0int
                })),
            r matches Err(e) ==> *final(self) == *old(self) && ((e == Error::Paused <==> old(
                self,
            ).spec_paused()) && (e == Error::InsufficientApproval <==> !old(self).spec_paused()
                && !(spender == from || old(self).approved_of(token_id, current_ledger) == Some(
                spender,
            ))) && (e == Error::NonexistentToken <==> !old(self).spec_paused() && (spender == from
                || old(self).approved_of(token_id, current_ledger) == Some(spender)) && old(
                self,
            ).owner_of_spec(token_id) is None) && (e == Error::IncorrectOwner <==> !old(
                self,
            ).spec_paused() && (spender == from || old(self).approved_of(token_id, current_ledger)
                == Some(spender)) && (old(self).owner_of_spec(token_id) matches Some(h) && h
                != from))),
    {
        if self.paused {
            return Err(Error::Paused);
        }
        if !(spender == from || self.is_approved(spender, token_id, current_ledger)) {
            return Err(Error::InsufficientApproval);
        }
        self.remove_token(from, token_id)
    }

    /// Let `approved` move token `token_id` until ledger number
    /// `live_until_ledger`; zero revokes. `approver` must be the token's
    /// holder and is the authenticated party.
    pub fn approve(
        &mut self,
        approver: u64,
        approved: u64,
        token_id: u32,
        live_until_ledger: u32,
        current_ledger: u32,
    ) -> (r: Result<(), Error>)
        requires
            old(self).wf(),
        ensures
            final(self).wf(),
            Self::same_config(*final(self), *old(self)),
            final(self).spec_paused() == old(self).spec_paused(),
            final(self).spec_supply() == old(self).spec_supply(),
            (r is Ok) <==> old(self).owner_of_spec(token_id) == Some(approver) && (
            live_until_ledger == 0 || live_until_ledger >= current_ledger),
            r is Ok ==> (forall|i: u32| final(self).owner_of_spec(i) == old(self).owner_of_spec(i))
                && (forall|o: u64| final(self).nft_balance(o) == old(self).nft_balance(o)) && (
            forall|i: u32, at: u32|
                final(self).approved_of(i, at) == (if i == token_id {
                    if live_until_ledger != 0 && live_until_ledger >= at {
                        Some(approved)
                    } else {
                        None
                    }
                } else {
                    old(self).approved_of(i, at)
                })),
            r matches Err(e) ==> *final(self) == *old(self) && ((e == Error::NonexistentToken
                <==> old(self).owner_of_spec(token_id) is None) && (e == Error::InvalidApprover
                <==> (old(self).owner_of_spec(token_id) matches Some(h) && h != approver)) && (e
                == Error::InvalidExpiration <==> old(self).owner_of_spec(token_id) == Some(
                approver,
            ) && live_until_ledger != 0 && live_until_ledger < current_ledger)),
    {
        let ghost s0 = self.tokens@;
        match self.find_token(token_id) {
            Some(i) => {
                proof {
                    lemma_nft_found(s0, i as int);
                }
                let holder = self.tokens[i].owner;
                if holder != approver {
                    return Err(Error::InvalidApprover);
                }
                let approval: Option<Approval> = if live_until_ledger == 0 {
                    None
                } else {
                    if live_until_ledger < current_ledger {
                        return Err(Error::InvalidExpiration);
                    }
                    Some(Approval { approved, live_until: live_until_ledger })
                };
                let e = NftEntry { token_id, owner: holder, approval };
                self.tokens[i] = e;
                proof {
                    assert forall|id: u32| #[trigger]
                        self.owner_of_spec(id) == old(self).owner_of_spec(id) by {
                        lemma_nft_replace(s0, i as int, e, id);
                    }
                    assert forall|id: u32, at: u32|
                        #[trigger] self.approved_of(id, at) == (if id == token_id {
                            if live_until_ledger != 0 && live_until_ledger >= at {
                                Some(approved)
                            } else {
                                None
                            }
                        } else {
                            old(self).approved_of(id, at)
                        }) by {
                        lemma_nft_replace(s0, i as int, e, id);
                    }
                    assert forall|o: u64| #[trigger]
                        self.nft_balance(o) == old(self).nft_balance(o) by {
                        lemma_count_update(s0, i as int, e, o);
                    }
                    assert forall|p: int, q: int|
                        0 <= p < q < self.tokens@.len() implies self.tokens@[p].token_id
                        != self.tokens@[q].token_id by {
                        assert(s0[p].token_id != s0[q].token_id);
                    }
                }
                Ok(())
            },
            None => {
                proof {
                    lemma_nft_absent(s0, token_id);
                }
                Err(Error::NonexistentToken)
            },
        }
    }

    /// Whether the contract is paused.
    pub fn paused(&self) -> (r: bool)
        ensures
            r == self.spec_paused(),
    {
        self.paused
    }

    /// Owner-gated: stop transfers, burns and queries. Fails when the
    /// transaction does not carry the owner's authorization or the contract
    /// is already paused.
    pub fn pause(&mut self, caller: u64) -> (r: Result<(), Error>)
        requires
            old(self).wf(),
        ensures
            final(self).wf(),
            (r is Ok) <==> caller == old(self).spec_owner() && !old(self).spec_paused(),
            r is Ok ==> final(self).spec_paused() && Self::same_config(*final(self), *old(self))
                && final(self).spec_supply() == old(self).spec_supply() && (forall|i: u32|
                final(self).owner_of_spec(i) == old(self).owner_of_spec(i)) && (forall|
                i: u32,
                at: u32,
            |
                final(self).approved_of(i, at) == old(self).approved_of(i, at)) && (forall|o: u64|
                final(self).nft_balance(o) == old(self).nft_balance(o)),
            r matches Err(e) ==> *final(self) == *old(self) && ((e == Error::Unauthorized
                <==> caller != old(self).spec_owner()) && (e == Error::Paused <==> caller == old(
                self,
            ).spec_owner() && old(self).spec_paused())),
    {
        if caller != self.owner {
            return Err(Error::Unauthorized);
        }
        if self.paused {
            return Err(Error::Paused);
        }
        self.paused = true;
        Ok(())
    }

    /// Owner-gated: resume after a pause. Fails when the transaction does
    /// not carry the owner's authorization or the contract is not paused.
    pub fn unpause(&mut self, caller: u64) -> (r: Result<(), Error>)
        requires
            old(self).wf(),
        ensures
            final(self).wf(),
            (r is Ok) <==> caller == old(self).spec_owner() && old(self).spec_paused(),
            r is Ok ==> !final(self).spec_paused() && Self::same_config(*final(self), *old(self))
                && final(self).spec_supply() == old(self).spec_supply() && (forall|i: u32|
                final(self).owner_of_spec(i) == old(self).owner_of_spec(i)) && (forall|
                i: u32,
                at: u32,
            |
                final(self).approved_of(i, at) == old(self).approved_of(i, at)) && (forall|o: u64|
                final(self).nft_balance(o) == old(self).nft_balance(o)),
            r matches Err(e) ==> *final(self) == *old(self) && ((e == Error::Unauthorized
                <==> caller != old(self).spec_owner()) && (e == Error::NotPaused <==> caller
                == old(self).spec_owner() && !old(self).spec_paused())),
    {
        if caller != self.owner {
            return Err(Error::Unauthorized);
        }
        if !self.paused {
            return Err(Error::NotPaused);
        }
        self.paused = false;
        Ok(())
    }

    /// The position of token `id`'s record, if the token exists.
    fn find_token(&self, id: u32) -> (r: Option<usize>)
        ensures
            match r {
                Some(i) => i < self.tokens@.len() && self.tokens@[i as int].token_id == id,
                None => forall|j: int| 0 <= j < self.tokens@.len() ==> self.tokens@[j].token_id != id,
            },
    {
        let mut i: usize = 0;
        while i < self.tokens.len()
            invariant
                i <= self.tokens@.len(),
                forall|j: int| 0 <= j < i ==> self.tokens@[j].token_id != id,
            decreases self.tokens@.len() - i,
        {
            if self.tokens[i].token_id == id {
                return Some(i);
            }
            i = i + 1;
        }
        None
    }

    /// Whether `spender` holds a live approval on token `token_id` at
    /// ledger number `at`.
    fn is_approved(&self, spender: u64, token_id: u32, at: u32) -> (r: bool)
        requires
            self.wf(),
        ensures
            r == (self.approved_of(token_id, at) == Some(spender)),
    {
        match self.find_token(token_id) {
            Some(i) => {
                proof {
                    lemma_nft_found(self.tokens@, i as int);
                }
                match self.tokens[i].approval {
                    Some(ap) => ap.live_until >= at && ap.approved == spender,
                    None => false,
                }
            },
            None => {
                proof {
                    lemma_nft_absent(self.tokens@, token_id);
                }
                false
            },
        }
    }

    /// The shared effect of a transfer: hand the token to `to` and clear
    /// the approval on it. Fails when the token does not exist or `from`
    /// does not hold it.
    fn update_holder(&mut self, from: u64, to: u64, token_id: u32) -> (r: Result<(), Error>)
        requires
            old(self).wf(),
            !old(self).spec_paused(),
        ensures
            final(self).wf(),
            Self::same_config(*final(self), *old(self)),
            final(self).spec_paused() == old(self).spec_paused(),
            final(self).spec_supply() == old(self).spec_supply(),
            (r is Ok) <==> old(self).owner_of_spec(token_id) == Some(from),
            r is Ok ==> final(self).owner_of_spec(token_id) == Some(to) && (forall|i: u32|
                i != token_id ==> final(self).owner_of_spec(i) == old(self).owner_of_spec(i)) && (
            forall|i: u32, at: u32|
                final(self).approved_of(i, at) == (if i == token_id {
                    None
                } else {
                    old(self).approved_of(i, at)
                })) && (forall|o: u64|
                final(self).nft_balance(o) == old(self).nft_balance(o) - (if o == from {
                    1int
                } else {
                    0int
                }) + (if o == to {
                    1int
                } else {
                    0int
                })),
            r matches Err(e) ==> *final(self) == *old(self) && ((e == Error::NonexistentToken
                <==> old(self).owner_of_spec(token_id) is None) && (e == Error::IncorrectOwner
                <==> (old(self).owner_of_spec(token_id) matches Some(h) && h != from))),
    {
        let ghost s0 = self.tokens@;
        match self.find_token(token_id) {
            Some(i) => {
                proof {
                    lemma_nft_found(s0, i as int);
                }
                if self.tokens[i].owner != from {
                    return Err(Error::IncorrectOwner);
                }
                let e = NftEntry { token_id, owner: to, approval: None };
                self.tokens[i] = e;
                proof {
                    assert forall|id: u32|
                        id != token_id implies #[trigger] self.owner_of_spec(id) == old(
                        self,
                    ).owner_of_spec(id) by {
                        lemma_nft_replace(s0, i as int, e, id);
                    }
                    lemma_nft_replace(s0, i as int, e, token_id);
                    assert forall|id: u32, at: u32|
                        #[trigger] self.approved_of(id, at) == (if id == token_id {
                            None
                        } else {
                            old(self).approved_of(id, at)
                        }) by {
                        lemma_nft_replace(s0, i as int, e, id);
                    }
                    assert forall|o: u64|
                        #[trigger] self.nft_balance(o) == old(self).nft_balance(o) - (if o == from {
                            1int
                        } else {
                            0int
                        }) + (if o == to {
                            1int
                        } else {
                            0int
                        }) by {
                        lemma_count_update(s0, i as int, e, o);
                    }
                    assert forall|p: int, q: int|
                        0 <= p < q < self.tokens@.len() implies self.tokens@[p].token_id
                        != self.tokens@[q].token_id by {
                        assert(s0[p].token_id != s0[q].token_id);
                    }
                }
                Ok(())
            },
            None => {
                proof {
                    lemma_nft_absent(s0, token_id);
                }
                Err(Error::NonexistentToken)
            },
        }
    }

    /// The shared effect of a burn: remove the token's record. Fails when
    /// the token does not exist or `from` does not hold it.
    fn remove_token(&mut self, from: u64, token_id: u32) -> (r: Result<(), Error>)
        requires
            old(self).wf(),
            !old(self).spec_paused(),
        ensures
            final(self).wf(),
            Self::same_config(*final(self), *old(self)),
            final(self).spec_paused() == old(self).spec_paused(),
            final(self).spec_supply() == old(self).spec_supply(),
            (r is Ok) <==> old(self).owner_of_spec(token_id) == Some(from),
            r is Ok ==> final(self).owner_of_spec(token_id) is None && (forall|i: u32|
                i != token_id ==> final(self).owner_of_spec(i) == old(self).owner_of_spec(i)) && (
            forall|i: u32, at: u32|
                final(self).approved_of(i, at) == (if i == token_id {
                    None
                } else {
                    old(self).approved_of(i, at)
                })) && (forall|o: u64|
                final(self).nft_balance(o) == old(self).nft_balance(o) - (if o == from {
                    1int
                } else {
                    0int
                })),
            r matches Err(e) ==> *final(self) == *old(self) && ((e == Error::NonexistentToken
                <==> old(self).owner_of_spec(token_id) is None) && (e == Error::IncorrectOwner
                <==> (old(self).owner_of_spec(token_id) matches Some(h) && h != from))),
    {
        let ghost s0 = self.tokens@;
        match self.find_token(token_id) {
            Some(i) => {
                proof {
                    lemma_nft_found(s0, i as int);
                }
                if self.tokens[i].owner != from {
                    return Err(Error::IncorrectOwner);
                }
                let _removed = self.tokens.swap_remove(i);
                proof {
                    let last = s0.last();
                    assert(self.tokens@ =~= s0.update(i as int, last).drop_last());
                    if i as int == s0.len() - 1 {
                        assert(self.tokens@ =~= s0.drop_last());
                        assert forall|id: u32|
                            id != token_id implies #[trigger] self.owner_of_spec(id) == old(
                            self,
                        ).owner_of_spec(id) by {}
                        lemma_nft_absent(self.tokens@, token_id);
                        assert forall|o: u64|
                            #[trigger] self.nft_balance(o) == old(self).nft_balance(o) - (if o
                                == from {
                                1int
                            } else {
                                0int
                            }) by {}
                    } else {
                        let u = s0.drop_last();
                        assert(self.tokens@ =~= u.update(i as int, last));
                        assert forall|id: u32|
                            id != token_id implies #[trigger] self.owner_of_spec(id) == old(
                            self,
                        ).owner_of_spec(id) by {
                            lemma_nft_replace(u, i as int, last, id);
                        }
                        lemma_nft_replace(u, i as int, last, token_id);
                        assert forall|o: u64|
                            #[trigger] self.nft_balance(o) == old(self).nft_balance(o) - (if o
                                == from {
                                1int
                            } else {
                                0int
                            }) by {
                            lemma_count_update(u, i as int, last, o);
                        }
                    }
                    assert forall|id: u32, at: u32|
                        #[trigger] self.approved_of(id, at) == (if id == token_id {
                            None
                        } else {
                            old(self).approved_of(id, at)
                        }) by {
                        if id != token_id {
                            assert(self.owner_of_spec(id) == old(self).owner_of_spec(id));
                            if i as int == s0.len() - 1 {
                            } else {
                                lemma_nft_replace(s0.drop_last(), i as int, s0.last(), id);
                            }
                        }
                    }
                    assert forall|p: int, q: int|
                        0 <= p < q < self.tokens@.len() implies self.tokens@[p].token_id
                        != self.tokens@[q].token_id by {}
                }
                Ok(())
            },
            None => {
                proof {
                    lemma_nft_absent(s0, token_id);
                }
                Err(Error::NonexistentToken)
            },
        }
    }
}

} // verus!
