//! The payment forwarder contract: entry points that move funds out of the
//! contract's own balance to a caller-named recipient.
//!
//! `send`, `transfer` and `pay` forward the native asset; `send_token` and
//! `send_with_native_address` forward an asset named by the caller. The
//! forwarded asset's balance book is handed in explicitly; the contract
//! validates the request — the recipient is not the contract itself, the
//! amount is strictly positive, the contract is funded and holds enough —
//! and performs exactly one transfer, or fails leaving the book unchanged.

use vstd::prelude::*;

use crate::errors::Error;
use crate::guards;
use crate::ledger::Ledger;

verus! {

/// The payment forwarder contract's state: its own address and the address
/// of the native asset it forwards by default. Both are fixed when the
/// contract is deployed; the native asset's address is a constant of the
/// network.
pub struct SimplePayment {
    contract_address: u64,
    native_asset: u64,
}

impl SimplePayment {
    /// The contract's own address on the ledger.
    pub closed spec fn spec_contract_address(self) -> u64 {
        self.contract_address
    }

    /// The native asset's contract address.
    pub closed spec fn spec_native_asset(self) -> u64 {
        self.native_asset
    }

    /// A forward of `amount` to `recipient` is acceptable on a book where
    /// the contract holds `held`: the recipient is someone else, the amount
    /// strictly positive, and the holding funded and sufficient.
    pub open spec fn forward_ok(self, recipient: u64, amount: i128, held: int) -> bool {
        &&& recipient != self.spec_contract_address()
        &&& amount > 0
        &&& held > 0
        &&& amount as int <= held
    }

    /// Deployment: the address the contract lives at, and the network's
    /// native asset address.
    pub fn new(contract_address: u64, native_asset: u64) -> (r: SimplePayment)
        ensures
            r.spec_contract_address() == contract_address,
            r.spec_native_asset() == native_asset,
    {
        SimplePayment { contract_address, native_asset }
    }

    /// The native asset's contract address.
    pub fn get_native_asset_address(&self) -> (r: u64)
        ensures
            r == self.spec_native_asset(),
    {
        self.native_asset
    }

    /// Send `amount` of the native asset from the contract's balance to
    /// `recipient`. `ledger` is the native asset's balance book.
    pub fn send(&self, ledger: &mut Ledger, recipient: u64, amount: i128) -> (r: Result<
        bool,
        Error,
    >)
        requires
            old(ledger).wf(),
        ensures
            final(ledger).wf(),
            (r is Ok) <==> self.forward_ok(
                recipient,
                amount,
                old(ledger).balance_of(self.spec_contract_address()),
            ),
            r matches Ok(b) ==> b == true && (forall|x: u64|
                final(ledger).balance_of(x) == old(ledger).balance_of(x) - (if x
                    == self.spec_contract_address() {
                    amount as int
                } else {
                    0int
                }) + (if x == recipient {
                    amount as int
                } else {
                    0int
                })) && final(ledger).total() == old(ledger).total(),
            r matches Err(e) ==> *final(ledger) == *old(ledger) && ((e == Error::SelfTarget
                <==> recipient == self.spec_contract_address()) && (e == Error::NonPositiveAmount
                <==> recipient != self.spec_contract_address() && amount <= 0) && (e
                == Error::Unfunded <==> recipient != self.spec_contract_address() && amount > 0
                && old(ledger).balance_of(self.spec_contract_address()) == 0) && (e
                == Error::InsufficientBalance <==> recipient != self.spec_contract_address()
                && amount > 0 && 0 < old(ledger).balance_of(self.spec_contract_address())
                < amount)),
    {
        if recipient == self.contract_address {
            return Err(Error::SelfTarget);
        }
        let held = ledger.balance(self.contract_address);
        match guards::forward_amount(held, amount) {
            Ok(()) => {},
            Err(e) => {
                return Err(e);
            },
        }
        let moved = ledger.transfer(self.contract_address, recipient, amount);
        assert(moved is Ok);
        Ok(true)
    }

    /// Send `amount` of the asset at `native_asset_address` — named
    /// explicitly so the contract works on any network — from the contract's
    /// balance to `recipient`. `ledger` is that asset's balance book.
    pub fn send_with_native_address(
        &self,
        ledger: &mut Ledger,
        native_asset_address: u64,
        recipient: u64,
        amount: i128,
    ) -> (r: Result<bool, Error>)
        requires
            old(ledger).wf(),
        ensures
            final(ledger).wf(),
            (r is Ok) <==> native_asset_address != self.spec_contract_address()
                && self.forward_ok(
                recipient,
                amount,
                old(ledger).balance_of(self.spec_contract_address()),
            ),
            r matches Ok(b) ==> b == true && (forall|x: u64|
                final(ledger).balance_of(x) == old(ledger).balance_of(x) - (if x
                    == self.spec_contract_address() {
                    amount as int
                } else {
                    0int
                }) + (if x == recipient {
                    amount as int
                } else {
                    0int
                })) && final(ledger).total() == old(ledger).total(),
            r matches Err(e) ==> *final(ledger) == *old(ledger) && ((e == Error::SelfTarget
                <==> recipient == self.spec_contract_address()) && (e == Error::InvalidAsset
                <==> recipient != self.spec_contract_address() && native_asset_address
                == self.spec_contract_address()) && (e == Error::NonPositiveAmount <==> recipient
                != self.spec_contract_address() && native_asset_address
                != self.spec_contract_address() && amount <= 0) && (e == Error::Unfunded
                <==> recipient != self.spec_contract_address() && native_asset_address
                != self.spec_contract_address() && amount > 0 && old(ledger).balance_of(
                self.spec_contract_address(),
            ) == 0) && (e == Error::InsufficientBalance <==> recipient
                != self.spec_contract_address() && native_asset_address
                != self.spec_contract_address() && amount > 0 && 0 < old(ledger).balance_of(
                self.spec_contract_address(),
            ) < amount)),
    {
        if recipient == self.contract_address {
            return Err(Error::SelfTarget);
        }
        if native_asset_address == self.contract_address {
            return Err(Error::InvalidAsset);
        }
        let held = ledger.balance(self.contract_address);
        match guards::forward_amount(held, amount) {
            Ok(()) => {},
            Err(e) => {
                return Err(e);
            },
        }
        let moved = ledger.transfer(self.contract_address, recipient, amount);
        assert(moved is Ok);
        Ok(true)
    }

    /// Forward `amount` of the token deployed at `token_address` from the
    /// contract's balance to `recipient`. `ledger` is that token's balance
    /// book. With an acceptable request this performs exactly one transfer
    /// of the given amount to the given recipient and returns `true`; a zero
    /// or negative amount fails before any transfer.
    pub fn send_token(
        &self,
        ledger: &mut Ledger,
        token_address: u64,
        recipient: u64,
        amount: i128,
    ) -> (r: Result<bool, Error>)
        requires
            old(ledger).wf(),
        ensures
            final(ledger).wf(),
            (r is Ok) <==> self.forward_ok(
                recipient,
                amount,
                old(ledger).balance_of(self.spec_contract_address()),
            ),
            r matches Ok(b) ==> b == true && (forall|x: u64|
                final(ledger).balance_of(x) == old(ledger).balance_of(x) - (if x
                    == self.spec_contract_address() {
                    amount as int
                } else {
                    0int
                }) + (if x == recipient {
                    amount as int
                } else {
                    0int
                })) && final(ledger).total() == old(ledger).total(),
            r matches Err(e) ==> *final(ledger) == *old(ledger) && ((e == Error::SelfTarget
                <==> recipient == self.spec_contract_address()) && (e == Error::NonPositiveAmount
                <==> recipient != self.spec_contract_address() && amount <= 0) && (e
                == Error::Unfunded <==> recipient != self.spec_contract_address() && amount > 0
                && old(ledger).balance_of(self.spec_contract_address()) == 0) && (e
                == Error::InsufficientBalance <==> recipient != self.spec_contract_address()
                && amount > 0 && 0 < old(ledger).balance_of(self.spec_contract_address())
                < amount)),
    {
        // The address only names the asset whose balance book `ledger` is.
        let _ = token_address;
        self.send(ledger, recipient, amount)
    }

    /// Alternative entry point name for [`SimplePayment::send`].
    pub fn transfer(&self, ledger: &mut Ledger, recipient: u64, amount: i128) -> (r: Result<
        bool,
        Error,
    >)
        requires
            old(ledger).wf(),
        ensures
            final(ledger).wf(),
            (r is Ok) <==> self.forward_ok(
                recipient,
                amount,
                old(ledger).balance_of(self.spec_contract_address()),
            ),
            r matches Ok(b) ==> b == true && (forall|x: u64|
                final(ledger).balance_of(x) == old(ledger).balance_of(x) - (if x
                    == self.spec_contract_address() {
                    amount as int
                } else {
                    0int
                }) + (if x == recipient {
                    amount as int
                } else {
                    0int
                })) && final(ledger).total() == old(ledger).total(),
            r matches Err(e) ==> *final(ledger) == *old(ledger) && ((e == Error::SelfTarget
                <==> recipient == self.spec_contract_address()) && (e == Error::NonPositiveAmount
                <==> recipient != self.spec_contract_address() && amount <= 0) && (e
                == Error::Unfunded <==> recipient != self.spec_contract_address() && amount > 0
                && old(ledger).balance_of(self.spec_contract_address()) == 0) && (e
                == Error::InsufficientBalance <==> recipient != self.spec_contract_address()
                && amount > 0 && 0 < old(ledger).balance_of(self.spec_contract_address())
                < amount)),
    {
        self.send(ledger, recipient, amount)
    }

    /// Alternative entry point name for [`SimplePayment::send`].
    pub fn pay(&self, ledger: &mut Ledger, recipient: u64, amount: i128) -> (r: Result<
        bool,
        Error,
    >)
        requires
            old(ledger).wf(),
        ensures
            final(ledger).wf(),
            (r is Ok) <==> self.forward_ok(
                recipient,
                amount,
                old(ledger).balance_of(self.spec_contract_address()),
            ),
            r matches Ok(b) ==> b == true && (forall|x: u64|
                final(ledger).balance_of(x) == old(ledger).balance_of(x) - (if x
                    == self.spec_contract_address() {
                    amount as int
                } else {
                    0int
                }) + (if x == recipient {
                    amount as int
                } else {
                    0int
                })) && final(ledger).total() == old(ledger).total(),
            r matches Err(e) ==> *final(ledger) == *old(ledger) && ((e == Error::SelfTarget
                <==> recipient == self.spec_contract_address()) && (e == Error::NonPositiveAmount
                <==> recipient != self.spec_contract_address() && amount <= 0) && (e
                == Error::Unfunded <==> recipient != self.spec_contract_address() && amount > 0
                && old(ledger).balance_of(self.spec_contract_address()) == 0) && (e
                == Error::InsufficientBalance <==> recipient != self.spec_contract_address()
                && amount > 0 && 0 < old(ledger).balance_of(self.spec_contract_address())
                < amount)),
    {
        self.send(ledger, recipient, amount)
    }
}

} // verus!
