//! The guard conditions on which an entry point aborts.
//!
//! On the host platform every failure unwinds the whole transaction; the
//! models report the same conditions as values, so each contract can state
//! exactly when an entry point fails and that a failed call changes nothing.

use vstd::prelude::*;

verus! {

/// The reason an entry point refused to run.
#[derive(Clone, Copy, Debug, PartialEq, Eq, Structural)]
pub enum Error {
    /// The target of a transfer or mint is the contract itself.
    SelfTarget,
    /// The asset handed to a forwarder is the forwarding contract itself.
    InvalidAsset,
    /// An amount that had to be strictly positive was zero or negative.
    NonPositiveAmount,
    /// An amount that had to be non-negative was negative.
    NegativeAmount,
    /// The paying account holds less than the requested amount.
    InsufficientBalance,
    /// The contract holds no balance at all to forward or withdraw.
    Unfunded,
    /// The spender's allowance does not cover the requested amount.
    InsufficientAllowance,
    /// The spender neither holds the token nor has a live approval on it.
    InsufficientApproval,
    /// The account asking to approve a token does not hold it.
    InvalidApprover,
    /// An allowance expiring in the past was submitted with a positive amount.
    InvalidExpiration,
    /// The collection already holds as many tokens as its cap admits.
    SupplyCapReached,
    /// A balance or counter would exceed its machine range.
    Overflow,
    /// The transaction does not carry the contract owner's authorization.
    Unauthorized,
    /// The operation is unavailable while the contract is paused,
    /// or the contract was asked to pause while already paused.
    Paused,
    /// The contract was asked to resume while not paused.
    NotPaused,
    /// No token with the given identifier exists in the collection.
    NonexistentToken,
    /// The account named as current holder does not hold the token.
    IncorrectOwner,
}

} // verus!
