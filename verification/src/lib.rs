//! Verified models of a small family of ledger contracts: a fungible token
//! with a fixed initial supply, an NFT collection with paid sequential
//! minting, and a payment forwarder.
//!
//! Each contract is modelled as a state machine over plain values: addresses
//! are account identifiers (`u64`), asset balances are an explicit [`ledger::Ledger`],
//! and every entry point is a total function that either performs the state
//! transition or reports the exact guard that failed. On the host platform an
//! aborted entry point rolls the whole transaction back, so every error case
//! here leaves all state unchanged, and the contracts say so.
//!
//! The host environment itself (authorization signatures, storage, the
//! dispatch of cross-contract calls) lies outside the library; an adapter
//! hands the authenticated caller and the relevant ledgers in as arguments
//! and performs the resulting transfers.

pub mod errors;
pub mod guards;
pub mod ledger;
pub mod nft;
pub mod payment;
pub mod token;
