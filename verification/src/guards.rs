//! The contracts' guard decisions on plain values.
//!
//! Each entry point of the contracts boils down to a decision — how much to
//! withdraw, whether a forward is acceptable, which identifier the next
//! token gets — followed by host work. The decisions live here as functions
//! from plain values to plain values, so an adapter on the host platform
//! can take the very same decisions the verified models take.

use vstd::prelude::*;

use crate::errors::Error;

verus! {

/// How much a withdrawal request takes out of a holding of `held`: the
/// requested amount when one is given — it must be strictly positive and
/// within the holding — or the whole holding when none is.
pub fn withdraw_amount(requested: Option<i128>, held: i128) -> (r: Result<i128, Error>)
    requires
        held >= 0,
    ensures
        (r is Ok) <==> (match requested {
            Some(a) => 0 < a <= held,
            None => true,
        }),
        r matches Ok(w) ==> w == (match requested {
            Some(a) => a,
            None => held,
        }) && 0 <= w <= held,
        r matches Err(e) ==> ((e == Error::NonPositiveAmount <==> (requested matches Some(a) && a
            <= 0)) && (e == Error::InsufficientBalance <==> (requested matches Some(a) && a > 0
            && a > held))),
{
    match requested {
        Some(a) => {
            if a <= 0 {
                Err(Error::NonPositiveAmount)
            } else if a > held {
                Err(Error::InsufficientBalance)
            } else {
                Ok(a)
            }
        },
        None => Ok(held),
    }
}

/// Whether a holding of `held` admits forwarding `amount`: the amount is
/// strictly positive, the holding funded at all, and large enough.
pub fn forward_amount(held: i128, amount: i128) -> (r: Result<(), Error>)
    requires
        held >= 0,
    ensures
        (r is Ok) <==> amount > 0 && held > 0 && amount <= held,
        r matches Err(e) ==> ((e == Error::NonPositiveAmount <==> amount <= 0) && (e
            == Error::Unfunded <==> amount > 0 && held == 0) && (e == Error::InsufficientBalance
            <==> amount > 0 && held > 0 && amount > held)),
{
    if amount <= 0 {
        Err(Error::NonPositiveAmount)
    } else if held == 0 {
        Err(Error::Unfunded)
    } else if amount > held {
        Err(Error::InsufficientBalance)
    } else {
        Ok(())
    }
}

/// The identifier the next mint takes when `supply` tokens were minted so
/// far against a cap of `max_supply` (zero for unlimited): one past the
/// counter, refused at the cap and when the identifiers are exhausted.
pub fn next_token_id(supply: u32, max_supply: u32) -> (r: Result<u32, Error>)
    ensures
        (r is Ok) <==> !(max_supply > 0 && supply >= max_supply) && supply < u32::MAX,
        r matches Ok(id) ==> id == supply + 1,
        r matches Err(e) ==> ((e == Error::SupplyCapReached <==> max_supply > 0 && supply
            >= max_supply) && (e == Error::Overflow <==> !(max_supply > 0 && supply >= max_supply)
            && supply == u32::MAX)),
{
    if max_supply > 0 && supply >= max_supply {
        Err(Error::SupplyCapReached)
    } else if supply == u32::MAX {
        Err(Error::Overflow)
    } else {
        Ok(supply + 1)
    }
}

} // verus!
