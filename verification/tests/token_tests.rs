//! Tests for the fungible token contract model.

use irl_contracts::errors::Error;
use irl_contracts::token::{IRLToken, DECIMALS, INITIAL_SUPPLY};

const OWNER: u64 = 1;
const RECIPIENT: u64 = 2;
const SPENDER: u64 = 3;

#[test]
fn test_constructor_sets_metadata_and_mints_initial_supply() {
    let token = IRLToken::__constructor(OWNER);

    assert_eq!(token.name(), "IRL");
    assert_eq!(token.symbol(), "IRL");
    assert_eq!(token.decimals(), 7);

    let expected_supply: i128 = 1_000_000 * 10i128.pow(7);
    assert_eq!(token.balance(OWNER), expected_supply);
}

#[test]
fn test_transfer() {
    let mut token = IRLToken::__constructor(OWNER);

    let amount: i128 = 100 * 10i128.pow(7); // 100 tokens
    token.transfer(OWNER, RECIPIENT, amount).unwrap();

    assert_eq!(token.balance(OWNER), 1_000_000 * 10i128.pow(7) - amount);
    assert_eq!(token.balance(RECIPIENT), amount);
}

#[test]
fn test_initial_supply_constant_is_display_units_scaled() {
    assert_eq!(DECIMALS, 7);
    assert_eq!(INITIAL_SUPPLY, 10_000_000_000_000);
    let token = IRLToken::__constructor(OWNER);
    assert_eq!(token.balance(OWNER), INITIAL_SUPPLY);
    assert_eq!(token.total_supply(), INITIAL_SUPPLY);
}

#[test]
fn test_transfer_conserves_total_supply() {
    let mut token = IRLToken::__constructor(OWNER);
    token.transfer(OWNER, RECIPIENT, 12_345).unwrap();
    assert_eq!(token.total_supply(), INITIAL_SUPPLY);
    assert_eq!(
        token.balance(OWNER) + token.balance(RECIPIENT),
        INITIAL_SUPPLY
    );
}

#[test]
fn test_transfer_insufficient_balance() {
    let mut token = IRLToken::__constructor(OWNER);
    let r = token.transfer(RECIPIENT, OWNER, 1);
    assert_eq!(r, Err(Error::InsufficientBalance));
    assert_eq!(token.balance(OWNER), INITIAL_SUPPLY);
    assert_eq!(token.balance(RECIPIENT), 0);
}

#[test]
fn test_transfer_negative_amount() {
    let mut token = IRLToken::__constructor(OWNER);
    let r = token.transfer(OWNER, RECIPIENT, -1);
    assert_eq!(r, Err(Error::NegativeAmount));
    assert_eq!(token.balance(OWNER), INITIAL_SUPPLY);
}

#[test]
fn test_mint_is_owner_gated() {
    let mut token = IRLToken::__constructor(OWNER);

    token.mint(OWNER, RECIPIENT, 250).unwrap();
    assert_eq!(token.balance(RECIPIENT), 250);
    assert_eq!(token.total_supply(), INITIAL_SUPPLY + 250);

    let r = token.mint(RECIPIENT, RECIPIENT, 250);
    assert_eq!(r, Err(Error::Unauthorized));
    assert_eq!(token.balance(RECIPIENT), 250);
    assert_eq!(token.total_supply(), INITIAL_SUPPLY + 250);
}

#[test]
fn test_mint_negative_amount() {
    let mut token = IRLToken::__constructor(OWNER);
    let r = token.mint(OWNER, RECIPIENT, -7);
    assert_eq!(r, Err(Error::NegativeAmount));
    assert_eq!(token.total_supply(), INITIAL_SUPPLY);
}

#[test]
fn test_mint_overflowing_supply() {
    let mut token = IRLToken::__constructor(OWNER);
    let r = token.mint(OWNER, RECIPIENT, i128::MAX);
    assert_eq!(r, Err(Error::Overflow));
    assert_eq!(token.total_supply(), INITIAL_SUPPLY);
}

#[test]
fn test_approve_allowance_transfer_from() {
    let mut token = IRLToken::__constructor(OWNER);

    token.approve(OWNER, SPENDER, 500, 100, 10).unwrap();
    assert_eq!(token.allowance(OWNER, SPENDER, 10), 500);

    token.transfer_from(SPENDER, OWNER, RECIPIENT, 200, 50).unwrap();
    assert_eq!(token.balance(RECIPIENT), 200);
    assert_eq!(token.balance(OWNER), INITIAL_SUPPLY - 200);
    assert_eq!(token.allowance(OWNER, SPENDER, 50), 300);
    assert_eq!(token.total_supply(), INITIAL_SUPPLY);
}

#[test]
fn test_allowance_expires() {
    let mut token = IRLToken::__constructor(OWNER);
    token.approve(OWNER, SPENDER, 500, 100, 10).unwrap();

    assert_eq!(token.allowance(OWNER, SPENDER, 100), 500);
    assert_eq!(token.allowance(OWNER, SPENDER, 101), 0);

    let r = token.transfer_from(SPENDER, OWNER, RECIPIENT, 1, 101);
    assert_eq!(r, Err(Error::InsufficientAllowance));
    assert_eq!(token.balance(RECIPIENT), 0);
}

#[test]
fn test_approve_invalid_expiration() {
    let mut token = IRLToken::__constructor(OWNER);
    let r = token.approve(OWNER, SPENDER, 5, 9, 10);
    assert_eq!(r, Err(Error::InvalidExpiration));
    // A zero amount may carry any expiration: it revokes.
    token.approve(OWNER, SPENDER, 0, 9, 10).unwrap();
    assert_eq!(token.allowance(OWNER, SPENDER, 10), 0);
}

#[test]
fn test_approve_negative_amount() {
    let mut token = IRLToken::__constructor(OWNER);
    let r = token.approve(OWNER, SPENDER, -3, 100, 10);
    assert_eq!(r, Err(Error::NegativeAmount));
}

#[test]
fn test_transfer_from_insufficient_balance() {
    let mut token = IRLToken::__constructor(OWNER);
    // RECIPIENT holds 40 but approves more than it has.
    token.transfer(OWNER, RECIPIENT, 40).unwrap();
    token.approve(RECIPIENT, SPENDER, 100, 100, 10).unwrap();
    let r = token.transfer_from(SPENDER, RECIPIENT, OWNER, 60, 10);
    assert_eq!(r, Err(Error::InsufficientBalance));
    assert_eq!(token.balance(RECIPIENT), 40);
    assert_eq!(token.allowance(RECIPIENT, SPENDER, 10), 100);
}

#[test]
fn test_burn_reduces_supply() {
    let mut token = IRLToken::__constructor(OWNER);
    token.burn(OWNER, 1_000).unwrap();
    assert_eq!(token.balance(OWNER), INITIAL_SUPPLY - 1_000);
    assert_eq!(token.total_supply(), INITIAL_SUPPLY - 1_000);

    let r = token.burn(RECIPIENT, 1);
    assert_eq!(r, Err(Error::InsufficientBalance));
}

#[test]
fn test_burn_from_consumes_allowance() {
    let mut token = IRLToken::__constructor(OWNER);
    token.approve(OWNER, SPENDER, 700, 100, 10).unwrap();

    token.burn_from(SPENDER, OWNER, 300, 20).unwrap();
    assert_eq!(token.balance(OWNER), INITIAL_SUPPLY - 300);
    assert_eq!(token.total_supply(), INITIAL_SUPPLY - 300);
    assert_eq!(token.allowance(OWNER, SPENDER, 20), 400);

    let r = token.burn_from(SPENDER, OWNER, 500, 20);
    assert_eq!(r, Err(Error::InsufficientAllowance));
}
