//! Tests for the NFT collection contract model.

use irl_contracts::errors::Error;
use irl_contracts::ledger::Ledger;
use irl_contracts::nft::{NonFungibleTokenContract, MINT_COST};

const OWNER: u64 = 1;
const MINTER: u64 = 2;
const OTHER: u64 = 3;
const NATIVE_ASSET: u64 = 50;
const CONTRACT: u64 = 100;

fn setup(max_supply: u32, minter_funds: i128) -> (NonFungibleTokenContract, Ledger) {
    let nft = NonFungibleTokenContract::__constructor(OWNER, NATIVE_ASSET, max_supply, CONTRACT);
    let mut ledger = Ledger::new();
    ledger.credit(MINTER, minter_funds);
    (nft, ledger)
}

#[test]
fn test_mint_fee_is_a_hundredth_of_a_unit() {
    // 0.01 of the native asset, in stroops.
    assert_eq!(MINT_COST, 100_000);
}

#[test]
fn test_nft_constructor_sets_configuration() {
    let (nft, _) = setup(25, 0);
    assert_eq!(nft.get_native_asset_address(), NATIVE_ASSET);
    assert_eq!(nft.get_max_supply(), 25);
    assert_eq!(nft.get_current_supply(), 0);
    assert!(!nft.paused());
    assert_eq!(nft.owner_of(1), Err(Error::NonexistentToken));
    assert_eq!(nft.balance(OWNER), Ok(0));
}

#[test]
fn test_mint_charges_fee_and_assigns_sequential_ids() {
    let (mut nft, mut ledger) = setup(0, 1_000_000);

    let first = nft.mint(&mut ledger, MINTER).unwrap();
    let second = nft.mint(&mut ledger, MINTER).unwrap();

    assert_eq!(first, 1);
    assert_eq!(second, 2);
    assert_eq!(nft.get_current_supply(), 2);
    assert_eq!(ledger.balance(MINTER), 1_000_000 - 2 * MINT_COST);
    assert_eq!(ledger.balance(CONTRACT), 2 * MINT_COST);
    assert_eq!(nft.owner_of(1), Ok(MINTER));
    assert_eq!(nft.owner_of(2), Ok(MINTER));
    assert_eq!(nft.balance(MINTER), Ok(2));
}

#[test]
fn test_mint_beyond_cap_changes_nothing() {
    let (mut nft, mut ledger) = setup(1, 1_000_000);

    nft.mint(&mut ledger, MINTER).unwrap();
    let r = nft.mint(&mut ledger, MINTER);

    assert_eq!(r, Err(Error::SupplyCapReached));
    assert_eq!(nft.get_current_supply(), 1);
    assert_eq!(ledger.balance(MINTER), 1_000_000 - MINT_COST);
    assert_eq!(ledger.balance(CONTRACT), MINT_COST);
    assert_eq!(nft.balance(MINTER), Ok(1));
}

#[test]
fn test_mint_without_fee_funds_changes_nothing() {
    let (mut nft, mut ledger) = setup(0, MINT_COST - 1);
    let r = nft.mint(&mut ledger, MINTER);
    assert_eq!(r, Err(Error::InsufficientBalance));
    assert_eq!(nft.get_current_supply(), 0);
    assert_eq!(ledger.balance(MINTER), MINT_COST - 1);
    assert_eq!(ledger.balance(CONTRACT), 0);
}

#[test]
fn test_mint_to_contract_address_refused() {
    let (mut nft, mut ledger) = setup(0, 0);
    let r = nft.mint(&mut ledger, CONTRACT);
    assert_eq!(r, Err(Error::SelfTarget));
    assert_eq!(nft.get_current_supply(), 0);
}

#[test]
fn test_withdraw_full_balance_when_no_amount_given() {
    let (nft, mut ledger) = setup(0, 3 * MINT_COST);
    let mut nft = nft;
    nft.mint(&mut ledger, MINTER).unwrap();
    nft.mint(&mut ledger, MINTER).unwrap();
    nft.mint(&mut ledger, MINTER).unwrap();

    let withdrawn = nft.withdraw(&mut ledger, OWNER, None).unwrap();
    assert_eq!(withdrawn, 3 * MINT_COST);
    assert_eq!(ledger.balance(CONTRACT), 0);
    assert_eq!(ledger.balance(OWNER), 3 * MINT_COST);
}

#[test]
fn test_withdraw_partial_amount() {
    let (nft, mut ledger) = setup(0, 2 * MINT_COST);
    let mut nft = nft;
    nft.mint(&mut ledger, MINTER).unwrap();
    nft.mint(&mut ledger, MINTER).unwrap();

    let withdrawn = nft.withdraw(&mut ledger, OWNER, Some(MINT_COST)).unwrap();
    assert_eq!(withdrawn, MINT_COST);
    assert_eq!(ledger.balance(CONTRACT), MINT_COST);
    assert_eq!(ledger.balance(OWNER), MINT_COST);
}

#[test]
fn test_withdraw_over_balance_transfers_nothing() {
    let (nft, mut ledger) = setup(0, MINT_COST);
    let mut nft = nft;
    nft.mint(&mut ledger, MINTER).unwrap();

    let r = nft.withdraw(&mut ledger, OWNER, Some(MINT_COST + 1));
    assert_eq!(r, Err(Error::InsufficientBalance));
    assert_eq!(ledger.balance(CONTRACT), MINT_COST);
    assert_eq!(ledger.balance(OWNER), 0);
}

#[test]
fn test_withdraw_rejects_non_positive_and_strangers() {
    let (nft, mut ledger) = setup(0, MINT_COST);
    let mut nft = nft;
    nft.mint(&mut ledger, MINTER).unwrap();

    assert_eq!(
        nft.withdraw(&mut ledger, OWNER, Some(0)),
        Err(Error::NonPositiveAmount)
    );
    assert_eq!(
        nft.withdraw(&mut ledger, OWNER, Some(-5)),
        Err(Error::NonPositiveAmount)
    );
    assert_eq!(
        nft.withdraw(&mut ledger, OTHER, None),
        Err(Error::Unauthorized)
    );
    assert_eq!(ledger.balance(CONTRACT), MINT_COST);
}

#[test]
fn test_nft_transfer_moves_ownership() {
    let (mut nft, mut ledger) = setup(0, MINT_COST);
    let id = nft.mint(&mut ledger, MINTER).unwrap();

    nft.transfer(MINTER, OTHER, id).unwrap();
    assert_eq!(nft.owner_of(id), Ok(OTHER));
    assert_eq!(nft.balance(MINTER), Ok(0));
    assert_eq!(nft.balance(OTHER), Ok(1));
    assert_eq!(nft.get_current_supply(), 1);
}

#[test]
fn test_nft_transfer_requires_holder() {
    let (mut nft, mut ledger) = setup(0, MINT_COST);
    let id = nft.mint(&mut ledger, MINTER).unwrap();

    assert_eq!(nft.transfer(OTHER, OWNER, id), Err(Error::IncorrectOwner));
    assert_eq!(nft.transfer(MINTER, OWNER, 99), Err(Error::NonexistentToken));
    assert_eq!(nft.owner_of(id), Ok(MINTER));
}

#[test]
fn test_nft_approve_and_transfer_from() {
    let (mut nft, mut ledger) = setup(0, MINT_COST);
    let id = nft.mint(&mut ledger, MINTER).unwrap();

    // Only the holder may approve.
    assert_eq!(
        nft.approve(OTHER, OTHER, id, 100, 10),
        Err(Error::InvalidApprover)
    );
    nft.approve(MINTER, OTHER, id, 100, 10).unwrap();

    // A live approval lets the spender move the token; an expired one does
    // not.
    assert_eq!(
        nft.transfer_from(OTHER, MINTER, OWNER, id, 101),
        Err(Error::InsufficientApproval)
    );
    nft.transfer_from(OTHER, MINTER, OWNER, id, 100).unwrap();
    assert_eq!(nft.owner_of(id), Ok(OWNER));
}

#[test]
fn test_nft_approval_cleared_by_transfer() {
    let (mut nft, mut ledger) = setup(0, MINT_COST);
    let id = nft.mint(&mut ledger, MINTER).unwrap();

    nft.approve(MINTER, OTHER, id, 100, 10).unwrap();
    nft.transfer(MINTER, OWNER, id).unwrap();

    // The old approval died with the transfer.
    assert_eq!(
        nft.transfer_from(OTHER, OWNER, MINTER, id, 10),
        Err(Error::InsufficientApproval)
    );
}

#[test]
fn test_nft_approve_revocation_and_expiry_rules() {
    let (mut nft, mut ledger) = setup(0, MINT_COST);
    let id = nft.mint(&mut ledger, MINTER).unwrap();

    assert_eq!(
        nft.approve(MINTER, OTHER, id, 9, 10),
        Err(Error::InvalidExpiration)
    );
    nft.approve(MINTER, OTHER, id, 100, 10).unwrap();
    // A zero expiry revokes.
    nft.approve(MINTER, OTHER, id, 0, 10).unwrap();
    assert_eq!(
        nft.transfer_from(OTHER, MINTER, OWNER, id, 10),
        Err(Error::InsufficientApproval)
    );
    assert_eq!(
        nft.approve(MINTER, OTHER, 99, 100, 10),
        Err(Error::NonexistentToken)
    );
}

#[test]
fn test_nft_burn_keeps_supply_counter() {
    let (mut nft, mut ledger) = setup(0, 2 * MINT_COST);
    let id = nft.mint(&mut ledger, MINTER).unwrap();

    assert_eq!(nft.burn(OTHER, id), Err(Error::IncorrectOwner));
    nft.burn(MINTER, id).unwrap();

    assert_eq!(nft.owner_of(id), Err(Error::NonexistentToken));
    assert_eq!(nft.balance(MINTER), Ok(0));
    // The counter records tokens ever minted: the next mint takes a fresh
    // identifier.
    assert_eq!(nft.get_current_supply(), 1);
    let next = nft.mint(&mut ledger, MINTER).unwrap();
    assert_eq!(next, 2);
}

#[test]
fn test_nft_burn_from_requires_live_approval() {
    let (mut nft, mut ledger) = setup(0, MINT_COST);
    let id = nft.mint(&mut ledger, MINTER).unwrap();

    assert_eq!(
        nft.burn_from(OTHER, MINTER, id, 10),
        Err(Error::InsufficientApproval)
    );
    nft.approve(MINTER, OTHER, id, 100, 10).unwrap();
    nft.burn_from(OTHER, MINTER, id, 10).unwrap();
    assert_eq!(nft.owner_of(id), Err(Error::NonexistentToken));
}

#[test]
fn test_pause_gates_transfers_queries_and_burns() {
    let (mut nft, mut ledger) = setup(0, 2 * MINT_COST);
    let id = nft.mint(&mut ledger, MINTER).unwrap();

    assert_eq!(nft.pause(OTHER), Err(Error::Unauthorized));
    nft.pause(OWNER).unwrap();
    assert!(nft.paused());
    assert_eq!(nft.pause(OWNER), Err(Error::Paused));

    assert_eq!(nft.transfer(MINTER, OTHER, id), Err(Error::Paused));
    assert_eq!(
        nft.transfer_from(MINTER, MINTER, OTHER, id, 10),
        Err(Error::Paused)
    );
    assert_eq!(nft.balance(MINTER), Err(Error::Paused));
    assert_eq!(nft.owner_of(id), Err(Error::Paused));
    assert_eq!(nft.burn(MINTER, id), Err(Error::Paused));
    assert_eq!(nft.burn_from(MINTER, MINTER, id, 10), Err(Error::Paused));

    // Minting itself is not pause-gated.
    let second = nft.mint(&mut ledger, MINTER).unwrap();
    assert_eq!(second, 2);

    nft.unpause(OWNER).unwrap();
    assert_eq!(nft.unpause(OWNER), Err(Error::NotPaused));
    nft.transfer(MINTER, OTHER, id).unwrap();
    assert_eq!(nft.owner_of(id), Ok(OTHER));
}

#[test]
fn test_mint_fee_conserves_native_total() {
    let (mut nft, mut ledger) = setup(0, 10 * MINT_COST);
    let before_minter = ledger.balance(MINTER);
    let before_contract = ledger.balance(CONTRACT);

    nft.mint(&mut ledger, MINTER).unwrap();

    let after_minter = ledger.balance(MINTER);
    let after_contract = ledger.balance(CONTRACT);
    assert_eq!(before_minter - after_minter, MINT_COST);
    assert_eq!(after_contract - before_contract, MINT_COST);
    assert_eq!(
        before_minter + before_contract,
        after_minter + after_contract
    );
}
