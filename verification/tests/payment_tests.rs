//! Tests for the payment forwarder contract model.

use irl_contracts::errors::Error;
use irl_contracts::ledger::Ledger;
use irl_contracts::payment::SimplePayment;

const CONTRACT: u64 = 100;
const NATIVE_ASSET: u64 = 50;
const TOKEN: u64 = 60;
const RECIPIENT: u64 = 2;

fn setup(funds: i128) -> (SimplePayment, Ledger) {
    let payment = SimplePayment::new(CONTRACT, NATIVE_ASSET);
    let mut ledger = Ledger::new();
    ledger.credit(CONTRACT, funds);
    (payment, ledger)
}

#[test]
fn test_send_token() {
    let (payment, mut ledger) = setup(1000);

    let amount = 100_i128;
    let result = payment.send_token(&mut ledger, TOKEN, RECIPIENT, amount);

    assert!(result.unwrap());
}

#[test]
fn test_send_token_moves_exactly_the_amount() {
    let (payment, mut ledger) = setup(1000);

    payment.send_token(&mut ledger, TOKEN, RECIPIENT, 100).unwrap();

    assert_eq!(ledger.balance(CONTRACT), 900);
    assert_eq!(ledger.balance(RECIPIENT), 100);
}

#[test]
fn test_send_token_rejects_non_positive_before_any_transfer() {
    let (payment, mut ledger) = setup(1000);

    assert_eq!(
        payment.send_token(&mut ledger, TOKEN, RECIPIENT, 0),
        Err(Error::NonPositiveAmount)
    );
    assert_eq!(
        payment.send_token(&mut ledger, TOKEN, RECIPIENT, -10),
        Err(Error::NonPositiveAmount)
    );
    assert_eq!(ledger.balance(CONTRACT), 1000);
    assert_eq!(ledger.balance(RECIPIENT), 0);
}

#[test]
fn test_send_moves_balance() {
    let (payment, mut ledger) = setup(500);

    let ok = payment.send(&mut ledger, RECIPIENT, 200).unwrap();
    assert!(ok);
    assert_eq!(ledger.balance(CONTRACT), 300);
    assert_eq!(ledger.balance(RECIPIENT), 200);
}

#[test]
fn test_send_rejects_the_contract_itself() {
    let (payment, mut ledger) = setup(500);
    assert_eq!(
        payment.send(&mut ledger, CONTRACT, 100),
        Err(Error::SelfTarget)
    );
    assert_eq!(ledger.balance(CONTRACT), 500);
}

#[test]
fn test_send_from_unfunded_contract() {
    let (payment, mut ledger) = setup(0);
    assert_eq!(
        payment.send(&mut ledger, RECIPIENT, 100),
        Err(Error::Unfunded)
    );
}

#[test]
fn test_send_over_balance() {
    let (payment, mut ledger) = setup(99);
    assert_eq!(
        payment.send(&mut ledger, RECIPIENT, 100),
        Err(Error::InsufficientBalance)
    );
    assert_eq!(ledger.balance(CONTRACT), 99);
}

#[test]
fn test_send_with_native_address_validates_asset() {
    let (payment, mut ledger) = setup(500);

    assert_eq!(
        payment.send_with_native_address(&mut ledger, CONTRACT, RECIPIENT, 100),
        Err(Error::InvalidAsset)
    );

    let ok = payment
        .send_with_native_address(&mut ledger, NATIVE_ASSET, RECIPIENT, 100)
        .unwrap();
    assert!(ok);
    assert_eq!(ledger.balance(RECIPIENT), 100);
}

#[test]
fn test_transfer_and_pay_behave_like_send() {
    let (payment, mut ledger) = setup(300);

    assert!(payment.transfer(&mut ledger, RECIPIENT, 100).unwrap());
    assert!(payment.pay(&mut ledger, RECIPIENT, 100).unwrap());
    assert_eq!(ledger.balance(CONTRACT), 100);
    assert_eq!(ledger.balance(RECIPIENT), 200);

    assert_eq!(
        payment.transfer(&mut ledger, CONTRACT, 1),
        Err(Error::SelfTarget)
    );
    assert_eq!(
        payment.pay(&mut ledger, RECIPIENT, 0),
        Err(Error::NonPositiveAmount)
    );
}

#[test]
fn test_get_native_asset_address() {
    let (payment, _) = setup(0);
    assert_eq!(payment.get_native_asset_address(), NATIVE_ASSET);
}
