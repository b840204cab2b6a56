use banksy::ledger::TransferEvent;
use banksy::market::Market;
use banksy::types::{Holder, MarketError};

const MINT: u64 = 9;
const ALICE: u64 = 1;
const BOB: u64 = 2;
const CAROL: u64 = 3;

/// A market with one asset of `supply` units whose authority is Alice, and
/// records for Alice and Bob (positions 0 and 1).
fn with_asset(supply: u64) -> Market {
    let mut m = Market::new(MINT);
    assert_eq!(m.create_nft(500, ALICE, supply, vec![7, 7]), Ok(0));
    assert_eq!(m.create_user(0, Holder::Key(ALICE)), Ok(0));
    assert_eq!(m.create_user(0, Holder::Key(BOB)), Ok(1));
    m
}

fn balance(m: &Market, record: usize) -> u64 {
    m.ledger().record(record).balance
}

fn total_held(m: &Market, asset: usize) -> u64 {
    let mut sum = 0u64;
    for i in 0..m.ledger().num_records() {
        let r = m.ledger().record(i);
        if r.asset == asset {
            sum += r.balance;
        }
    }
    sum
}

#[test]
fn new_asset_is_wholly_undistributed() {
    let m = with_asset(100);
    let a = m.ledger().asset(0);
    assert_eq!(a.supply, 100);
    assert_eq!(a.remaining_undistributed, 100);
    assert_eq!(a.metadata, vec![7, 7]);
    assert_eq!(a.authority, ALICE);
    assert_eq!(total_held(&m, 0), 0);
}

#[test]
fn duplicate_asset_is_refused() {
    let mut m = with_asset(100);
    assert_eq!(m.create_nft(500, BOB, 5, vec![]), Err(MarketError::DuplicateAsset));
    assert_eq!(m.ledger().num_assets(), 1);
    assert_eq!(m.create_nft(501, BOB, 5, vec![]), Ok(1));
}

#[test]
fn holder_record_creation_is_idempotent() {
    let mut m = with_asset(100);
    assert_eq!(m.ledger().num_records(), 2);
    assert_eq!(m.create_user(0, Holder::Key(ALICE)), Ok(0));
    assert_eq!(m.ledger().num_records(), 2);
    assert_eq!(m.create_user(3, Holder::Key(ALICE)), Err(MarketError::UnknownAsset));
}

#[test]
fn distribution_needs_authority_and_supply() {
    let mut m = with_asset(100);
    assert_eq!(m.distribute(0, 1, 10, BOB), Err(MarketError::Unauthorized));
    assert_eq!(m.distribute(0, 1, 101, ALICE), Err(MarketError::InsufficientSupply));
    assert_eq!(m.distribute(0, 1, 60, ALICE), Ok(()));
    assert_eq!(balance(&m, 1), 60);
    assert_eq!(m.ledger().asset(0).remaining_undistributed, 40);
    assert_eq!(m.distribute(0, 0, 41, ALICE), Err(MarketError::InsufficientSupply));
    assert_eq!(m.distribute(1, 0, 1, ALICE), Err(MarketError::UnknownAsset));
    assert_eq!(m.distribute(0, 9, 1, ALICE), Err(MarketError::UnknownRecord));
}

#[test]
fn supply_is_conserved_through_every_step() {
    let mut m = with_asset(100);
    let check = |m: &Market| {
        let a = m.ledger().asset(0);
        assert_eq!(a.remaining_undistributed + total_held(m, 0), a.supply);
    };
    check(&m);
    m.distribute(0, 0, 70, ALICE).unwrap();
    check(&m);
    m.transfer(0, 1, 25, ALICE).unwrap();
    check(&m);
    assert!(m.transfer(1, 0, 26, BOB).is_err());
    check(&m);
    m.approve(1, CAROL, 5, BOB).unwrap();
    m.transfer(1, 0, 5, CAROL).unwrap();
    check(&m);
    assert_eq!(m.ledger().asset(0).remaining_undistributed, 30);
}

#[test]
fn transfer_moves_exactly_the_amount() {
    let mut m = with_asset(100);
    m.distribute(0, 0, 80, ALICE).unwrap();
    assert_eq!(m.transfer(0, 1, 30, ALICE), Ok(TransferEvent { asset: 0, from: 0, to: 1, amount: 30 }));
    assert_eq!(balance(&m, 0), 50);
    assert_eq!(balance(&m, 1), 30);
    assert_eq!(balance(&m, 0) + balance(&m, 1), 80);
}

#[test]
fn transfer_errors() {
    let mut m = with_asset(100);
    m.create_nft(600, BOB, 10, vec![]).unwrap();
    let other = m.create_user(1, Holder::Key(BOB)).unwrap();
    m.distribute(0, 0, 10, ALICE).unwrap();
    assert_eq!(m.transfer(0, other, 1, ALICE), Err(MarketError::AssetMismatch));
    assert_eq!(m.transfer(0, 1, 1, BOB), Err(MarketError::Unauthorized));
    assert_eq!(m.transfer(0, 1, 11, ALICE), Err(MarketError::InsufficientBalance));
    assert_eq!(m.transfer(0, 42, 1, ALICE), Err(MarketError::UnknownRecord));
    assert_eq!(balance(&m, 0), 10);
}

#[test]
fn self_transfer_keeps_the_balance() {
    let mut m = with_asset(100);
    m.distribute(0, 0, 10, ALICE).unwrap();
    assert!(m.transfer(0, 0, 4, ALICE).is_ok());
    assert_eq!(balance(&m, 0), 10);
}

#[test]
fn delegate_moves_at_most_the_allowance() {
    let mut m = with_asset(100);
    m.distribute(0, 0, 50, ALICE).unwrap();
    assert_eq!(m.approve(0, CAROL, 20, ALICE), Ok(()));
    assert_eq!(m.transfer(0, 1, 21, CAROL), Err(MarketError::Unauthorized));
    assert!(m.transfer(0, 1, 15, CAROL).is_ok());
    assert_eq!(m.ledger().record(0).delegate_allowance, 5);
    assert_eq!(m.transfer(0, 1, 6, CAROL), Err(MarketError::Unauthorized));
    assert!(m.transfer(0, 1, 5, CAROL).is_ok());
    assert_eq!(m.ledger().record(0).delegate_allowance, 0);
    assert_eq!(m.transfer(0, 1, 1, CAROL), Err(MarketError::Unauthorized));
    assert_eq!(balance(&m, 1), 20);
    assert_eq!(balance(&m, 0), 30);
}

#[test]
fn second_approval_replaces_the_first() {
    let mut m = with_asset(100);
    m.distribute(0, 0, 50, ALICE).unwrap();
    m.approve(0, CAROL, 20, ALICE).unwrap();
    m.approve(0, CAROL, 3, ALICE).unwrap();
    let r = m.ledger().record(0);
    assert_eq!(r.delegate, Some(CAROL));
    assert_eq!(r.delegate_allowance, 3);
    assert_eq!(m.transfer(0, 1, 4, CAROL), Err(MarketError::Unauthorized));
    m.approve(0, BOB, 10, ALICE).unwrap();
    assert_eq!(m.transfer(0, 1, 1, CAROL), Err(MarketError::Unauthorized));
    assert!(m.transfer(0, 1, 10, BOB).is_ok());
}

#[test]
fn only_the_holder_approves() {
    let mut m = with_asset(100);
    assert_eq!(m.approve(0, CAROL, 20, BOB), Err(MarketError::Unauthorized));
    assert_eq!(m.approve(7, CAROL, 20, ALICE), Err(MarketError::UnknownRecord));
    assert_eq!(m.ledger().record(0).delegate, None);
}

#[test]
fn holder_transfer_leaves_the_allowance() {
    let mut m = with_asset(100);
    m.distribute(0, 0, 50, ALICE).unwrap();
    m.approve(0, CAROL, 20, ALICE).unwrap();
    m.transfer(0, 1, 30, ALICE).unwrap();
    assert_eq!(m.ledger().record(0).delegate_allowance, 20);
}

#[test]
fn currency_mint_and_transfer() {
    let mut m = Market::new(MINT);
    let a = m.open_account(Holder::Key(ALICE));
    let b = m.open_account(Holder::Key(BOB));
    assert_eq!(m.mint(a, 10, ALICE), Err(MarketError::Unauthorized));
    assert_eq!(m.mint(5, 10, MINT), Err(MarketError::UnknownAccount));
    assert_eq!(m.mint(a, u64::MAX, MINT), Ok(()));
    assert_eq!(m.mint(a, 1, MINT), Err(MarketError::ArithmeticFault));
    m.mint(b, 1, MINT).unwrap();
    assert_eq!(m.pay(a, b, u64::MAX, ALICE), Err(MarketError::ArithmeticFault));
    assert_eq!(m.pay(a, b, 3, BOB), Err(MarketError::Unauthorized));
    assert_eq!(m.pay(b, a, 2, BOB), Err(MarketError::InsufficientFunds));
    assert_eq!(m.pay(a, b, 100, ALICE), Ok(()));
    assert_eq!(m.currency().account(a).balance, u64::MAX - 100);
    assert_eq!(m.currency().account(b).balance, 101);
}
