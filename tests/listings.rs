use banksy::market::Market;
use banksy::types::{Holder, MarketError};

const MINT: u64 = 9;
const ALICE: u64 = 1;
const BOB: u64 = 2;
const CAROL: u64 = 3;

struct Setup {
    m: Market,
    alice_rec: usize,
    escrow_rec: usize,
}

/// Alice holds all 100 units of one asset and moves them into the escrow
/// record of the next listing named by `escrow`.
fn escrowed(escrow: Holder) -> Setup {
    let mut m = Market::new(MINT);
    m.create_nft(77, ALICE, 100, vec![1]).unwrap();
    let alice_rec = m.create_user(0, Holder::Key(ALICE)).unwrap();
    m.distribute(0, alice_rec, 100, ALICE).unwrap();
    let escrow_rec = m.create_user(0, escrow).unwrap();
    m.transfer(alice_rec, escrow_rec, 100, ALICE).unwrap();
    Setup { m, alice_rec, escrow_rec }
}

fn funded(m: &mut Market, who: u64, amount: u64) -> usize {
    let acct = m.open_account(Holder::Key(who));
    if amount > 0 {
        m.mint(acct, amount, MINT).unwrap();
    }
    acct
}

fn cash(m: &Market, acct: usize) -> u64 {
    m.currency().account(acct).balance
}

fn units(m: &Market, record: usize) -> u64 {
    m.ledger().record(record).balance
}

#[test]
fn exchange_scenario_settles_once() {
    let Setup { mut m, escrow_rec, .. } = escrowed(Holder::ExchangeEscrow(ALICE));
    let alice_cash = funded(&mut m, ALICE, 0);
    let bob_cash = funded(&mut m, BOB, 50);
    assert_eq!(m.create_exchange(ALICE, escrow_rec, alice_cash, 50), Ok(0));
    let bob_rec = m.create_user(0, Holder::Key(BOB)).unwrap();
    assert_eq!(m.process_exchange(0, BOB, bob_cash, bob_rec), Ok(()));
    assert_eq!(units(&m, bob_rec), 100);
    assert_eq!(units(&m, escrow_rec), 0);
    assert_eq!(cash(&m, alice_cash), 50);
    assert_eq!(cash(&m, bob_cash), 0);
    let x = m.exchange(0);
    assert!(!x.ongoing);
    assert_eq!(x.buyer, Some(BOB));
    assert_eq!(m.process_exchange(0, BOB, bob_cash, bob_rec), Err(MarketError::ExchangeClosed));
}

#[test]
fn exchange_without_funds_moves_nothing() {
    let Setup { mut m, escrow_rec, .. } = escrowed(Holder::ExchangeEscrow(ALICE));
    let alice_cash = funded(&mut m, ALICE, 0);
    let bob_cash = funded(&mut m, BOB, 49);
    m.create_exchange(ALICE, escrow_rec, alice_cash, 50).unwrap();
    let bob_rec = m.create_user(0, Holder::Key(BOB)).unwrap();
    assert_eq!(m.process_exchange(0, BOB, bob_cash, bob_rec), Err(MarketError::InsufficientFunds));
    assert_eq!(units(&m, bob_rec), 0);
    assert_eq!(units(&m, escrow_rec), 100);
    assert_eq!(cash(&m, bob_cash), 49);
    assert_eq!(cash(&m, alice_cash), 0);
    assert!(m.exchange(0).ongoing);
}

#[test]
fn exchange_refused_asset_leg_keeps_the_currency() {
    let Setup { mut m, escrow_rec, .. } = escrowed(Holder::ExchangeEscrow(ALICE));
    let alice_cash = funded(&mut m, ALICE, 0);
    let bob_cash = funded(&mut m, BOB, 50);
    m.create_exchange(ALICE, escrow_rec, alice_cash, 50).unwrap();
    m.create_nft(78, BOB, 5, vec![]).unwrap();
    let wrong_rec = m.create_user(1, Holder::Key(BOB)).unwrap();
    assert_eq!(m.process_exchange(0, BOB, bob_cash, wrong_rec), Err(MarketError::AssetMismatch));
    let carol_rec = m.create_user(0, Holder::Key(CAROL)).unwrap();
    assert_eq!(m.process_exchange(0, BOB, bob_cash, carol_rec), Err(MarketError::RecipientMismatch));
    assert_eq!(cash(&m, bob_cash), 50);
    assert_eq!(cash(&m, alice_cash), 0);
    assert_eq!(units(&m, escrow_rec), 100);
    assert!(m.exchange(0).ongoing);
}

#[test]
fn exchange_creation_errors() {
    let Setup { mut m, alice_rec, escrow_rec } = escrowed(Holder::ExchangeEscrow(ALICE));
    let alice_cash = funded(&mut m, ALICE, 0);
    let bob_cash = funded(&mut m, BOB, 0);
    assert_eq!(m.create_exchange(ALICE, alice_rec, alice_cash, 5), Err(MarketError::EscrowMismatch));
    assert_eq!(m.create_exchange(ALICE, 99, alice_cash, 5), Err(MarketError::UnknownRecord));
    assert_eq!(m.create_exchange(ALICE, escrow_rec, 99, 5), Err(MarketError::UnknownAccount));
    assert_eq!(m.create_exchange(ALICE, escrow_rec, bob_cash, 5), Err(MarketError::RecipientMismatch));
    assert_eq!(m.num_exchanges(), 0);
    assert_eq!(m.process_exchange(0, BOB, bob_cash, 0), Err(MarketError::UnknownListing));
}

#[test]
fn escrow_cannot_be_moved_by_any_key() {
    let Setup { mut m, alice_rec, escrow_rec } = escrowed(Holder::AuctionEscrow(ALICE));
    assert_eq!(m.transfer(escrow_rec, alice_rec, 1, ALICE), Err(MarketError::Unauthorized));
    assert_eq!(m.approve(escrow_rec, ALICE, 100, ALICE), Err(MarketError::Unauthorized));
    assert_eq!(units(&m, escrow_rec), 100);
}

#[test]
fn auction_scenario() {
    let Setup { mut m, escrow_rec, .. } = escrowed(Holder::AuctionEscrow(ALICE));
    let seller_cash = funded(&mut m, ALICE, 0);
    let bob_cash = funded(&mut m, BOB, 12);
    let carol_cash = funded(&mut m, CAROL, 15);
    assert_eq!(m.create_auction(ALICE, escrow_rec, 10), Ok(0));
    let escrow_cash = m.auction(0).currency_escrow;

    assert_eq!(m.process_bid(0, BOB, 12, bob_cash), Ok(()));
    assert_eq!(cash(&m, bob_cash), 0);
    assert_eq!(cash(&m, escrow_cash), 12);

    assert_eq!(m.process_bid(0, CAROL, 11, carol_cash), Err(MarketError::BidTooLow));
    assert_eq!(cash(&m, carol_cash), 15);

    assert_eq!(m.process_bid(0, CAROL, 15, carol_cash), Ok(()));
    assert_eq!(cash(&m, bob_cash), 12);
    assert_eq!(cash(&m, carol_cash), 0);
    assert_eq!(cash(&m, escrow_cash), 15);
    let a = m.auction(0);
    assert_eq!(a.price, 15);
    assert_eq!(a.current_bidder, CAROL);
    assert!(a.has_bid);

    let carol_rec = m.create_user(0, Holder::Key(CAROL)).unwrap();
    assert_eq!(m.close_auction(0, ALICE, seller_cash, carol_rec), Ok(()));
    assert_eq!(cash(&m, seller_cash), 15);
    assert_eq!(cash(&m, escrow_cash), 0);
    assert_eq!(units(&m, carol_rec), 100);
    assert_eq!(units(&m, escrow_rec), 0);
    assert!(!m.auction(0).ongoing);
}

#[test]
fn rising_bids_are_each_accepted() {
    let Setup { mut m, escrow_rec, .. } = escrowed(Holder::AuctionEscrow(ALICE));
    m.create_auction(ALICE, escrow_rec, 0).unwrap();
    let bob_cash = funded(&mut m, BOB, 1000);
    for p in [1u64, 2, 5, 40, 41, 999] {
        assert_eq!(m.process_bid(0, BOB, p, bob_cash), Ok(()));
        assert_eq!(m.auction(0).price, p);
        assert_eq!(cash(&m, bob_cash), 1000 - p);
    }
    assert_eq!(m.process_bid(0, BOB, 999, bob_cash), Err(MarketError::BidTooLow));
}

#[test]
fn bid_equal_to_reserve_is_too_low() {
    let Setup { mut m, escrow_rec, .. } = escrowed(Holder::AuctionEscrow(ALICE));
    m.create_auction(ALICE, escrow_rec, 10).unwrap();
    let bob_cash = funded(&mut m, BOB, 100);
    assert_eq!(m.process_bid(0, BOB, 10, bob_cash), Err(MarketError::BidTooLow));
    assert!(!m.auction(0).has_bid);
}

#[test]
fn refused_deposit_keeps_the_leading_bid() {
    let Setup { mut m, escrow_rec, .. } = escrowed(Holder::AuctionEscrow(ALICE));
    m.create_auction(ALICE, escrow_rec, 10).unwrap();
    let escrow_cash = m.auction(0).currency_escrow;
    let bob_cash = funded(&mut m, BOB, 12);
    let carol_cash = funded(&mut m, CAROL, 14);
    m.process_bid(0, BOB, 12, bob_cash).unwrap();
    assert_eq!(m.process_bid(0, CAROL, 15, carol_cash), Err(MarketError::InsufficientFunds));
    assert_eq!(cash(&m, bob_cash), 0);
    assert_eq!(cash(&m, escrow_cash), 12);
    assert_eq!(m.auction(0).current_bidder, BOB);
    assert_eq!(m.process_bid(0, CAROL, 13, bob_cash), Err(MarketError::Unauthorized));
    assert_eq!(m.process_bid(0, CAROL, 13, 99), Err(MarketError::UnknownAccount));
}

#[test]
fn closing_twice_fails() {
    let Setup { mut m, alice_rec, escrow_rec } = escrowed(Holder::AuctionEscrow(ALICE));
    m.create_auction(ALICE, escrow_rec, 10).unwrap();
    let seller_cash = funded(&mut m, ALICE, 0);
    assert_eq!(m.close_auction(0, BOB, seller_cash, alice_rec), Err(MarketError::Unauthorized));
    assert_eq!(m.close_auction(0, ALICE, seller_cash, alice_rec), Ok(()));
    assert_eq!(units(&m, alice_rec), 100);
    assert_eq!(cash(&m, seller_cash), 0);
    assert_eq!(m.close_auction(0, ALICE, seller_cash, alice_rec), Err(MarketError::AuctionClosed));
    let bob_cash = funded(&mut m, BOB, 50);
    assert_eq!(m.process_bid(0, BOB, 20, bob_cash), Err(MarketError::AuctionClosed));
}

#[test]
fn close_checks_receivers() {
    let Setup { mut m, alice_rec, escrow_rec } = escrowed(Holder::AuctionEscrow(ALICE));
    m.create_auction(ALICE, escrow_rec, 10).unwrap();
    let seller_cash = funded(&mut m, ALICE, 0);
    let bob_cash = funded(&mut m, BOB, 20);
    m.process_bid(0, BOB, 20, bob_cash).unwrap();
    assert_eq!(m.close_auction(0, ALICE, bob_cash, alice_rec), Err(MarketError::RecipientMismatch));
    assert_eq!(m.close_auction(0, ALICE, 99, alice_rec), Err(MarketError::UnknownAccount));
    assert_eq!(m.close_auction(0, ALICE, seller_cash, alice_rec), Err(MarketError::RecipientMismatch));
    assert_eq!(m.close_auction(0, ALICE, seller_cash, 99), Err(MarketError::UnknownRecord));
    assert_eq!(cash(&m, seller_cash), 0);
    assert!(m.auction(0).ongoing);
    assert_eq!(m.close_auction(5, ALICE, seller_cash, alice_rec), Err(MarketError::UnknownListing));
}

#[test]
fn auction_creation_errors() {
    let Setup { mut m, alice_rec, .. } = escrowed(Holder::AuctionEscrow(ALICE));
    assert_eq!(m.create_auction(ALICE, alice_rec, 10), Err(MarketError::EscrowMismatch));
    assert_eq!(m.create_auction(ALICE, 50, 10), Err(MarketError::UnknownRecord));
    assert_eq!(m.num_auctions(), 0);
    assert_eq!(m.process_bid(0, BOB, 1, 0), Err(MarketError::UnknownListing));
}

#[test]
fn escrowed_currency_cannot_be_paid_out_by_any_key() {
    let Setup { mut m, escrow_rec, .. } = escrowed(Holder::AuctionEscrow(ALICE));
    m.create_auction(ALICE, escrow_rec, 10).unwrap();
    let escrow_cash = m.auction(0).currency_escrow;
    let bob_cash = funded(&mut m, BOB, 20);
    m.process_bid(0, BOB, 20, bob_cash).unwrap();
    assert_eq!(m.pay(escrow_cash, bob_cash, 20, ALICE), Err(MarketError::Unauthorized));
    assert_eq!(m.pay(escrow_cash, bob_cash, 20, BOB), Err(MarketError::Unauthorized));
    assert_eq!(cash(&m, escrow_cash), 20);
}

#[test]
fn leading_bidder_may_raise_with_the_refund() {
    let Setup { mut m, escrow_rec, .. } = escrowed(Holder::AuctionEscrow(ALICE));
    m.create_auction(ALICE, escrow_rec, 10).unwrap();
    let escrow_cash = m.auction(0).currency_escrow;
    let bob_cash = funded(&mut m, BOB, 20);
    m.process_bid(0, BOB, 15, bob_cash).unwrap();
    assert_eq!(cash(&m, bob_cash), 5);
    assert_eq!(m.process_bid(0, BOB, 20, bob_cash), Ok(()));
    assert_eq!(cash(&m, bob_cash), 0);
    assert_eq!(cash(&m, escrow_cash), 20);
    assert_eq!(m.process_bid(0, BOB, 21, bob_cash), Err(MarketError::InsufficientFunds));
    assert_eq!(cash(&m, escrow_cash), 20);
    assert_eq!(cash(&m, bob_cash), 0);
}

#[test]
fn stranger_cannot_list_an_escrow_of_another_seller() {
    let Setup { mut m, escrow_rec, .. } = escrowed(Holder::AuctionEscrow(ALICE));
    assert_eq!(m.create_auction(CAROL, escrow_rec, 0), Err(MarketError::EscrowMismatch));
    assert_eq!(m.num_auctions(), 0);
    let carol_rec = m.create_user(0, Holder::Key(CAROL)).unwrap();
    let carol_cash = funded(&mut m, CAROL, 0);
    assert_eq!(m.create_exchange(CAROL, escrow_rec, carol_cash, 0), Err(MarketError::EscrowMismatch));
    assert_eq!(m.close_auction(0, CAROL, carol_cash, carol_rec), Err(MarketError::UnknownListing));
    assert_eq!(units(&m, escrow_rec), 100);
    assert_eq!(units(&m, carol_rec), 0);
}

#[test]
fn one_open_listing_per_escrow() {
    let Setup { mut m, escrow_rec, .. } = escrowed(Holder::AuctionEscrow(ALICE));
    assert_eq!(m.create_auction(ALICE, escrow_rec, 5), Ok(0));
    assert_eq!(m.create_auction(ALICE, escrow_rec, 5), Err(MarketError::DuplicateListing));
    let seller_cash = funded(&mut m, ALICE, 0);
    let alice_rec = 0;
    m.close_auction(0, ALICE, seller_cash, alice_rec).unwrap();
    assert_eq!(m.create_auction(ALICE, escrow_rec, 5), Ok(1));

    let xrec = m.create_user(0, Holder::ExchangeEscrow(ALICE)).unwrap();
    assert_eq!(m.create_exchange(ALICE, xrec, seller_cash, 5), Ok(0));
    assert_eq!(m.create_exchange(ALICE, xrec, seller_cash, 6), Err(MarketError::DuplicateListing));
}
