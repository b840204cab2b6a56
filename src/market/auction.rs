use vstd::prelude::*;
use crate::types::{Address, Holder, MarketError};
use crate::currency::CurrencyView;
use super::{Market, MarketView};

verus! {

/// An ascending-price auction of the units in one escrowed holder record.
///
/// While nobody has bid, `current_bidder` is the seller and `price` the
/// reserve. The currency of the leading bid waits in `currency_escrow` and
/// goes back to `refund_target` when a higher bid comes.
#[derive(Clone, Copy, Debug)]
pub struct Auction {
    pub ongoing: bool,
    pub seller: Address,
    pub current_bidder: Address,
    /// The holder record that escrows the asset.
    pub asset_escrow: usize,
    /// The currency account that escrows the leading bid.
    pub currency_escrow: usize,
    /// The currency account the leading bid came from.
    pub refund_target: Option<usize>,
    pub price: u64,
    pub has_bid: bool,
}

impl MarketView {
    pub open spec fn valid_auction(self, id: int) -> bool {
        0 <= id < self.auctions.len()
    }

    /// An open auction already sells the units of `record`.
    pub open spec fn auction_open_over(self, record: int) -> bool {
        exists|i: int| 0 <= i < self.auctions.len() && self.auctions[i].ongoing && self.auctions[i].asset_escrow == record
    }

    pub open spec fn create_auction_error(self, caller: Address, asset_escrow: int) -> Option<MarketError> {
        if !self.ledger.valid_record(asset_escrow) {
            Some(MarketError::UnknownRecord)
        } else if self.ledger.records[asset_escrow].holder != Holder::AuctionEscrow(caller) {
            Some(MarketError::EscrowMismatch)
        } else if self.auction_open_over(asset_escrow) {
            Some(MarketError::DuplicateListing)
        } else {
            None
        }
    }

    pub open spec fn create_auction_post(self, seller: Address, asset_escrow: usize, reserve: u64) -> MarketView {
        MarketView {
            currency: self.currency.open_post(Holder::AuctionEscrow(seller)),
            auctions: self.auctions.push(
                Auction {
                    ongoing: true,
                    seller,
                    current_bidder: seller,
                    asset_escrow,
                    currency_escrow: self.currency.accounts.len() as usize,
                    refund_target: None,
                    price: reserve,
                    has_bid: false,
                },
            ),
            ..self
        }
    }

    /// Handing the leading deposit of auction `id` back to where it came from.
    pub open spec fn refund_error(self, id: int) -> Option<MarketError> {
        let a = self.auctions[id];
        match a.refund_target {
            Some(t) => self.currency.pay_error(
                a.currency_escrow as int,
                t as int,
                a.price,
                Holder::AuctionEscrow(a.seller),
            ),
            None => None,
        }
    }

    pub open spec fn refunded(self, id: int) -> CurrencyView {
        let a = self.auctions[id];
        match a.refund_target {
            Some(t) => self.currency.pay_post(a.currency_escrow as int, t as int, a.price),
            None => self.currency,
        }
    }

    pub open spec fn bid_error(self, id: int, bidder: Address, price: u64, source: int) -> Option<
        MarketError,
    > {
        if !self.valid_auction(id) {
            Some(MarketError::UnknownListing)
        } else if !self.auctions[id].ongoing {
            Some(MarketError::AuctionClosed)
        } else if price <= self.auctions[id].price {
            Some(MarketError::BidTooLow)
        } else if self.refund_error(id) is Some {
            self.refund_error(id)
        } else {
            self.refunded(id).pay_error(
                source,
                self.auctions[id].currency_escrow as int,
                price,
                Holder::Key(bidder),
            )
        }
    }

    pub open spec fn bid_post(self, id: int, bidder: Address, price: u64, source: usize) -> MarketView {
        let a = self.auctions[id];
        MarketView {
            currency: self.refunded(id).pay_post(source as int, a.currency_escrow as int, price),
            auctions: self.auctions.update(
                id,
                Auction {
                    current_bidder: bidder,
                    refund_target: Some(source),
                    price,
                    has_bid: true,
                    ..a
                },
            ),
            ..self
        }
    }

    /// The winning price of auction `id` going to the seller's `payout` account.
    pub open spec fn payout_error(self, id: int, payout: int) -> Option<MarketError> {
        let a = self.auctions[id];
        if !a.has_bid {
            None
        } else if !self.currency.valid_account(payout) {
            Some(MarketError::UnknownAccount)
        } else if self.currency.accounts[payout].owner != Holder::Key(a.seller) {
            Some(MarketError::RecipientMismatch)
        } else {
            self.currency.pay_error(
                a.currency_escrow as int,
                payout,
                a.price,
                Holder::AuctionEscrow(a.seller),
            )
        }
    }

    pub open spec fn paid_out(self, id: int, payout: int) -> CurrencyView {
        let a = self.auctions[id];
        if a.has_bid {
            self.currency.pay_post(a.currency_escrow as int, payout, a.price)
        } else {
            self.currency
        }
    }

    /// The escrowed units of auction `id` going to the record `receiver` of
    /// the current bidder (the seller, when nobody bid).
    pub open spec fn handover_error(self, id: int, receiver: int) -> Option<MarketError> {
        let a = self.auctions[id];
        if !self.ledger.valid_record(receiver) {
            Some(MarketError::UnknownRecord)
        } else if self.ledger.records[receiver].holder != Holder::Key(a.current_bidder) {
            Some(MarketError::RecipientMismatch)
        } else {
            self.ledger.release_error(
                a.asset_escrow as int,
                receiver,
                self.ledger.records[a.asset_escrow as int].balance,
                Holder::AuctionEscrow(a.seller),
            )
        }
    }

    pub open spec fn close_auction_error(self, id: int, caller: Address, payout: int, receiver: int) -> Option<
        MarketError,
    > {
        if !self.valid_auction(id) {
            Some(MarketError::UnknownListing)
        } else if !self.auctions[id].ongoing {
            Some(MarketError::AuctionClosed)
        } else if caller != self.auctions[id].seller {
            Some(MarketError::Unauthorized)
        } else if self.payout_error(id, payout) is Some {
            self.payout_error(id, payout)
        } else {
            self.handover_error(id, receiver)
        }
    }

    pub open spec fn close_auction_post(self, id: int, payout: int, receiver: int) -> MarketView {
        let a = self.auctions[id];
        MarketView {
            ledger: self.ledger.release_post(
                a.asset_escrow as int,
                receiver,
                self.ledger.records[a.asset_escrow as int].balance,
            ),
            currency: self.paid_out(id, payout),
            auctions: self.auctions.update(id, Auction { ongoing: false, ..a }),
            ..self
        }
    }
}

/// A bid at or below the current price of an open auction is always refused
/// as too low.
pub proof fn lemma_low_bid_refused(m: MarketView, id: int, bidder: Address, price: u64, source: int)
    requires
        m.valid_auction(id),
        m.auctions[id].ongoing,
        price <= m.auctions[id].price,
    ensures
        m.bid_error(id, bidder, price, source) == Some(MarketError::BidTooLow),
{
}

/// An accepted bid leaves the auction open at the bid's price, led by the
/// bidder. So of a later bid, exactly those above that price pass the price
/// test: strictly rising bids are each judged on their funds alone.
pub proof fn lemma_bid_raises_price(
    m: MarketView,
    id: int,
    bidder: Address,
    price: u64,
    source: usize,
    next_bidder: Address,
    next_price: u64,
    next_source: int,
)
    requires
        m.bid_error(id, bidder, price, source as int) is None,
    ensures
        ({
            let n = m.bid_post(id, bidder, price, source);
            &&& n.auctions[id].ongoing
            &&& n.auctions[id].price == price
            &&& price > m.auctions[id].price
            &&& n.auctions[id].current_bidder == bidder
            &&& n.auctions[id].has_bid
            &&& (n.bid_error(id, next_bidder, next_price, next_source) == Some(MarketError::BidTooLow)
                <==> next_price <= price)
            &&& n.bid_error(id, next_bidder, next_price, next_source) != Some(
                MarketError::AuctionClosed,
            )
        }),
{
}

/// An accepted bid first hands the previous leading deposit back to the
/// account it came from, in full.
pub proof fn lemma_outbid_refunded(m: MarketView, id: int, bidder: Address, price: u64, source: usize)
    requires
        m.bid_error(id, bidder, price, source as int) is None,
        m.auctions[id].refund_target is Some,
        m.auctions[id].refund_target->0 != m.auctions[id].currency_escrow,
    ensures
        ({
            let a = m.auctions[id];
            let t = a.refund_target->0 as int;
            m.refunded(id).accounts[t].balance == m.currency.accounts[t].balance + a.price
        }),
{
}

/// Closing settles an auction once: a closed auction pays the seller the
/// winning price if anyone bid, and afterwards every further close and every
/// further bid is refused with `AuctionClosed`.
pub proof fn lemma_close_once(
    m: MarketView,
    id: int,
    caller: Address,
    payout: int,
    receiver: int,
    later_caller: Address,
    later_payout: int,
    later_receiver: int,
    bidder: Address,
    price: u64,
    source: int,
)
    requires
        m.close_auction_error(id, caller, payout, receiver) is None,
    ensures
        ({
            let a = m.auctions[id];
            let n = m.close_auction_post(id, payout, receiver);
            &&& !n.auctions[id].ongoing
            &&& a.has_bid && payout != a.currency_escrow ==> n.currency.accounts[payout].balance
                == m.currency.accounts[payout].balance + a.price
            &&& !a.has_bid ==> n.currency == m.currency
            &&& n.close_auction_error(id, later_caller, later_payout, later_receiver) == Some(
                MarketError::AuctionClosed,
            )
            &&& n.bid_error(id, bidder, price, source) == Some(MarketError::AuctionClosed)
        }),
{
}

/// In a well-formed market, a bid on an open auction above its price is
/// accepted when the bidder's key holds `source`, `source` covers the price
/// once the previous deposit has been refunded, and neither the refund nor
/// the deposit overflows its receiving account. The previous leader gets the
/// whole previous price back, and the new bid leads.
pub proof fn lemma_funded_bid_accepted(m: MarketView, id: int, bidder: Address, price: u64, source: usize)
    requires
        m.wf(),
        m.valid_auction(id),
        m.auctions[id].ongoing,
        price > m.auctions[id].price,
        m.currency.valid_account(source as int),
        m.currency.accounts[source as int].owner == Holder::Key(bidder),
        m.refunded(id).accounts[source as int].balance >= price,
        m.auctions[id].refund_target is Some ==> m.currency.accounts[m.auctions[id].refund_target->0 as int].balance
            + m.auctions[id].price <= u64::MAX,
        m.refunded(id).accounts[m.auctions[id].currency_escrow as int].balance + price <= u64::MAX,
    ensures
        m.bid_error(id, bidder, price, source as int) is None,
        ({
            let a = m.auctions[id];
            let n = m.bid_post(id, bidder, price, source);
            &&& n.auctions[id].price == price
            &&& n.auctions[id].current_bidder == bidder
            &&& n.auctions[id].refund_target == Some(source)
            &&& n.auctions[id].ongoing
            &&& a.refund_target is Some ==> m.refunded(id).accounts[a.refund_target->0 as int].balance
                == m.currency.accounts[a.refund_target->0 as int].balance + a.price
        }),
{
    assert(m.auction_ok(id));
}

/// In a well-formed market, the seller closes an open auction that has a
/// bid when `payout` is an account of the seller's key with room for the
/// price and `receiver` is the leader's record of the same asset: the seller
/// is paid the price out of escrow, and the leader receives every escrowed
/// unit.
pub proof fn lemma_close_with_bid(m: MarketView, id: int, payout: int, receiver: int)
    requires
        m.wf(),
        m.valid_auction(id),
        m.auctions[id].ongoing,
        m.auctions[id].has_bid,
        m.currency.valid_account(payout),
        m.currency.accounts[payout].owner == Holder::Key(m.auctions[id].seller),
        m.currency.accounts[payout].balance + m.auctions[id].price <= u64::MAX,
        m.ledger.valid_record(receiver),
        m.ledger.records[receiver].holder == Holder::Key(m.auctions[id].current_bidder),
        m.ledger.records[receiver].asset == m.ledger.records[m.auctions[id].asset_escrow as int].asset,
    ensures
        m.close_auction_error(id, m.auctions[id].seller, payout, receiver) is None,
        ({
            let a = m.auctions[id];
            let n = m.close_auction_post(id, payout, receiver);
            let escrowed = m.ledger.records[a.asset_escrow as int].balance;
            &&& n.currency.accounts[payout].balance == m.currency.accounts[payout].balance + a.price
            &&& n.currency.accounts[a.currency_escrow as int].balance
                == m.currency.accounts[a.currency_escrow as int].balance - a.price
            &&& n.ledger.records[receiver].balance == m.ledger.records[receiver].balance + escrowed
            &&& n.ledger.records[a.asset_escrow as int].balance == 0
            &&& !n.auctions[id].ongoing
        }),
{
    let a = m.auctions[id];
    assert(m.auction_ok(id));
    crate::ledger::lemma_two_shares(
        m.ledger.records,
        a.asset_escrow as int,
        receiver,
        m.ledger.records[receiver].asset as int,
    );
}

/// An accepted bid keeps the market well formed, so the conditions of
/// [`lemma_funded_bid_accepted`] can be asked again of the next bid: a run of
/// rising, funded bids is accepted bid by bid.
pub proof fn lemma_bid_keeps_wf(m: MarketView, id: int, bidder: Address, price: u64, source: usize)
    requires
        m.wf(),
        m.bid_error(id, bidder, price, source as int) is None,
    ensures
        m.bid_post(id, bidder, price, source).wf(),
{
    let n = m.bid_post(id, bidder, price, source);
    assert(m.auction_ok(id));
    assert forall|i: int| 0 <= i < n.auctions.len() implies #[trigger] n.auction_ok(i) by {
        assert(m.auction_ok(i));
        if i != id {
            assert(m.auctions[i].currency_escrow != m.auctions[id].currency_escrow);
        }
    }
    assert forall|i: int| 0 <= i < n.exchanges.len() implies #[trigger] n.exchange_ok(i) by {
        assert(m.exchange_ok(i));
    }
}

/// Only the seller that an escrow names can open a listing over it: an
/// auction or an exchange over a record is created only by the key whose
/// auction or exchange escrow holds that record.
pub proof fn lemma_only_seller_lists(m: MarketView, caller: Address, record: int, receiver: int)
    ensures
        m.create_auction_error(caller, record) is None ==> m.ledger.records[record].holder
            == Holder::AuctionEscrow(caller),
        m.create_exchange_error(caller, record, receiver) is None ==> m.ledger.records[record].holder
            == Holder::ExchangeEscrow(caller),
{
}

impl Market {
    /// Opens an auction, with the caller as seller, of the units in
    /// `asset_escrow` at reserve price `reserve`, and returns its position.
    /// The record must be the caller's own auction escrow,
    /// `Holder::AuctionEscrow(caller)`, and no open auction may sell it yet.
    pub fn create_auction(&mut self, caller: Address, asset_escrow: usize, reserve: u64) -> (r: Result<usize, MarketError>)
        requires
            old(self)@.wf(),
        ensures
            final(self)@.wf(),
            match old(self)@.create_auction_error(caller, asset_escrow as int) {
                Some(e) => r == Err::<usize, MarketError>(e) && final(self)@ == old(self)@,
                None => r == Ok::<usize, MarketError>(old(self)@.auctions.len() as usize)
                    && final(self)@ == old(self)@.create_auction_post(caller, asset_escrow, reserve),
            },
    {
        let id = self.auctions.len();
        let seller = caller;
        if asset_escrow >= self.ledger.num_records() {
            return Err(MarketError::UnknownRecord);
        }
        if self.ledger.record(asset_escrow).holder != Holder::AuctionEscrow(seller) {
            return Err(MarketError::EscrowMismatch);
        }
        let mut i: usize = 0;
        while i < self.auctions.len()
            invariant
                i <= self.auctions@.len(),
                self@ == old(self)@,
                old(self)@.wf(),
                asset_escrow < old(self)@.ledger.records.len(),
                old(self)@.ledger.records[asset_escrow as int].holder == Holder::AuctionEscrow(caller),
                forall|k: int| 0 <= k < i ==> !(self.auctions@[k].ongoing && self.auctions@[k].asset_escrow == asset_escrow),
            decreases self.auctions@.len() - i,
        {
            if self.auctions[i].ongoing && self.auctions[i].asset_escrow == asset_escrow {
                proof {
                    assert(self@.auctions[i as int].asset_escrow == asset_escrow);
                    assert(self@.auction_open_over(asset_escrow as int));
                }
                return Err(MarketError::DuplicateListing);
            }
            i = i + 1;
        }
        let currency_escrow = self.currency.open_account(Holder::AuctionEscrow(seller));
        self.auctions.push(
            Auction {
                ongoing: true,
                seller,
                current_bidder: seller,
                asset_escrow,
                currency_escrow,
                refund_target: None,
                price: reserve,
                has_bid: false,
            },
        );
        proof {
            let o = old(self)@;
            let n = self@;
            assert forall|i: int| 0 <= i < n.auctions.len() implies #[trigger] n.auction_ok(i) by {
                if i < o.auctions.len() {
                    assert(o.auction_ok(i));
                }
            }
            assert forall|i: int| 0 <= i < n.exchanges.len() implies #[trigger] n.exchange_ok(i) by {
                assert(o.exchange_ok(i));
            }
            assert forall|i: int, j: int|
                0 <= i < n.auctions.len() && 0 <= j < n.auctions.len() && i != j implies
                #[trigger] n.auctions[i].currency_escrow != #[trigger] n.auctions[j].currency_escrow by {
                if i < o.auctions.len() {
                    assert(o.auction_ok(i));
                }
                if j < o.auctions.len() {
                    assert(o.auction_ok(j));
                }
            }
        }
        Ok(id)
    }

    /// Bids `price` on auction `id`, paying it from the bidder's account
    /// `source` into escrow. The bid must exceed the current price. The
    /// previous leading deposit is refunded in full first; if either payment
    /// is refused, nothing changes.
    pub fn process_bid(&mut self, id: usize, bidder: Address, price: u64, source: usize) -> (r: Result<(), MarketError>)
        requires
            old(self)@.wf(),
        ensures
            final(self)@.wf(),
            match old(self)@.bid_error(id as int, bidder, price, source as int) {
                Some(e) => r == Err::<(), MarketError>(e) && final(self)@ == old(self)@,
                None => r is Ok && final(self)@ == old(self)@.bid_post(id as int, bidder, price, source),
            },
    {
        if id >= self.auctions.len() {
            return Err(MarketError::UnknownListing);
        }
        let mut a = self.auctions[id];
        if !a.ongoing {
            return Err(MarketError::AuctionClosed);
        }
        if price <= a.price {
            return Err(MarketError::BidTooLow);
        }
        let deposit = (source, a.currency_escrow, price, Holder::Key(bidder));
        let paid = match a.refund_target {
            Some(t) => self.currency.pay_both(
                (a.currency_escrow, t, a.price, Holder::AuctionEscrow(a.seller)),
                deposit,
            ),
            None => self.currency.pay(source, a.currency_escrow, price, Holder::Key(bidder)),
        };
        if let Err(e) = paid {
            return Err(e);
        }
        a.current_bidder = bidder;
        a.refund_target = Some(source);
        a.price = price;
        a.has_bid = true;
        self.auctions.set(id, a);
        proof {
            assert(self@.auctions =~= old(self)@.bid_post(id as int, bidder, price, source).auctions);
            let o = old(self)@;
            let n = self@;
            assert(o.auction_ok(id as int));
            assert forall|i: int| 0 <= i < n.auctions.len() implies #[trigger] n.auction_ok(i) by {
                assert(o.auction_ok(i));
                if i != id {
                    assert(o.auctions[i].currency_escrow != o.auctions[id as int].currency_escrow);
                }
            }
            assert forall|i: int| 0 <= i < n.exchanges.len() implies #[trigger] n.exchange_ok(i) by {
                assert(o.exchange_ok(i));
            }
        }
        Ok(())
    }

    /// Closes auction `id`; only its seller may. If anyone bid, the winning
    /// price goes from escrow to the seller's account `payout`. Either way the
    /// escrowed units go to `receiver`, the current bidder's record. If either
    /// leg is refused, nothing changes.
    pub fn close_auction(&mut self, id: usize, caller: Address, payout: usize, receiver: usize) -> (r: Result<(), MarketError>)
        requires
            old(self)@.wf(),
        ensures
            final(self)@.wf(),
            match old(self)@.close_auction_error(id as int, caller, payout as int, receiver as int) {
                Some(e) => r == Err::<(), MarketError>(e) && final(self)@ == old(self)@,
                None => r is Ok && final(self)@ == old(self)@.close_auction_post(id as int, payout as int, receiver as int),
            },
    {
        if id >= self.auctions.len() {
            return Err(MarketError::UnknownListing);
        }
        let mut a = self.auctions[id];
        if !a.ongoing {
            return Err(MarketError::AuctionClosed);
        }
        if caller != a.seller {
            return Err(MarketError::Unauthorized);
        }
        let escrow = Holder::AuctionEscrow(a.seller);
        if a.has_bid {
            if payout >= self.currency.num_accounts() {
                return Err(MarketError::UnknownAccount);
            }
            if self.currency.account(payout).owner != Holder::Key(a.seller) {
                return Err(MarketError::RecipientMismatch);
            }
            if let Some(e) = self.currency.check_pay(a.currency_escrow, payout, a.price, escrow) {
                return Err(e);
            }
        }
        if receiver >= self.ledger.num_records() {
            return Err(MarketError::UnknownRecord);
        }
        if self.ledger.record(receiver).holder != Holder::Key(a.current_bidder) {
            return Err(MarketError::RecipientMismatch);
        }
        if a.asset_escrow >= self.ledger.num_records() {
            return Err(MarketError::UnknownRecord);
        }
        let units = self.ledger.record(a.asset_escrow).balance;
        if let Some(e) = self.ledger.check_release(a.asset_escrow, receiver, units, escrow) {
            return Err(e);
        }
        if a.has_bid {
            let _ = self.currency.pay(a.currency_escrow, payout, a.price, escrow);
        }
        let _ = self.ledger.release(a.asset_escrow, receiver, units, escrow);
        a.ongoing = false;
        self.auctions.set(id, a);
        proof {
            assert(self@.auctions =~= old(self)@.close_auction_post(id as int, payout as int, receiver as int).auctions);
            let o = old(self)@;
            let n = self@;
            assert(o.auction_ok(id as int));
            assert forall|i: int| 0 <= i < n.auctions.len() implies #[trigger] n.auction_ok(i) by {
                assert(o.auction_ok(i));
                if i != id {
                    assert(o.auctions[i].currency_escrow != o.auctions[id as int].currency_escrow);
                }
            }
            assert forall|i: int| 0 <= i < n.exchanges.len() implies #[trigger] n.exchange_ok(i) by {
                assert(o.exchange_ok(i));
            }
        }
        Ok(())
    }
}

} // verus!
