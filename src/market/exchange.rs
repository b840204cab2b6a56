use vstd::prelude::*;
use crate::types::{Address, Holder, MarketError};
use super::{Market, MarketView};

verus! {

/// A fixed-price sale of the units in one escrowed holder record.
#[derive(Clone, Copy, Debug)]
pub struct Exchange {
    pub ongoing: bool,
    pub seller: Address,
    pub buyer: Option<Address>,
    /// The holder record that escrows the asset.
    pub asset_escrow: usize,
    /// The seller's currency account that receives the price.
    pub currency_receiver: usize,
    pub price: u64,
}

impl MarketView {
    pub open spec fn valid_exchange(self, id: int) -> bool {
        0 <= id < self.exchanges.len()
    }

    /// An open exchange already sells the units of `record`.
    pub open spec fn exchange_open_over(self, record: int) -> bool {
        exists|i: int| 0 <= i < self.exchanges.len() && self.exchanges[i].ongoing && self.exchanges[i].asset_escrow == record
    }

    pub open spec fn create_exchange_error(self, seller: Address, asset_escrow: int, currency_receiver: int) -> Option<
        MarketError,
    > {
        if !self.ledger.valid_record(asset_escrow) {
            Some(MarketError::UnknownRecord)
        } else if self.ledger.records[asset_escrow].holder != Holder::ExchangeEscrow(seller) {
            Some(MarketError::EscrowMismatch)
        } else if self.exchange_open_over(asset_escrow) {
            Some(MarketError::DuplicateListing)
        } else if !self.currency.valid_account(currency_receiver) {
            Some(MarketError::UnknownAccount)
        } else if self.currency.accounts[currency_receiver].owner != Holder::Key(seller) {
            Some(MarketError::RecipientMismatch)
        } else {
            None
        }
    }

    pub open spec fn create_exchange_post(
        self,
        seller: Address,
        asset_escrow: usize,
        currency_receiver: usize,
        price: u64,
    ) -> MarketView {
        MarketView {
            exchanges: self.exchanges.push(
                Exchange { ongoing: true, seller, buyer: None, asset_escrow, currency_receiver, price },
            ),
            ..self
        }
    }

    /// The currency leg of settling exchange `id`: the price from the buyer's
    /// account `source` to the seller's receiver.
    pub open spec fn settle_payment_error(self, id: int, buyer: Address, source: int) -> Option<MarketError> {
        let x = self.exchanges[id];
        self.currency.pay_error(source, x.currency_receiver as int, x.price, Holder::Key(buyer))
    }

    /// The asset leg of settling exchange `id`: every escrowed unit to the
    /// buyer's record `receiver`.
    pub open spec fn settle_delivery_error(self, id: int, buyer: Address, receiver: int) -> Option<
        MarketError,
    > {
        let x = self.exchanges[id];
        if !self.ledger.valid_record(receiver) {
            Some(MarketError::UnknownRecord)
        } else if self.ledger.records[receiver].holder != Holder::Key(buyer) {
            Some(MarketError::RecipientMismatch)
        } else {
            self.ledger.release_error(
                x.asset_escrow as int,
                receiver,
                self.ledger.records[x.asset_escrow as int].balance,
                Holder::ExchangeEscrow(x.seller),
            )
        }
    }

    pub open spec fn settle_error(self, id: int, buyer: Address, source: int, receiver: int) -> Option<
        MarketError,
    > {
        if !self.valid_exchange(id) {
            Some(MarketError::UnknownListing)
        } else if !self.exchanges[id].ongoing {
            Some(MarketError::ExchangeClosed)
        } else if self.settle_payment_error(id, buyer, source) is Some {
            self.settle_payment_error(id, buyer, source)
        } else {
            self.settle_delivery_error(id, buyer, receiver)
        }
    }

    pub open spec fn settle_post(self, id: int, buyer: Address, source: int, receiver: int) -> MarketView {
        let x = self.exchanges[id];
        MarketView {
            ledger: self.ledger.release_post(
                x.asset_escrow as int,
                receiver,
                self.ledger.records[x.asset_escrow as int].balance,
            ),
            currency: self.currency.pay_post(source, x.currency_receiver as int, x.price),
            exchanges: self.exchanges.update(id, Exchange { ongoing: false, buyer: Some(buyer), ..x }),
            ..self
        }
    }
}

/// Settling an exchange moves both legs together: the buyer pays exactly
/// the price into the seller's receiver, every escrowed unit reaches the
/// buyer's record, and the listing closes, so a second settlement is refused
/// with `ExchangeClosed`. (A refused settlement changes nothing: see
/// [`Market::process_exchange`].)
pub proof fn lemma_settle_both_legs(
    m: MarketView,
    id: int,
    buyer: Address,
    source: int,
    receiver: int,
    later_buyer: Address,
    later_source: int,
    later_receiver: int,
)
    requires
        m.wf(),
        m.settle_error(id, buyer, source, receiver) is None,
        source != m.exchanges[id].currency_receiver,
    ensures
        ({
            let x = m.exchanges[id];
            let n = m.settle_post(id, buyer, source, receiver);
            let escrowed = m.ledger.records[x.asset_escrow as int].balance;
            &&& n.currency.accounts[source].balance == m.currency.accounts[source].balance - x.price
            &&& n.currency.accounts[x.currency_receiver as int].balance
                == m.currency.accounts[x.currency_receiver as int].balance + x.price
            &&& n.ledger.records[receiver].balance == m.ledger.records[receiver].balance + escrowed
            &&& n.ledger.records[x.asset_escrow as int].balance == 0
            &&& !n.exchanges[id].ongoing
            &&& n.exchanges[id].buyer == Some(buyer)
            &&& n.settle_error(id, later_buyer, later_source, later_receiver) == Some(
                MarketError::ExchangeClosed,
            )
        }),
{
    let x = m.exchanges[id];
    crate::ledger::lemma_two_shares(
        m.ledger.records,
        x.asset_escrow as int,
        receiver,
        m.ledger.records[receiver].asset as int,
    );
}

/// In a well-formed market, an open exchange settles when the buyer's key
/// holds `source`, `source` covers the price, the seller's receiver has room
/// for it, and `receiver` is the buyer's record of the same asset.
pub proof fn lemma_funded_settle_accepted(m: MarketView, id: int, buyer: Address, source: int, receiver: int)
    requires
        m.wf(),
        m.valid_exchange(id),
        m.exchanges[id].ongoing,
        m.currency.valid_account(source),
        m.currency.accounts[source].owner == Holder::Key(buyer),
        m.currency.accounts[source].balance >= m.exchanges[id].price,
        source != m.exchanges[id].currency_receiver ==> m.currency.accounts[m.exchanges[id].currency_receiver as int].balance
            + m.exchanges[id].price <= u64::MAX,
        m.ledger.valid_record(receiver),
        m.ledger.records[receiver].holder == Holder::Key(buyer),
        m.ledger.records[receiver].asset == m.ledger.records[m.exchanges[id].asset_escrow as int].asset,
    ensures
        m.settle_error(id, buyer, source, receiver) is None,
{
    assert(m.exchange_ok(id));
}

/// In a well-formed market, settling an open exchange from a buyer's
/// account that holds less than the price is refused with
/// `InsufficientFunds` (and a refused settlement changes nothing).
pub proof fn lemma_unfunded_settle_refused(m: MarketView, id: int, buyer: Address, source: int, receiver: int)
    requires
        m.wf(),
        m.valid_exchange(id),
        m.exchanges[id].ongoing,
        m.currency.valid_account(source),
        m.currency.accounts[source].owner == Holder::Key(buyer),
        m.currency.accounts[source].balance < m.exchanges[id].price,
    ensures
        m.settle_error(id, buyer, source, receiver) == Some(MarketError::InsufficientFunds),
{
    assert(m.exchange_ok(id));
}

impl Market {
    /// Lists, with the caller as seller, the units in `asset_escrow` for sale
    /// at `price`, paid into the caller's account `currency_receiver`, and
    /// returns the listing's position. The record must be the caller's own
    /// exchange escrow, `Holder::ExchangeEscrow(caller)`, and no open exchange
    /// may sell it yet.
    pub fn create_exchange(&mut self, caller: Address, asset_escrow: usize, currency_receiver: usize, price: u64) -> (r: Result<usize, MarketError>)
        requires
            old(self)@.wf(),
        ensures
            final(self)@.wf(),
            match old(self)@.create_exchange_error(caller, asset_escrow as int, currency_receiver as int) {
                Some(e) => r == Err::<usize, MarketError>(e) && final(self)@ == old(self)@,
                None => r == Ok::<usize, MarketError>(old(self)@.exchanges.len() as usize)
                    && final(self)@ == old(self)@.create_exchange_post(caller, asset_escrow, currency_receiver, price),
            },
    {
        let id = self.exchanges.len();
        let seller = caller;
        if asset_escrow >= self.ledger.num_records() {
            return Err(MarketError::UnknownRecord);
        }
        if self.ledger.record(asset_escrow).holder != Holder::ExchangeEscrow(seller) {
            return Err(MarketError::EscrowMismatch);
        }
        let mut i: usize = 0;
        while i < self.exchanges.len()
            invariant
                i <= self.exchanges@.len(),
                self@ == old(self)@,
                old(self)@.wf(),
                asset_escrow < old(self)@.ledger.records.len(),
                old(self)@.ledger.records[asset_escrow as int].holder == Holder::ExchangeEscrow(caller),
                forall|k: int| 0 <= k < i ==> !(self.exchanges@[k].ongoing && self.exchanges@[k].asset_escrow == asset_escrow),
            decreases self.exchanges@.len() - i,
        {
            if self.exchanges[i].ongoing && self.exchanges[i].asset_escrow == asset_escrow {
                proof {
                    assert(self@.exchanges[i as int].asset_escrow == asset_escrow);
                    assert(self@.exchange_open_over(asset_escrow as int));
                }
                return Err(MarketError::DuplicateListing);
            }
            i = i + 1;
        }
        if currency_receiver >= self.currency.num_accounts() {
            return Err(MarketError::UnknownAccount);
        }
        if self.currency.account(currency_receiver).owner != Holder::Key(seller) {
            return Err(MarketError::RecipientMismatch);
        }
        self.exchanges.push(
            Exchange { ongoing: true, seller, buyer: None, asset_escrow, currency_receiver, price },
        );
        proof {
            let o = old(self)@;
            let n = self@;
            assert forall|i: int| 0 <= i < n.auctions.len() implies #[trigger] n.auction_ok(i) by {
                assert(o.auction_ok(i));
            }
            assert forall|i: int| 0 <= i < n.exchanges.len() implies #[trigger] n.exchange_ok(i) by {
                if i < o.exchanges.len() {
                    assert(o.exchange_ok(i));
                }
            }
        }
        Ok(id)
    }

    /// Settles exchange `id`: the price goes from the buyer's account `source`
    /// to the seller, and every escrowed unit to the buyer's record
    /// `receiver`. Both legs are judged before either is made, so either both
    /// take effect or neither does.
    pub fn process_exchange(&mut self, id: usize, buyer: Address, source: usize, receiver: usize) -> (r: Result<(), MarketError>)
        requires
            old(self)@.wf(),
        ensures
            final(self)@.wf(),
            match old(self)@.settle_error(id as int, buyer, source as int, receiver as int) {
                Some(e) => r == Err::<(), MarketError>(e) && final(self)@ == old(self)@,
                None => r is Ok && final(self)@ == old(self)@.settle_post(id as int, buyer, source as int, receiver as int),
            },
    {
        if id >= self.exchanges.len() {
            return Err(MarketError::UnknownListing);
        }
        let mut x = self.exchanges[id];
        if !x.ongoing {
            return Err(MarketError::ExchangeClosed);
        }
        let by_buyer = Holder::Key(buyer);
        if let Some(e) = self.currency.check_pay(source, x.currency_receiver, x.price, by_buyer) {
            return Err(e);
        }
        if receiver >= self.ledger.num_records() {
            return Err(MarketError::UnknownRecord);
        }
        if self.ledger.record(receiver).holder != by_buyer {
            return Err(MarketError::RecipientMismatch);
        }
        if x.asset_escrow >= self.ledger.num_records() {
            return Err(MarketError::UnknownRecord);
        }
        let escrow = Holder::ExchangeEscrow(x.seller);
        let units = self.ledger.record(x.asset_escrow).balance;
        if let Some(e) = self.ledger.check_release(x.asset_escrow, receiver, units, escrow) {
            return Err(e);
        }
        let _ = self.currency.pay(source, x.currency_receiver, x.price, by_buyer);
        let _ = self.ledger.release(x.asset_escrow, receiver, units, escrow);
        x.ongoing = false;
        x.buyer = Some(buyer);
        self.exchanges.set(id, x);
        proof {
            assert(self@.exchanges =~= old(self)@.settle_post(id as int, buyer, source as int, receiver as int).exchanges);
            let o = old(self)@;
            let n = self@;
            assert forall|i: int| 0 <= i < n.auctions.len() implies #[trigger] n.auction_ok(i) by {
                assert(o.auction_ok(i));
            }
            assert forall|i: int| 0 <= i < n.exchanges.len() implies #[trigger] n.exchange_ok(i) by {
                assert(o.exchange_ok(i));
            }
        }
        Ok(())
    }
}

} // verus!
