use vstd::prelude::*;
use crate::types::{Address, Holder, MarketError};
use crate::ledger::{Ledger, LedgerView, TransferEvent};
use crate::currency::{CurrencyLedger, CurrencyView};

pub mod auction;
pub mod exchange;

pub use auction::Auction;
pub use exchange::Exchange;

verus! {

/// The ownership ledger, the currency ledger and every listing, kept
/// together so that only the listings of this market can move value out of
/// their own escrows.
pub struct Market {
    ledger: Ledger,
    currency: CurrencyLedger,
    auctions: Vec<Auction>,
    exchanges: Vec<Exchange>,
}

/// The mathematical contents of a [`Market`].
pub struct MarketView {
    pub ledger: LedgerView,
    pub currency: CurrencyView,
    pub auctions: Seq<Auction>,
    pub exchanges: Seq<Exchange>,
}

impl View for Market {
    type V = MarketView;

    closed spec fn view(&self) -> MarketView {
        MarketView {
            ledger: self.ledger@,
            currency: self.currency@,
            auctions: self.auctions@,
            exchanges: self.exchanges@,
        }
    }
}

impl MarketView {
    /// Auction `i` escrows its units in a record of its seller's auction
    /// escrow and the leading bid in an account of it; a refund target, set
    /// exactly when someone has bid, is a key's account; while nobody has bid
    /// the seller leads; and an open auction with a bid holds at least the
    /// price in escrow.
    pub open spec fn auction_ok(self, i: int) -> bool {
        let a = self.auctions[i];
        &&& self.ledger.valid_record(a.asset_escrow as int)
        &&& self.ledger.records[a.asset_escrow as int].holder == Holder::AuctionEscrow(a.seller)
        &&& self.currency.valid_account(a.currency_escrow as int)
        &&& self.currency.accounts[a.currency_escrow as int].owner == Holder::AuctionEscrow(a.seller)
        &&& (a.has_bid <==> a.refund_target is Some)
        &&& !a.has_bid ==> a.current_bidder == a.seller
        &&& a.refund_target is Some ==> self.currency.valid_account(a.refund_target->0 as int)
            && self.currency.accounts[a.refund_target->0 as int].owner is Key
        &&& a.ongoing && a.has_bid ==> self.currency.accounts[a.currency_escrow as int].balance >= a.price
    }

    /// Exchange `i` escrows its units in a record of its seller's exchange
    /// escrow and is paid into an account of the seller's key.
    pub open spec fn exchange_ok(self, i: int) -> bool {
        let x = self.exchanges[i];
        &&& self.ledger.valid_record(x.asset_escrow as int)
        &&& self.ledger.records[x.asset_escrow as int].holder == Holder::ExchangeEscrow(x.seller)
        &&& self.currency.valid_account(x.currency_receiver as int)
        &&& self.currency.accounts[x.currency_receiver as int].owner == Holder::Key(x.seller)
    }

    /// The ledger is well formed, every listing is as above, and no two
    /// auctions share a currency escrow account.
    pub open spec fn wf(self) -> bool {
        &&& self.ledger.wf()
        &&& forall|i: int| 0 <= i < self.auctions.len() ==> #[trigger] self.auction_ok(i)
        &&& forall|i: int| 0 <= i < self.exchanges.len() ==> #[trigger] self.exchange_ok(i)
        &&& forall|i: int, j: int|
            0 <= i < self.auctions.len() && 0 <= j < self.auctions.len() && i != j
                ==> #[trigger] self.auctions[i].currency_escrow != #[trigger] self.auctions[j].currency_escrow
    }

    pub open spec fn with_ledger(self, ledger: LedgerView) -> MarketView {
        MarketView { ledger, ..self }
    }

    pub open spec fn with_currency(self, currency: CurrencyView) -> MarketView {
        MarketView { currency, ..self }
    }
}

/// A step that keeps the ledger well formed, keeps every record's holder and
/// removes none leaves a well-formed market well formed.
pub proof fn lemma_ledger_step(m: MarketView, l: LedgerView)
    requires
        m.wf(),
        l.wf(),
        l.records.len() >= m.ledger.records.len(),
        forall|k: int| 0 <= k < m.ledger.records.len() ==> #[trigger] l.records[k].holder == m.ledger.records[k].holder,
    ensures
        m.with_ledger(l).wf(),
{
    let n = m.with_ledger(l);
    assert forall|i: int| 0 <= i < n.auctions.len() implies #[trigger] n.auction_ok(i) by {
        assert(m.auction_ok(i));
    }
    assert forall|i: int| 0 <= i < n.exchanges.len() implies #[trigger] n.exchange_ok(i) by {
        assert(m.exchange_ok(i));
    }
}

/// A currency step that keeps every owner, removes no account and lowers no
/// escrow's balance leaves a well-formed market well formed.
pub proof fn lemma_currency_step(m: MarketView, c: CurrencyView)
    requires
        m.wf(),
        c.accounts.len() >= m.currency.accounts.len(),
        forall|k: int| 0 <= k < m.currency.accounts.len() ==> #[trigger] c.accounts[k].owner == m.currency.accounts[k].owner,
        forall|k: int| 0 <= k < m.currency.accounts.len() && !(m.currency.accounts[k].owner is Key)
            ==> #[trigger] c.accounts[k].balance >= m.currency.accounts[k].balance,
    ensures
        m.with_currency(c).wf(),
{
    let n = m.with_currency(c);
    assert forall|i: int| 0 <= i < n.auctions.len() implies #[trigger] n.auction_ok(i) by {
        assert(m.auction_ok(i));
    }
    assert forall|i: int| 0 <= i < n.exchanges.len() implies #[trigger] n.exchange_ok(i) by {
        assert(m.exchange_ok(i));
    }
}

impl Market {
    /// An empty market whose currency is issued by `mint_authority`.
    pub fn new(mint_authority: Address) -> (r: Market)
        ensures
            r@.wf(),
            r@.ledger.assets.len() == 0,
            r@.ledger.records.len() == 0,
            r@.currency.mint_authority == mint_authority,
            r@.currency.accounts.len() == 0,
            r@.auctions.len() == 0,
            r@.exchanges.len() == 0,
    {
        Market {
            ledger: Ledger::new(),
            currency: CurrencyLedger::new(mint_authority),
            auctions: Vec::new(),
            exchanges: Vec::new(),
        }
    }

    pub fn ledger(&self) -> (r: &Ledger)
        ensures
            r@ == self@.ledger,
    {
        &self.ledger
    }

    pub fn currency(&self) -> (r: &CurrencyLedger)
        ensures
            r@ == self@.currency,
    {
        &self.currency
    }

    pub fn num_auctions(&self) -> (r: usize)
        ensures
            r == self@.auctions.len(),
    {
        self.auctions.len()
    }

    pub fn auction(&self, id: usize) -> (r: Auction)
        requires
            id < self@.auctions.len(),
        ensures
            r == self@.auctions[id as int],
    {
        self.auctions[id]
    }

    pub fn num_exchanges(&self) -> (r: usize)
        ensures
            r == self@.exchanges.len(),
    {
        self.exchanges.len()
    }

    pub fn exchange(&self, id: usize) -> (r: Exchange)
        requires
            id < self@.exchanges.len(),
        ensures
            r == self@.exchanges[id as int],
    {
        self.exchanges[id]
    }

    /// See [`Ledger::create_nft`].
    pub fn create_nft(&mut self, id: Address, authority: Address, supply: u64, metadata: Vec<u8>) -> (r: Result<usize, MarketError>)
        requires
            old(self)@.wf(),
        ensures
            final(self)@.wf(),
            old(self)@.ledger.has_asset_id(id) <==> r == Err::<usize, MarketError>(MarketError::DuplicateAsset),
            !old(self)@.ledger.has_asset_id(id) ==> r is Ok,
            r is Err ==> final(self)@ == old(self)@,
            r is Ok ==> r.unwrap() == old(self)@.ledger.assets.len() && final(self)@ == old(self)@.with_ledger(
                LedgerView {
                    assets: old(self)@.ledger.assets.push(
                        crate::ledger::Asset { id, supply, remaining_undistributed: supply, metadata, authority },
                    ),
                    records: old(self)@.ledger.records,
                },
            ),
    {
        let r = self.ledger.create_nft(id, authority, supply, metadata);
        proof {
            lemma_ledger_step(old(self)@, self@.ledger);
        }
        r
    }

    /// See [`Ledger::create_user`].
    pub fn create_user(&mut self, asset: usize, holder: Holder) -> (r: Result<usize, MarketError>)
        requires
            old(self)@.wf(),
        ensures
            final(self)@.wf(),
            asset >= old(self)@.ledger.assets.len() <==> r == Err::<usize, MarketError>(MarketError::UnknownAsset),
            asset < old(self)@.ledger.assets.len() ==> r is Ok,
            r is Err ==> final(self)@ == old(self)@,
            r is Ok && old(self)@.ledger.has_record(asset as int, holder) ==> final(self)@ == old(self)@,
            r is Ok && !old(self)@.ledger.has_record(asset as int, holder) ==> final(self)@ == old(self)@.with_ledger(
                old(self)@.ledger.with_records(
                    old(self)@.ledger.records.push(crate::ledger::empty_record(asset, holder)),
                ),
            ),
            r is Ok ==> r.unwrap() < final(self)@.ledger.records.len()
                && final(self)@.ledger.records[r.unwrap() as int].asset == asset
                && final(self)@.ledger.records[r.unwrap() as int].holder == holder,
    {
        let r = self.ledger.create_user(asset, holder);
        proof {
            lemma_ledger_step(old(self)@, self@.ledger);
        }
        r
    }

    /// See [`Ledger::distribute`].
    pub fn distribute(&mut self, asset: usize, to: usize, amount: u64, caller: Address) -> (r: Result<(), MarketError>)
        requires
            old(self)@.wf(),
        ensures
            final(self)@.wf(),
            match old(self)@.ledger.distribute_error(asset as int, to as int, amount, caller) {
                Some(e) => r == Err::<(), MarketError>(e) && final(self)@ == old(self)@,
                None => r is Ok && final(self)@ == old(self)@.with_ledger(
                    old(self)@.ledger.distribute_post(asset as int, to as int, amount),
                ),
            },
    {
        let r = self.ledger.distribute(asset, to, amount, caller);
        proof {
            lemma_ledger_step(old(self)@, self@.ledger);
        }
        r
    }

    /// See [`Ledger::transfer`].
    pub fn transfer(&mut self, from: usize, to: usize, amount: u64, caller: Address) -> (r: Result<TransferEvent, MarketError>)
        requires
            old(self)@.wf(),
        ensures
            final(self)@.wf(),
            match old(self)@.ledger.transfer_error(from as int, to as int, amount, caller) {
                Some(e) => r == Err::<TransferEvent, MarketError>(e) && final(self)@ == old(self)@,
                None => r == Ok::<TransferEvent, MarketError>(
                    TransferEvent { asset: old(self)@.ledger.records[from as int].asset, from, to, amount },
                ) && final(self)@ == old(self)@.with_ledger(
                    old(self)@.ledger.transfer_post(from as int, to as int, amount, caller),
                ),
            },
    {
        let r = self.ledger.transfer(from, to, amount, caller);
        proof {
            lemma_ledger_step(old(self)@, self@.ledger);
        }
        r
    }

    /// See [`Ledger::approve`].
    pub fn approve(&mut self, record: usize, delegate: Address, amount: u64, caller: Address) -> (r: Result<(), MarketError>)
        requires
            old(self)@.wf(),
        ensures
            final(self)@.wf(),
            match old(self)@.ledger.approve_error(record as int, caller) {
                Some(e) => r == Err::<(), MarketError>(e) && final(self)@ == old(self)@,
                None => r is Ok && final(self)@ == old(self)@.with_ledger(
                    old(self)@.ledger.approve_post(record as int, delegate, amount),
                ),
            },
    {
        let r = self.ledger.approve(record, delegate, amount, caller);
        proof {
            lemma_ledger_step(old(self)@, self@.ledger);
        }
        r
    }

    /// See [`CurrencyLedger::open_account`].
    pub fn open_account(&mut self, owner: Holder) -> (r: usize)
        requires
            old(self)@.wf(),
        ensures
            final(self)@.wf(),
            r == old(self)@.currency.accounts.len(),
            final(self)@ == old(self)@.with_currency(old(self)@.currency.open_post(owner)),
    {
        let r = self.currency.open_account(owner);
        proof {
            lemma_currency_step(old(self)@, self@.currency);
        }
        r
    }

    /// See [`CurrencyLedger::mint`].
    pub fn mint(&mut self, account: usize, amount: u64, caller: Address) -> (r: Result<(), MarketError>)
        requires
            old(self)@.wf(),
        ensures
            final(self)@.wf(),
            match old(self)@.currency.mint_error(account as int, amount, caller) {
                Some(e) => r == Err::<(), MarketError>(e) && final(self)@ == old(self)@,
                None => r is Ok && final(self)@ == old(self)@.with_currency(
                    old(self)@.currency.mint_post(account as int, amount),
                ),
            },
    {
        let r = self.currency.mint(account, amount, caller);
        proof {
            lemma_currency_step(old(self)@, self@.currency);
        }
        r
    }

    /// See [`CurrencyLedger::transfer`].
    pub fn pay(&mut self, from: usize, to: usize, amount: u64, caller: Address) -> (r: Result<(), MarketError>)
        requires
            old(self)@.wf(),
        ensures
            final(self)@.wf(),
            match old(self)@.currency.pay_error(from as int, to as int, amount, Holder::Key(caller)) {
                Some(e) => r == Err::<(), MarketError>(e) && final(self)@ == old(self)@,
                None => r is Ok && final(self)@ == old(self)@.with_currency(
                    old(self)@.currency.pay_post(from as int, to as int, amount),
                ),
            },
    {
        let r = self.currency.transfer(from, to, amount, caller);
        proof {
            lemma_currency_step(old(self)@, self@.currency);
        }
        r
    }
}

} // verus!
