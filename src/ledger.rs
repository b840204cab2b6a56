use vstd::prelude::*;
use crate::types::{Address, Holder, MarketError};

verus! {

/// A unique item whose ownership is divided into units.
pub struct Asset {
    pub id: Address,
    pub supply: u64,
    pub remaining_undistributed: u64,
    pub metadata: Vec<u8>,
    pub authority: Address,
}

/// The units of one asset that one holder owns, with an optional delegate
/// allowed to move up to `delegate_allowance` of them.
#[derive(Clone, Copy, Debug)]
pub struct OwnershipRecord {
    /// Position of the asset in the ledger's registry.
    pub asset: usize,
    pub holder: Holder,
    pub balance: u64,
    pub delegate: Option<Address>,
    pub delegate_allowance: u64,
}

/// The notice of a completed transfer, for the caller to pass on.
#[derive(Clone, Copy, Debug, PartialEq, Eq, Structural)]
pub struct TransferEvent {
    pub asset: usize,
    pub from: usize,
    pub to: usize,
    pub amount: u64,
}

/// The ownership ledger: the asset registry and every holder record.
pub struct Ledger {
    assets: Vec<Asset>,
    records: Vec<OwnershipRecord>,
}

/// The mathematical contents of a [`Ledger`].
pub struct LedgerView {
    pub assets: Seq<Asset>,
    pub records: Seq<OwnershipRecord>,
}

impl View for Ledger {
    type V = LedgerView;

    closed spec fn view(&self) -> LedgerView {
        LedgerView { assets: self.assets@, records: self.records@ }
    }
}

/// The units of asset `a` that record `r` holds.
pub open spec fn share_of(r: OwnershipRecord, a: int) -> int {
    if r.asset == a {
        r.balance as int
    } else {
        0
    }
}

/// The units of asset `a` held over all of `records`.
pub open spec fn units_held(records: Seq<OwnershipRecord>, a: int) -> int
    decreases records.len(),
{
    if records.len() == 0 {
        0
    } else {
        units_held(records.drop_last(), a) + share_of(records.last(), a)
    }
}

/// `caller` is not the holder of `r` but its delegate, and `amount` is
/// within the allowance.
pub open spec fn by_delegate(r: OwnershipRecord, caller: Address, amount: u64) -> bool {
    &&& r.holder != Holder::Key(caller)
    &&& r.delegate == Some(caller)
    &&& amount <= r.delegate_allowance
}

/// `caller` may move `amount` units out of `r`.
pub open spec fn may_move(r: OwnershipRecord, caller: Address, amount: u64) -> bool {
    r.holder == Holder::Key(caller) || by_delegate(r, caller, amount)
}

/// A fresh record: nothing held, no delegate.
pub open spec fn empty_record(asset: usize, holder: Holder) -> OwnershipRecord {
    OwnershipRecord { asset, holder, balance: 0, delegate: None, delegate_allowance: 0 }
}

/// `records` with `amount` units taken from `from` and given to `to`.
pub open spec fn move_units(
    records: Seq<OwnershipRecord>,
    from: int,
    to: int,
    amount: u64,
) -> Seq<OwnershipRecord> {
    let taken = records.update(
        from,
        OwnershipRecord { balance: (records[from].balance - amount) as u64, ..records[from] },
    );
    taken.update(to, OwnershipRecord { balance: (taken[to].balance + amount) as u64, ..taken[to] })
}

impl LedgerView {
    pub open spec fn has_asset_id(self, id: Address) -> bool {
        exists|i: int| 0 <= i < self.assets.len() && self.assets[i].id == id
    }

    pub open spec fn has_record(self, asset: int, holder: Holder) -> bool {
        exists|i: int|
            0 <= i < self.records.len() && self.records[i].asset == asset
                && self.records[i].holder == holder
    }

    pub open spec fn valid_record(self, i: int) -> bool {
        0 <= i < self.records.len()
    }

    /// Asset addresses are unique, each record names a registered asset, there
    /// is one record per (asset, holder), no escrow record has a delegate, and
    /// every asset's units are conserved.
    pub open spec fn wf(self) -> bool {
        &&& forall|i: int|
            0 <= i < self.records.len() && !(self.records[i].holder is Key) ==> self.records[i].delegate is None
        &&& forall|i: int, j: int|
            0 <= i < j < self.assets.len() ==> self.assets[i].id != self.assets[j].id
        &&& forall|i: int| 0 <= i < self.records.len() ==> self.records[i].asset < self.assets.len()
        &&& forall|i: int, j: int|
            0 <= i < j < self.records.len() ==> !(self.records[i].asset == self.records[j].asset
                && self.records[i].holder == self.records[j].holder)
        &&& forall|a: int|
            0 <= a < self.assets.len() ==> self.assets[a].remaining_undistributed + units_held(
                self.records,
                a,
            ) == self.assets[a].supply
    }

    pub open spec fn with_records(self, records: Seq<OwnershipRecord>) -> LedgerView {
        LedgerView { assets: self.assets, records }
    }

    pub open spec fn distribute_error(self, asset: int, to: int, amount: u64, caller: Address) -> Option<
        MarketError,
    > {
        if !(0 <= asset < self.assets.len()) {
            Some(MarketError::UnknownAsset)
        } else if !self.valid_record(to) {
            Some(MarketError::UnknownRecord)
        } else if self.records[to].asset != asset {
            Some(MarketError::AssetMismatch)
        } else if self.assets[asset].authority != caller {
            Some(MarketError::Unauthorized)
        } else if amount > self.assets[asset].remaining_undistributed {
            Some(MarketError::InsufficientSupply)
        } else {
            None
        }
    }

    pub open spec fn distribute_post(self, asset: int, to: int, amount: u64) -> LedgerView {
        LedgerView {
            assets: self.assets.update(
                asset,
                Asset {
                    remaining_undistributed: (self.assets[asset].remaining_undistributed
                        - amount) as u64,
                    ..self.assets[asset]
                },
            ),
            records: self.records.update(
                to,
                OwnershipRecord {
                    balance: (self.records[to].balance + amount) as u64,
                    ..self.records[to]
                },
            ),
        }
    }

    pub open spec fn transfer_error(self, from: int, to: int, amount: u64, caller: Address) -> Option<
        MarketError,
    > {
        if !self.valid_record(from) || !self.valid_record(to) {
            Some(MarketError::UnknownRecord)
        } else if self.records[from].asset != self.records[to].asset {
            Some(MarketError::AssetMismatch)
        } else if !may_move(self.records[from], caller, amount) {
            Some(MarketError::Unauthorized)
        } else if amount > self.records[from].balance {
            Some(MarketError::InsufficientBalance)
        } else {
            None
        }
    }

    /// The record `from` after a transfer of `amount` by `caller` has been
    /// charged to the allowance (a delegated move uses the allowance up).
    pub open spec fn charged(self, from: int, amount: u64, caller: Address) -> OwnershipRecord {
        let r = self.records[from];
        if by_delegate(r, caller, amount) {
            OwnershipRecord { delegate_allowance: (r.delegate_allowance - amount) as u64, ..r }
        } else {
            r
        }
    }

    pub open spec fn transfer_post(self, from: int, to: int, amount: u64, caller: Address) -> LedgerView {
        self.with_records(
            move_units(self.records.update(from, self.charged(from, amount, caller)), from, to, amount),
        )
    }

    /// Moving units out of a record that only `owner` controls: the
    /// capability is the holder itself, so no key and no delegate applies.
    pub open spec fn release_error(self, from: int, to: int, amount: u64, owner: Holder) -> Option<
        MarketError,
    > {
        if !self.valid_record(from) || !self.valid_record(to) {
            Some(MarketError::UnknownRecord)
        } else if self.records[from].asset != self.records[to].asset {
            Some(MarketError::AssetMismatch)
        } else if self.records[from].holder != owner {
            Some(MarketError::Unauthorized)
        } else if amount > self.records[from].balance {
            Some(MarketError::InsufficientBalance)
        } else {
            None
        }
    }

    pub open spec fn release_post(self, from: int, to: int, amount: u64) -> LedgerView {
        self.with_records(move_units(self.records, from, to, amount))
    }

    pub open spec fn approve_error(self, record: int, caller: Address) -> Option<MarketError> {
        if !self.valid_record(record) {
            Some(MarketError::UnknownRecord)
        } else if self.records[record].holder != Holder::Key(caller) {
            Some(MarketError::Unauthorized)
        } else {
            None
        }
    }

    pub open spec fn approve_post(self, record: int, delegate: Address, amount: u64) -> LedgerView {
        self.with_records(
            self.records.update(
                record,
                OwnershipRecord {
                    delegate: Some(delegate),
                    delegate_allowance: amount,
                    ..self.records[record]
                },
            ),
        )
    }
}

/// Replacing record `i` changes the units held of asset `a` by the
/// difference of the two shares.
pub proof fn lemma_units_update(s: Seq<OwnershipRecord>, i: int, r: OwnershipRecord, a: int)
    requires
        0 <= i < s.len(),
    ensures
        units_held(s.update(i, r), a) == units_held(s, a) - share_of(s[i], a) + share_of(r, a),
    decreases s.len(),
{
    if i == s.len() - 1 {
        assert(s.update(i, r).drop_last() =~= s.drop_last());
    } else {
        lemma_units_update(s.drop_last(), i, r, a);
        assert(s.update(i, r).drop_last() =~= s.drop_last().update(i, r));
    }
}

/// The shares of two distinct records together never exceed the total held.
pub proof fn lemma_two_shares(s: Seq<OwnershipRecord>, i: int, j: int, a: int)
    requires
        0 <= i < s.len(),
        0 <= j < s.len(),
    ensures
        share_of(s[i], a) <= units_held(s, a),
        i != j ==> share_of(s[i], a) + share_of(s[j], a) <= units_held(s, a),
        units_held(s, a) >= 0,
    decreases s.len(),
{
    let n = s.len() - 1;
    if n == 0 {
        assert(units_held(s.drop_last(), a) == 0);
    } else {
        let k = if i == n { j } else { i };
        let k2 = if k == n { 0 } else { k };
        lemma_two_shares(s.drop_last(), k2, k2, a);
        if i != n && j != n {
            lemma_two_shares(s.drop_last(), i, j, a);
        }
    }
}

/// In a well-formed ledger, the undistributed units of every registered asset
/// and the units that all its holders own add up to its supply.
pub proof fn lemma_supply_conserved(v: LedgerView, a: int)
    requires
        v.wf(),
        0 <= a < v.assets.len(),
    ensures
        v.assets[a].remaining_undistributed + units_held(v.records, a) == v.assets[a].supply,
{
}

/// A transfer between two distinct records takes exactly `amount` from the
/// one and gives exactly `amount` to the other, so their total is unchanged;
/// every other record is left as it was.
pub proof fn lemma_transfer_exact(v: LedgerView, from: int, to: int, amount: u64, caller: Address)
    requires
        v.wf(),
        v.transfer_error(from, to, amount, caller) is None,
        from != to,
    ensures
        ({
            let w = v.transfer_post(from, to, amount, caller);
            &&& w.records.len() == v.records.len()
            &&& w.records[from].balance == v.records[from].balance - amount
            &&& w.records[to].balance == v.records[to].balance + amount
            &&& w.records[from].balance + w.records[to].balance == v.records[from].balance
                + v.records[to].balance
            &&& amount > 0 ==> w.records[from].balance < v.records[from].balance
                && w.records[to].balance > v.records[to].balance
            &&& forall|k: int| 0 <= k < v.records.len() && k != from && k != to ==> w.records[k] == v.records[k]
        }),
{
    let a = v.records[from].asset as int;
    lemma_two_shares(v.records, from, to, a);
}

/// A delegate moves no more than its allowance: a transfer by someone other
/// than the holder succeeds only within the allowance, and it lowers the
/// allowance by exactly the amount moved.
pub proof fn lemma_delegate_within_allowance(v: LedgerView, from: int, to: int, amount: u64, caller: Address)
    requires
        v.transfer_error(from, to, amount, caller) is None,
        v.records[from].holder != Holder::Key(caller),
    ensures
        v.records[from].delegate == Some(caller),
        amount <= v.records[from].delegate_allowance,
        v.transfer_post(from, to, amount, caller).records[from].delegate_allowance
            == v.records[from].delegate_allowance - amount,
{
}

/// Over a run of delegated transfers after one approval of `granted` units,
/// the allowance is always what was granted less what was spent: if it stands
/// at `granted - spent` before a transfer by the delegate, then the transfer
/// succeeds only if `spent + amount <= granted`, and afterwards it stands at
/// `granted - (spent + amount)`. A transfer beyond it is refused as
/// unauthorized.
pub proof fn lemma_delegate_spending(
    v: LedgerView,
    from: int,
    to: int,
    amount: u64,
    caller: Address,
    granted: int,
    spent: int,
)
    requires
        v.valid_record(from),
        v.valid_record(to),
        v.records[from].asset == v.records[to].asset,
        v.records[from].holder != Holder::Key(caller),
        v.records[from].delegate == Some(caller),
        0 <= spent <= granted,
        v.records[from].delegate_allowance == granted - spent,
    ensures
        v.transfer_error(from, to, amount, caller) is None ==> spent + amount <= granted
            && v.transfer_post(from, to, amount, caller).records[from].delegate_allowance == granted - (
            spent + amount),
        spent + amount > granted ==> v.transfer_error(from, to, amount, caller) == Some(
            MarketError::Unauthorized,
        ),
{
}

/// A second approval replaces the first: the delegate and allowance after
/// both are those of the second alone, whatever the first granted.
pub proof fn lemma_approve_replaces(
    v: LedgerView,
    record: int,
    caller: Address,
    first: Address,
    first_amount: u64,
    second: Address,
    second_amount: u64,
)
    requires
        v.approve_error(record, caller) is None,
    ensures
        v.approve_post(record, first, first_amount).approve_error(record, caller) is None,
        v.approve_post(record, first, first_amount).approve_post(record, second, second_amount)
            == v.approve_post(record, second, second_amount),
{
    assert(v.approve_post(record, first, first_amount).approve_post(record, second, second_amount).records
        =~= v.approve_post(record, second, second_amount).records);
}

/// No key can move units out of an escrow record: whoever calls, a transfer
/// from it and an approval on it are refused. Only the close or settle step of
/// a listing that the escrow's own seller opened moves them.
pub proof fn lemma_escrow_closed_to_keys(v: LedgerView, from: int, to: int, amount: u64, caller: Address)
    requires
        v.wf(),
        v.valid_record(from),
        !(v.records[from].holder is Key),
    ensures
        v.transfer_error(from, to, amount, caller) is Some,
        v.approve_error(from, caller) is Some,
{
}

impl Ledger {
    pub fn new() -> (r: Ledger)
        ensures
            r@.wf(),
            r@.assets.len() == 0,
            r@.records.len() == 0,
    {
        Ledger { assets: Vec::new(), records: Vec::new() }
    }

    pub fn num_assets(&self) -> (r: usize)
        ensures
            r == self@.assets.len(),
    {
        self.assets.len()
    }

    pub fn num_records(&self) -> (r: usize)
        ensures
            r == self@.records.len(),
    {
        self.records.len()
    }

    pub fn asset(&self, i: usize) -> (r: &Asset)
        requires
            i < self@.assets.len(),
        ensures
            *r == self@.assets[i as int],
    {
        &self.assets[i]
    }

    pub fn record(&self, i: usize) -> (r: OwnershipRecord)
        requires
            i < self@.records.len(),
        ensures
            r == self@.records[i as int],
    {
        self.records[i]
    }

    /// The position of the asset registered under `id`, if any.
    pub fn find_asset(&self, id: Address) -> (r: Option<usize>)
        ensures
            match r {
                Some(i) => i < self@.assets.len() && self@.assets[i as int].id == id,
                None => !self@.has_asset_id(id),
            },
    {
        let mut i: usize = 0;
        while i < self.assets.len()
            invariant
                i <= self.assets@.len(),
                forall|k: int| 0 <= k < i ==> self.assets@[k].id != id,
            decreases self.assets@.len() - i,
        {
            if self.assets[i].id == id {
                return Some(i);
            }
            i = i + 1;
        }
        None
    }

    /// The position of the record of `holder` for `asset`, if any.
    pub fn find_record(&self, asset: usize, holder: Holder) -> (r: Option<usize>)
        ensures
            match r {
                Some(i) => i < self@.records.len() && self@.records[i as int].asset == asset
                    && self@.records[i as int].holder == holder,
                None => !self@.has_record(asset as int, holder),
            },
    {
        let mut i: usize = 0;
        while i < self.records.len()
            invariant
                i <= self.records@.len(),
                forall|k: int|
                    0 <= k < i ==> !(self.records@[k].asset == asset && self.records@[k].holder
                        == holder),
            decreases self.records@.len() - i,
        {
            if self.records[i].asset == asset && self.records[i].holder == holder {
                return Some(i);
            }
            i = i + 1;
        }
        None
    }
}

/// Where no record belongs to asset `a`, none of it is held.
pub proof fn lemma_units_absent(s: Seq<OwnershipRecord>, a: int)
    requires
        forall|k: int| 0 <= k < s.len() ==> s[k].asset != a,
    ensures
        units_held(s, a) == 0,
    decreases s.len(),
{
    if s.len() > 0 {
        lemma_units_absent(s.drop_last(), a);
    }
}

impl Ledger {
    /// Registers a new asset whose whole supply is still undistributed.
    /// Returns its position in the registry.
    pub fn create_nft(&mut self, id: Address, authority: Address, supply: u64, metadata: Vec<u8>) -> (r: Result<usize, MarketError>)
        requires
            old(self)@.wf(),
        ensures
            final(self)@.wf(),
            old(self)@.has_asset_id(id) <==> r == Err::<usize, MarketError>(MarketError::DuplicateAsset),
            !old(self)@.has_asset_id(id) ==> r is Ok,
            r is Err ==> final(self)@ == old(self)@,
            r is Ok ==> r.unwrap() == old(self)@.assets.len() && final(self)@ == (LedgerView {
                assets: old(self)@.assets.push(
                    Asset { id, supply, remaining_undistributed: supply, metadata, authority },
                ),
                records: old(self)@.records,
            }),
    {
        if let Some(_) = self.find_asset(id) {
            return Err(MarketError::DuplicateAsset);
        }
        let pos = self.assets.len();
        proof {
            lemma_units_absent(self.records@, pos as int);
        }
        self.assets.push(Asset { id, supply, remaining_undistributed: supply, metadata, authority });
        proof {
            assert forall|a: int| 0 <= a < self.assets@.len() implies self.assets@[a].remaining_undistributed
                + units_held(self.records@, a) == self.assets@[a].supply by {
                if a < pos {
                    assert(self.assets@[a] == old(self).assets@[a]);
                }
            }
        }
        Ok(pos)
    }

    /// Returns the record of `holder` for `asset`, creating an empty one if
    /// there is none yet.
    pub fn create_user(&mut self, asset: usize, holder: Holder) -> (r: Result<usize, MarketError>)
        requires
            old(self)@.wf(),
        ensures
            final(self)@.wf(),
            asset >= old(self)@.assets.len() <==> r == Err::<usize, MarketError>(MarketError::UnknownAsset),
            asset < old(self)@.assets.len() ==> r is Ok,
            r is Err ==> final(self)@ == old(self)@,
            r is Ok && old(self)@.has_record(asset as int, holder) ==> final(self)@ == old(self)@,
            r is Ok && !old(self)@.has_record(asset as int, holder) ==> final(self)@ == old(self)@.with_records(
                old(self)@.records.push(empty_record(asset, holder)),
            ),
            r is Ok ==> r.unwrap() < final(self)@.records.len() && final(self)@.records[r.unwrap() as int].asset
                == asset && final(self)@.records[r.unwrap() as int].holder == holder,
    {
        if asset >= self.assets.len() {
            return Err(MarketError::UnknownAsset);
        }
        if let Some(i) = self.find_record(asset, holder) {
            return Ok(i);
        }
        let pos = self.records.len();
        let rec = OwnershipRecord { asset, holder, balance: 0, delegate: None, delegate_allowance: 0 };
        self.records.push(rec);
        proof {
            assert forall|a: int| 0 <= a < self.assets@.len() implies self.assets@[a].remaining_undistributed
                + units_held(self.records@, a) == self.assets@[a].supply by {
                assert(self.records@.drop_last() =~= old(self).records@);
            }
            assert(self@.records =~= old(self)@.records.push(empty_record(asset, holder)));
        }
        Ok(pos)
    }

    /// Moves `amount` units from record `from` to record `to` of the same asset.
    fn move_between(&mut self, from: usize, to: usize, amount: u64)
        requires
            old(self)@.wf(),
            from < old(self)@.records.len(),
            to < old(self)@.records.len(),
            old(self)@.records[from as int].asset == old(self)@.records[to as int].asset,
            amount <= old(self)@.records[from as int].balance,
        ensures
            final(self)@.wf(),
            final(self)@ == old(self)@.with_records(move_units(old(self)@.records, from as int, to as int, amount)),
    {
        let ghost s0 = self.records@;
        let a = self.records[from].asset;
        proof {
            lemma_two_shares(s0, from as int, to as int, a as int);
        }
        let mut f = self.records[from];
        f.balance = f.balance - amount;
        self.records.set(from, f);
        let ghost s1 = self.records@;
        let mut t = self.records[to];
        t.balance = t.balance + amount;
        self.records.set(to, t);
        proof {
            assert forall|b: int| 0 <= b < self.assets@.len() implies self.assets@[b].remaining_undistributed
                + units_held(self.records@, b) == self.assets@[b].supply by {
                lemma_units_update(s0, from as int, f, b);
                lemma_units_update(s1, to as int, t, b);
            }
            assert(self@.records =~= move_units(s0, from as int, to as int, amount));
        }
    }

    /// Credits `amount` undistributed units of `asset` to record `to`; only
    /// the asset's authority may do so.
    pub fn distribute(&mut self, asset: usize, to: usize, amount: u64, caller: Address) -> (r: Result<(), MarketError>)
        requires
            old(self)@.wf(),
        ensures
            final(self)@.wf(),
            match old(self)@.distribute_error(asset as int, to as int, amount, caller) {
                Some(e) => r == Err::<(), MarketError>(e) && final(self)@ == old(self)@,
                None => r is Ok && final(self)@ == old(self)@.distribute_post(asset as int, to as int, amount),
            },
    {
        if asset >= self.assets.len() {
            return Err(MarketError::UnknownAsset);
        }
        if to >= self.records.len() {
            return Err(MarketError::UnknownRecord);
        }
        if self.records[to].asset != asset {
            return Err(MarketError::AssetMismatch);
        }
        if self.assets[asset].authority != caller {
            return Err(MarketError::Unauthorized);
        }
        if amount > self.assets[asset].remaining_undistributed {
            return Err(MarketError::InsufficientSupply);
        }
        let ghost s0 = self.records@;
        proof {
            lemma_two_shares(s0, to as int, to as int, asset as int);
        }
        let mut t = self.records[to];
        t.balance = t.balance + amount;
        self.records.set(to, t);
        self.assets[asset].remaining_undistributed = self.assets[asset].remaining_undistributed - amount;
        proof {
            assert forall|b: int| 0 <= b < self.assets@.len() implies self.assets@[b].remaining_undistributed
                + units_held(self.records@, b) == self.assets@[b].supply by {
                lemma_units_update(s0, to as int, t, b);
            }
            assert(self@.records =~= old(self)@.distribute_post(asset as int, to as int, amount).records);
            assert(self@.assets =~= old(self)@.distribute_post(asset as int, to as int, amount).assets);
        }
        Ok(())
    }
}

impl Ledger {
    /// Moves `amount` units from record `from` to record `to`. The caller must
    /// be the holder of `from`, or its delegate within the allowance, which
    /// the move then uses up. Returns the notice of the transfer.
    pub fn transfer(&mut self, from: usize, to: usize, amount: u64, caller: Address) -> (r: Result<TransferEvent, MarketError>)
        requires
            old(self)@.wf(),
        ensures
            final(self)@.wf(),
            match old(self)@.transfer_error(from as int, to as int, amount, caller) {
                Some(e) => r == Err::<TransferEvent, MarketError>(e) && final(self)@ == old(self)@,
                None => r == Ok::<TransferEvent, MarketError>(
                    TransferEvent { asset: old(self)@.records[from as int].asset, from, to, amount },
                ) && final(self)@ == old(self)@.transfer_post(from as int, to as int, amount, caller),
            },
    {
        if from >= self.records.len() || to >= self.records.len() {
            return Err(MarketError::UnknownRecord);
        }
        let mut f = self.records[from];
        if f.asset != self.records[to].asset {
            return Err(MarketError::AssetMismatch);
        }
        let by_holder = f.holder == Holder::Key(caller);
        let delegated = !by_holder && match f.delegate {
            Some(d) => d == caller && amount <= f.delegate_allowance,
            None => false,
        };
        if !by_holder && !delegated {
            return Err(MarketError::Unauthorized);
        }
        if amount > f.balance {
            return Err(MarketError::InsufficientBalance);
        }
        if delegated {
            f.delegate_allowance = f.delegate_allowance - amount;
        }
        let ghost s0 = self.records@;
        self.records.set(from, f);
        proof {
            assert forall|b: int| 0 <= b < self.assets@.len() implies self.assets@[b].remaining_undistributed
                + units_held(self.records@, b) == self.assets@[b].supply by {
                lemma_units_update(s0, from as int, f, b);
            }
            assert(self@.records =~= s0.update(from as int, old(self)@.charged(from as int, amount, caller)));
        }
        self.move_between(from, to, amount);
        Ok(TransferEvent { asset: f.asset, from, to, amount })
    }

    /// Moves `amount` units out of a record that `owner` holds. No key speaks
    /// for an escrow holder: only the listing logic of this crate names one.
    pub(crate) fn release(&mut self, from: usize, to: usize, amount: u64, owner: Holder) -> (r: Result<(), MarketError>)
        requires
            old(self)@.wf(),
        ensures
            final(self)@.wf(),
            match old(self)@.release_error(from as int, to as int, amount, owner) {
                Some(e) => r == Err::<(), MarketError>(e) && final(self)@ == old(self)@,
                None => r is Ok && final(self)@ == old(self)@.release_post(from as int, to as int, amount),
            },
    {
        if let Some(e) = self.check_release(from, to, amount, owner) {
            return Err(e);
        }
        self.move_between(from, to, amount);
        Ok(())
    }

    /// What [`Ledger::release`] would report, without moving anything.
    pub(crate) fn check_release(&self, from: usize, to: usize, amount: u64, owner: Holder) -> (r: Option<MarketError>)
        ensures
            r == self@.release_error(from as int, to as int, amount, owner),
    {
        if from >= self.records.len() || to >= self.records.len() {
            return Some(MarketError::UnknownRecord);
        }
        if self.records[from].asset != self.records[to].asset {
            return Some(MarketError::AssetMismatch);
        }
        if self.records[from].holder != owner {
            return Some(MarketError::Unauthorized);
        }
        if amount > self.records[from].balance {
            return Some(MarketError::InsufficientBalance);
        }
        None
    }

    /// Makes `delegate` the only delegate of `record`, with an allowance of
    /// exactly `amount`: any earlier delegate and allowance are replaced.
    pub fn approve(&mut self, record: usize, delegate: Address, amount: u64, caller: Address) -> (r: Result<(), MarketError>)
        requires
            old(self)@.wf(),
        ensures
            final(self)@.wf(),
            match old(self)@.approve_error(record as int, caller) {
                Some(e) => r == Err::<(), MarketError>(e) && final(self)@ == old(self)@,
                None => r is Ok && final(self)@ == old(self)@.approve_post(record as int, delegate, amount),
            },
    {
        if record >= self.records.len() {
            return Err(MarketError::UnknownRecord);
        }
        let mut rec = self.records[record];
        if rec.holder != Holder::Key(caller) {
            return Err(MarketError::Unauthorized);
        }
        rec.delegate = Some(delegate);
        rec.delegate_allowance = amount;
        let ghost s0 = self.records@;
        self.records.set(record, rec);
        proof {
            assert forall|b: int| 0 <= b < self.assets@.len() implies self.assets@[b].remaining_undistributed
                + units_held(self.records@, b) == self.assets@[b].supply by {
                lemma_units_update(s0, record as int, rec, b);
            }
            assert(self@.records =~= old(self)@.approve_post(record as int, delegate, amount).records);
        }
        Ok(())
    }
}

} // verus!
