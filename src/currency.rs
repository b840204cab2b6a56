use vstd::prelude::*;
use crate::types::{Address, Holder, MarketError};

verus! {

/// A balance of the fungible currency that listings are paid in.
#[derive(Clone, Copy, Debug)]
pub struct CurrencyAccount {
    pub owner: Holder,
    pub balance: u64,
}

/// The currency ledger: accounts, and the one key that may issue currency.
pub struct CurrencyLedger {
    mint_authority: Address,
    accounts: Vec<CurrencyAccount>,
}

/// The mathematical contents of a [`CurrencyLedger`].
pub struct CurrencyView {
    pub mint_authority: Address,
    pub accounts: Seq<CurrencyAccount>,
}

impl View for CurrencyLedger {
    type V = CurrencyView;

    closed spec fn view(&self) -> CurrencyView {
        CurrencyView { mint_authority: self.mint_authority, accounts: self.accounts@ }
    }
}

impl CurrencyView {
    pub open spec fn valid_account(self, i: int) -> bool {
        0 <= i < self.accounts.len()
    }

    pub open spec fn with_accounts(self, accounts: Seq<CurrencyAccount>) -> CurrencyView {
        CurrencyView { mint_authority: self.mint_authority, accounts }
    }

    pub open spec fn open_post(self, owner: Holder) -> CurrencyView {
        self.with_accounts(self.accounts.push(CurrencyAccount { owner, balance: 0 }))
    }

    pub open spec fn mint_error(self, account: int, amount: u64, caller: Address) -> Option<MarketError> {
        if !self.valid_account(account) {
            Some(MarketError::UnknownAccount)
        } else if caller != self.mint_authority {
            Some(MarketError::Unauthorized)
        } else if self.accounts[account].balance + amount > u64::MAX {
            Some(MarketError::ArithmeticFault)
        } else {
            None
        }
    }

    pub open spec fn mint_post(self, account: int, amount: u64) -> CurrencyView {
        self.with_accounts(
            self.accounts.update(
                account,
                CurrencyAccount {
                    balance: (self.accounts[account].balance + amount) as u64,
                    ..self.accounts[account]
                },
            ),
        )
    }

    /// Paying `amount` from `from` to `to`, where `owner` is the holder on
    /// whose authority the payment is made.
    pub open spec fn pay_error(self, from: int, to: int, amount: u64, owner: Holder) -> Option<
        MarketError,
    > {
        if !self.valid_account(from) || !self.valid_account(to) {
            Some(MarketError::UnknownAccount)
        } else if self.accounts[from].owner != owner {
            Some(MarketError::Unauthorized)
        } else if amount > self.accounts[from].balance {
            Some(MarketError::InsufficientFunds)
        } else if from != to && self.accounts[to].balance + amount > u64::MAX {
            Some(MarketError::ArithmeticFault)
        } else {
            None
        }
    }

    pub open spec fn pay_post(self, from: int, to: int, amount: u64) -> CurrencyView {
        let taken = self.accounts.update(
            from,
            CurrencyAccount {
                balance: (self.accounts[from].balance - amount) as u64,
                ..self.accounts[from]
            },
        );
        self.with_accounts(
            taken.update(
                to,
                CurrencyAccount { balance: (taken[to].balance + amount) as u64, ..taken[to] },
            ),
        )
    }
}

/// No key can pay out of an account that an escrow holds, whoever calls.
pub proof fn lemma_escrow_account_closed_to_keys(c: CurrencyView, from: int, to: int, amount: u64, caller: Address)
    requires
        c.valid_account(from),
        !(c.accounts[from].owner is Key),
    ensures
        c.pay_error(from, to, amount, Holder::Key(caller)) is Some,
{
}

impl CurrencyLedger {
    pub fn new(mint_authority: Address) -> (r: CurrencyLedger)
        ensures
            r@.mint_authority == mint_authority,
            r@.accounts.len() == 0,
    {
        CurrencyLedger { mint_authority, accounts: Vec::new() }
    }

    pub fn num_accounts(&self) -> (r: usize)
        ensures
            r == self@.accounts.len(),
    {
        self.accounts.len()
    }

    pub fn account(&self, i: usize) -> (r: CurrencyAccount)
        requires
            i < self@.accounts.len(),
        ensures
            r == self@.accounts[i as int],
    {
        self.accounts[i]
    }

    /// Opens an empty account for `owner` and returns its position.
    pub fn open_account(&mut self, owner: Holder) -> (r: usize)
        ensures
            r == old(self)@.accounts.len(),
            final(self)@ == old(self)@.open_post(owner),
    {
        let pos = self.accounts.len();
        self.accounts.push(CurrencyAccount { owner, balance: 0 });
        proof {
            assert(self@.accounts =~= old(self)@.open_post(owner).accounts);
        }
        pos
    }

    /// Issues `amount` new currency into `account`; only the mint authority
    /// may do so.
    pub fn mint(&mut self, account: usize, amount: u64, caller: Address) -> (r: Result<(), MarketError>)
        ensures
            match old(self)@.mint_error(account as int, amount, caller) {
                Some(e) => r == Err::<(), MarketError>(e) && final(self)@ == old(self)@,
                None => r is Ok && final(self)@ == old(self)@.mint_post(account as int, amount),
            },
    {
        if account >= self.accounts.len() {
            return Err(MarketError::UnknownAccount);
        }
        if caller != self.mint_authority {
            return Err(MarketError::Unauthorized);
        }
        let mut acct = self.accounts[account];
        match acct.balance.checked_add(amount) {
            None => Err(MarketError::ArithmeticFault),
            Some(b) => {
                acct.balance = b;
                self.accounts.set(account, acct);
                proof {
                    assert(self@.accounts =~= old(self)@.mint_post(account as int, amount).accounts);
                }
                Ok(())
            },
        }
    }

    /// What [`CurrencyLedger::pay`] would report, without moving anything.
    pub(crate) fn check_pay(&self, from: usize, to: usize, amount: u64, owner: Holder) -> (r: Option<MarketError>)
        ensures
            r == self@.pay_error(from as int, to as int, amount, owner),
    {
        if from >= self.accounts.len() || to >= self.accounts.len() {
            return Some(MarketError::UnknownAccount);
        }
        if self.accounts[from].owner != owner {
            return Some(MarketError::Unauthorized);
        }
        if amount > self.accounts[from].balance {
            return Some(MarketError::InsufficientFunds);
        }
        if from != to && self.accounts[to].balance.checked_add(amount).is_none() {
            return Some(MarketError::ArithmeticFault);
        }
        None
    }

    /// Pays `amount` from `from` to `to` on the authority of `owner`, which
    /// must hold `from`. Escrow holders are named only by the listing logic.
    pub(crate) fn pay(&mut self, from: usize, to: usize, amount: u64, owner: Holder) -> (r: Result<(), MarketError>)
        ensures
            match old(self)@.pay_error(from as int, to as int, amount, owner) {
                Some(e) => r == Err::<(), MarketError>(e) && final(self)@ == old(self)@,
                None => r is Ok && final(self)@ == old(self)@.pay_post(from as int, to as int, amount),
            },
    {
        if let Some(e) = self.check_pay(from, to, amount, owner) {
            return Err(e);
        }
        let mut f = self.accounts[from];
        f.balance = f.balance - amount;
        self.accounts.set(from, f);
        let mut t = self.accounts[to];
        t.balance = t.balance + amount;
        self.accounts.set(to, t);
        proof {
            assert(self@.accounts =~= old(self)@.pay_post(from as int, to as int, amount).accounts);
        }
        Ok(())
    }

    /// Two payments as one: the second is judged on the state that the first
    /// leaves, and if either is refused neither takes effect.
    pub(crate) fn pay_both(
        &mut self,
        first: (usize, usize, u64, Holder),
        second: (usize, usize, u64, Holder),
    ) -> (r: Result<(), MarketError>)
        ensures
            ({
                let (f1, t1, a1, o1) = first;
                let (f2, t2, a2, o2) = second;
                let mid = old(self)@.pay_post(f1 as int, t1 as int, a1);
                match old(self)@.pay_error(f1 as int, t1 as int, a1, o1) {
                    Some(e) => r == Err::<(), MarketError>(e) && final(self)@ == old(self)@,
                    None => match mid.pay_error(f2 as int, t2 as int, a2, o2) {
                        Some(e) => r == Err::<(), MarketError>(e) && final(self)@ == old(self)@,
                        None => r is Ok && final(self)@ == mid.pay_post(f2 as int, t2 as int, a2),
                    },
                }
            }),
    {
        let (f1, t1, a1, o1) = first;
        let (f2, t2, a2, o2) = second;
        if let Some(e) = self.check_pay(f1, t1, a1, o1) {
            return Err(e);
        }
        let saved_from = self.accounts[f1];
        let saved_to = self.accounts[t1];
        let ghost s0 = self.accounts@;
        let _ = self.pay(f1, t1, a1, o1);
        if let Some(e) = self.check_pay(f2, t2, a2, o2) {
            self.accounts.set(t1, saved_to);
            self.accounts.set(f1, saved_from);
            proof {
                assert(self.accounts@ =~= s0);
            }
            return Err(e);
        }
        let _ = self.pay(f2, t2, a2, o2);
        Ok(())
    }

    /// Pays `amount` from `from` to `to`; the caller must be the key that
    /// holds `from`.
    pub fn transfer(&mut self, from: usize, to: usize, amount: u64, caller: Address) -> (r: Result<(), MarketError>)
        ensures
            match old(self)@.pay_error(from as int, to as int, amount, Holder::Key(caller)) {
                Some(e) => r == Err::<(), MarketError>(e) && final(self)@ == old(self)@,
                None => r is Ok && final(self)@ == old(self)@.pay_post(from as int, to as int, amount),
            },
    {
        self.pay(from, to, amount, Holder::Key(caller))
    }
}

} // verus!
