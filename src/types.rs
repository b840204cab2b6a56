use vstd::prelude::*;

verus! {

/// An account address: the identity of a key holder.
pub type Address = u64;

/// Who controls a ledger record or a currency account.
///
/// A `Key` holder authorises transfers by being the caller. An escrow holder
/// names the seller whose listings it serves; no caller can speak for it.
/// Units reach it only by a transfer that its seller makes, only that seller
/// can open a listing over it, and only that listing's own close or settle
/// step can move value out of it.
#[derive(Clone, Copy, Debug, PartialEq, Eq, Structural)]
pub enum Holder {
    Key(Address),
    AuctionEscrow(Address),
    ExchangeEscrow(Address),
}

/// Every failure that an operation of the library reports. A failed call
/// leaves all state as it was.
#[derive(Clone, Copy, Debug, PartialEq, Eq, Structural)]
pub enum MarketError {
    /// The caller lacks the capability that the operation needs.
    Unauthorized,
    /// A holder record holds fewer units than the transfer moves.
    InsufficientBalance,
    /// An asset has fewer undistributed units than the distribution asks for.
    InsufficientSupply,
    /// A currency account holds less than the payment.
    InsufficientFunds,
    /// The two records of a transfer belong to different assets.
    AssetMismatch,
    /// A bid that does not exceed the current price.
    BidTooLow,
    /// An asset with that address is already registered.
    DuplicateAsset,
    /// An open listing already sells the units of that escrow record.
    DuplicateListing,
    /// The auction has already been closed.
    AuctionClosed,
    /// The exchange has already been settled.
    ExchangeClosed,
    /// A sum would not fit in 64 bits.
    ArithmeticFault,
    /// No asset at that position.
    UnknownAsset,
    /// No holder record at that position.
    UnknownRecord,
    /// No currency account at that position.
    UnknownAccount,
    /// No listing at that position.
    UnknownListing,
    /// The record handed to a new listing is not that listing's escrow.
    EscrowMismatch,
    /// A payout or a released asset would go to someone other than its due receiver.
    RecipientMismatch,
}

} // verus!
