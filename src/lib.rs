//! A ledger of divisible ownership over unique assets, with two escrow
//! protocols on top of it: an ascending-price auction and a fixed-price
//! item-for-currency exchange.
pub mod types;
pub mod ledger;
pub mod currency;
pub mod market;
