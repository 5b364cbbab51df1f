//! A wallet core for RGB assets on Bitcoin: keychains with address reuse and pinned addresses,
//! witness invoices that carry recipient nonces, sends, consignments and settlement, and the
//! reconcile pass of the wallet's TXO table against the indexer; with a regtest chain and a
//! proxy to run wallets against.
use vstd::prelude::*;

pub mod assets;
pub mod btc;
pub mod consignment;
pub mod db;
pub mod endpoint;
pub mod error;
pub mod fixtures;
pub mod hex;
pub mod inflation;
pub mod keychain;
pub mod proxy;
mod random;
pub mod regtest;
pub mod transfer;
pub mod types;
pub mod wallet;
pub mod world;

verus! {

} // verus!
