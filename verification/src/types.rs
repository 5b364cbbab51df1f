//! Plain values that the wallet works with: networks, keychains, scripts, outpoints and
//! recipient IDs.
use vstd::prelude::*;

verus! {

/// A Bitcoin network.
#[derive(Debug, Clone, Copy, PartialEq, Eq, Structural)]
pub enum BitcoinNetwork {
    Mainnet,
    Testnet,
    Signet,
    Regtest,
}

/// The witness version of the wallet's scripts.
#[derive(Debug, Clone, Copy, PartialEq, Eq, Structural)]
pub enum WitnessVersion {
    /// P2WPKH outputs.
    SegwitV0,
    /// P2TR outputs.
    Taproot,
}

/// The two keychains of a wallet: vanilla (plain bitcoin) and colored (outputs that hold
/// RGB allocations).
#[derive(Debug, Clone, Copy, PartialEq, Eq, Structural)]
pub enum Keychain {
    Vanilla,
    Colored,
}

/// An output script, that is an address: the key it is derived from is identified by the
/// owner's account key material, keychain and derivation index.
#[derive(Debug, Clone, Copy, PartialEq, Eq, Structural)]
pub struct Script {
    pub account_xpub: u128,
    pub keychain: Keychain,
    pub index: u32,
    pub witness_version: WitnessVersion,
}

/// A transaction output.
#[derive(Debug, Clone, Copy, PartialEq, Eq, Structural)]
pub struct Outpoint {
    pub txid: u64,
    pub vout: u32,
}

/// A transaction output: the script it pays and its amount in satoshis.
#[derive(Debug, Clone, Copy, PartialEq, Eq, Structural)]
pub struct TxOut {
    pub script: Script,
    pub amount: u64,
}

/// Who an invoice pays: the script of a witness receive, or the blinded seal of a blind
/// receive.
#[derive(Debug, Clone, Copy, PartialEq, Eq, Structural)]
pub enum RecipientId {
    Witness(Script),
    Blind(u64),
}

} // verus!
