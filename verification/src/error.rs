//! The errors of the library.
use vstd::prelude::*;

verus! {

/// What is wrong with the transport endpoints of an invoice.
#[derive(Debug, Clone, Copy, PartialEq, Eq, Structural)]
pub enum EndpointIssue {
    /// An endpoint carries the reserved `rid_nonce` query parameter.
    ReservedParameter,
    /// A witness invoice under address reuse needs an endpoint to carry its nonce.
    MissingEndpoint,
    /// Under address reuse the nonce takes the query string: an endpoint may have none.
    QueryString,
    /// An endpoint carries the `rid_nonce` parameter but not as `?rid_nonce=<32 hex digits>`.
    MalformedNonce,
}

/// The errors of the library.
#[derive(Debug, Clone, Copy, PartialEq, Eq, Structural)]
pub enum Error {
    /// Rotating an address needs a wallet with address reuse.
    AddressReuseDisabled,
    /// The transport endpoints are refused.
    InvalidTransportEndpoints { details: EndpointIssue },
    /// The wallet is not online.
    Offline,
    /// The `Online` object is not the one of this wallet.
    CannotChangeOnline,
    /// The keys do not belong to the wallet's network.
    InvalidBitcoinKeys,
    /// The data directory belongs to another wallet.
    WalletDirAlreadyInUse,
    /// Every address index of a keychain has been revealed.
    KeychainExhausted,
    /// The chain has handed out every transaction id.
    ChainFull,
    /// A transaction spends an output that is not an unspent output on the chain.
    InvalidTransaction,
    /// The proxy holds a consignment under this key already.
    ProxyRecipientIdInUse,
    /// The proxy has no mailbox under this key.
    ProxyUnknownRecipientId,
    /// No UTXO can take a new allocation.
    InsufficientAllocationSlots,
    /// An issuance needs at least one amount.
    NoIssuanceAmounts,
    /// The amounts of an issuance add up to more than `u64` holds.
    TooHighIssuanceAmounts,
    /// A balance adds up to more than `u64` holds.
    BalanceOverflow,
    /// A send needs a fungible amount.
    InvalidAssignment,
    /// A send of nothing.
    InvalidAmountZero,
    /// Witness data goes with a witness recipient, and with no other.
    InvalidRecipientData,
    /// The fee of the fee rate does not fit in `u64`.
    InvalidFeeRate,
    /// The wallet holds too little of the asset where a send can spend it.
    InsufficientAssets,
    /// The bitcoin of the inputs does not cover the outputs and the fee.
    InsufficientBitcoins,
    /// The wallet knows no such asset.
    UnknownAsset,
    /// The amounts exceed what is left of the asset's inflation allowance.
    InflationAllowanceExceeded,
    /// A request to create no UTXO.
    InvalidUtxoNum,
    /// The inputs hold more bitcoin than `u64` holds.
    BitcoinOverflow,
    /// No TXO row with the given index.
    UnknownTxo { idx: usize },
    /// No transfer with the given index.
    UnknownTransfer { idx: usize },
    /// The transfer is no longer waiting for the counterparty and cannot be failed.
    CannotFailTransfer { idx: usize },
    /// The transfer is no receive waiting for the counterparty, so it takes no consignment.
    NotWaitingReceive { idx: usize },
    /// The transfer is no send waiting for the counterparty, so it cannot be broadcast.
    NotWaitingSend { idx: usize },
    /// The transfer does not wait for confirmations, so it cannot settle.
    NotWaitingConfirmations { idx: usize },
    /// A payment's receive or send has not settled after the refreshes that settle one.
    PaymentNotSettled,
}

} // verus!
