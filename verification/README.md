# rgb_lib

A verified core of an RGB wallet on Bitcoin, written in Verus: every function in `src/` carries a
contract that Verus proves.

What it covers:

- **Address reuse.** Each keychain (vanilla for plain bitcoin, colored for the outputs that hold
  assets) either hands out a fresh address per request or, under address reuse, keeps a pinned
  address until it is rotated (`keychain`, `wallet`).
- **Witness invoices.** Under address reuse every witness invoice pays the same pinned script, so
  each invoice carries a random recipient nonce in its transport endpoints (`?rid_nonce=<hex>`); the
  sender derives the proxy mailbox from the recipient ID and that nonce (`endpoint`, `hex`).
- **Transfers.** Issuance, inflation, sends with input selection and change, the receiver's check
  of a consignment (a witness output is credited to one receive only), broadcast and settlement
  (`assets`, `inflation`, `transfer`, `btc`).
- **Sync.** The reconcile pass of the TXO table against what the indexer shows, the flagging of
  payments to watched scripts, and the release of scripts no pending invoice pays (`db`,
  `wallet::sync`).
- **A world to run it in.** A regtest chain with its indexer, a proxy, and parties that fund,
  send, refresh and settle (`regtest`, `proxy`, `world`, `fixtures`).

Laws that span several functions are public proof functions (`lemma_*`), next to the functions
they speak of.

Layout: `src/` is the library, `tests/` runs it. The only outside crate is `rand`, behind one
trusted function (`random::random_bytes`), for nonces, blinded seals and key material.
