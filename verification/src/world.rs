//! Wallets at work against a regtest chain and a proxy: funding, syncing with the indexer,
//! sending, and the refresh that moves transfers along (accepting consignments, broadcasting
//! accepted sends, settling confirmed transfers).
use vstd::prelude::*;

use crate::assets::{checked_total, issue_outcome, sum_u64};
use crate::inflation::inflation_outcome;
use crate::btc::{
    colored_outputs, create_utxos_outcome, funding_change, iter_addresses, send_btc_outcome,
};
use crate::db::{
    has_row, is_first_row, lemma_first_row_exists, DbTransfer, DbTxo, IndexedTxo, RecipientTypeFull,
    TransferKind, TransferStatus,
};
use crate::endpoint::{copy_bytes, derive_proxy_recipient_id, endpoints_view, ProxyKey};
use crate::error::Error;
use crate::keychain::{spec_address_index, KeychainState};
use crate::proxy::{acked, entry_has_key, mailbox, Consignment, Proxy, ProxyEntry};
use crate::random::{random_bytes, u64_from_bytes};
use crate::regtest::{is_unspent, is_unspent_view, tx_at, ChainTx, Regtest};
use crate::consignment::{
    accept_outcome, accepted_transfer, consignment_fits, is_waiting_receive,
    lemma_push_keeps_credits_unique, settled_allocations, settled_txos, witness_credits_unique,
};
use crate::transfer::{
    indexed_outpoints, send_outcome, spec_invoice_nonce, PreparedSend, Recipient, UTXO_SIZE,
};
use crate::types::{Keychain, Outpoint, RecipientId, Script, TxOut};
use crate::wallet::{
    spec_check_online, sync_outcome, Online, SyncKeychain, SyncOptions, Wallet, WalletDatabase,
};

verus! {

/// The satoshis `fund_wallet` sends.
pub const FUNDING_SAT: u64 = 100_000_000;

/// The satoshis `send_to_address` sends.
pub const FOREIGN_SAT: u64 = 2000;

/// A wallet that has gone online, with its session.
#[derive(Debug)]
pub struct Party {
    pub wallet: Wallet,
    pub online: Online,
}

/// The services wallets work against: a regtest chain with its indexer, and a proxy reached
/// at `proxy_endpoint`.
#[derive(Debug)]
pub struct World {
    pub chain: Regtest,
    pub proxy: Proxy,
    pub proxy_endpoint: Vec<u8>,
}

/// The wallet is the same wallet, with the same settings and session.
pub open spec fn same_wallet(pre: Wallet, post: Wallet) -> bool {
    &&& post.db.wallet_data == pre.db.wallet_data
    &&& post.db.master_fingerprint == pre.db.master_fingerprint
    &&& post.db.account_xpub == pre.db.account_xpub
    &&& post.db.witness_version == pre.db.witness_version
    &&& post.online == pre.online
}

/// Under address reuse each keychain's pin stays, once that keychain has a pinned address: the
/// vanilla pin where the vanilla keychain has revealed an address, and the colored pin where
/// the colored one has.
pub open spec fn pins_held(pre: Wallet, post: Wallet) -> bool {
    &&& pre.db.wallet_data.reuse_addresses && pre.db.vanilla.revealed > 0 ==> post.db.vanilla
        == pre.db.vanilla
    &&& pre.db.wallet_data.reuse_addresses && pre.db.colored.revealed > 0 ==> post.db.colored
        == pre.db.colored
}

/// The state of `keychain` of wallet `w`.
pub open spec fn keychain_of(w: Wallet, keychain: Keychain) -> KeychainState {
    match keychain {
        Keychain::Vanilla => w.db.vanilla,
        Keychain::Colored => w.db.colored,
    }
}

/// Wallet `post` has the address reuse setting of `pre` and keeps the pin of `keychain`, where
/// `pre` has one (address reuse on and an address of that keychain revealed).
pub open spec fn keeps_pin(pre: Wallet, post: Wallet, keychain: Keychain) -> bool {
    &&& post.db.wallet_data.reuse_addresses == pre.db.wallet_data.reuse_addresses
    &&& pre.db.wallet_data.reuse_addresses && keychain_of(pre, keychain).revealed > 0
        ==> keychain_of(post, keychain) == keychain_of(pre, keychain)
}

/// Wallet `post` has the address reuse setting of `pre` and keeps both of its pins.
pub open spec fn keeps_pins(pre: Wallet, post: Wallet) -> bool {
    keeps_pin(pre, post, Keychain::Vanilla) && keeps_pin(pre, post, Keychain::Colored)
}

/// Law: each keychain's pin holds across any sequence of operations that each keep the
/// wallet's address reuse setting and that pin: once `keychain` of a wallet with address reuse
/// has a pinned address, every later state of the sequence has that pin. Every operation keeps
/// both pins (`keeps_pins`) but the rotations, and each rotation keeps the pin of the other
/// keychain: `Wallet::rotate_vanilla_address` alone moves the vanilla pin, and
/// `Wallet::rotate_colored_address` alone the colored one.
pub proof fn lemma_pin_held_along(states: Seq<Wallet>, keychain: Keychain)
    requires
        states.len() > 0,
        forall|i: int|
            0 <= i < states.len() - 1 ==> #[trigger] keeps_pin(states[i], states[i + 1], keychain),
    ensures
        keeps_pin(states[0], states.last(), keychain),
    decreases states.len(),
{
    if states.len() > 1 {
        let prefix = states.drop_last();
        assert forall|i: int| 0 <= i < prefix.len() - 1 implies #[trigger] keeps_pin(
            prefix[i],
            prefix[i + 1],
            keychain,
        ) by {
            assert(prefix[i] == states[i] && prefix[i + 1] == states[i + 1]);
            assert(keeps_pin(states[i], states[i + 1], keychain));
        }
        lemma_pin_held_along(prefix, keychain);
        let k = states.len() - 2;
        assert(prefix.last() == states[k]);
        assert(keeps_pin(states[k], states[k + 1], keychain));
    }
}

/// Nothing moved either keychain.
pub open spec fn keychains_kept(pre: Wallet, post: Wallet) -> bool {
    post.db.vanilla == pre.db.vanilla && post.db.colored == pre.db.colored
}

/// The transaction `txid` is on the chain and mined.
pub open spec fn is_confirmed_on(txs: Seq<ChainTx>, txid: u64) -> bool {
    exists|i: int| tx_at(txs, txid, i) && txs[i].confirmed
}

/// `u` is what a refresh may make of transfer `t`: `t` itself, a failed `t` that waited for
/// the counterparty, a send that waited for it and is now broadcast, a receive that took a
/// consignment, or a settled `t` that waited for confirmations.
pub open spec fn refresh_step(t: DbTransfer, u: DbTransfer) -> bool {
    ||| u == t
    ||| t.status == TransferStatus::WaitingCounterparty && u == DbTransfer {
        status: TransferStatus::Failed,
        ..t
    }
    ||| t.status == TransferStatus::WaitingCounterparty && t.kind == TransferKind::Send && u
        == DbTransfer { status: TransferStatus::WaitingConfirmations, ..t }
    ||| is_waiting_receive(t) && exists|c: Consignment| u == accepted_transfer(t, c)
    ||| t.status == TransferStatus::WaitingConfirmations && u == DbTransfer {
        status: TransferStatus::Settled,
        ..t
    }
}

/// A refresh settles transfer `t`, which waits for confirmations of a mined transaction.
pub open spec fn settles_now(txs: Seq<ChainTx>, t: DbTransfer) -> bool {
    &&& t.status == TransferStatus::WaitingConfirmations
    &&& t.txid matches Some(x) && is_confirmed_on(txs, x)
}

/// The key of the mailbox a receive reads: its recipient ID and the nonce of its invoice (none
/// for a blind receive).
pub open spec fn spec_receive_key(t: DbTransfer) -> Option<(RecipientId, Seq<u8>)> {
    match t.recipient_id {
        Some(rid) => Some(
            (
                rid,
                match t.recipient_type {
                    Some(RecipientTypeFull::Witness { recipient_nonce, .. }) => recipient_nonce@,
                    _ => Seq::<u8>::empty(),
                },
            ),
        ),
        None => None,
    }
}

/// The chain takes transaction `txid` with these inputs and outputs: the id is a reserved one
/// not on the chain yet, the outputs can be numbered by `u32`, and the inputs are distinct
/// unspent outputs on the chain.
pub open spec fn broadcastable(chain: Regtest, txid: u64, inputs: Seq<Outpoint>, outputs: Seq<TxOut>) -> bool {
    &&& txid < chain.next_txid
    &&& forall|i: int| 0 <= i < chain.txs@.len() ==> (#[trigger] chain.txs@[i]).txid != txid
    &&& outputs.len() <= u32::MAX
    &&& forall|k: int| 0 <= k < inputs.len() ==> is_unspent(chain.txs@, #[trigger] inputs[k])
    &&& forall|k: int, m: int|
        0 <= k < m < inputs.len() ==> #[trigger] inputs[k] != #[trigger] inputs[m]
}

/// `post` is chain `pre` with the unconfirmed transaction `txid` added.
pub open spec fn chain_appended(
    pre: Regtest,
    post: Regtest,
    txid: u64,
    inputs: Seq<Outpoint>,
    outputs: Seq<TxOut>,
) -> bool {
    &&& post.next_txid == pre.next_txid
    &&& post.txs@.len() == pre.txs@.len() + 1
    &&& post.txs@.take(pre.txs@.len() as int) == pre.txs@
    &&& post.txs@.last().txid == txid
    &&& post.txs@.last().inputs@ == inputs
    &&& post.txs@.last().outputs@ == outputs
    &&& !post.txs@.last().confirmed
}

/// `post` is wallet `pre` with transfer `k` put in `status`, and nothing else changed.
pub open spec fn with_status(pre: Wallet, post: Wallet, k: int, status: TransferStatus) -> bool {
    &&& post.online == pre.online
    &&& post.db == WalletDatabase { transfers: post.db.transfers, ..pre.db }
    &&& post.db.transfers@ == pre.db.transfers@.update(
        k,
        DbTransfer { status, ..pre.db.transfers@[k] },
    )
}

/// `post` is wallet `pre` with transfer `k` settled: see `Wallet::settle`.
pub open spec fn settled_wallet(pre: Wallet, post: Wallet, k: int) -> bool {
    &&& post.online == pre.online
    &&& post.db == WalletDatabase {
        transfers: post.db.transfers,
        allocations: post.db.allocations,
        txos: post.db.txos,
        ..pre.db
    }
    &&& post.db.transfers@ == pre.db.transfers@.update(
        k,
        DbTransfer { status: TransferStatus::Settled, ..pre.db.transfers@[k] },
    )
    &&& post.db.allocations@ == settled_allocations(pre.db.allocations@, k)
    &&& post.db.txos@ == settled_txos(pre.db.txos@, pre.db.transfers@[k])
}

/// What a refresh does with transfer `k` of wallet `p0` in world `w0`, which become `p1` and
/// `w1`, and whether the transfer `changed`:
/// - a receive waiting for the counterparty whose mailbox holds an unanswered consignment takes
///   it (see `accept_outcome`) and answers it: ACK where it fits, NACK where not;
/// - a send waiting for the counterparty that the receiver accepted is broadcast and waits for
///   confirmations, or fails where the chain refuses its transaction; one that the receiver
///   refused fails;
/// - a transfer waiting for confirmations of a mined transaction settles;
/// - anything else stays as it is.
#[verifier::opaque]
pub open spec fn refresh_step_outcome(w0: World, p0: Wallet, w1: World, p1: Wallet, k: int, changed: bool) -> bool {
    let t = p0.db.transfers@[k];
    let unchanged = w1 == w0 && p1 == p0 && !changed;
    if is_waiting_receive(t) {
        match spec_receive_key(t) {
            Some(key) => match mailbox(w0.proxy.entries@, key) {
                Some((c, None)) => {
                    let fits = consignment_fits(p0.db.transfers@, k, c);
                    &&& changed
                    &&& accept_outcome(p0, p1, k as usize, c, Ok(fits))
                    &&& w1.chain == w0.chain
                    &&& w1.proxy_endpoint == w0.proxy_endpoint
                    &&& acked(w0.proxy.entries@, w1.proxy.entries@, key, fits)
                },
                _ => unchanged,
            },
            None => unchanged,
        }
    } else if t.kind == TransferKind::Send && t.status == TransferStatus::WaitingCounterparty {
        match (t.recipient_id, t.txid) {
            (Some(rid), Some(txid)) => match mailbox(w0.proxy.entries@, (rid, t.proxy_nonce@)) {
                Some((_, Some(true))) => {
                    &&& changed
                    &&& w1.proxy == w0.proxy
                    &&& w1.proxy_endpoint == w0.proxy_endpoint
                    &&& if broadcastable(w0.chain, txid, t.tx_inputs@, t.tx_outputs@) {
                        &&& chain_appended(w0.chain, w1.chain, txid, t.tx_inputs@, t.tx_outputs@)
                        &&& with_status(p0, p1, k, TransferStatus::WaitingConfirmations)
                    } else {
                        w1.chain == w0.chain && with_status(p0, p1, k, TransferStatus::Failed)
                    }
                },
                Some((_, Some(false))) => changed && w1 == w0 && with_status(
                    p0,
                    p1,
                    k,
                    TransferStatus::Failed,
                ),
                _ => unchanged,
            },
            _ => unchanged,
        }
    } else if settles_now(w0.chain.txs@, t) {
        changed && w1 == w0 && settled_wallet(p0, p1, k)
    } else {
        unchanged
    }
}

/// A run of refresh steps over the transfers of wallet `start` in world `w0`, one after the
/// other: step `k` takes `worlds[k]` and `wallets[k]` to `worlds[k + 1]` and `wallets[k + 1]`
/// (see `refresh_step_outcome`) and tells in `changes[k]` whether transfer `k` changed.
pub open spec fn refresh_run(
    w0: World,
    start: Wallet,
    worlds: Seq<World>,
    wallets: Seq<Wallet>,
    changes: Seq<bool>,
) -> bool {
    let n = start.db.transfers@.len();
    &&& worlds.len() == n + 1
    &&& wallets.len() == n + 1
    &&& changes.len() == n
    &&& worlds[0] == w0
    &&& wallets[0] == start
    &&& forall|k: int|
        0 <= k < n ==> #[trigger] refresh_step_outcome(
            worlds[k],
            wallets[k],
            worlds[k + 1],
            wallets[k + 1],
            k,
            changes[k],
        )
}

/// The outcome of `World::refresh` of party `p0` in world `w0`, which become `p1` and `w1`:
/// where the party's session is the wallet's, its colored keychain is synced with what the
/// indexer shows (see `sync_outcome`), then each transfer is moved along in turn (see
/// `refresh_run`), and the result tells whether any changed; otherwise the session's error,
/// with nothing changed.
pub open spec fn refresh_outcome(w0: World, p0: Party, w1: World, p1: Party, res: Result<bool, Error>) -> bool {
    match spec_check_online(p0.wallet.online, p0.online) {
        Err(e) => res == Err::<bool, Error>(e) && w1 == w0 && p1 == p0,
        Ok(_) => {
            &&& p1.online == p0.online
            &&& exists|
                observed: Seq<IndexedTxo>,
                start: Wallet,
                worlds: Seq<World>,
                wallets: Seq<Wallet>,
                changes: Seq<bool>,
            |
                #![trigger sync_outcome(p0.wallet, start, p0.online, SyncOptions { keychain: SyncKeychain::Colored }, observed, Ok(())), refresh_run(w0, start, worlds, wallets, changes)]
                is_unspent_view(
                    w0.chain.txs@,
                    p0.wallet.db.account_xpub,
                    Keychain::Colored,
                    observed,
                ) && sync_outcome(
                    p0.wallet,
                    start,
                    p0.online,
                    SyncOptions { keychain: SyncKeychain::Colored },
                    observed,
                    Ok(()),
                ) && refresh_run(w0, start, worlds, wallets, changes) && w1 == worlds.last()
                    && p1.wallet == wallets.last() && res == Ok::<bool, Error>(
                    changes.contains(true),
                )
        },
    }
}

/// World `w1` is `w0` after a block is mined: every transaction on the chain is confirmed, and
/// nothing else changes.
pub open spec fn mined(w0: World, w1: World) -> bool {
    &&& w1.proxy == w0.proxy
    &&& w1.proxy_endpoint == w0.proxy_endpoint
    &&& w1.chain.next_txid == w0.chain.next_txid
    &&& w1.chain.txs@.len() == w0.chain.txs@.len()
    &&& forall|i: int|
        0 <= i < w1.chain.txs@.len() ==> {
            &&& (#[trigger] w1.chain.txs@[i]).confirmed
            &&& w1.chain.txs@[i].txid == w0.chain.txs@[i].txid
            &&& w1.chain.txs@[i].inputs == w0.chain.txs@[i].inputs
            &&& w1.chain.txs@[i].outputs == w0.chain.txs@[i].outputs
        }
}

/// Mailboxes `post` keep the keys and consignments of mailboxes `pre`, one by one; only the
/// answers may differ.
pub open spec fn same_mailboxes(pre: Seq<ProxyEntry>, post: Seq<ProxyEntry>) -> bool {
    &&& post.len() == pre.len()
    &&& forall|i: int|
        0 <= i < pre.len() ==> (#[trigger] post[i]).key == pre[i].key && post[i].consignment
            == pre[i].consignment
}

/// TXO rows `post` keep the outpoints of rows `pre` in their places, and may add rows after
/// them.
pub open spec fn rows_kept(pre: Seq<DbTxo>, post: Seq<DbTxo>) -> bool {
    &&& post.len() >= pre.len()
    &&& forall|i: int|
        0 <= i < pre.len() ==> (#[trigger] post[i]).spec_outpoint() == pre[i].spec_outpoint()
}

/// The table has a row for `op`, and its first one is not flagged as a pending witness
/// payment.
pub open spec fn unflagged(txos: Seq<DbTxo>, op: Outpoint) -> bool {
    &&& has_row(txos, op)
    &&& forall|r: int| #[trigger] is_first_row(txos, op, r) ==> !txos[r].pending_witness
}

/// Where rows are kept, the first row for an outpoint stays the first row for it.
proof fn lemma_first_row_kept(pre: Seq<DbTxo>, post: Seq<DbTxo>, op: Outpoint, r: int)
    requires
        rows_kept(pre, post),
        is_first_row(pre, op, r),
    ensures
        is_first_row(post, op, r),
        forall|r2: int| #[trigger] is_first_row(post, op, r2) ==> r2 == r,
{
    assert(post[r].spec_outpoint() == pre[r].spec_outpoint());
    assert forall|j: int| 0 <= j < r implies (#[trigger] post[j]).spec_outpoint() != op by {
        assert(post[j].spec_outpoint() == pre[j].spec_outpoint());
    }
    assert forall|r2: int| #[trigger] is_first_row(post, op, r2) implies r2 == r by {
        if r2 < r {
            assert(post[r2].spec_outpoint() == pre[r2].spec_outpoint());
        } else if r < r2 {
            assert(post[r].spec_outpoint() == op);
        }
    }
}

/// A refresh step changes transfer `k` alone, and keeps each mailbox's key and consignment.
proof fn lemma_step_local(w0: World, p0: Wallet, w1: World, p1: Wallet, k: int, changed: bool)
    requires
        refresh_step_outcome(w0, p0, w1, p1, k, changed),
        0 <= k < p0.db.transfers@.len(),
    ensures
        p1.db.transfers@.len() == p0.db.transfers@.len(),
        forall|i: int|
            0 <= i < p0.db.transfers@.len() && i != k ==> #[trigger] p1.db.transfers@[i]
                == p0.db.transfers@[i],
        same_mailboxes(w0.proxy.entries@, w1.proxy.entries@),
        rows_kept(p0.db.txos@, p1.db.txos@),
{
    reveal(refresh_step_outcome);
    assert(p0.db.transfers@.len() == p0.db.transfers.len());
    assert((k as usize) as int == k);
    let t = p0.db.transfers@[k];
    let pre = p0.db.transfers@;
    assert(exists|u: DbTransfer| p1.db.transfers@ == pre.update(k, u)) by {
        if is_waiting_receive(t) && spec_receive_key(t) is Some {
            let key = spec_receive_key(t).unwrap();
            match mailbox(w0.proxy.entries@, key) {
                Some((c, None)) => {
                    if consignment_fits(pre, k, c) {
                        assert(p1.db.transfers@ == pre.update(k, accepted_transfer(t, c)));
                    } else {
                        assert(p1.db.transfers@ == pre.update(
                            k,
                            DbTransfer { status: TransferStatus::Failed, ..t },
                        ));
                    }
                },
                _ => {
                    assert(p1.db.transfers@ == pre.update(k, p1.db.transfers@[k]));
                },
            }
        } else {
            assert(p1.db.transfers@ == pre.update(k, p1.db.transfers@[k]));
        }
    }
    let txos = p0.db.txos@;
    if is_waiting_receive(t) && spec_receive_key(t) is Some {
        let key = spec_receive_key(t).unwrap();
        match mailbox(w0.proxy.entries@, key) {
            Some((c, None)) => {
                if consignment_fits(pre, k, c) {
                    let op = crate::consignment::paid_outpoint(c);
                    if has_row(txos, op) {
                        lemma_first_row_exists(txos, op);
                    }
                }
            },
            _ => {},
        }
    } else if settles_now(w0.chain.txs@, t) {
        match crate::consignment::credit_of(t) {
            Some(op) => {
                if has_row(txos, op) {
                    lemma_first_row_exists(txos, op);
                }
            },
            None => {},
        }
    }
}

/// A refresh step on a transfer other than `m` leaves the row of `m`'s witness payment `op`
/// unflagged, where it was: a consignment that fits pays another output, and settling only
/// clears flags.
proof fn lemma_step_keeps_unflagged(
    w0: World,
    p0: Wallet,
    w1: World,
    p1: Wallet,
    k: int,
    changed: bool,
    m: int,
    op: Outpoint,
)
    requires
        refresh_step_outcome(w0, p0, w1, p1, k, changed),
        0 <= k < p0.db.transfers@.len(),
        0 <= m < p0.db.transfers@.len(),
        k != m,
        crate::consignment::credit_of(p0.db.transfers@[m]) == Some(op),
        unflagged(p0.db.txos@, op),
    ensures
        unflagged(p1.db.txos@, op),
{
    lemma_step_local(w0, p0, w1, p1, k, changed);
    reveal(refresh_step_outcome);
    assert(p0.db.transfers@.len() == p0.db.transfers.len());
    assert((k as usize) as int == k);
    let txos = p0.db.txos@;
    let pre = p0.db.transfers@;
    let t = pre[k];
    lemma_first_row_exists(txos, op);
    let r = choose|r: int| is_first_row(txos, op, r);
    lemma_first_row_kept(txos, p1.db.txos@, op, r);
    assert(p1.db.txos@[r].spec_outpoint() == op);
    assert(!p1.db.txos@[r].pending_witness) by {
        if is_waiting_receive(t) && spec_receive_key(t) is Some {
            let key = spec_receive_key(t).unwrap();
            match mailbox(w0.proxy.entries@, key) {
                Some((c, None)) => {
                    if consignment_fits(pre, k, c) {
                        match t.recipient_type {
                            Some(RecipientTypeFull::Blind { .. }) => {},
                            _ => {
                                let op2 = crate::consignment::paid_outpoint(c);
                                assert(op2 != op) by {
                                    if op2 == op {
                                        assert(crate::consignment::credit_of(pre[m]) == Some(op2));
                                        assert(crate::consignment::is_credited(pre, op2, k));
                                    }
                                }
                                if has_row(txos, op2) {
                                    lemma_first_row_exists(txos, op2);
                                    let r2 = choose|r2: int| is_first_row(txos, op2, r2);
                                    assert(r2 != r);
                                    assert(p1.db.txos@ == txos.update(
                                        r2,
                                        DbTxo { pending_witness: true, ..txos[r2] },
                                    ));
                                } else {
                                    assert(p1.db.txos@[r] == txos[r]);
                                }
                            },
                        }
                    }
                },
                _ => {},
            }
        } else if settles_now(w0.chain.txs@, t) {
            match crate::consignment::credit_of(t) {
                Some(op2) => {
                    if has_row(txos, op2) {
                        lemma_first_row_exists(txos, op2);
                    }
                },
                None => {},
            }
        }
    }
}

/// Along a run of refresh steps every mailbox keeps its key and consignment, and transfer `i`
/// stays as it was up to step `i` and as step `i` left it after.
proof fn lemma_run_local(
    w0: World,
    start: Wallet,
    worlds: Seq<World>,
    wallets: Seq<Wallet>,
    changes: Seq<bool>,
    j: int,
)
    requires
        refresh_run(w0, start, worlds, wallets, changes),
        0 <= j <= start.db.transfers@.len(),
    ensures
        same_mailboxes(w0.proxy.entries@, worlds[j].proxy.entries@),
        wallets[j].db.transfers@.len() == start.db.transfers@.len(),
        forall|i: int|
            j <= i < start.db.transfers@.len() ==> #[trigger] wallets[j].db.transfers@[i]
                == start.db.transfers@[i],
        forall|i: int|
            0 <= i < j ==> #[trigger] wallets[j].db.transfers@[i] == wallets[i + 1].db.transfers@[i],
        forall|i: int| 0 <= i <= j ==> rows_kept(#[trigger] wallets[i].db.txos@, wallets[j].db.txos@),
    decreases j,
{
    if j > 0 {
        lemma_run_local(w0, start, worlds, wallets, changes, j - 1);
        let k = j - 1;
        assert(refresh_step_outcome(
            worlds[k],
            wallets[k],
            worlds[k + 1],
            wallets[k + 1],
            k,
            changes[k],
        ));
        lemma_step_local(worlds[k], wallets[k], worlds[k + 1], wallets[k + 1], k, changes[k]);
        assert forall|i: int| 0 <= i < j implies #[trigger] wallets[j].db.transfers@[i]
            == wallets[i + 1].db.transfers@[i] by {
            if i < k {
                assert(wallets[j].db.transfers@[i] == wallets[k].db.transfers@[i]);
            }
        }
        assert forall|i: int| 0 <= i <= j implies rows_kept(
            #[trigger] wallets[i].db.txos@,
            wallets[j].db.txos@,
        ) by {
            if i < j {
                assert(rows_kept(wallets[i].db.txos@, wallets[k].db.txos@));
                assert forall|a: int| 0 <= a < wallets[i].db.txos@.len() implies (
                #[trigger] wallets[j].db.txos@[a]).spec_outpoint() == wallets[i].db.txos@[a].spec_outpoint() by {
                    assert(wallets[k].db.txos@[a].spec_outpoint() == wallets[i].db.txos@[a].spec_outpoint());
                }
            }
        }
    } else {
        assert(rows_kept(wallets[0].db.txos@, wallets[0].db.txos@));
    }
}

/// Mailboxes that keep their keys and consignments hold the same consignment under each key,
/// whatever the answers.
proof fn lemma_same_mailbox(pre: Seq<ProxyEntry>, post: Seq<ProxyEntry>, key: (RecipientId, Seq<u8>))
    requires
        same_mailboxes(pre, post),
        forall|i: int, j: int|
            0 <= i < j < pre.len() ==> (#[trigger] pre[i]).key.view_key() != (#[trigger] pre[j]).key.view_key(),
    ensures
        (mailbox(pre, key) is Some) == (mailbox(post, key) is Some),
        mailbox(pre, key) is Some ==> mailbox(post, key).unwrap().0 == mailbox(pre, key).unwrap().0,
{
    assert forall|i: int| entry_has_key(pre, i, key) <==> entry_has_key(post, i, key) by {
        if 0 <= i < pre.len() {
            assert(post[i].key == pre[i].key);
        }
    }
    if exists|i: int| entry_has_key(pre, i, key) {
        let a = choose|i: int| entry_has_key(pre, i, key);
        let b = choose|i: int| entry_has_key(post, i, key);
        assert(entry_has_key(post, a, key));
        assert(a == b) by {
            assert(post[b].key == pre[b].key);
            if a < b {
                assert(pre[a].key.view_key() != pre[b].key.view_key());
            } else if b < a {
                assert(pre[b].key.view_key() != pre[a].key.view_key());
            }
        }
        assert(post[a].consignment == pre[a].consignment);
    }
}

/// Law: a refresh hands a waiting receive the consignment in its mailbox and no other. Where
/// receive `m` of party `p0` waits for the counterparty and its mailbox holds consignment `c`,
/// after the refresh it is as it was, failed, or waits for confirmations of `c`.
pub proof fn lemma_refresh_takes_mailbox_consignment(
    w0: World,
    p0: Party,
    w1: World,
    p1: Party,
    changed: bool,
    m: int,
    c: Consignment,
)
    requires
        w0.wf(),
        refresh_outcome(w0, p0, w1, p1, Ok::<bool, Error>(changed)),
        0 <= m < p0.wallet.db.transfers@.len(),
        is_waiting_receive(p0.wallet.db.transfers@[m]),
        spec_receive_key(p0.wallet.db.transfers@[m]) is Some,
        mailbox(w0.proxy.entries@, spec_receive_key(p0.wallet.db.transfers@[m]).unwrap()) is Some,
        mailbox(w0.proxy.entries@, spec_receive_key(p0.wallet.db.transfers@[m]).unwrap()).unwrap().0
            == c,
    ensures
        ({
            let t = p0.wallet.db.transfers@[m];
            let u = p1.wallet.db.transfers@[m];
            ||| u == t
            ||| u == DbTransfer { status: TransferStatus::Failed, ..t }
            ||| u == accepted_transfer(t, c)
        }),
        p1.wallet.db.transfers@[m] == accepted_transfer(p0.wallet.db.transfers@[m], c)
            && p0.wallet.db.transfers@[m].recipient_type is Some && !(p0.wallet.db.transfers@[m].recipient_type->0 is Blind)
            ==> has_row(p1.wallet.db.txos@, crate::consignment::paid_outpoint(c)),
{
    let (observed, start, worlds, wallets, changes) = choose|
        observed: Seq<IndexedTxo>,
        start: Wallet,
        worlds: Seq<World>,
        wallets: Seq<Wallet>,
        changes: Seq<bool>,
    |
        #![trigger sync_outcome(p0.wallet, start, p0.online, SyncOptions { keychain: SyncKeychain::Colored }, observed, Ok(())), refresh_run(w0, start, worlds, wallets, changes)]
        is_unspent_view(
            w0.chain.txs@,
            p0.wallet.db.account_xpub,
            Keychain::Colored,
            observed,
        ) && sync_outcome(
            p0.wallet,
            start,
            p0.online,
            SyncOptions { keychain: SyncKeychain::Colored },
            observed,
            Ok(()),
        ) && refresh_run(w0, start, worlds, wallets, changes) && w1 == worlds.last()
            && p1.wallet == wallets.last() && Ok::<bool, Error>(changed) == Ok::<bool, Error>(
            changes.contains(true),
        );
    let n = start.db.transfers@.len() as int;
    assert(start.db.transfers == p0.wallet.db.transfers);
    lemma_run_local(w0, start, worlds, wallets, changes, m);
    lemma_run_local(w0, start, worlds, wallets, changes, n);
    let key = spec_receive_key(p0.wallet.db.transfers@[m]).unwrap();
    lemma_same_mailbox(w0.proxy.entries@, worlds[m].proxy.entries@, key);
    assert(refresh_step_outcome(
        worlds[m],
        wallets[m],
        worlds[m + 1],
        wallets[m + 1],
        m,
        changes[m],
    ));
    reveal(refresh_step_outcome);
    assert(wallets[m].db.transfers@[m] == p0.wallet.db.transfers@[m]);
    assert(p1.wallet.db.transfers@[m] == wallets[m + 1].db.transfers@[m]);
    let t = p0.wallet.db.transfers@[m];
    let op = crate::consignment::paid_outpoint(c);
    if p1.wallet.db.transfers@[m] == accepted_transfer(t, c) && t.recipient_type is Some && !(
    t.recipient_type->0 is Blind) {
        let txos = wallets[m].db.txos@;
        let next = wallets[m + 1].db.txos@;
        assert((m as usize) as int == m);
        assert(consignment_fits(wallets[m].db.transfers@, m, c));
        let r: int = if has_row(txos, op) {
            lemma_first_row_exists(txos, op);
            choose|r: int| is_first_row(txos, op, r)
        } else {
            txos.len() as int
        };
        assert(next[r].spec_outpoint() == op);
        assert(rows_kept(next, p1.wallet.db.txos@));
        assert(p1.wallet.db.txos@[r].spec_outpoint() == op);
    }
}

/// Along a run of refresh steps after step `m`, the row of `m`'s witness payment `op` stays
/// unflagged.
proof fn lemma_run_keeps_unflagged(
    w0: World,
    start: Wallet,
    worlds: Seq<World>,
    wallets: Seq<Wallet>,
    changes: Seq<bool>,
    m: int,
    op: Outpoint,
    j: int,
)
    requires
        refresh_run(w0, start, worlds, wallets, changes),
        0 <= m < j <= start.db.transfers@.len(),
        unflagged(wallets[m + 1].db.txos@, op),
        crate::consignment::credit_of(wallets[m + 1].db.transfers@[m]) == Some(op),
    ensures
        unflagged(wallets[j].db.txos@, op),
    decreases j,
{
    if j > m + 1 {
        let k = j - 1;
        lemma_run_keeps_unflagged(w0, start, worlds, wallets, changes, m, op, k);
        lemma_run_local(w0, start, worlds, wallets, changes, k);
        assert(wallets[k].db.transfers@[m] == wallets[m + 1].db.transfers@[m]);
        assert(refresh_step_outcome(
            worlds[k],
            wallets[k],
            worlds[k + 1],
            wallets[k + 1],
            k,
            changes[k],
        ));
        lemma_step_keeps_unflagged(
            worlds[k],
            wallets[k],
            worlds[k + 1],
            wallets[k + 1],
            k,
            changes[k],
            m,
            op,
        );
    }
}

/// Chain `post` keeps the transactions of chain `pre` in their places, and every transaction
/// it adds after them is unconfirmed.
pub open spec fn chain_extends_unconfirmed(pre: Seq<ChainTx>, post: Seq<ChainTx>) -> bool {
    &&& post.len() >= pre.len()
    &&& post.take(pre.len() as int) == pre
    &&& forall|i: int| pre.len() <= i < post.len() ==> !(#[trigger] post[i]).confirmed
}

/// Along a run of refresh steps the chain only gains unconfirmed transactions.
proof fn lemma_run_chain(
    w0: World,
    start: Wallet,
    worlds: Seq<World>,
    wallets: Seq<Wallet>,
    changes: Seq<bool>,
    j: int,
)
    requires
        refresh_run(w0, start, worlds, wallets, changes),
        0 <= j <= start.db.transfers@.len(),
    ensures
        chain_extends_unconfirmed(w0.chain.txs@, worlds[j].chain.txs@),
    decreases j,
{
    if j == 0 {
        assert(w0.chain.txs@.take(w0.chain.txs@.len() as int) =~= w0.chain.txs@);
    } else {
        let k = j - 1;
        lemma_run_chain(w0, start, worlds, wallets, changes, k);
        assert(refresh_step_outcome(
            worlds[k],
            wallets[k],
            worlds[k + 1],
            wallets[k + 1],
            k,
            changes[k],
        ));
        reveal(refresh_step_outcome);
        let pre = worlds[k].chain.txs@;
        let post = worlds[j].chain.txs@;
        let base = w0.chain.txs@;
        if post != pre {
            assert(post.len() == pre.len() + 1 && post.take(pre.len() as int) == pre && !post.last().confirmed);
            assert(post.take(base.len() as int) =~= base) by {
                assert forall|i: int| 0 <= i < base.len() implies post[i] == base[i] by {
                    assert(post.take(pre.len() as int)[i] == pre[i]);
                    assert(pre.take(base.len() as int)[i] == base[i]);
                }
            }
            assert forall|i: int| base.len() <= i < post.len() implies !(#[trigger] post[i]).confirmed by {
                if i < pre.len() {
                    assert(post.take(pre.len() as int)[i] == pre[i]);
                }
            }
        }
    }
}

/// Law: a refresh settles a transfer only where its transaction was mined before it: a
/// transfer that the refresh turns into a settled one waited for confirmations, and its
/// transaction is confirmed on the chain the refresh started from. A transfer that waits for
/// confirmations of a transaction not confirmed there stays as it is.
pub proof fn lemma_refresh_settles_only_mined(
    w0: World,
    p0: Party,
    w1: World,
    p1: Party,
    changed: bool,
    k: int,
)
    requires
        refresh_outcome(w0, p0, w1, p1, Ok::<bool, Error>(changed)),
        0 <= k < p0.wallet.db.transfers@.len(),
    ensures
        p0.wallet.db.transfers@[k].status != TransferStatus::Settled
            && p1.wallet.db.transfers@[k].status == TransferStatus::Settled ==> {
            &&& p0.wallet.db.transfers@[k].status == TransferStatus::WaitingConfirmations
            &&& p0.wallet.db.transfers@[k].txid matches Some(x) && exists|i: int|
                0 <= i < w0.chain.txs@.len() && (#[trigger] w0.chain.txs@[i]).txid == x
                    && w0.chain.txs@[i].confirmed
        },
        p0.wallet.db.transfers@[k].status == TransferStatus::WaitingConfirmations && (
        p0.wallet.db.transfers@[k].txid matches Some(x) && forall|i: int|
            0 <= i < w0.chain.txs@.len() && (#[trigger] w0.chain.txs@[i]).txid == x
                ==> !w0.chain.txs@[i].confirmed) ==> p1.wallet.db.transfers@[k]
            == p0.wallet.db.transfers@[k],
{
    let (observed, start, worlds, wallets, changes) = choose|
        observed: Seq<IndexedTxo>,
        start: Wallet,
        worlds: Seq<World>,
        wallets: Seq<Wallet>,
        changes: Seq<bool>,
    |
        #![trigger sync_outcome(p0.wallet, start, p0.online, SyncOptions { keychain: SyncKeychain::Colored }, observed, Ok(())), refresh_run(w0, start, worlds, wallets, changes)]
        is_unspent_view(
            w0.chain.txs@,
            p0.wallet.db.account_xpub,
            Keychain::Colored,
            observed,
        ) && sync_outcome(
            p0.wallet,
            start,
            p0.online,
            SyncOptions { keychain: SyncKeychain::Colored },
            observed,
            Ok(()),
        ) && refresh_run(w0, start, worlds, wallets, changes) && w1 == worlds.last()
            && p1.wallet == wallets.last() && Ok::<bool, Error>(changed) == Ok::<bool, Error>(
            changes.contains(true),
        );
    let n = start.db.transfers@.len() as int;
    assert(start.db.transfers == p0.wallet.db.transfers);
    lemma_run_local(w0, start, worlds, wallets, changes, k);
    lemma_run_local(w0, start, worlds, wallets, changes, n);
    lemma_run_chain(w0, start, worlds, wallets, changes, k);
    assert(refresh_step_outcome(
        worlds[k],
        wallets[k],
        worlds[k + 1],
        wallets[k + 1],
        k,
        changes[k],
    ));
    reveal(refresh_step_outcome);
    let t = p0.wallet.db.transfers@[k];
    assert(wallets[k].db.transfers@[k] == t);
    assert(p1.wallet.db.transfers@[k] == wallets[k + 1].db.transfers@[k]);
    let base = w0.chain.txs@;
    let chain_k = worlds[k].chain.txs@;
    if settles_now(chain_k, t) {
        let x = t.txid.unwrap();
        let i = choose|i: int| tx_at(chain_k, x, i) && chain_k[i].confirmed;
        assert(i < base.len());
        assert(chain_k.take(base.len() as int)[i] == chain_k[i]);
        assert(base[i] == chain_k[i]);
    }
}

/// Law: a refresh that settles a witness receive leaves the row of the output it was paid with
/// unflagged. Where receive `m` of party `p0` waits for confirmations and holds the witness
/// payment `op`, whose row the table has, and the refresh settles it, the first row for `op`
/// is no longer a pending witness payment afterwards.
pub proof fn lemma_refresh_settle_clears_flag(
    w0: World,
    p0: Party,
    w1: World,
    p1: Party,
    changed: bool,
    m: int,
    op: Outpoint,
)
    requires
        refresh_outcome(w0, p0, w1, p1, Ok::<bool, Error>(changed)),
        0 <= m < p0.wallet.db.transfers@.len(),
        p0.wallet.db.transfers@[m].status == TransferStatus::WaitingConfirmations,
        crate::consignment::credit_of(p0.wallet.db.transfers@[m]) == Some(op),
        has_row(p0.wallet.db.txos@, op),
        p1.wallet.db.transfers@[m].status == TransferStatus::Settled,
    ensures
        unflagged(p1.wallet.db.txos@, op),
{
    let (observed, start, worlds, wallets, changes) = choose|
        observed: Seq<IndexedTxo>,
        start: Wallet,
        worlds: Seq<World>,
        wallets: Seq<Wallet>,
        changes: Seq<bool>,
    |
        #![trigger sync_outcome(p0.wallet, start, p0.online, SyncOptions { keychain: SyncKeychain::Colored }, observed, Ok(())), refresh_run(w0, start, worlds, wallets, changes)]
        is_unspent_view(
            w0.chain.txs@,
            p0.wallet.db.account_xpub,
            Keychain::Colored,
            observed,
        ) && sync_outcome(
            p0.wallet,
            start,
            p0.online,
            SyncOptions { keychain: SyncKeychain::Colored },
            observed,
            Ok(()),
        ) && refresh_run(w0, start, worlds, wallets, changes) && w1 == worlds.last()
            && p1.wallet == wallets.last() && Ok::<bool, Error>(changed) == Ok::<bool, Error>(
            changes.contains(true),
        );
    let n = start.db.transfers@.len() as int;
    let t = p0.wallet.db.transfers@[m];
    assert(start.db.transfers == p0.wallet.db.transfers);
    // the sync keeps the rows
    let pre = p0.wallet.db.txos@;
    assert forall|i: int| 0 <= i < pre.len() implies (#[trigger] start.db.txos@[i]).spec_outpoint()
        == pre[i].spec_outpoint() by {
        assert(start.db.txos@[i] == crate::db::spec_sync_row(pre[i], observed));
    }
    assert(rows_kept(pre, start.db.txos@));
    lemma_run_local(w0, start, worlds, wallets, changes, m);
    lemma_run_local(w0, start, worlds, wallets, changes, n);
    let txos_m = wallets[m].db.txos@;
    assert(rows_kept(wallets[0].db.txos@, txos_m));
    lemma_first_row_exists(pre, op);
    let r = choose|r: int| is_first_row(pre, op, r);
    lemma_first_row_kept(pre, start.db.txos@, op, r);
    lemma_first_row_kept(start.db.txos@, txos_m, op, r);
    assert(txos_m[r].spec_outpoint() == op);
    assert(has_row(txos_m, op));
    // step `m` settles the receive and clears the flag
    assert(refresh_step_outcome(
        worlds[m],
        wallets[m],
        worlds[m + 1],
        wallets[m + 1],
        m,
        changes[m],
    ));
    reveal(refresh_step_outcome);
    assert(wallets[m].db.transfers@[m] == t);
    assert(p1.wallet.db.transfers@[m] == wallets[m + 1].db.transfers@[m]);
    assert(settled_wallet(wallets[m], wallets[m + 1], m));
    let next = wallets[m + 1].db.txos@;
    assert(next == txos_m.update(r, DbTxo { pending_witness: false, ..txos_m[r] }));
    assert(next[r].spec_outpoint() == op);
    assert(unflagged(next, op)) by {
        assert forall|r2: int| #[trigger] is_first_row(next, op, r2) implies !next[r2].pending_witness by {
            assert(rows_kept(txos_m, next));
            lemma_first_row_kept(txos_m, next, op, r);
        }
    }
    assert(crate::consignment::credit_of(wallets[m + 1].db.transfers@[m]) == Some(op));
    if m + 1 < n {
        lemma_run_keeps_unflagged(w0, start, worlds, wallets, changes, m, op, n);
    }
}

/// A result with its value dropped.
pub open spec fn without_value(r: Result<u64, Error>) -> Result<(), Error> {
    match r {
        Ok(_) => Ok(()),
        Err(e) => Err(e),
    }
}

/// The consignment that `World::send` of `recipient.assignment` of `asset_id` posts, carried
/// by transaction `txid`: a witness recipient is paid on output 0, a blind one on its seal.
pub open spec fn posted_consignment(asset_id: u64, recipient: Recipient, txid: u64) -> Consignment {
    Consignment {
        asset_id,
        amount: recipient.assignment->Fungible_0,
        txid,
        vout: if recipient.recipient_id is Witness {
            Some(0u32)
        } else {
            None
        },
        script: match recipient.recipient_id {
            RecipientId::Witness(script) => Some(script),
            _ => None,
        },
        seal: match recipient.recipient_id {
            RecipientId::Blind(seal) => Some(seal),
            _ => None,
        },
        btc_amount: match recipient.witness_data {
            Some(w) => w.amount_sat,
            None => 0,
        },
    }
}

/// The outcome of `World::send` of `recipient.assignment` of `asset_id` from party `p0`, which
/// becomes `p1`, the world going from `w0` to `w1`: see `World::send`.
pub open spec fn world_send_outcome(
    w0: World,
    w1: World,
    p0: Party,
    p1: Party,
    asset_id: u64,
    recipient: Recipient,
    fee_rate: u64,
    res: Result<u64, Error>,
) -> bool {
    &&& (p1.online == p0.online)
    &&& (w1.proxy_endpoint == w0.proxy_endpoint)
    &&& (same_wallet(p0.wallet, p1.wallet))
    &&& (keeps_pins(p0.wallet, p1.wallet))
    &&& (witness_credits_unique(p0.wallet.db.transfers@) ==> witness_credits_unique(
        p1.wallet.db.transfers@,
    ))
    &&& (res is Ok ==> {
        let t = p1.wallet.db.transfers@.last();
        &&& p1.wallet.db.transfers@.len() == p0.wallet.db.transfers@.len() + 1
        &&& res.unwrap() == w0.chain.next_txid
        &&& t.kind == TransferKind::Send
        &&& t.status == TransferStatus::WaitingCounterparty
        &&& t.txid == Some(res.unwrap())
        &&& t.recipient_id == Some(recipient.recipient_id)
        &&& match (recipient.recipient_id, recipient.witness_data) {
            (RecipientId::Witness(script), Some(w)) => t.tx_outputs@.len() == 3 && t.tx_outputs@[0]
                == TxOut { script, amount: w.amount_sat },
            _ => true,
        }
        &&& exists|i: int|
            entry_has_key(
                w1.proxy.entries@,
                i,
                (
                    recipient.recipient_id,
                    spec_invoice_nonce(endpoints_view(recipient.transport_endpoints@)).unwrap(),
                ),
            ) && w1.proxy.entries@[i].consignment.txid == res.unwrap()
        &&& w1.proxy.entries@.len() == w0.proxy.entries@.len() + 1
        &&& w1.proxy.entries@.take(w0.proxy.entries@.len() as int) == w0.proxy.entries@
        &&& w1.proxy.entries@.last().key.view_key() == (
            recipient.recipient_id,
            spec_invoice_nonce(endpoints_view(recipient.transport_endpoints@)).unwrap(),
        )
        &&& w1.proxy.entries@.last().consignment == posted_consignment(
            asset_id,
            recipient,
            res.unwrap(),
        )
        &&& w1.proxy.entries@.last().ack is None
        &&& w1.chain.txs == w0.chain.txs
    })
    &&& (res == Err::<u64, Error>(Error::ChainFull) <==> w0.chain.next_txid == u64::MAX)
    &&& (res == Err::<u64, Error>(Error::ChainFull) ==> p1.wallet == p0.wallet)
    &&& (res != Err::<u64, Error>(Error::ChainFull) ==> exists|
        vanilla: Seq<IndexedTxo>,
        mid: Wallet,
        prepared: Result<PreparedSend, Error>,
    |
        #[trigger] send_outcome(
            p0.wallet,
            mid,
            p0.online,
            asset_id,
            recipient.assignment,
            recipient.recipient_id,
            recipient.witness_data,
            endpoints_view(recipient.transport_endpoints@),
            vanilla,
            w0.chain.next_txid,
            fee_rate,
            prepared,
        ) && is_unspent_view(
            w0.chain.txs@,
            p0.wallet.db.account_xpub,
            Keychain::Vanilla,
            vanilla,
        ) && match prepared {
            Err(e) => res == Err::<u64, Error>(e) && p1.wallet == mid,
            Ok(p) => (res is Ok <==> forall|i: int|
                !entry_has_key(w0.proxy.entries@, i, p.proxy_key.view_key())) && match res {
                Ok(txid) => txid == w0.chain.next_txid && p1.wallet == mid,
                Err(e) => {
                    &&& e == Error::ProxyRecipientIdInUse
                    &&& p1.wallet.online == mid.online
                    &&& p1.wallet.db == (WalletDatabase {
                        transfers: p1.wallet.db.transfers,
                        ..mid.db
                    })
                    &&& p1.wallet.db.transfers@ == mid.db.transfers@.update(
                        p.transfer_idx as int,
                        DbTransfer {
                            status: TransferStatus::Failed,
                            ..mid.db.transfers@[p.transfer_idx as int]
                        },
                    )
                },
            },
        })
}

impl Party {
    /// The party's wallet is consistent and its session is the wallet's.
    pub open spec fn wf(&self) -> bool {
        &&& self.wallet.wf()
        &&& self.wallet.online == Some(self.online)
    }
}

impl World {
    /// The chain and the proxy are consistent.
    pub open spec fn wf(&self) -> bool {
        self.chain.wf() && self.proxy.wf()
    }

    /// A new chain and a proxy with no mailboxes, reached at `proxy_endpoint`.
    pub fn new(proxy_endpoint: Vec<u8>) -> (res: World)
        ensures
            res.wf(),
            res.chain.txs@.len() == 0,
            res.chain.next_txid == 1,
            res.proxy.entries@.len() == 0,
            res.proxy_endpoint == proxy_endpoint,
    {
        World { chain: Regtest::new(), proxy: Proxy::new(), proxy_endpoint }
    }

    /// The transport endpoints of invoices served by this world's proxy.
    pub fn transport_endpoints(&self) -> (res: Vec<Vec<u8>>)
        ensures
            res@.len() == 1,
            res@[0]@ == self.proxy_endpoint@,
    {
        let mut res: Vec<Vec<u8>> = Vec::new();
        res.push(copy_bytes(self.proxy_endpoint.as_slice()));
        res
    }

    /// Sends `FUNDING_SAT` from outside to `address`, unconfirmed; returns the transaction id.
    pub fn fund_wallet(&mut self, address: Script) -> (res: Result<u64, Error>)
        requires
            old(self).wf(),
        ensures
            final(self).wf(),
            final(self).proxy == old(self).proxy,
            final(self).proxy_endpoint == old(self).proxy_endpoint,
            match res {
                Ok(txid) => {
                    &&& txid == old(self).chain.next_txid
                    &&& final(self).chain.next_txid == txid + 1
                    &&& final(self).chain.txs@.len() == old(self).chain.txs@.len() + 1
                    &&& final(self).chain.txs@.take(old(self).chain.txs@.len() as int)
                        == old(self).chain.txs@
                    &&& final(self).chain.txs@.last().txid == txid
                    &&& final(self).chain.txs@.last().inputs@.len() == 0
                    &&& final(self).chain.txs@.last().outputs@ == seq![
                        TxOut { script: address, amount: FUNDING_SAT },
                    ]
                },
                Err(e) => e == Error::ChainFull && old(self).chain.next_txid == u64::MAX
                    && *final(self) == *old(self),
            },
    {
        self.chain.fund(address, FUNDING_SAT)
    }

    /// Sends `FOREIGN_SAT` from outside to `address`, unconfirmed; returns the transaction id.
    pub fn send_to_address(&mut self, address: Script) -> (res: Result<u64, Error>)
        requires
            old(self).wf(),
        ensures
            final(self).wf(),
            final(self).proxy == old(self).proxy,
            final(self).proxy_endpoint == old(self).proxy_endpoint,
            match res {
                Ok(txid) => {
                    &&& final(self).chain.txs@.len() == old(self).chain.txs@.len() + 1
                    &&& final(self).chain.txs@.last().txid == txid
                    &&& final(self).chain.txs@.last().outputs@ == seq![
                        TxOut { script: address, amount: FOREIGN_SAT },
                    ]
                },
                Err(e) => e == Error::ChainFull && *final(self) == *old(self),
            },
    {
        self.chain.fund(address, FOREIGN_SAT)
    }

    /// Mines a block: every transaction is confirmed.
    pub fn mine(&mut self)
        requires
            old(self).wf(),
        ensures
            final(self).wf(),
            mined(*old(self), *final(self)),
            final(self).proxy == old(self).proxy,
            final(self).proxy_endpoint == old(self).proxy_endpoint,
            final(self).chain.txs@.len() == old(self).chain.txs@.len(),
            forall|i: int|
                0 <= i < final(self).chain.txs@.len() ==> (#[trigger] final(self).chain.txs@[i]).confirmed,
    {
        self.chain.mine();
    }

    /// The unspent outputs of `keychain` of the party's wallet, as the indexer shows them.
    pub fn list_unspents(&self, party: &Party, keychain: Keychain) -> (res: Vec<IndexedTxo>)
        requires
            self.wf(),
        ensures
            is_unspent_view(self.chain.txs@, party.wallet.db.account_xpub, keychain, res@),
    {
        self.chain.unspent_for(party.wallet.db.account_xpub, keychain)
    }

    /// Syncs the party's wallet with what the indexer shows of its unspent colored outputs:
    /// see `sync_outcome`.
    pub fn sync(&self, party: &mut Party, options: SyncOptions) -> (res: Result<(), Error>)
        requires
            self.wf(),
            old(party).wf(),
        ensures
            keeps_pins(old(party).wallet, final(party).wallet),
            exists|observed: Seq<IndexedTxo>|
                is_unspent_view(
                    self.chain.txs@,
                    old(party).wallet.db.account_xpub,
                    Keychain::Colored,
                    observed,
                ) && #[trigger] sync_outcome(
                    old(party).wallet,
                    final(party).wallet,
                    old(party).online,
                    options,
                    observed,
                    res,
                ),
            final(party).wf(),
            final(party).online == old(party).online,
            res == spec_check_online(old(party).wallet.online, old(party).online),
            final(party).wallet.db.transfers == old(party).wallet.db.transfers,
            final(party).wallet.db.allocations == old(party).wallet.db.allocations,
            same_wallet(old(party).wallet, final(party).wallet),
            keychains_kept(old(party).wallet, final(party).wallet),
    {
        let observed = self.chain.unspent_for(party.wallet.db.account_xpub, Keychain::Colored);
        party.wallet.sync(party.online, options, &observed)
    }

    /// Broadcasts transaction `txid`, refused where the id is not a reserved one or is on the
    /// chain already, where it has more outputs than `u32` numbers, or where the chain refuses
    /// it.
    fn broadcast_tx(&mut self, txid: u64, inputs: Vec<Outpoint>, outputs: Vec<TxOut>) -> (res:
        Result<(), Error>)
        requires
            old(self).wf(),
        ensures
            final(self).wf(),
            final(self).proxy == old(self).proxy,
            final(self).proxy_endpoint == old(self).proxy_endpoint,
            res is Err ==> final(self).chain == old(self).chain && res == Err::<(), Error>(
                Error::InvalidTransaction,
            ),
            res is Ok <==> broadcastable(old(self).chain, txid, inputs@, outputs@),
            res is Ok ==> chain_appended(old(self).chain, final(self).chain, txid, inputs@, outputs@),
    {
        if txid >= self.chain.next_txid || outputs.len() > 0xFFFF_FFFFusize {
            return Err(Error::InvalidTransaction);
        }
        if self.chain.find_tx(txid).is_some() {
            assert(exists|i: int| crate::regtest::tx_at(self.chain.txs@, txid, i));
            return Err(Error::InvalidTransaction);
        }
        assert forall|i: int| 0 <= i < self.chain.txs@.len() implies (
        #[trigger] self.chain.txs@[i]).txid != txid by {
            assert(!crate::regtest::tx_at(self.chain.txs@, txid, i));
        }
        self.chain.broadcast(txid, inputs, outputs)
    }

    /// Creates `num` UTXOs on the party's colored keychain (see `Wallet::prepare_create_utxos`),
    /// broadcasts the transaction and syncs; returns its id.
    pub fn create_utxos(&mut self, party: &mut Party, num: u8, fee_rate: u64) -> (res: Result<
        u64,
        Error,
    >)
        requires
            old(self).wf(),
            old(party).wf(),
        ensures
            keeps_pins(old(party).wallet, final(party).wallet),
            final(self).wf(),
            final(party).wf(),
            final(party).online == old(party).online,
            final(self).proxy == old(self).proxy,
            final(self).proxy_endpoint == old(self).proxy_endpoint,
            same_wallet(old(party).wallet, final(party).wallet),
            pins_held(old(party).wallet, final(party).wallet),
            final(party).wallet.db.transfers == old(party).wallet.db.transfers,
            res is Ok ==> final(party).wallet.db.vanilla.revealed > 0
                && final(party).wallet.db.colored.revealed > 0,
            old(self).chain.next_txid == u64::MAX ==> res == Err::<u64, Error>(Error::ChainFull)
                && *final(party) == *old(party),
            old(self).chain.next_txid < u64::MAX ==> exists|
                vanilla: Seq<IndexedTxo>,
                mid: Wallet,
                prepared: Result<(Vec<Outpoint>, Vec<TxOut>), Error>,
            |
                #[trigger] create_utxos_outcome(
                    old(party).wallet,
                    mid,
                    old(party).online,
                    vanilla,
                    num,
                    old(self).chain.next_txid,
                    fee_rate,
                    prepared,
                ) && is_unspent_view(
                    old(self).chain.txs@,
                    old(party).wallet.db.account_xpub,
                    Keychain::Vanilla,
                    vanilla,
                ) && match prepared {
                    Err(e) => res == Err::<u64, Error>(e) && final(party).wallet == mid,
                    Ok(p) => {
                        &&& res == Ok::<u64, Error>(old(self).chain.next_txid)
                        &&& final(self).chain.txs@.len() == old(self).chain.txs@.len() + 1
                        &&& final(self).chain.txs@.take(old(self).chain.txs@.len() as int)
                            == old(self).chain.txs@
                        &&& final(self).chain.txs@.last().txid == old(self).chain.next_txid
                        &&& final(self).chain.txs@.last().inputs@ == indexed_outpoints(vanilla)
                        &&& final(self).chain.txs@.last().outputs@ == p.1@
                        &&& exists|observed: Seq<IndexedTxo>|
                            is_unspent_view(
                                final(self).chain.txs@,
                                old(party).wallet.db.account_xpub,
                                Keychain::Colored,
                                observed,
                            ) && #[trigger] sync_outcome(
                                mid,
                                final(party).wallet,
                                old(party).online,
                                SyncOptions { keychain: SyncKeychain::Colored },
                                observed,
                                Ok(()),
                            )
                    },
                },
            res is Ok ==> exists|vanilla: Seq<IndexedTxo>|
                #[trigger] is_unspent_view(
                    old(self).chain.txs@,
                    old(party).wallet.db.account_xpub,
                    Keychain::Vanilla,
                    vanilla,
                ) && {
                    let w = old(party).wallet.db;
                    let reuse = w.wallet_data.reuse_addresses;
                    let it = iter_addresses(w.colored.revealed, reuse, num as nat);
                    let tx = final(self).chain.txs@.last();
                    &&& tx.txid == res.unwrap()
                    &&& tx.inputs@ == indexed_outpoints(vanilla)
                    &&& it is Some && spec_address_index(w.vanilla.revealed, reuse) is Some
                    &&& tx.outputs@ == colored_outputs(w, it.unwrap().0, UTXO_SIZE).push(
                        TxOut {
                            script: w.script_at(
                                Keychain::Vanilla,
                                spec_address_index(w.vanilla.revealed, reuse).unwrap().0,
                            ),
                            amount: funding_change(vanilla, fee_rate, num * UTXO_SIZE) as u64,
                        },
                    )
                },
    {
        let txid = self.chain.reserve_txid()?;
        let vanilla = self.chain.unspent_for(party.wallet.db.account_xpub, Keychain::Vanilla);
        let r = party.wallet.prepare_create_utxos(party.online, &vanilla, num, txid, fee_rate);
        let ghost mid = party.wallet;
        let ghost rg = r;
        let (inputs, outputs) = match r {
            Ok(x) => x,
            Err(e) => {
                assert(create_utxos_outcome(
                    old(party).wallet,
                    mid,
                    old(party).online,
                    vanilla@,
                    num,
                    txid,
                    fee_rate,
                    rg,
                ));
                return Err(e);
            },
        };
        proof {
            let w = old(party).wallet;
            if w.db.wallet_data.reuse_addresses && w.db.colored.revealed > 0 {
                crate::btc::lemma_reuse_requests_return_pin(w.db.colored.revealed, num as nat);
            }
            crate::btc::lemma_requests_reveal(w.db.colored.revealed, w.db.wallet_data.reuse_addresses, num as nat);
            crate::btc::lemma_iter_len(w.db.colored.revealed, w.db.wallet_data.reuse_addresses, num as nat);
            assert forall|i: int| 0 <= i < self.chain.txs@.len() implies (
            #[trigger] self.chain.txs@[i]).txid != txid by {
                assert(self.chain.txs@[i].txid < txid);
            }
            assert(outputs@.len() == num + 1);
            assert forall|k: int| 0 <= k < inputs@.len() implies is_unspent(
                self.chain.txs@,
                #[trigger] inputs@[k],
            ) by {
                assert(inputs@[k] == vanilla@[k].outpoint);
            }
            assert forall|k: int, m: int| 0 <= k < m < inputs@.len() implies #[trigger] inputs@[k]
                != #[trigger] inputs@[m] by {
                assert(inputs@[k] == vanilla@[k].outpoint && inputs@[m] == vanilla@[m].outpoint);
            }
        }
        self.broadcast_tx(txid, inputs, outputs)?;
        self.sync(party, SyncOptions { keychain: SyncKeychain::Colored })?;
        assert(create_utxos_outcome(
            old(party).wallet,
            mid,
            old(party).online,
            vanilla@,
            num,
            txid,
            fee_rate,
            rg,
        ));
        Ok(txid)
    }

    /// Sends `amount` satoshis to `address` from the party's vanilla outputs (see
    /// `Wallet::prepare_send_btc`) and broadcasts the transaction; returns its id.
    pub fn send_btc(&mut self, party: &mut Party, address: Script, amount: u64, fee_rate: u64) -> (res:
        Result<u64, Error>)
        requires
            old(self).wf(),
            old(party).wf(),
        ensures
            keeps_pins(old(party).wallet, final(party).wallet),
            final(self).wf(),
            final(party).wf(),
            final(party).online == old(party).online,
            final(self).proxy == old(self).proxy,
            final(self).proxy_endpoint == old(self).proxy_endpoint,
            same_wallet(old(party).wallet, final(party).wallet),
            pins_held(old(party).wallet, final(party).wallet),
            final(party).wallet.db.colored == old(party).wallet.db.colored,
            final(party).wallet.db.transfers == old(party).wallet.db.transfers,
            old(self).chain.next_txid == u64::MAX ==> res == Err::<u64, Error>(Error::ChainFull)
                && *final(party) == *old(party),
            old(self).chain.next_txid < u64::MAX ==> exists|
                vanilla: Seq<IndexedTxo>,
                mid: Wallet,
                prepared: Result<(Vec<Outpoint>, Vec<TxOut>), Error>,
            |
                #[trigger] send_btc_outcome(
                    old(party).wallet,
                    mid,
                    old(party).online,
                    vanilla,
                    address,
                    amount,
                    old(self).chain.next_txid,
                    fee_rate,
                    prepared,
                ) && is_unspent_view(
                    old(self).chain.txs@,
                    old(party).wallet.db.account_xpub,
                    Keychain::Vanilla,
                    vanilla,
                ) && match prepared {
                    Err(e) => res == Err::<u64, Error>(e) && final(party).wallet == mid,
                    Ok(_) => res == Ok::<u64, Error>(old(self).chain.next_txid)
                        && final(party).wallet == mid,
                },
            res is Ok ==> exists|vanilla: Seq<IndexedTxo>|
                #[trigger] is_unspent_view(
                    old(self).chain.txs@,
                    old(party).wallet.db.account_xpub,
                    Keychain::Vanilla,
                    vanilla,
                ) && {
                    let w = old(party).wallet.db;
                    let reuse = w.wallet_data.reuse_addresses;
                    let tx = final(self).chain.txs@.last();
                    &&& tx.txid == res.unwrap()
                    &&& tx.inputs@ == indexed_outpoints(vanilla)
                    &&& spec_address_index(w.vanilla.revealed, reuse) is Some
                    &&& tx.outputs@ == seq![
                        TxOut { script: address, amount },
                        TxOut {
                            script: w.script_at(
                                Keychain::Vanilla,
                                spec_address_index(w.vanilla.revealed, reuse).unwrap().0,
                            ),
                            amount: funding_change(vanilla, fee_rate, amount as int) as u64,
                        },
                    ]
                },
    {
        let txid = self.chain.reserve_txid()?;
        let vanilla = self.chain.unspent_for(party.wallet.db.account_xpub, Keychain::Vanilla);
        let r = party.wallet.prepare_send_btc(party.online, &vanilla, address, amount, txid, fee_rate);
        let ghost mid = party.wallet;
        let ghost rg = r;
        let (inputs, outputs) = match r {
            Ok(x) => x,
            Err(e) => {
                assert(send_btc_outcome(
                    old(party).wallet,
                    mid,
                    old(party).online,
                    vanilla@,
                    address,
                    amount,
                    txid,
                    fee_rate,
                    rg,
                ));
                return Err(e);
            },
        };
        proof {
            assert forall|i: int| 0 <= i < self.chain.txs@.len() implies (
            #[trigger] self.chain.txs@[i]).txid != txid by {
                assert(self.chain.txs@[i].txid < txid);
            }
            assert(outputs@.len() == 2);
            assert forall|k: int| 0 <= k < inputs@.len() implies is_unspent(
                self.chain.txs@,
                #[trigger] inputs@[k],
            ) by {
                assert(inputs@[k] == vanilla@[k].outpoint);
            }
            assert forall|k: int, m: int| 0 <= k < m < inputs@.len() implies #[trigger] inputs@[k]
                != #[trigger] inputs@[m] by {
                assert(inputs@[k] == vanilla@[k].outpoint && inputs@[m] == vanilla@[m].outpoint);
            }
        }
        self.broadcast_tx(txid, inputs, outputs)?;
        assert(send_btc_outcome(
            old(party).wallet,
            mid,
            old(party).online,
            vanilla@,
            address,
            amount,
            txid,
            fee_rate,
            rg,
        ));
        Ok(txid)
    }

    /// Issues a new asset with the given amounts and inflation allowance on the party's wallet
    /// (see `Wallet::issue_asset`); returns its random id.
    pub fn issue_asset(&self, party: &mut Party, amounts: &Vec<u64>, inflation_allowance: u64) -> (res:
        Result<u64, Error>)
        requires
            old(party).wf(),
        ensures
            keeps_pins(old(party).wallet, final(party).wallet),
            final(party).wf(),
            final(party).online == old(party).online,
            same_wallet(old(party).wallet, final(party).wallet),
            keychains_kept(old(party).wallet, final(party).wallet),
            exists|asset_id: u64|
                #[trigger] issue_outcome(
                    old(party).wallet,
                    final(party).wallet,
                    old(party).online,
                    asset_id,
                    amounts@,
                    inflation_allowance,
                    without_value(res),
                ) && (res is Ok ==> res.unwrap() == asset_id),
    {
        let b = random_bytes();
        let asset_id = u64_from_bytes(&b);
        let r = party.wallet.issue_asset(party.online, asset_id, amounts, inflation_allowance);
        let ghost rg = r;
        let res = match r {
            Ok(()) => Ok(asset_id),
            Err(e) => Err(e),
        };
        proof {
            match rg {
                Ok(u) => {
                    assert(res == Ok::<u64, Error>(asset_id));
                    assert(u == ());
                },
                Err(e) => {
                    assert(res == Err::<u64, Error>(e));
                },
            }
        }
        assert(without_value(res) == rg);
        res
    }

    /// Issues a new asset that can be inflated by `inflation_amounts` in all.
    pub fn issue_asset_ifa(&self, party: &mut Party, amounts: &Vec<u64>, inflation_amounts: &Vec<u64>) -> (res:
        Result<u64, Error>)
        requires
            old(party).wf(),
        ensures
            keeps_pins(old(party).wallet, final(party).wallet),
            final(party).wf(),
            final(party).online == old(party).online,
            same_wallet(old(party).wallet, final(party).wallet),
            keychains_kept(old(party).wallet, final(party).wallet),
            sum_u64(inflation_amounts@) > u64::MAX ==> res == Err::<u64, Error>(
                Error::TooHighIssuanceAmounts,
            ) && *final(party) == *old(party),
            sum_u64(inflation_amounts@) <= u64::MAX ==> exists|asset_id: u64|
                #[trigger] issue_outcome(
                    old(party).wallet,
                    final(party).wallet,
                    old(party).online,
                    asset_id,
                    amounts@,
                    sum_u64(inflation_amounts@) as u64,
                    without_value(res),
                ) && (res is Ok ==> res.unwrap() == asset_id),
    {
        let allowance = match checked_total(inflation_amounts) {
            Some(t) => t,
            None => {
                return Err(Error::TooHighIssuanceAmounts);
            },
        };
        let res = self.issue_asset(party, amounts, allowance);
        assert(allowance == sum_u64(inflation_amounts@) as u64);
        res
    }

    /// Inflates `asset_id` by `amounts` (see `Wallet::prepare_inflation`), broadcasts the
    /// transaction and syncs; returns its id. Outputs are numbered by `u32`.
    pub fn inflate(&mut self, party: &mut Party, asset_id: u64, amounts: &Vec<u64>, fee_rate: u64) -> (res:
        Result<u64, Error>)
        requires
            old(self).wf(),
            old(party).wf(),
            amounts@.len() < u32::MAX,
        ensures
            keeps_pins(old(party).wallet, final(party).wallet),
            final(self).wf(),
            final(party).wf(),
            final(party).online == old(party).online,
            final(self).proxy == old(self).proxy,
            final(self).proxy_endpoint == old(self).proxy_endpoint,
            same_wallet(old(party).wallet, final(party).wallet),
            pins_held(old(party).wallet, final(party).wallet),
            old(self).chain.next_txid == u64::MAX ==> res == Err::<u64, Error>(Error::ChainFull)
                && *final(party) == *old(party),
            old(self).chain.next_txid < u64::MAX ==> exists|
                vanilla: Seq<IndexedTxo>,
                mid: Wallet,
                prepared: Result<(Vec<Outpoint>, Vec<TxOut>), Error>,
            |
                #[trigger] inflation_outcome(
                    old(party).wallet,
                    mid,
                    old(party).online,
                    asset_id,
                    amounts@,
                    vanilla,
                    old(self).chain.next_txid,
                    fee_rate,
                    prepared,
                ) && is_unspent_view(
                    old(self).chain.txs@,
                    old(party).wallet.db.account_xpub,
                    Keychain::Vanilla,
                    vanilla,
                ) && match prepared {
                    Err(e) => res == Err::<u64, Error>(e) && final(party).wallet == mid,
                    Ok(_) => res == Ok::<u64, Error>(old(self).chain.next_txid),
                },
            res is Ok ==> exists|vanilla: Seq<IndexedTxo>|
                #[trigger] is_unspent_view(
                    old(self).chain.txs@,
                    old(party).wallet.db.account_xpub,
                    Keychain::Vanilla,
                    vanilla,
                ) && {
                    let w = old(party).wallet.db;
                    let reuse = w.wallet_data.reuse_addresses;
                    let n = amounts@.len();
                    let it = iter_addresses(w.colored.revealed, reuse, n);
                    let tx = final(self).chain.txs@.last();
                    &&& tx.txid == res.unwrap()
                    &&& tx.inputs@ == indexed_outpoints(vanilla)
                    &&& it is Some && spec_address_index(w.vanilla.revealed, reuse) is Some
                    &&& tx.outputs@ == colored_outputs(w, it.unwrap().0, UTXO_SIZE).push(
                        TxOut {
                            script: w.script_at(
                                Keychain::Vanilla,
                                spec_address_index(w.vanilla.revealed, reuse).unwrap().0,
                            ),
                            amount: funding_change(vanilla, fee_rate, n * UTXO_SIZE) as u64,
                        },
                    )
                },
    {
        let txid = self.chain.reserve_txid()?;
        let vanilla = self.chain.unspent_for(party.wallet.db.account_xpub, Keychain::Vanilla);
        let r = party.wallet.prepare_inflation(party.online, asset_id, amounts, &vanilla, txid, fee_rate);
        let ghost mid = party.wallet;
        let ghost rg = r;
        let (inputs, outputs) = match r {
            Ok(x) => x,
            Err(e) => {
                assert(inflation_outcome(
                    old(party).wallet,
                    mid,
                    old(party).online,
                    asset_id,
                    amounts@,
                    vanilla@,
                    txid,
                    fee_rate,
                    rg,
                ));
                return Err(e);
            },
        };
        proof {
            let w = old(party).wallet;
            if w.db.wallet_data.reuse_addresses && w.db.colored.revealed > 0 {
                crate::btc::lemma_reuse_requests_return_pin(w.db.colored.revealed, amounts@.len());
            }
            crate::btc::lemma_iter_len(w.db.colored.revealed, w.db.wallet_data.reuse_addresses, amounts@.len());
            assert forall|i: int| 0 <= i < self.chain.txs@.len() implies (
            #[trigger] self.chain.txs@[i]).txid != txid by {
                assert(self.chain.txs@[i].txid < txid);
            }
            assert(outputs@.len() == amounts@.len() + 1);
            assert forall|k: int| 0 <= k < inputs@.len() implies is_unspent(
                self.chain.txs@,
                #[trigger] inputs@[k],
            ) by {
                assert(inputs@[k] == vanilla@[k].outpoint);
            }
            assert forall|k: int, m: int| 0 <= k < m < inputs@.len() implies #[trigger] inputs@[k]
                != #[trigger] inputs@[m] by {
                assert(inputs@[k] == vanilla@[k].outpoint && inputs@[m] == vanilla@[m].outpoint);
            }
        }
        self.broadcast_tx(txid, inputs, outputs)?;
        self.sync(party, SyncOptions { keychain: SyncKeychain::Colored })?;
        assert(inflation_outcome(
            old(party).wallet,
            mid,
            old(party).online,
            asset_id,
            amounts@,
            vanilla@,
            txid,
            fee_rate,
            rg,
        ));
        Ok(txid)
    }
}


/// A copy of a list of outpoints.
fn copy_outpoints(v: &Vec<Outpoint>) -> (res: Vec<Outpoint>)
    ensures
        res@ == v@,
{
    let mut res: Vec<Outpoint> = Vec::new();
    let mut k: usize = 0;
    while k < v.len()
        invariant
            k <= v@.len(),
            res@ == v@.take(k as int),
        decreases v@.len() - k,
    {
        res.push(v[k]);
        k = k + 1;
        assert(res@ =~= v@.take(k as int));
    }
    assert(v@.take(v@.len() as int) =~= v@);
    res
}

/// The proxy mailbox of a receive: its recipient ID and the nonce of its invoice (none for a
/// blind receive).
fn receive_key(t: &DbTransfer) -> (res: Option<ProxyKey>)
    ensures
        match res {
            Some(key) => t.recipient_id == Some(key.recipient_id) && key.nonce@ == match t.recipient_type {
                Some(RecipientTypeFull::Witness { recipient_nonce, .. }) => recipient_nonce@,
                _ => Seq::<u8>::empty(),
            },
            None => t.recipient_id is None,
        },
{
    match t.recipient_id {
        Some(rid) => match &t.recipient_type {
            Some(RecipientTypeFull::Witness { recipient_nonce, .. }) => Some(
                derive_proxy_recipient_id(&rid, recipient_nonce.as_slice()),
            ),
            _ => {
                let empty: Vec<u8> = Vec::new();
                Some(derive_proxy_recipient_id(&rid, empty.as_slice()))
            },
        },
        None => None,
    }
}

impl World {
    /// Sends `recipient.assignment` of `asset_id` from the party's wallet (see
    /// `Wallet::prepare_send`) and posts the consignment to the proxy, where the receiver
    /// answers it; returns the transaction id. Where the proxy refuses the post, the send fails.
    pub fn send(&mut self, party: &mut Party, asset_id: u64, recipient: &Recipient, fee_rate: u64) -> (res:
        Result<u64, Error>)
        requires
            old(self).wf(),
            old(party).wf(),
        ensures
            final(self).wf(),
            final(party).wf(),
            world_send_outcome(
                *old(self),
                *final(self),
                *old(party),
                *final(party),
                asset_id,
                *recipient,
                fee_rate,
                res,
            ),
    {
        let txid = self.chain.reserve_txid()?;
        let vanilla = self.chain.unspent_for(party.wallet.db.account_xpub, Keychain::Vanilla);
        let ghost pre = party.wallet.db.transfers@;
        let result = party.wallet.prepare_send(
            party.online,
            asset_id,
            recipient,
            &vanilla,
            txid,
            fee_rate,
        );
        let ghost mid_wallet = *party;
        let ghost prepared_ghost = result;
        let prepared = match result {
            Ok(p) => p,
            Err(e) => {
                assert(send_outcome(
                    old(party).wallet,
                    mid_wallet.wallet,
                    old(party).online,
                    asset_id,
                    recipient.assignment,
                    recipient.recipient_id,
                    recipient.witness_data,
                    endpoints_view(recipient.transport_endpoints@),
                    vanilla@,
                    txid,
                    fee_rate,
                    prepared_ghost,
                ));
                return Err(e);
            },
        };
        proof {
            if witness_credits_unique(pre) {
                lemma_push_keeps_credits_unique(pre, party.wallet.db.transfers@.last());
            }
        }
        let ghost mid = party.wallet.db.transfers@;
        match self.proxy.post_consignment(&prepared.proxy_key, prepared.consignment) {
            Ok(()) => {
                assert(entry_has_key(
                    self.proxy.entries@,
                    self.proxy.entries@.len() - 1,
                    prepared.proxy_key.view_key(),
                ));
                Ok(txid)
            },
            Err(e) => {
                let _ = party.wallet.fail_transfers(party.online, prepared.transfer_idx);
                Err(e)
            },
        }
    }

    /// Moves transfer `k` of the party's wallet along, where it can: a receive takes the
    /// consignment waiting in its mailbox and answers it; a send the receiver accepted is
    /// broadcast (and fails where the chain refuses it), one it refused fails; a transfer
    /// whose transaction is confirmed settles. Returns whether the transfer changed.
    fn refresh_transfer(&mut self, party: &mut Party, k: usize) -> (res: bool)
        requires
            old(self).wf(),
            old(party).wf(),
            k < old(party).wallet.db.transfers@.len(),
        ensures
            final(self).wf(),
            final(party).wf(),
            final(party).online == old(party).online,
            final(self).proxy_endpoint == old(self).proxy_endpoint,
            same_wallet(old(party).wallet, final(party).wallet),
            keychains_kept(old(party).wallet, final(party).wallet),
            final(party).wallet.db.transfers@.len() == old(party).wallet.db.transfers@.len(),
            witness_credits_unique(old(party).wallet.db.transfers@) ==> witness_credits_unique(
                final(party).wallet.db.transfers@,
            ),
            final(party).wallet.db.transfers@ == old(party).wallet.db.transfers@.update(
                k as int,
                final(party).wallet.db.transfers@[k as int],
            ),
            refresh_step(
                old(party).wallet.db.transfers@[k as int],
                final(party).wallet.db.transfers@[k as int],
            ),
            settles_now(old(self).chain.txs@, old(party).wallet.db.transfers@[k as int])
                ==> final(party).wallet.db.transfers@[k as int].status == TransferStatus::Settled,
            final(self).chain.txs@.len() >= old(self).chain.txs@.len(),
            final(self).chain.txs@.take(old(self).chain.txs@.len() as int) == old(self).chain.txs@,
            refresh_step_outcome(
                *old(self),
                old(party).wallet,
                *final(self),
                final(party).wallet,
                k as int,
                res,
            ),
    {
        reveal(refresh_step_outcome);
        let ghost pre = party.wallet.db.transfers@;
        let kind = party.wallet.db.transfers[k].kind;
        let status = party.wallet.db.transfers[k].status;
        match status {
            TransferStatus::WaitingCounterparty => {
                let receive = match kind {
                    TransferKind::ReceiveWitness => true,
                    TransferKind::ReceiveBlind => true,
                    _ => false,
                };
                let send = match kind {
                    TransferKind::Send => true,
                    _ => false,
                };
                if receive {
                    let key = match receive_key(&party.wallet.db.transfers[k]) {
                        Some(key) => key,
                        None => {
                            return false;
                        },
                    };
                    match self.proxy.get_consignment(&key) {
                        Some((c, None)) => match party.wallet.accept_consignment(k, c) {
                            Ok(accepted) => {
                                let _ = self.proxy.set_ack(&key, accepted);
                                true
                            },
                            Err(_) => false,
                        },
                        _ => false,
                    }
                } else if send {
                    let t = &party.wallet.db.transfers[k];
                    let (rid, txid) = match (t.recipient_id, t.txid) {
                        (Some(rid), Some(txid)) => (rid, txid),
                        _ => {
                            return false;
                        },
                    };
                    let key = derive_proxy_recipient_id(&rid, t.proxy_nonce.as_slice());
                    match self.proxy.get_consignment(&key) {
                        Some((_, Some(true))) => {
                            let inputs = copy_outpoints(&t.tx_inputs);
                            let outputs = crate::btc::copy_outputs(&t.tx_outputs);
                            match self.broadcast_tx(txid, inputs, outputs) {
                                Ok(()) => {
                                    let r = party.wallet.mark_broadcast(k);
                                    r.is_ok()
                                },
                                Err(_) => self.fail_send(party, k),
                            }
                        },
                        Some((_, Some(false))) => self.fail_send(party, k),
                        _ => false,
                    }
                } else {
                    false
                }
            },
            TransferStatus::WaitingConfirmations => match party.wallet.db.transfers[k].txid {
                Some(txid) => {
                    if self.chain.is_confirmed(txid) {
                        let r = party.wallet.settle(k);
                        r.is_ok()
                    } else {
                        false
                    }
                },
                None => false,
            },
            _ => false,
        }
    }

    /// Fails send `k` of the party's wallet; returns whether it was failed now.
    fn fail_send(&self, party: &mut Party, k: usize) -> (res: bool)
        requires
            old(party).wf(),
            k < old(party).wallet.db.transfers@.len(),
        ensures
            final(party).wf(),
            final(party).online == old(party).online,
            same_wallet(old(party).wallet, final(party).wallet),
            keychains_kept(old(party).wallet, final(party).wallet),
            final(party).wallet.db.transfers@.len() == old(party).wallet.db.transfers@.len(),
            witness_credits_unique(old(party).wallet.db.transfers@) ==> witness_credits_unique(
                final(party).wallet.db.transfers@,
            ),
            final(party).wallet.db.transfers@ == old(party).wallet.db.transfers@.update(
                k as int,
                final(party).wallet.db.transfers@[k as int],
            ),
            refresh_step(
                old(party).wallet.db.transfers@[k as int],
                final(party).wallet.db.transfers@[k as int],
            ),
            res == (old(party).wallet.db.transfers@[k as int].status
                == TransferStatus::WaitingCounterparty),
            final(party).wallet.db.transfers@[k as int] == if res {
                DbTransfer {
                    status: TransferStatus::Failed,
                    ..old(party).wallet.db.transfers@[k as int]
                }
            } else {
                old(party).wallet.db.transfers@[k as int]
            },
            res ==> with_status(old(party).wallet, final(party).wallet, k as int, TransferStatus::Failed),
            !res ==> *final(party) == *old(party),
    {
        let ghost pre = party.wallet.db.transfers@;
        let r = party.wallet.fail_transfers(party.online, k);
        assert(party.wallet.db.transfers@ =~= pre.update(k as int, party.wallet.db.transfers@[k as int]));
        match r {
            Ok(b) => b,
            Err(_) => false,
        }
    }

    /// Refreshes the party's wallet: syncs it with the indexer, then moves each transfer
    /// along in turn (see `refresh_transfer`): see `refresh_outcome`. Returns whether a
    /// transfer changed. Nothing here moves an address pin.
    pub fn refresh(&mut self, party: &mut Party) -> (res: Result<bool, Error>)
        requires
            old(self).wf(),
            old(party).wf(),
        ensures
            keeps_pins(old(party).wallet, final(party).wallet),
            final(self).wf(),
            final(party).wf(),
            refresh_outcome(*old(self), *old(party), *final(self), *final(party), res),
            final(party).online == old(party).online,
            final(self).proxy_endpoint == old(self).proxy_endpoint,
            same_wallet(old(party).wallet, final(party).wallet),
            keychains_kept(old(party).wallet, final(party).wallet),
            res is Err ==> res == Err::<bool, Error>(
                spec_check_online(old(party).wallet.online, old(party).online)->Err_0,
            ),
            res is Ok <==> spec_check_online(old(party).wallet.online, old(party).online) is Ok,
            witness_credits_unique(old(party).wallet.db.transfers@) ==> witness_credits_unique(
                final(party).wallet.db.transfers@,
            ),
            final(party).wallet.db.transfers@.len() == old(party).wallet.db.transfers@.len(),
            forall|k: int|
                0 <= k < old(party).wallet.db.transfers@.len() ==> refresh_step(
                    #[trigger] old(party).wallet.db.transfers@[k],
                    final(party).wallet.db.transfers@[k],
                ),
            res is Ok ==> forall|k: int|
                0 <= k < old(party).wallet.db.transfers@.len() && settles_now(
                    old(self).chain.txs@,
                    #[trigger] old(party).wallet.db.transfers@[k],
                ) ==> final(party).wallet.db.transfers@[k].status == TransferStatus::Settled,
            final(self).chain.txs@.len() >= old(self).chain.txs@.len(),
            final(self).chain.txs@.take(old(self).chain.txs@.len() as int) == old(self).chain.txs@,
    {
        let sync_res = self.sync(party, SyncOptions { keychain: SyncKeychain::Colored });
        match sync_res {
            Ok(()) => {},
            Err(e) => {
                assert(*party == *old(party));
                return Err(e);
            },
        }
        let ghost start = party.wallet;
        let ghost chain0 = self.chain.txs@;
        let ghost mut worlds: Seq<World> = seq![*self];
        let ghost mut wallets: Seq<Wallet> = seq![party.wallet];
        let ghost mut changes: Seq<bool> = Seq::empty();
        let n = party.wallet.db.transfers.len();
        let mut changed = false;
        let mut k: usize = 0;
        while k < n
            invariant
                k <= n,
                self.wf(),
                party.wf(),
                party.online == old(party).online,
                self.proxy_endpoint == old(self).proxy_endpoint,
                same_wallet(old(party).wallet, party.wallet),
                keychains_kept(old(party).wallet, party.wallet),
                party.wallet.db.transfers@.len() == n,
                witness_credits_unique(old(party).wallet.db.transfers@) ==> witness_credits_unique(
                    start.db.transfers@,
                ),
                witness_credits_unique(start.db.transfers@) ==> witness_credits_unique(
                    party.wallet.db.transfers@,
                ),
                start.db.transfers == old(party).wallet.db.transfers,
                start.db.transfers@.len() == n,
                chain0 == old(self).chain.txs@,
                self.chain.txs@.len() >= chain0.len(),
                self.chain.txs@.take(chain0.len() as int) == chain0,
                forall|j: int|
                    0 <= j < k ==> refresh_step(
                        #[trigger] start.db.transfers@[j],
                        party.wallet.db.transfers@[j],
                    ),
                forall|j: int|
                    0 <= j < k && settles_now(chain0, #[trigger] start.db.transfers@[j])
                        ==> party.wallet.db.transfers@[j].status == TransferStatus::Settled,
                forall|j: int|
                    k <= j < n ==> #[trigger] party.wallet.db.transfers@[j] == start.db.transfers@[j],
                worlds.len() == k + 1,
                wallets.len() == k + 1,
                changes.len() == k,
                worlds[0] == *old(self),
                wallets[0] == start,
                worlds.last() == *self,
                wallets.last() == party.wallet,
                forall|j: int|
                    0 <= j < k ==> #[trigger] refresh_step_outcome(
                        worlds[j],
                        wallets[j],
                        worlds[j + 1],
                        wallets[j + 1],
                        j,
                        changes[j],
                    ),
                changed == changes.contains(true),
            decreases n - k,
        {
            let ghost before = party.wallet.db.transfers@;
            let ghost chain_k = self.chain.txs@;
            let ghost world_k = *self;
            let ghost wallet_k = party.wallet;
            proof {
                let t = start.db.transfers@[k as int];
                if settles_now(chain0, t) {
                    let x = t.txid.unwrap();
                    let i = choose|i: int| tx_at(chain0, x, i) && chain0[i].confirmed;
                    assert(chain_k.take(chain0.len() as int)[i] == chain_k[i]);
                    assert(tx_at(chain_k, x, i) && chain_k[i].confirmed);
                    assert(settles_now(chain_k, before[k as int]));
                }
            }
            let step = self.refresh_transfer(party, k);
            if step {
                changed = true;
            }
            proof {
                let worlds0 = worlds;
                let wallets0 = wallets;
                let changes0 = changes;
                worlds = worlds0.push(*self);
                wallets = wallets0.push(party.wallet);
                changes = changes0.push(step);
                assert forall|j: int| 0 <= j < k + 1 implies #[trigger] refresh_step_outcome(
                    worlds[j],
                    wallets[j],
                    worlds[j + 1],
                    wallets[j + 1],
                    j,
                    changes[j],
                ) by {
                    if j < k {
                        assert(worlds[j] == worlds0[j] && worlds[j + 1] == worlds0[j + 1]);
                        assert(wallets[j] == wallets0[j] && wallets[j + 1] == wallets0[j + 1]);
                        assert(changes[j] == changes0[j]);
                    } else {
                        assert(worlds[j] == world_k && wallets[j] == wallet_k);
                    }
                }
                if changed {
                    if step {
                        assert(changes[k as int] == true);
                    } else {
                        let j = choose|j: int| 0 <= j < changes0.len() && changes0[j] == true;
                        assert(changes[j] == true);
                    }
                    assert(changes.contains(true));
                } else {
                    assert forall|j: int| 0 <= j < changes.len() implies changes[j] != true by {
                        if j < k {
                            assert(changes[j] == changes0[j]);
                            assert(!changes0.contains(true));
                        }
                    }
                }
                assert forall|j: int| 0 <= j < n && j != k implies #[trigger] party.wallet.db.transfers@[j]
                    == before[j] by {
                    assert(party.wallet.db.transfers@[j] == before.update(
                        k as int,
                        party.wallet.db.transfers@[k as int],
                    )[j]);
                }
                assert(self.chain.txs@.take(chain0.len() as int) =~= chain0) by {
                    assert forall|i: int| 0 <= i < chain0.len() implies self.chain.txs@[i] == chain0[i] by {
                        assert(self.chain.txs@.take(chain_k.len() as int)[i] == chain_k[i]);
                        assert(chain_k.take(chain0.len() as int)[i] == chain0[i]);
                    }
                }
            }
            k = k + 1;
        }
        proof {
            let observed = choose|observed: Seq<IndexedTxo>|
                is_unspent_view(
                    old(self).chain.txs@,
                    old(party).wallet.db.account_xpub,
                    Keychain::Colored,
                    observed,
                ) && #[trigger] sync_outcome(
                    old(party).wallet,
                    start,
                    old(party).online,
                    SyncOptions { keychain: SyncKeychain::Colored },
                    observed,
                    Ok(()),
                );
            assert(refresh_run(*old(self), start, worlds, wallets, changes));
            assert(sync_outcome(
                old(party).wallet,
                start,
                old(party).online,
                SyncOptions { keychain: SyncKeychain::Colored },
                observed,
                Ok(()),
            ));
        }
        Ok(changed)
    }
}

} // verus!
