//! The wallet's tables: TXOs of the colored keychain, transfers, and the scripts watched for
//! incoming witness payments.
use vstd::prelude::*;

use crate::types::{Outpoint, RecipientId, Script, TxOut};

verus! {

/// A row of the TXO table: an output of the colored keychain.
///
/// `exists` is set once the indexer has shown the output on chain, `spent` once it is known
/// to be spent, and `pending_witness` while it is an incoming witness payment whose transfer is
/// not settled (or a payment to a watched script from outside the wallet).
#[derive(Debug, Clone, Copy, PartialEq, Eq, Structural)]
pub struct DbTxo {
    pub idx: usize,
    pub txid: u64,
    pub vout: u32,
    pub btc_amount: u64,
    pub spent: bool,
    pub exists: bool,
    pub pending_witness: bool,
}

impl DbTxo {
    /// The outpoint of the row.
    pub open spec fn spec_outpoint(&self) -> Outpoint {
        Outpoint { txid: self.txid, vout: self.vout }
    }

    /// The outpoint of the row.
    pub fn outpoint(&self) -> (res: Outpoint)
        ensures
            res == self.spec_outpoint(),
    {
        Outpoint { txid: self.txid, vout: self.vout }
    }
}

/// What kind of transfer a row of the transfer table records.
#[derive(Debug, Clone, Copy, PartialEq, Eq, Structural)]
pub enum TransferKind {
    Issuance,
    ReceiveBlind,
    ReceiveWitness,
    Send,
    Inflation,
}

/// Where a transfer stands.
#[derive(Debug, Clone, Copy, PartialEq, Eq, Structural)]
pub enum TransferStatus {
    WaitingCounterparty,
    WaitingConfirmations,
    Settled,
    Failed,
}

/// What an invoice asks for.
#[derive(Debug, Clone, Copy, PartialEq, Eq, Structural)]
pub enum Assignment {
    Fungible(u64),
    Any,
}

/// How a receive is paid: to a blinded seal on the wallet's TXO row `txo_idx`, or to a script
/// with a witness output (at `vout` once the payment is known), with the invoice's recipient
/// nonce (empty where it has none).
#[derive(Debug)]
pub enum RecipientTypeFull {
    Blind { txo_idx: usize },
    Witness { vout: Option<u32>, recipient_nonce: Vec<u8> },
}

/// A row of the transfer table. `transport_endpoints` are the endpoints the invoice was made
/// with, without any nonce; `amount` is the amount of the asset moved, once known; a send keeps
/// the nonce of the invoice it pays and the transaction it broadcasts once the receiver
/// accepts.
#[derive(Debug)]
pub struct DbTransfer {
    pub idx: usize,
    pub kind: TransferKind,
    pub status: TransferStatus,
    pub recipient_id: Option<RecipientId>,
    pub recipient_type: Option<RecipientTypeFull>,
    pub asset_id: Option<u64>,
    pub assignment: Assignment,
    pub expiration_timestamp: Option<u64>,
    pub min_confirmations: u8,
    pub transport_endpoints: Vec<Vec<u8>>,
    pub txid: Option<u64>,
    pub amount: u64,
    pub proxy_nonce: Vec<u8>,
    pub tx_inputs: Vec<Outpoint>,
    pub tx_outputs: Vec<TxOut>,
}

/// An amount of an asset assigned to a TXO row by a transfer; `settled` once the transfer is.
#[derive(Debug, Clone, Copy, PartialEq, Eq, Structural)]
pub struct DbAllocation {
    pub txo_idx: usize,
    pub asset_id: u64,
    pub amount: u64,
    pub transfer_idx: usize,
    pub settled: bool,
}

/// An asset the wallet knows, with what is left of its inflation allowance.
#[derive(Debug, Clone, Copy, PartialEq, Eq, Structural)]
pub struct DbAsset {
    pub asset_id: u64,
    pub inflation_allowance: u64,
}

/// An unspent output of the colored keychain as the indexer shows it.
#[derive(Debug, Clone, Copy, PartialEq, Eq, Structural)]
pub struct IndexedTxo {
    pub outpoint: Outpoint,
    pub script: Script,
    pub btc_amount: u64,
}

/// The status of a transfer that is still under way.
pub open spec fn is_pending_status(s: TransferStatus) -> bool {
    s == TransferStatus::WaitingCounterparty || s == TransferStatus::WaitingConfirmations
}

/// The transfer is a witness receive to `script` that is still under way.
pub open spec fn is_pending_witness_receive(t: DbTransfer, script: Script) -> bool {
    &&& t.kind == TransferKind::ReceiveWitness
    &&& is_pending_status(t.status)
    &&& t.recipient_id == Some(RecipientId::Witness(script))
}

/// Some transfer is a witness receive to `script` still under way.
pub open spec fn has_pending_witness_receive(transfers: Seq<DbTransfer>, script: Script) -> bool {
    exists|k: int| 0 <= k < transfers.len() && is_pending_witness_receive(#[trigger] transfers[k], script)
}

/// The indexer shows `op` among the unspent outputs.
pub open spec fn is_observed(obs: Seq<IndexedTxo>, op: Outpoint) -> bool {
    exists|k: int| 0 <= k < obs.len() && (#[trigger] obs[k]).outpoint == op
}

/// A row after a sync with the indexer's unspent outputs `obs`: an output the indexer shows
/// exists; an output that exists, is held unspent and is no pending witness payment, but that
/// the indexer no longer shows, is spent. Nothing else changes.
pub open spec fn spec_sync_row(t: DbTxo, obs: Seq<IndexedTxo>) -> DbTxo {
    if is_observed(obs, t.spec_outpoint()) {
        DbTxo { exists: true, ..t }
    } else if t.exists && !t.spent && !t.pending_witness {
        DbTxo { spent: true, ..t }
    } else {
        t
    }
}

/// The table holds a row for `op`.
pub open spec fn has_row(txos: Seq<DbTxo>, op: Outpoint) -> bool {
    exists|i: int| 0 <= i < txos.len() && (#[trigger] txos[i]).spec_outpoint() == op
}

/// Whether a newly seen output is flagged as a pending witness payment: it pays a watched
/// script and its transaction is not one the wallet made.
pub open spec fn new_row_pending_witness(
    watched: Seq<Script>,
    own_txids: Seq<u64>,
    o: IndexedTxo,
) -> bool {
    watched.contains(o.script) && !own_txids.contains(o.outpoint.txid)
}

/// The row for a newly seen output at position `idx`.
pub open spec fn spec_new_row(
    idx: int,
    watched: Seq<Script>,
    own_txids: Seq<u64>,
    o: IndexedTxo,
) -> DbTxo {
    DbTxo {
        idx: idx as usize,
        txid: o.outpoint.txid,
        vout: o.outpoint.vout,
        btc_amount: o.btc_amount,
        spent: false,
        exists: true,
        pending_witness: new_row_pending_witness(watched, own_txids, o),
    }
}

/// Each row's index is its position.
pub open spec fn txos_indexed(txos: Seq<DbTxo>) -> bool {
    forall|i: int| 0 <= i < txos.len() ==> (#[trigger] txos[i]).idx == i
}

/// The watched scripts that some witness receive still under way pays, in their order.
pub open spec fn spec_retained_scripts(scripts: Seq<Script>, transfers: Seq<DbTransfer>) -> Seq<
    Script,
>
    decreases scripts.len(),
{
    if scripts.len() == 0 {
        seq![]
    } else {
        let rest = spec_retained_scripts(scripts.drop_last(), transfers);
        if has_pending_witness_receive(transfers, scripts.last()) {
            rest.push(scripts.last())
        } else {
            rest
        }
    }
}

/// Whether the indexer shows `op`.
pub fn outpoint_observed(obs: &Vec<IndexedTxo>, op: Outpoint) -> (res: bool)
    ensures
        res == is_observed(obs@, op),
{
    let mut k: usize = 0;
    while k < obs.len()
        invariant
            k <= obs.len(),
            forall|j: int| 0 <= j < k ==> (#[trigger] obs@[j]).outpoint != op,
        decreases obs.len() - k,
    {
        if obs[k].outpoint == op {
            return true;
        }
        k = k + 1;
    }
    false
}

/// Row `i` is the first row for `op`.
pub open spec fn is_first_row(txos: Seq<DbTxo>, op: Outpoint, i: int) -> bool {
    &&& 0 <= i < txos.len()
    &&& txos[i].spec_outpoint() == op
    &&& forall|j: int| 0 <= j < i ==> (#[trigger] txos[j]).spec_outpoint() != op
}

/// The position of the first row for `op`, if the table has one.
pub fn find_txo(txos: &Vec<DbTxo>, op: Outpoint) -> (res: Option<usize>)
    ensures
        match res {
            Some(i) => is_first_row(txos@, op, i as int),
            None => !has_row(txos@, op),
        },
{
    let mut i: usize = 0;
    while i < txos.len()
        invariant
            i <= txos.len(),
            forall|j: int| 0 <= j < i ==> (#[trigger] txos@[j]).spec_outpoint() != op,
        decreases txos.len() - i,
    {
        if txos[i].outpoint() == op {
            return Some(i);
        }
        i = i + 1;
    }
    None
}

/// The reconcile pass of a sync, row by row: see `spec_sync_row`.
pub fn reconcile_txos(txos: &mut Vec<DbTxo>, obs: &Vec<IndexedTxo>)
    ensures
        final(txos)@.len() == old(txos)@.len(),
        forall|i: int|
            0 <= i < old(txos)@.len() ==> final(txos)@[i] == spec_sync_row(old(txos)@[i], obs@),
{
    let mut i: usize = 0;
    while i < txos.len()
        invariant
            i <= txos@.len(),
            txos@.len() == old(txos)@.len(),
            forall|j: int| 0 <= j < i ==> txos@[j] == spec_sync_row(old(txos)@[j], obs@),
            forall|j: int| i <= j < txos@.len() ==> txos@[j] == old(txos)@[j],
        decreases txos@.len() - i,
    {
        let t = txos[i];
        let seen = outpoint_observed(obs, t.outpoint());
        let new_t = if seen {
            DbTxo { exists: true, ..t }
        } else if t.exists && !t.spent && !t.pending_witness {
            DbTxo { spent: true, ..t }
        } else {
            t
        };
        txos.set(i, new_t);
        i = i + 1;
    }
}

fn contains_script(scripts: &Vec<Script>, s: Script) -> (res: bool)
    ensures
        res == scripts@.contains(s),
{
    let mut k: usize = 0;
    while k < scripts.len()
        invariant
            k <= scripts.len(),
            forall|j: int| 0 <= j < k ==> scripts@[j] != s,
        decreases scripts.len() - k,
    {
        if scripts[k] == s {
            assert(scripts@[k as int] == s);
            return true;
        }
        k = k + 1;
    }
    false
}

fn contains_txid(txids: &Vec<u64>, t: u64) -> (res: bool)
    ensures
        res == txids@.contains(t),
{
    let mut k: usize = 0;
    while k < txids.len()
        invariant
            k <= txids.len(),
            forall|j: int| 0 <= j < k ==> txids@[j] != t,
        decreases txids.len() - k,
    {
        if txids[k] == t {
            assert(txids@[k as int] == t);
            return true;
        }
        k = k + 1;
    }
    false
}

/// Adds a row for each output the indexer shows that the table has no row for (once per
/// outpoint), in the order the indexer shows them; see `spec_new_row` for what a new row holds.
pub fn record_new_txos(
    txos: &mut Vec<DbTxo>,
    obs: &Vec<IndexedTxo>,
    watched: &Vec<Script>,
    own_txids: &Vec<u64>,
)
    requires
        txos_indexed(old(txos)@),
    ensures
        txos_indexed(final(txos)@),
        final(txos)@.len() >= old(txos)@.len(),
        final(txos)@.subrange(0, old(txos)@.len() as int) == old(txos)@,
        forall|k: int| 0 <= k < obs@.len() ==> has_row(final(txos)@, (#[trigger] obs@[k]).outpoint),
        forall|i: int|
            old(txos)@.len() <= i < final(txos)@.len() ==> {
                &&& !has_row(old(txos)@, (#[trigger] final(txos)@[i]).spec_outpoint())
                &&& exists|k: int|
                    0 <= k < obs@.len() && final(txos)@[i] == spec_new_row(
                        i,
                        watched@,
                        own_txids@,
                        #[trigger] obs@[k],
                    )
            },
        forall|i: int, j: int|
            old(txos)@.len() <= i < j < final(txos)@.len() ==> (#[trigger] final(txos)@[i]).spec_outpoint()
                != (#[trigger] final(txos)@[j]).spec_outpoint(),
{
    let ghost old_txos = txos@;
    let mut k: usize = 0;
    while k < obs.len()
        invariant
            k <= obs@.len(),
            txos_indexed(txos@),
            txos@.len() >= old_txos.len(),
            txos@.subrange(0, old_txos.len() as int) == old_txos,
            forall|m: int| 0 <= m < k ==> has_row(txos@, (#[trigger] obs@[m]).outpoint),
            forall|i: int|
                old_txos.len() <= i < txos@.len() ==> {
                    &&& !has_row(old_txos, (#[trigger] txos@[i]).spec_outpoint())
                    &&& exists|m: int|
                        0 <= m < obs@.len() && txos@[i] == spec_new_row(
                            i,
                            watched@,
                            own_txids@,
                            #[trigger] obs@[m],
                        )
                },
            forall|i: int, j: int|
                old_txos.len() <= i < j < txos@.len() ==> (#[trigger] txos@[i]).spec_outpoint()
                    != (#[trigger] txos@[j]).spec_outpoint(),
        decreases obs@.len() - k,
    {
        let o = obs[k];
        let ghost before = txos@;
        match find_txo(txos, o.outpoint) {
            Some(pos) => {
                assert(has_row(txos@, obs@[k as int].outpoint));
            },
            None => {
                let flagged = contains_script(watched, o.script) && !contains_txid(
                    own_txids,
                    o.outpoint.txid,
                );
                let idx = txos.len();
                txos.push(
                    DbTxo {
                        idx: idx,
                        txid: o.outpoint.txid,
                        vout: o.outpoint.vout,
                        btc_amount: o.btc_amount,
                        spent: false,
                        exists: true,
                        pending_witness: flagged,
                    },
                );
                assert(txos@[idx as int] == spec_new_row(idx as int, watched@, own_txids@, obs@[k as int]));
                assert(txos@.subrange(0, old_txos.len() as int) =~= before.subrange(
                    0,
                    old_txos.len() as int,
                ));
                assert forall|m: int| 0 <= m <= k implies has_row(txos@, (#[trigger] obs@[m]).outpoint) by {
                    if m < k {
                        let i = choose|i: int| 0 <= i < before.len() && (#[trigger] before[i]).spec_outpoint()
                            == obs@[m].outpoint;
                        assert(txos@[i] == before[i]);
                    } else {
                        assert(txos@[idx as int].spec_outpoint() == obs@[m].outpoint);
                    }
                }
                assert forall|i: int| old_txos.len() <= i < txos@.len() implies !has_row(
                    old_txos,
                    (#[trigger] txos@[i]).spec_outpoint(),
                ) by {
                    if i < idx {
                        assert(txos@[i] == before[i]);
                    } else {
                        if has_row(old_txos, txos@[i].spec_outpoint()) {
                            let j = choose|j: int| 0 <= j < old_txos.len() && (#[trigger] old_txos[j]).spec_outpoint()
                                == txos@[i].spec_outpoint();
                            assert(before[j] == old_txos[j]);
                        }
                    }
                }
                assert forall|i: int, j: int|
                    old_txos.len() <= i < j < txos@.len() implies (#[trigger] txos@[i]).spec_outpoint()
                    != (#[trigger] txos@[j]).spec_outpoint() by {
                    if j == idx {
                        assert(txos@[i] == before[i]);
                    } else {
                        assert(txos@[i] == before[i]);
                        assert(txos@[j] == before[j]);
                    }
                }
            },
        }
        k = k + 1;
    }
}

/// Whether some witness receive to `script` is still under way.
pub fn pending_witness_receive_exists(transfers: &Vec<DbTransfer>, script: Script) -> (res: bool)
    ensures
        res == has_pending_witness_receive(transfers@, script),
{
    let mut k: usize = 0;
    while k < transfers.len()
        invariant
            k <= transfers.len(),
            forall|j: int| 0 <= j < k ==> !is_pending_witness_receive(#[trigger] transfers@[j], script),
        decreases transfers.len() - k,
    {
        let t = &transfers[k];
        let pending = match t.status {
            crate::db::TransferStatus::WaitingCounterparty => true,
            crate::db::TransferStatus::WaitingConfirmations => true,
            _ => false,
        };
        let pays = match t.recipient_id {
            Some(RecipientId::Witness(s)) => s == script,
            _ => false,
        };
        let is_witness = match t.kind {
            TransferKind::ReceiveWitness => true,
            _ => false,
        };
        if is_witness && pending && pays {
            assert(is_pending_witness_receive(transfers@[k as int], script));
            return true;
        }
        k = k + 1;
    }
    false
}

/// Keeps the watched scripts that some witness receive still under way pays.
pub fn retain_pending_witness_scripts(scripts: &mut Vec<Script>, transfers: &Vec<DbTransfer>)
    ensures
        final(scripts)@ == spec_retained_scripts(old(scripts)@, transfers@),
{
    let ghost orig = scripts@;
    let mut kept: Vec<Script> = Vec::new();
    let mut k: usize = 0;
    while k < scripts.len()
        invariant
            k <= scripts@.len(),
            scripts@ == orig,
            kept@ == spec_retained_scripts(orig.take(k as int), transfers@),
        decreases scripts@.len() - k,
    {
        let s = scripts[k];
        assert(orig.take(k + 1).drop_last() =~= orig.take(k as int));
        if pending_witness_receive_exists(transfers, s) {
            kept.push(s);
        }
        k = k + 1;
    }
    assert(orig.take(orig.len() as int) =~= orig);
    *scripts = kept;
}


/// Law: the reconcile pass is idempotent: a second sync with the same unspent outputs changes
/// no row it has synced.
pub proof fn lemma_sync_row_idempotent(t: DbTxo, obs: Seq<IndexedTxo>)
    ensures
        spec_sync_row(spec_sync_row(t, obs), obs) == spec_sync_row(t, obs),
{
}

/// Law: a sync changes no row's outpoint or amount, never unmarks a spent row or one that
/// exists, and leaves the pending witness flag alone.
pub proof fn lemma_sync_row_monotone(t: DbTxo, obs: Seq<IndexedTxo>)
    ensures
        spec_sync_row(t, obs).spec_outpoint() == t.spec_outpoint(),
        spec_sync_row(t, obs).idx == t.idx,
        spec_sync_row(t, obs).btc_amount == t.btc_amount,
        t.spent ==> spec_sync_row(t, obs).spent,
        t.exists ==> spec_sync_row(t, obs).exists,
        spec_sync_row(t, obs).pending_witness == t.pending_witness,
{
}


/// Law: after a sync a script stays watched exactly while it was watched and some witness
/// receive still under way pays it; so a failed or settled invoice releases its script once no
/// other pending invoice pays it.
pub proof fn lemma_retained_scripts(scripts: Seq<Script>, transfers: Seq<DbTransfer>, s: Script)
    ensures
        spec_retained_scripts(scripts, transfers).contains(s) <==> (scripts.contains(s)
            && has_pending_witness_receive(transfers, s)),
    decreases scripts.len(),
{
    if scripts.len() > 0 {
        let rest = spec_retained_scripts(scripts.drop_last(), transfers);
        lemma_retained_scripts(scripts.drop_last(), transfers, s);
        assert(scripts =~= scripts.drop_last().push(scripts.last()));
        if scripts.contains(s) && s != scripts.last() {
            let k = choose|k: int| 0 <= k < scripts.len() && scripts[k] == s;
            assert(scripts.drop_last()[k] == s);
        }
        if scripts.drop_last().contains(s) {
            let k = choose|k: int| 0 <= k < scripts.drop_last().len() && scripts.drop_last()[k] == s;
            assert(scripts[k] == s);
        }
        if has_pending_witness_receive(transfers, scripts.last()) {
            let r = rest.push(scripts.last());
            if rest.contains(s) {
                let k = choose|k: int| 0 <= k < rest.len() && rest[k] == s;
                assert(r[k] == s);
            }
            if r.contains(s) && s != scripts.last() {
                let k = choose|k: int| 0 <= k < r.len() && r[k] == s;
                assert(rest[k] == s);
            }
            assert(r[rest.len() as int] == scripts.last());
            assert(scripts[scripts.len() - 1] == scripts.last());
        } else {
            if s == scripts.last() && rest.contains(s) {
                assert(scripts.drop_last().contains(s));
            }
        }
    }
}


/// A table with a row for `op` has a first one.
pub proof fn lemma_first_row_exists(txos: Seq<DbTxo>, op: Outpoint)
    requires
        has_row(txos, op),
    ensures
        exists|r: int| is_first_row(txos, op, r),
    decreases txos.len(),
{
    let last = txos.len() - 1;
    if has_row(txos.drop_last(), op) {
        lemma_first_row_exists(txos.drop_last(), op);
        let r = choose|r: int| is_first_row(txos.drop_last(), op, r);
        assert(txos.drop_last()[r] == txos[r]);
        assert forall|j: int| 0 <= j < r implies (#[trigger] txos[j]).spec_outpoint() != op by {
            assert(txos.drop_last()[j] == txos[j]);
        }
        assert(is_first_row(txos, op, r));
    } else {
        let i = choose|i: int| 0 <= i < txos.len() && (#[trigger] txos[i]).spec_outpoint() == op;
        if i < last {
            assert(txos.drop_last()[i] == txos[i]);
        }
        assert forall|j: int| 0 <= j < last implies (#[trigger] txos[j]).spec_outpoint() != op by {
            assert(txos.drop_last()[j] == txos[j]);
        }
        assert(is_first_row(txos, op, last));
    }
}

} // verus!
