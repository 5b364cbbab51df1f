//! What happens to a transfer once its consignment is posted: the receiver checks it and
//! accepts or refuses it (a witness payment is credited to one receive only), the sender
//! broadcasts an accepted send, and a transfer whose transaction is confirmed settles.
use vstd::prelude::*;

use crate::assets::{counts_future, counts_settled, spec_balance, sum_amounts};
use crate::wallet::is_reserved;
use crate::db::{
    find_txo, has_row, is_first_row, lemma_first_row_exists, Assignment, DbAllocation, DbTransfer, DbTxo,
    RecipientTypeFull, TransferKind, TransferStatus,
};
use crate::error::Error;
use crate::proxy::Consignment;
use crate::types::{Outpoint, RecipientId};
use crate::wallet::{
    blind_receive_outcome, witness_receive_outcome, ReceiveData, Wallet, WalletDatabase,
};

verus! {

/// The witness payment that a witness receive which has not failed holds, if it holds one.
pub open spec fn credit_of(t: DbTransfer) -> Option<Outpoint> {
    if t.kind == TransferKind::ReceiveWitness && t.status != TransferStatus::Failed {
        match (t.txid, t.recipient_type) {
            (Some(txid), Some(RecipientTypeFull::Witness { vout: Some(vout), .. })) => Some(
                Outpoint { txid, vout },
            ),
            _ => None,
        }
    } else {
        None
    }
}

/// Another transfer than `except` holds the witness payment `op`.
pub open spec fn is_credited(transfers: Seq<DbTransfer>, op: Outpoint, except: int) -> bool {
    exists|k: int| 0 <= k < transfers.len() && k != except && credit_of(#[trigger] transfers[k]) == Some(op)
}

/// Law (no double credit): no witness payment is held by two witness receives that have not
/// failed.
pub open spec fn witness_credits_unique(transfers: Seq<DbTransfer>) -> bool {
    forall|i: int, j: int|
        0 <= i < transfers.len() && 0 <= j < transfers.len() && i != j && (#[trigger] credit_of(transfers[i])) is Some
            ==> credit_of(transfers[i]) != #[trigger] credit_of(transfers[j])
}

/// A receive waiting for the counterparty.
pub open spec fn is_waiting_receive(t: DbTransfer) -> bool {
    &&& (t.kind == TransferKind::ReceiveWitness || t.kind == TransferKind::ReceiveBlind)
    &&& t.status == TransferStatus::WaitingCounterparty
}

/// The witness payment that consignment `c` hands over.
pub open spec fn paid_outpoint(c: Consignment) -> Outpoint {
    Outpoint { txid: c.txid, vout: c.vout.unwrap() }
}

/// Receive `transfers[idx]` takes consignment `c`: the asset and amount are those of the
/// invoice, and the consignment lands where the invoice asks: on the invoice's blinded seal, or
/// on a witness output that pays the invoice's script and that no other witness receive holds.
pub open spec fn consignment_fits(transfers: Seq<DbTransfer>, idx: int, c: Consignment) -> bool {
    let t = transfers[idx];
    &&& (t.asset_id is None || t.asset_id == Some(c.asset_id))
    &&& match t.assignment {
        Assignment::Fungible(a) => c.amount == a,
        Assignment::Any => true,
    }
    &&& match t.recipient_type {
        Some(RecipientTypeFull::Witness { .. }) => {
            &&& c.seal is None
            &&& c.vout is Some
            &&& c.script is Some
            &&& t.recipient_id == Some(RecipientId::Witness(c.script.unwrap()))
            &&& !is_credited(transfers, paid_outpoint(c), idx)
        },
        Some(RecipientTypeFull::Blind { .. }) => {
            &&& c.vout is None
            &&& c.seal is Some
            &&& t.recipient_id == Some(RecipientId::Blind(c.seal.unwrap()))
        },
        None => false,
    }
}

/// What a receive becomes when it accepts consignment `c`: it waits for confirmations of
/// `c`'s transaction, and a witness receive records the output it is paid with.
pub open spec fn accepted_transfer(t: DbTransfer, c: Consignment) -> DbTransfer {
    DbTransfer {
        status: TransferStatus::WaitingConfirmations,
        txid: Some(c.txid),
        amount: c.amount,
        asset_id: Some(c.asset_id),
        recipient_type: match t.recipient_type {
            Some(RecipientTypeFull::Witness { recipient_nonce, .. }) => Some(
                RecipientTypeFull::Witness { vout: c.vout, recipient_nonce },
            ),
            other => other,
        },
        ..t
    }
}

/// The outcome of handing consignment `c` to transfer `idx`: a receive waiting for the
/// counterparty accepts it where it fits (`Ok(true)`) and fails otherwise (`Ok(false)`). On
/// acceptance a pending allocation of the asset is put on the invoice's seal, or on the row of
/// the witness output, which is flagged as a pending witness payment (a row is added where the
/// table has none).
pub open spec fn accept_outcome(pre: Wallet, post: Wallet, idx: usize, c: Consignment, res: Result<bool, Error>) -> bool {
    if idx >= pre.db.transfers@.len() {
        res == Err::<bool, Error>(Error::UnknownTransfer { idx }) && post == pre
    } else if !is_waiting_receive(pre.db.transfers@[idx as int]) {
        res == Err::<bool, Error>(Error::NotWaitingReceive { idx }) && post == pre
    } else {
        let t = pre.db.transfers@[idx as int];
        &&& post.online == pre.online
        &&& if !consignment_fits(pre.db.transfers@, idx as int, c) {
            &&& res == Ok::<bool, Error>(false)
            &&& post.db == WalletDatabase { transfers: post.db.transfers, ..pre.db }
            &&& post.db.transfers@ == pre.db.transfers@.update(
                idx as int,
                DbTransfer { status: TransferStatus::Failed, ..t },
            )
        } else {
            let alloc_row: int = match t.recipient_type {
                Some(RecipientTypeFull::Blind { txo_idx }) => txo_idx as int,
                _ => if has_row(pre.db.txos@, paid_outpoint(c)) {
                    choose|r: int| is_first_row(pre.db.txos@, paid_outpoint(c), r)
                } else {
                    pre.db.txos@.len() as int
                },
            };
            &&& res == Ok::<bool, Error>(true)
            &&& post.db == WalletDatabase {
                transfers: post.db.transfers,
                txos: post.db.txos,
                allocations: post.db.allocations,
                ..pre.db
            }
            &&& post.db.transfers@ == pre.db.transfers@.update(idx as int, accepted_transfer(t, c))
            &&& post.db.allocations@ == pre.db.allocations@.push(
                DbAllocation {
                    txo_idx: alloc_row as usize,
                    asset_id: c.asset_id,
                    amount: c.amount,
                    transfer_idx: idx,
                    settled: false,
                },
            )
            &&& post.db.txos@ == match t.recipient_type {
                Some(RecipientTypeFull::Blind { .. }) => pre.db.txos@,
                _ => if has_row(pre.db.txos@, paid_outpoint(c)) {
                    pre.db.txos@.update(
                        alloc_row,
                        DbTxo { pending_witness: true, ..pre.db.txos@[alloc_row] },
                    )
                } else {
                    pre.db.txos@.push(
                        DbTxo {
                            idx: alloc_row as usize,
                            txid: c.txid,
                            vout: c.vout.unwrap(),
                            btc_amount: c.btc_amount,
                            spent: false,
                            exists: false,
                            pending_witness: true,
                        },
                    )
                },
            }
        }
    }
}

/// Whether a witness receive other than `except` holds the witness payment `op`.
pub fn credited_elsewhere(transfers: &Vec<DbTransfer>, op: Outpoint, except: usize) -> (res: bool)
    ensures
        res == is_credited(transfers@, op, except as int),
{
    let mut k: usize = 0;
    while k < transfers.len()
        invariant
            k <= transfers@.len(),
            forall|j: int| 0 <= j < k && j != except ==> credit_of(#[trigger] transfers@[j]) != Some(op),
        decreases transfers@.len() - k,
    {
        if k != except {
            let t = &transfers[k];
            let receives = match t.kind {
                TransferKind::ReceiveWitness => true,
                _ => false,
            };
            let failed = match t.status {
                TransferStatus::Failed => true,
                _ => false,
            };
            if receives && !failed {
                match (t.txid, &t.recipient_type) {
                    (Some(txid), Some(RecipientTypeFull::Witness { vout: Some(vout), .. })) => {
                        if txid == op.txid && *vout == op.vout {
                            assert(credit_of(transfers@[k as int]) == Some(op));
                            return true;
                        }
                    },
                    _ => {},
                }
            }
        }
        k = k + 1;
    }
    false
}

/// Law: replacing a transfer by one that holds no witness payment, or one that no other
/// transfer holds, keeps every witness payment credited at most once.
pub proof fn lemma_update_keeps_credits_unique(transfers: Seq<DbTransfer>, idx: int, t2: DbTransfer)
    requires
        0 <= idx < transfers.len(),
        witness_credits_unique(transfers),
        credit_of(t2) is None || !is_credited(transfers, credit_of(t2).unwrap(), idx),
    ensures
        witness_credits_unique(transfers.update(idx, t2)),
{
    let u = transfers.update(idx, t2);
    assert forall|i: int, j: int|
        0 <= i < u.len() && 0 <= j < u.len() && i != j && (#[trigger] credit_of(u[i])) is Some
            implies credit_of(u[i]) != #[trigger] credit_of(u[j]) by {
        if i == idx {
            if credit_of(u[j]) == credit_of(u[i]) {
                assert(credit_of(transfers[j]) == credit_of(t2));
            }
        } else if j == idx {
            if credit_of(u[j]) == credit_of(u[i]) {
                assert(credit_of(transfers[i]) == credit_of(t2));
            }
        } else {
            assert(u[i] == transfers[i] && u[j] == transfers[j]);
        }
    }
}

impl Wallet {
    /// Hands consignment `c` to transfer `idx`: see `accept_outcome`. A witness payment is
    /// credited to one receive only.
    #[verifier::rlimit(30)]
    pub fn accept_consignment(&mut self, idx: usize, c: Consignment) -> (res: Result<bool, Error>)
        requires
            old(self).wf(),
        ensures
            crate::world::keeps_pins(*old(self), *final(self)),
            final(self).wf(),
            accept_outcome(*old(self), *final(self), idx, c, res),
            witness_credits_unique(old(self).db.transfers@) ==> witness_credits_unique(
                final(self).db.transfers@,
            ),
    {
        if idx >= self.db.transfers.len() {
            return Err(Error::UnknownTransfer { idx });
        }
        let kind = self.db.transfers[idx].kind;
        let status = self.db.transfers[idx].status;
        let waiting = match status {
            TransferStatus::WaitingCounterparty => true,
            _ => false,
        };
        let receive = match kind {
            TransferKind::ReceiveWitness => true,
            TransferKind::ReceiveBlind => true,
            _ => false,
        };
        if !waiting || !receive {
            return Err(Error::NotWaitingReceive { idx });
        }
        let ghost pre = self.db.transfers@;
        let ghost t0 = pre[idx as int];
        let asset_ok = match self.db.transfers[idx].asset_id {
            None => true,
            Some(a) => a == c.asset_id,
        };
        let amount_ok = match self.db.transfers[idx].assignment {
            Assignment::Fungible(a) => c.amount == a,
            Assignment::Any => true,
        };
        // where the consignment lands: Some(Some(txo_idx)) for a seal, Some(None) for a witness
        // output, None where it does not fit
        let target: Option<Option<usize>> = match &self.db.transfers[idx].recipient_type {
            Some(RecipientTypeFull::Witness { .. }) => match (c.seal, c.vout, c.script) {
                (None, Some(v), Some(script)) => {
                    let op = Outpoint { txid: c.txid, vout: v };
                    if self.db.transfers[idx].recipient_id != Some(RecipientId::Witness(script)) {
                        None
                    } else if credited_elsewhere(&self.db.transfers, op, idx) {
                        None
                    } else {
                        Some(None)
                    }
                },
                _ => None,
            },
            Some(RecipientTypeFull::Blind { txo_idx }) => match (c.seal, c.vout) {
                (Some(seal), None) => {
                    if self.db.transfers[idx].recipient_id == Some(RecipientId::Blind(seal)) {
                        Some(Some(*txo_idx))
                    } else {
                        None
                    }
                },
                _ => None,
            },
            None => None,
        };
        let mut t = self.db.transfers.remove(idx);
        assert(t == t0);
        if !asset_ok || !amount_ok || target.is_none() {
            assert(!consignment_fits(pre, idx as int, c));
            t.status = TransferStatus::Failed;
            self.db.transfers.insert(idx, t);
            assert(self.db.transfers@ =~= pre.update(idx as int, DbTransfer { status: TransferStatus::Failed, ..t0 }));
            proof {
                if witness_credits_unique(pre) {
                    lemma_update_keeps_credits_unique(pre, idx as int, DbTransfer { status: TransferStatus::Failed, ..t0 });
                }
            }
            return Ok(false);
        }
        assert(consignment_fits(pre, idx as int, c));
        t.status = TransferStatus::WaitingConfirmations;
        t.txid = Some(c.txid);
        t.amount = c.amount;
        t.asset_id = Some(c.asset_id);
        let rt = t.recipient_type;
        t.recipient_type = match rt {
            Some(RecipientTypeFull::Witness { vout: _, recipient_nonce }) => Some(
                RecipientTypeFull::Witness { vout: c.vout, recipient_nonce },
            ),
            other => other,
        };
        assert(t == accepted_transfer(t0, c));
        self.db.transfers.insert(idx, t);
        assert(self.db.transfers@ =~= pre.update(idx as int, accepted_transfer(t0, c)));
        proof {
            if witness_credits_unique(pre) {
                lemma_update_keeps_credits_unique(pre, idx as int, accepted_transfer(t0, c));
            }
        }
        let row = match target {
            Some(Some(txo_idx)) => txo_idx,
            _ => {
                let op = Outpoint { txid: c.txid, vout: c.vout.unwrap() };
                match find_txo(&self.db.txos, op) {
                    Some(r) => {
                        proof {
                            assert(has_row(self.db.txos@, op));
                            let r2 = choose|r2: int| is_first_row(self.db.txos@, op, r2);
                            assert(r2 == r as int) by {
                                if r2 < r {
                                    assert(self.db.txos@[r2].spec_outpoint() != op);
                                } else if r < r2 {
                                    assert(self.db.txos@[r as int].spec_outpoint() != op);
                                }
                            }
                        }
                        let mut txo = self.db.txos[r];
                        txo.pending_witness = true;
                        self.db.txos.set(r, txo);
                        r
                    },
                    None => {
                        let r = self.db.txos.len();
                        self.db.txos.push(
                            DbTxo {
                                idx: r,
                                txid: c.txid,
                                vout: c.vout.unwrap(),
                                btc_amount: c.btc_amount,
                                spent: false,
                                exists: false,
                                pending_witness: true,
                            },
                        );
                        r
                    },
                }
            },
        };
        self.db.allocations.push(
            DbAllocation {
                txo_idx: row,
                asset_id: c.asset_id,
                amount: c.amount,
                transfer_idx: idx,
                settled: false,
            },
        );
        Ok(true)
    }
}


/// The allocations after transfer `idx` settles: its own are settled.
pub open spec fn settled_allocations(allocs: Seq<DbAllocation>, idx: int) -> Seq<DbAllocation> {
    allocs.map_values(
        |a: DbAllocation|
            if a.transfer_idx == idx {
                DbAllocation { settled: true, ..a }
            } else {
                a
            },
    )
}

/// The TXO rows after transfer `t` settles: the row of the witness payment it holds, if any,
/// is no longer a pending witness payment.
pub open spec fn settled_txos(txos: Seq<DbTxo>, t: DbTransfer) -> Seq<DbTxo> {
    match credit_of(t) {
        Some(op) => if has_row(txos, op) {
            let r = choose|r: int| is_first_row(txos, op, r);
            txos.update(r, DbTxo { pending_witness: false, ..txos[r] })
        } else {
            txos
        },
        None => txos,
    }
}

impl Wallet {
    /// Records that the send `idx`, accepted by its receiver, has been broadcast: it waits for
    /// confirmations.
    pub fn mark_broadcast(&mut self, idx: usize) -> (res: Result<(), Error>)
        requires
            old(self).wf(),
        ensures
            crate::world::keeps_pins(*old(self), *final(self)),
            final(self).wf(),
            if idx >= old(self).db.transfers@.len() {
                res == Err::<(), Error>(Error::UnknownTransfer { idx }) && *final(self) == *old(self)
            } else {
                let t = old(self).db.transfers@[idx as int];
                if t.kind != TransferKind::Send || t.status != TransferStatus::WaitingCounterparty {
                    res == Err::<(), Error>(Error::NotWaitingSend { idx }) && *final(self) == *old(self)
                } else {
                    &&& res is Ok
                    &&& final(self).online == old(self).online
                    &&& final(self).db == (WalletDatabase { transfers: final(self).db.transfers, ..old(self).db })
                    &&& final(self).db.transfers@ == old(self).db.transfers@.update(
                        idx as int,
                        DbTransfer { status: TransferStatus::WaitingConfirmations, ..t },
                    )
                }
            },
            witness_credits_unique(old(self).db.transfers@) ==> witness_credits_unique(
                final(self).db.transfers@,
            ),
    {
        if idx >= self.db.transfers.len() {
            return Err(Error::UnknownTransfer { idx });
        }
        let is_send = match self.db.transfers[idx].kind {
            TransferKind::Send => true,
            _ => false,
        };
        let waiting = match self.db.transfers[idx].status {
            TransferStatus::WaitingCounterparty => true,
            _ => false,
        };
        if !is_send || !waiting {
            return Err(Error::NotWaitingSend { idx });
        }
        let ghost pre = self.db.transfers@;
        let mut t = self.db.transfers.remove(idx);
        t.status = TransferStatus::WaitingConfirmations;
        self.db.transfers.insert(idx, t);
        assert(self.db.transfers@ =~= pre.update(idx as int, t));
        proof {
            if witness_credits_unique(pre) {
                lemma_update_keeps_credits_unique(pre, idx as int, t);
            }
        }
        Ok(())
    }

    /// Settles transfer `idx`, whose transaction is confirmed: its allocations are settled and
    /// the witness output it is paid with, if any, is no longer a pending witness payment.
    #[verifier::rlimit(30)]
    pub fn settle(&mut self, idx: usize) -> (res: Result<(), Error>)
        requires
            old(self).wf(),
        ensures
            crate::world::keeps_pins(*old(self), *final(self)),
            final(self).wf(),
            if idx >= old(self).db.transfers@.len() {
                res == Err::<(), Error>(Error::UnknownTransfer { idx }) && *final(self) == *old(self)
            } else {
                let t = old(self).db.transfers@[idx as int];
                if t.status != TransferStatus::WaitingConfirmations {
                    res == Err::<(), Error>(Error::NotWaitingConfirmations { idx }) && *final(self)
                        == *old(self)
                } else {
                    &&& res is Ok
                    &&& final(self).online == old(self).online
                    &&& final(self).db == (WalletDatabase {
                        transfers: final(self).db.transfers,
                        allocations: final(self).db.allocations,
                        txos: final(self).db.txos,
                        ..old(self).db
                    })
                    &&& final(self).db.transfers@ == old(self).db.transfers@.update(
                        idx as int,
                        DbTransfer { status: TransferStatus::Settled, ..t },
                    )
                    &&& final(self).db.allocations@ == settled_allocations(
                        old(self).db.allocations@,
                        idx as int,
                    )
                    &&& final(self).db.txos@ == settled_txos(old(self).db.txos@, t)
                }
            },
            witness_credits_unique(old(self).db.transfers@) ==> witness_credits_unique(
                final(self).db.transfers@,
            ),
    {
        if idx >= self.db.transfers.len() {
            return Err(Error::UnknownTransfer { idx });
        }
        let waiting = match self.db.transfers[idx].status {
            TransferStatus::WaitingConfirmations => true,
            _ => false,
        };
        if !waiting {
            return Err(Error::NotWaitingConfirmations { idx });
        }
        let ghost pre = self.db;
        let ghost t0 = pre.transfers@[idx as int];
        // the witness payment the transfer holds
        let credit: Option<Outpoint> = {
            let t = &self.db.transfers[idx];
            let receives = match t.kind {
                TransferKind::ReceiveWitness => true,
                _ => false,
            };
            if receives {
                match (t.txid, &t.recipient_type) {
                    (Some(txid), Some(RecipientTypeFull::Witness { vout: Some(vout), .. })) => Some(
                        Outpoint { txid, vout: *vout },
                    ),
                    _ => None,
                }
            } else {
                None
            }
        };
        assert(credit == credit_of(t0));
        let mut t = self.db.transfers.remove(idx);
        t.status = TransferStatus::Settled;
        self.db.transfers.insert(idx, t);
        assert(self.db.transfers@ =~= pre.transfers@.update(idx as int, t));
        proof {
            if witness_credits_unique(pre.transfers@) {
                assert(credit_of(t) == credit_of(t0));
                if credit_of(t0) is Some {
                    assert forall|k: int| 0 <= k < pre.transfers@.len() && k != idx implies credit_of(
                        #[trigger] pre.transfers@[k],
                    ) != credit_of(t0) by {
                        assert(credit_of(pre.transfers@[idx as int]) is Some);
                    }
                }
                lemma_update_keeps_credits_unique(pre.transfers@, idx as int, t);
            }
        }
        let ghost mid = self.db;
        let mut k: usize = 0;
        while k < self.db.allocations.len()
            invariant
                k <= self.db.allocations@.len(),
                self.db == (WalletDatabase { allocations: self.db.allocations, ..mid }),
                self.online == old(self).online,
                mid.txos == pre.txos,
                self.db.allocations@.len() == pre.allocations@.len(),
                forall|j: int| 0 <= j < k ==> self.db.allocations@[j] == settled_allocations(pre.allocations@, idx as int)[j],
                forall|j: int| k <= j < self.db.allocations@.len() ==> self.db.allocations@[j] == pre.allocations@[j],
            decreases self.db.allocations@.len() - k,
        {
            let mut a = self.db.allocations[k];
            if a.transfer_idx == idx {
                a.settled = true;
                self.db.allocations.set(k, a);
            }
            k = k + 1;
        }
        assert(self.db.allocations@ =~= settled_allocations(pre.allocations@, idx as int));
        match credit {
            Some(op) => match find_txo(&self.db.txos, op) {
                Some(r) => {
                    proof {
                        assert(has_row(pre.txos@, op));
                        let r2 = choose|r2: int| is_first_row(pre.txos@, op, r2);
                        assert(r2 == r as int) by {
                            if r2 < r {
                                assert(pre.txos@[r2].spec_outpoint() != op);
                            } else if r < r2 {
                                assert(pre.txos@[r as int].spec_outpoint() != op);
                            }
                        }
                    }
                    let mut txo = self.db.txos[r];
                    txo.pending_witness = false;
                    self.db.txos.set(r, txo);
                },
                None => {},
            },
            None => {},
        }
        assert(settled_allocations(pre.allocations@, idx as int).len() == pre.allocations@.len());
        assert forall|a: int| 0 <= a < self.db.allocations@.len() implies (
        #[trigger] self.db.allocations@[a]).txo_idx < self.db.txos@.len()
            && self.db.allocations@[a].transfer_idx < self.db.transfers@.len() by {
            assert(self.db.allocations@[a].txo_idx == pre.allocations@[a].txo_idx);
        }
        Ok(())
    }
}


/// Law: recording a transfer that holds no witness payment keeps every witness payment
/// credited at most once.
pub proof fn lemma_push_keeps_credits_unique(transfers: Seq<DbTransfer>, t: DbTransfer)
    requires
        witness_credits_unique(transfers),
        credit_of(t) is None,
    ensures
        witness_credits_unique(transfers.push(t)),
{
    let u = transfers.push(t);
    assert forall|i: int, j: int|
        0 <= i < u.len() && 0 <= j < u.len() && i != j && (#[trigger] credit_of(u[i])) is Some
            implies credit_of(u[i]) != #[trigger] credit_of(u[j]) by {
        if i < transfers.len() && j < transfers.len() {
            assert(u[i] == transfers[i] && u[j] == transfers[j]);
        }
    }
}


/// Law: recording transfers that hold no witness payment at the end of the table keeps every
/// witness payment credited at most once.
pub proof fn lemma_extend_keeps_credits_unique(pre: Seq<DbTransfer>, post: Seq<DbTransfer>)
    requires
        witness_credits_unique(pre),
        post.len() == pre.len() + 1,
        post.take(pre.len() as int) == pre,
        credit_of(post.last()) is None,
    ensures
        witness_credits_unique(post),
{
    assert(post =~= pre.push(post.last()));
    lemma_push_keeps_credits_unique(pre, post.last());
}

/// Law: a witness receive keeps every witness payment credited at most once.
pub proof fn lemma_witness_receive_keeps_credits_unique(
    pre: Wallet,
    post: Wallet,
    asset_id: Option<u64>,
    assignment: Assignment,
    expiration_timestamp: Option<u64>,
    endpoints: Seq<Seq<u8>>,
    min_confirmations: u8,
    nonce: Seq<u8>,
    res: Result<ReceiveData, Error>,
)
    requires
        witness_receive_outcome(
            pre,
            post,
            asset_id,
            assignment,
            expiration_timestamp,
            endpoints,
            min_confirmations,
            nonce,
            res,
        ),
        witness_credits_unique(pre.db.transfers@),
    ensures
        witness_credits_unique(post.db.transfers@),
{
    if res is Ok {
        lemma_extend_keeps_credits_unique(pre.db.transfers@, post.db.transfers@);
    }
}

/// Law: a blind receive keeps every witness payment credited at most once.
pub proof fn lemma_blind_receive_keeps_credits_unique(
    pre: Wallet,
    post: Wallet,
    asset_id: Option<u64>,
    assignment: Assignment,
    expiration_timestamp: Option<u64>,
    endpoints: Seq<Seq<u8>>,
    min_confirmations: u8,
    seal: u64,
    res: Result<ReceiveData, Error>,
)
    requires
        blind_receive_outcome(
            pre,
            post,
            asset_id,
            assignment,
            expiration_timestamp,
            endpoints,
            min_confirmations,
            seal,
            res,
        ),
        witness_credits_unique(pre.db.transfers@),
    ensures
        witness_credits_unique(post.db.transfers@),
{
    if res is Ok {
        lemma_extend_keeps_credits_unique(pre.db.transfers@, post.db.transfers@);
    }
}


/// Sums under two selections that agree on every allocation are equal.
proof fn lemma_sum_agrees(
    allocs: Seq<DbAllocation>,
    f: spec_fn(DbAllocation) -> bool,
    g: spec_fn(DbAllocation) -> bool,
)
    requires
        forall|i: int| 0 <= i < allocs.len() ==> f(#[trigger] allocs[i]) == g(allocs[i]),
    ensures
        sum_amounts(allocs, f) == sum_amounts(allocs, g),
    decreases allocs.len(),
{
    if allocs.len() > 0 {
        lemma_sum_agrees(allocs.drop_last(), f, g);
        assert(f(allocs[allocs.len() - 1]) == g(allocs[allocs.len() - 1]));
    }
}

/// Law: a receive that accepts a consignment and then settles adds the consignment's amount to
/// the settled balance of its asset, and leaves every other settled balance as it was, where
/// the output it lands on is unspent when it settles and the receive held no allocation before.
pub proof fn lemma_settled_receive_credits_amount(
    w0: Wallet,
    w1: Wallet,
    w2: Wallet,
    idx: usize,
    c: Consignment,
    asset_id: u64,
)
    requires
        w0.wf(),
        accept_outcome(w0, w1, idx, c, Ok(true)),
        w2.db == (WalletDatabase {
            transfers: w2.db.transfers,
            allocations: w2.db.allocations,
            txos: w2.db.txos,
            ..w1.db
        }),
        w2.db.allocations@ == settled_allocations(w1.db.allocations@, idx as int),
        w2.db.txos@ == settled_txos(w1.db.txos@, w1.db.transfers@[idx as int]),
        forall|a: int| 0 <= a < w0.db.allocations@.len() ==> (#[trigger] w0.db.allocations@[a]).transfer_idx != idx,
        !w2.db.txos@[w1.db.allocations@.last().txo_idx as int].spent,
    ensures
        spec_balance(w2.db, asset_id).0 == spec_balance(w0.db, asset_id).0 + if asset_id == c.asset_id {
            c.amount as int
        } else {
            0
        },
{
    let pre = w0.db.allocations@;
    let mid = w1.db.allocations@;
    let post = w2.db.allocations@;
    let new_alloc = mid.last();
    let f0 = |a: DbAllocation| counts_settled(w0.db, asset_id, a);
    let f2 = |a: DbAllocation| counts_settled(w2.db, asset_id, a);
    assert(mid == pre.push(new_alloc));
    assert(post =~= pre.push(DbAllocation { settled: true, ..new_alloc })) by {
        assert forall|i: int| 0 <= i < pre.len() implies post[i] == pre[i] by {
            assert(mid[i] == pre[i]);
        }
    }
    // accepting and settling only flag rows as pending witness payments or add rows
    let t = w0.db.transfers@[idx as int];
    if has_row(w0.db.txos@, paid_outpoint(c)) {
        lemma_first_row_exists(w0.db.txos@, paid_outpoint(c));
    }
    assert(idx < w0.db.transfers@.len());
    assert(is_waiting_receive(t));
    assert(consignment_fits(w0.db.transfers@, idx as int, c));
    assert(w1.db.txos@ == match t.recipient_type {
        Some(RecipientTypeFull::Blind { .. }) => w0.db.txos@,
        _ => if has_row(w0.db.txos@, paid_outpoint(c)) {
            w0.db.txos@.update(
                choose|r: int| is_first_row(w0.db.txos@, paid_outpoint(c), r),
                DbTxo {
                    pending_witness: true,
                    ..w0.db.txos@[choose|r: int| is_first_row(w0.db.txos@, paid_outpoint(c), r)]
                },
            )
        } else {
            w0.db.txos@.push(
                DbTxo {
                    idx: w0.db.txos@.len() as usize,
                    txid: c.txid,
                    vout: c.vout.unwrap(),
                    btc_amount: c.btc_amount,
                    spent: false,
                    exists: false,
                    pending_witness: true,
                },
            )
        },
    });
    assert(w1.db.txos@.len() >= w0.db.txos@.len());
    assert forall|r: int| 0 <= r < w0.db.txos@.len() implies #[trigger] w1.db.txos@[r].spent
        == w0.db.txos@[r].spent by {
        match t.recipient_type {
            Some(RecipientTypeFull::Blind { .. }) => {},
            _ => {
                if has_row(w0.db.txos@, paid_outpoint(c)) {
                    let row = choose|row: int| is_first_row(w0.db.txos@, paid_outpoint(c), row);
                    assert(w1.db.txos@ == w0.db.txos@.update(
                        row,
                        DbTxo { pending_witness: true, ..w0.db.txos@[row] },
                    ));
                } else {
                    assert(w1.db.txos@[r] == w0.db.txos@[r]);
                }
            },
        }
    }
    let t1 = w1.db.transfers@[idx as int];
    if credit_of(t1) is Some && has_row(w1.db.txos@, credit_of(t1).unwrap()) {
        lemma_first_row_exists(w1.db.txos@, credit_of(t1).unwrap());
    }
    assert(w2.db.txos@.len() == w1.db.txos@.len());
    assert forall|r: int| 0 <= r < w1.db.txos@.len() implies #[trigger] w2.db.txos@[r].spent
        == w1.db.txos@[r].spent by {
        match credit_of(t1) {
            Some(op) => {
                if has_row(w1.db.txos@, op) {
                    lemma_first_row_exists(w1.db.txos@, op);
                    let row = choose|row: int| is_first_row(w1.db.txos@, op, row);
                    assert(w2.db.txos@ == w1.db.txos@.update(
                        row,
                        DbTxo { pending_witness: false, ..w1.db.txos@[row] },
                    ));
                }
            },
            None => {},
        }
    }
    // the rows under the earlier allocations are spent exactly as before
    assert forall|i: int| 0 <= i < pre.len() implies f0(#[trigger] pre[i]) == f2(pre[i]) by {
        let r = pre[i].txo_idx as int;
        assert(r < w0.db.txos@.len());
        assert(w1.db.txos@[r].spent == w0.db.txos@[r].spent);
        assert(w2.db.txos@[r].spent == w1.db.txos@[r].spent);
    }
    lemma_sum_agrees(pre, f0, f2);
    assert(post.drop_last() =~= pre);
    assert(spec_balance(w2.db, asset_id).0 == sum_amounts(post, f2));
    assert(spec_balance(w0.db, asset_id).0 == sum_amounts(pre, f0));
}


/// Law: a refused consignment credits nothing: the settled balance of every asset stays as it
/// was, and so does the future balance where the receive held no allocation.
pub proof fn lemma_refused_consignment_credits_nothing(
    w0: Wallet,
    w1: Wallet,
    idx: usize,
    c: Consignment,
    asset_id: u64,
)
    requires
        w0.wf(),
        accept_outcome(w0, w1, idx, c, Ok(false)),
    ensures
        spec_balance(w1.db, asset_id).0 == spec_balance(w0.db, asset_id).0,
        (forall|a: int|
            0 <= a < w0.db.allocations@.len() ==> (#[trigger] w0.db.allocations@[a]).transfer_idx
                != idx) ==> spec_balance(w1.db, asset_id).1 == spec_balance(w0.db, asset_id).1,
{
    let allocs = w0.db.allocations@;
    assert(idx < w0.db.transfers@.len());
    assert(w1.db.allocations == w0.db.allocations && w1.db.txos == w0.db.txos);
    lemma_sum_agrees(
        allocs,
        |a: DbAllocation| counts_settled(w0.db, asset_id, a),
        |a: DbAllocation| counts_settled(w1.db, asset_id, a),
    );
    if forall|a: int| 0 <= a < allocs.len() ==> (#[trigger] allocs[a]).transfer_idx != idx {
        assert forall|i: int| 0 <= i < allocs.len() implies counts_future(w0.db, asset_id, #[trigger] allocs[i])
            == counts_future(w1.db, asset_id, allocs[i]) by {
            let k = allocs[i].transfer_idx as int;
            assert(k < w0.db.transfers@.len());
            assert(w1.db.transfers@[k] == w0.db.transfers@[k]);
            assert(w1.db.transfers@ == w0.db.transfers@.update(
                idx as int,
                DbTransfer { status: TransferStatus::Failed, ..w0.db.transfers@[idx as int] },
            ));
            let op = w0.db.txos@[allocs[i].txo_idx as int].spec_outpoint();
            assert(is_reserved(w1.db.transfers@, op) == is_reserved(w0.db.transfers@, op)) by {
                if is_reserved(w0.db.transfers@, op) {
                    let j = choose|j: int|
                        0 <= j < w0.db.transfers@.len() && (#[trigger] w0.db.transfers@[j]).kind
                            == TransferKind::Send && crate::db::is_pending_status(
                            w0.db.transfers@[j].status,
                        ) && w0.db.transfers@[j].tx_inputs@.contains(op);
                    assert(j != idx);
                    assert(w1.db.transfers@[j] == w0.db.transfers@[j]);
                }
                if is_reserved(w1.db.transfers@, op) {
                    let j = choose|j: int|
                        0 <= j < w1.db.transfers@.len() && (#[trigger] w1.db.transfers@[j]).kind
                            == TransferKind::Send && crate::db::is_pending_status(
                            w1.db.transfers@[j].status,
                        ) && w1.db.transfers@[j].tx_inputs@.contains(op);
                    assert(w1.db.transfers@[j] == w0.db.transfers@[j]);
                }
            }
        }
        lemma_sum_agrees(
            allocs,
            |a: DbAllocation| counts_future(w0.db, asset_id, a),
            |a: DbAllocation| counts_future(w1.db, asset_id, a),
        );
    }
}

} // verus!
