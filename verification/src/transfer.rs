//! Sending assets: the inputs a send spends, the transaction it builds, and the nonce the
//! sender reads from the invoice to find the receiver's proxy mailbox.
use vstd::prelude::*;

use crate::assets::sum_amounts;
use crate::consignment::{lemma_push_keeps_credits_unique, witness_credits_unique};
use crate::db::{
    Assignment, DbAllocation, DbTransfer, DbTxo, IndexedTxo, RecipientTypeFull, TransferKind,
    TransferStatus,
};
use crate::endpoint::{
    copy_bytes, copy_endpoints, derive_proxy_recipient_id, endpoints_view, extract_recipient_nonce,
    lemma_nonce_roundtrip, spec_add_recipient_nonce, spec_endpoints_issue,
    spec_extract_recipient_nonce, ProxyKey, NONCE_LEN,
};
use crate::error::{EndpointIssue, Error};
use crate::keychain::{spec_address_index, KeychainState};
use crate::proxy::Consignment;
use crate::types::{Keychain, Outpoint, RecipientId, Script, TxOut};
use crate::wallet::{
    is_reserved, reserved, spec_check_online, witness_receive_outcome, Online, ReceiveData, Wallet,
    WalletDatabase,
};

verus! {

/// The bitcoin, in satoshis, of each UTXO the wallet creates for allocations.
pub const UTXO_SIZE: u64 = 1000;

/// The virtual size the fee of a transaction is computed for.
pub const TX_VSIZE: u64 = 200;

/// The bitcoin that a witness payment sends along with the asset.
#[derive(Debug, Clone, Copy, PartialEq, Eq, Structural)]
pub struct WitnessData {
    pub amount_sat: u64,
}

/// A recipient of a send, as the sender takes it from an invoice.
#[derive(Debug)]
pub struct Recipient {
    pub assignment: Assignment,
    pub recipient_id: RecipientId,
    pub witness_data: Option<WitnessData>,
    pub transport_endpoints: Vec<Vec<u8>>,
}

/// What a prepared send hands to the proxy: the consignment and the mailbox it goes to.
#[derive(Debug)]
pub struct PreparedSend {
    pub transfer_idx: usize,
    pub proxy_key: ProxyKey,
    pub consignment: Consignment,
}

/// The settled allocations of `asset_id` on TXO row `i`.
pub open spec fn txo_asset_amount(allocs: Seq<DbAllocation>, i: int, asset_id: u64) -> int {
    sum_amounts(allocs, |a: DbAllocation| a.txo_idx == i && a.asset_id == asset_id && a.settled)
}

/// Every allocation on TXO row `i` is a settled one of `asset_id`.
pub open spec fn holds_only(allocs: Seq<DbAllocation>, i: int, asset_id: u64) -> bool {
    forall|a: int|
        0 <= a < allocs.len() && (#[trigger] allocs[a]).txo_idx == i ==> allocs[a].asset_id
            == asset_id && allocs[a].settled
}

/// TXO row `i` is one a send of `asset_id` can spend: it can take part in a transaction, holds
/// some of the asset and nothing else.
pub open spec fn is_asset_input(db: WalletDatabase, i: int, asset_id: u64) -> bool {
    &&& db.is_available(i)
    &&& txo_asset_amount(db.allocations@, i, asset_id) > 0
    &&& holds_only(db.allocations@, i, asset_id)
}

/// The asset held by the given TXO rows.
pub open spec fn chosen_total(allocs: Seq<DbAllocation>, chosen: Seq<usize>, asset_id: u64) -> int
    decreases chosen.len(),
{
    if chosen.len() == 0 {
        0
    } else {
        chosen_total(allocs, chosen.drop_last(), asset_id) + txo_asset_amount(
            allocs,
            chosen.last() as int,
            asset_id,
        )
    }
}

/// The bitcoin of a list of indexed outputs.
pub open spec fn btc_sum(outs: Seq<IndexedTxo>) -> int
    decreases outs.len(),
{
    if outs.len() == 0 {
        0
    } else {
        btc_sum(outs.drop_last()) + outs.last().btc_amount
    }
}

/// The bitcoin of the given TXO rows.
pub open spec fn rows_btc(txos: Seq<DbTxo>, chosen: Seq<usize>) -> int
    decreases chosen.len(),
{
    if chosen.len() == 0 {
        0
    } else {
        rows_btc(txos, chosen.drop_last()) + txos[chosen.last() as int].btc_amount
    }
}

proof fn sum_step_lemma(allocs: Seq<DbAllocation>, f: spec_fn(DbAllocation) -> bool, k: int)
    requires
        0 <= k < allocs.len(),
    ensures
        sum_amounts(allocs.take(k + 1), f) == sum_amounts(allocs.take(k), f) + if f(allocs[k]) {
            allocs[k].amount as int
        } else {
            0
        },
{
    assert(allocs.take(k + 1).drop_last() =~= allocs.take(k));
}



impl Wallet {
    /// The settled amount of `asset_id` on TXO row `i` (`None` where it does not fit in
    /// `u64`), and whether every allocation on it is a settled one of that asset.
    fn txo_holding(&self, i: usize, asset_id: u64) -> (res: (Option<u64>, bool))
        ensures
            match res.0 {
                Some(amount) => amount == txo_asset_amount(self.db.allocations@, i as int, asset_id),
                None => txo_asset_amount(self.db.allocations@, i as int, asset_id) > u64::MAX,
            },
            res.1 == holds_only(self.db.allocations@, i as int, asset_id),
    {
        let allocs = &self.db.allocations;
        let ghost f = |a: DbAllocation| a.txo_idx == i as int && a.asset_id == asset_id && a.settled;
        let mut total: u64 = 0;
        let mut overflow = false;
        let mut only = true;
        let mut k: usize = 0;
        while k < allocs.len()
            invariant
                k <= allocs@.len(),
                f == (|a: DbAllocation| a.txo_idx == i as int && a.asset_id == asset_id && a.settled),
                !overflow ==> total == sum_amounts(allocs@.take(k as int), f),
                overflow ==> sum_amounts(allocs@.take(k as int), f) > u64::MAX,
                only == forall|b: int|
                    0 <= b < k && (#[trigger] allocs@[b]).txo_idx == i ==> allocs@[b].asset_id
                        == asset_id && allocs@[b].settled,
            decreases allocs@.len() - k,
        {
            let a = allocs[k];
            proof {
                sum_step_lemma(allocs@, f, k as int);
            }
            if a.txo_idx == i {
                if a.asset_id == asset_id && a.settled {
                    if !overflow {
                        match total.checked_add(a.amount) {
                            Some(t) => {
                                total = t;
                            },
                            None => {
                                overflow = true;
                            },
                        }
                    }
                } else {
                    only = false;
                }
            }
            k = k + 1;
        }
        assert(allocs@.take(allocs@.len() as int) =~= allocs@);
        if overflow {
            (None, only)
        } else {
            (Some(total), only)
        }
    }

    /// Picks TXO rows that a send of `amount` of `asset_id` can spend, in table order, until
    /// they hold `amount` (see `spec_greedy`); returns them with the asset they hold, `None`
    /// where that does not fit in `u64`.
    pub fn select_asset_inputs(&self, asset_id: u64, amount: u64) -> (res: (Vec<usize>, Option<u64>))
        requires
            self.wf(),
        ensures
            res.0@ == spec_greedy(self.db, asset_id, amount as int, 0),
            match res.1 {
                Some(t) => t == chosen_total(self.db.allocations@, res.0@, asset_id),
                None => chosen_total(self.db.allocations@, res.0@, asset_id) > u64::MAX,
            },
    {
        let mut chosen: Vec<usize> = Vec::new();
        let mut total: u64 = 0;
        let mut i: usize = 0;
        while i < self.db.txos.len() && total < amount
            invariant
                i <= self.db.txos@.len(),
                self.wf(),
                total == chosen_total(self.db.allocations@, chosen@, asset_id),
                chosen@ + spec_greedy(self.db, asset_id, amount - total, i as int) == spec_greedy(
                    self.db,
                    asset_id,
                    amount as int,
                    0,
                ),
            decreases self.db.txos@.len() - i,
        {
            let t = self.db.txos[i];
            let ghost need = amount - total;
            if t.exists && !t.spent && !t.pending_witness && !reserved(&self.db.transfers, t.outpoint()) {
                let (held, only) = self.txo_holding(i, asset_id);
                let positive = match held {
                    Some(h) => h > 0,
                    None => true,
                };
                if positive && only {
                    assert(is_asset_input(self.db, i as int, asset_id));
                    let ghost before = chosen@;
                    let ghost h_int = txo_asset_amount(self.db.allocations@, i as int, asset_id);
                    assert(spec_greedy(self.db, asset_id, need, i as int) == seq![i] + spec_greedy(
                        self.db,
                        asset_id,
                        need - h_int,
                        i + 1,
                    ));
                    chosen.push(i);
                    assert(chosen@ =~= before + seq![i]);
                    assert(chosen@.drop_last() =~= before);
                    assert(chosen_total(self.db.allocations@, chosen@, asset_id) == total + h_int);
                    match held {
                        Some(h) => match total.checked_add(h) {
                            Some(s) => {
                                total = s;
                                assert(chosen@ + spec_greedy(self.db, asset_id, amount - total, i + 1)
                                    =~= before + (seq![i] + spec_greedy(self.db, asset_id, need - h_int, i + 1)));
                            },
                            None => {
                                assert(spec_greedy(self.db, asset_id, need - h_int, i + 1) == Seq::<usize>::empty());
                                assert(chosen@ =~= before + (seq![i] + spec_greedy(self.db, asset_id, need - h_int, i + 1)));
                                return (chosen, None);
                            },
                        },
                        None => {
                            assert(spec_greedy(self.db, asset_id, need - h_int, i + 1) == Seq::<usize>::empty());
                            assert(chosen@ =~= before + (seq![i] + spec_greedy(self.db, asset_id, need - h_int, i + 1)));
                            return (chosen, None);
                        },
                    }
                } else {
                    assert(!is_asset_input(self.db, i as int, asset_id));
                }
            } else {
                assert(!is_asset_input(self.db, i as int, asset_id));
            }
            i = i + 1;
        }
        assert(spec_greedy(self.db, asset_id, amount - total, i as int) == Seq::<usize>::empty());
        assert(chosen@ + Seq::<usize>::empty() =~= chosen@);
        (chosen, Some(total))
    }
}


/// The nonce that the endpoints of an invoice carry (the one of the first endpoint, or none),
/// or `None` where an endpoint carries the reserved parameter malformed.
pub open spec fn spec_invoice_nonce(eps: Seq<Seq<u8>>) -> Option<Seq<u8>> {
    if eps.len() > 0 && forall|k: int| 0 <= k < eps.len() ==> (#[trigger] spec_extract_recipient_nonce(eps[k])) is Some {
        match spec_extract_recipient_nonce(eps[0]).unwrap().1 {
            Some(n) => Some(n),
            None => Some(Seq::<u8>::empty()),
        }
    } else {
        None
    }
}

/// The nonce of an invoice's endpoints: see `spec_invoice_nonce`. An invoice without
/// endpoints, or with a malformed nonce, is refused.
pub fn invoice_nonce(eps: &Vec<Vec<u8>>) -> (res: Result<Vec<u8>, Error>)
    ensures
        match res {
            Ok(n) => spec_invoice_nonce(endpoints_view(eps@)) == Some(n@),
            Err(e) => spec_invoice_nonce(endpoints_view(eps@)) is None && e == (if eps@.len() == 0 {
                Error::InvalidTransportEndpoints { details: EndpointIssue::MissingEndpoint }
            } else {
                Error::InvalidTransportEndpoints { details: EndpointIssue::MalformedNonce }
            }),
        },
{
    let ghost v = endpoints_view(eps@);
    if eps.len() == 0 {
        return Err(Error::InvalidTransportEndpoints { details: EndpointIssue::MissingEndpoint });
    }
    let mut nonce: Vec<u8> = Vec::new();
    let mut k: usize = 0;
    while k < eps.len()
        invariant
            k <= eps@.len(),
            eps@.len() > 0,
            v == endpoints_view(eps@),
            forall|j: int| 0 <= j < k ==> (#[trigger] spec_extract_recipient_nonce(v[j])) is Some,
            k > 0 ==> Some(nonce@) == match spec_extract_recipient_nonce(v[0]).unwrap().1 {
                Some(n) => Some(n),
                None => Some(Seq::<u8>::empty()),
            },
        decreases eps@.len() - k,
    {
        match extract_recipient_nonce(eps[k].as_slice()) {
            Ok((_, n)) => {
                assert(v[k as int] == eps@[k as int]@);
                if k == 0 {
                    nonce = match n {
                        Some(x) => x,
                        None => Vec::new(),
                    };
                }
            },
            Err(e) => {
                assert(v[k as int] == eps@[k as int]@);
                assert(!(spec_extract_recipient_nonce(v[k as int]) is Some));
                return Err(e);
            },
        }
        k = k + 1;
    }
    Ok(nonce)
}

/// The outputs of a send: the witness output to the recipient (for a witness recipient), the
/// colored change output, and the bitcoin change.
pub open spec fn send_outputs(
    recipient_id: RecipientId,
    witness_data: Option<WitnessData>,
    colored_change: Script,
    vanilla_change: Script,
    change_sat: int,
) -> Seq<TxOut> {
    let tail = seq![
        TxOut { script: colored_change, amount: UTXO_SIZE },
        TxOut { script: vanilla_change, amount: change_sat as u64 },
    ];
    match (recipient_id, witness_data) {
        (RecipientId::Witness(s), Some(w)) => seq![TxOut { script: s, amount: w.amount_sat }] + tail,
        _ => tail,
    }
}

/// The outpoints of the given TXO rows.
pub open spec fn rows_outpoints(txos: Seq<DbTxo>, chosen: Seq<usize>) -> Seq<Outpoint> {
    chosen.map_values(|i: usize| txos[i as int].spec_outpoint())
}

/// The outpoints of indexed outputs.
pub open spec fn indexed_outpoints(outs: Seq<IndexedTxo>) -> Seq<Outpoint> {
    outs.map_values(|o: IndexedTxo| o.outpoint)
}

/// The outcome of preparing a send of `assignment` of `asset_id` to `recipient_id` with
/// transaction id `txid`, spending the asset inputs that `spec_greedy` picks and every vanilla
/// output in `vanilla`: the checks in order (online, amount, recipient data, endpoints, fee
/// rate, asset, bitcoin, addresses), then the send waiting for the counterparty, its change
/// output with the asset change, and the consignment for the proxy.
pub open spec fn send_outcome(
    pre: Wallet,
    post: Wallet,
    online: Online,
    asset_id: u64,
    assignment: Assignment,
    recipient_id: RecipientId,
    witness_data: Option<WitnessData>,
    endpoints: Seq<Seq<u8>>,
    vanilla: Seq<IndexedTxo>,
    txid: u64,
    fee_rate: u64,
    res: Result<PreparedSend, Error>,
) -> bool {
    let reuse = pre.db.wallet_data.reuse_addresses;
    let chosen = spec_greedy(pre.db, asset_id, assignment->Fungible_0 as int, 0);
    let total = chosen_total(pre.db.allocations@, chosen, asset_id);
    let btc_in = rows_btc(pre.db.txos@, chosen) + btc_sum(vanilla);
    let witness_sat: int = match witness_data {
        Some(w) => w.amount_sat as int,
        None => 0,
    };
    let fee = fee_rate * TX_VSIZE;
    let need = witness_sat + UTXO_SIZE + fee;
    if spec_check_online(pre.online, online) is Err {
        res == Err::<PreparedSend, Error>(spec_check_online(pre.online, online)->Err_0) && post == pre
    } else if assignment is Any {
        res == Err::<PreparedSend, Error>(Error::InvalidAssignment) && post == pre
    } else if assignment->Fungible_0 == 0 {
        res == Err::<PreparedSend, Error>(Error::InvalidAmountZero) && post == pre
    } else if (recipient_id is Witness) != (witness_data is Some) {
        res == Err::<PreparedSend, Error>(Error::InvalidRecipientData) && post == pre
    } else if spec_invoice_nonce(endpoints) is None {
        res is Err && post == pre && (res->Err_0 is InvalidTransportEndpoints)
    } else if fee > u64::MAX {
        res == Err::<PreparedSend, Error>(Error::InvalidFeeRate) && post == pre
    } else if total < assignment->Fungible_0 {
        res == Err::<PreparedSend, Error>(Error::InsufficientAssets) && post == pre
    } else if total > u64::MAX {
        res == Err::<PreparedSend, Error>(Error::BalanceOverflow) && post == pre
    } else if btc_in > u64::MAX {
        res == Err::<PreparedSend, Error>(Error::BitcoinOverflow) && post == pre
    } else if btc_in < need {
        res == Err::<PreparedSend, Error>(Error::InsufficientBitcoins) && post == pre
    } else if spec_address_index(pre.db.colored.revealed, reuse) is None || spec_address_index(
        pre.db.vanilla.revealed,
        reuse,
    ) is None {
        res == Err::<PreparedSend, Error>(Error::KeychainExhausted) && post == pre
    } else {
        let amount = assignment->Fungible_0;
        let (ci, cn) = spec_address_index(pre.db.colored.revealed, reuse).unwrap();
        let (vi, vn) = spec_address_index(pre.db.vanilla.revealed, reuse).unwrap();
        let nonce = spec_invoice_nonce(endpoints).unwrap();
        let idx = pre.db.transfers@.len();
        let change_row = pre.db.txos@.len();
        let change_vout: u32 = if recipient_id is Witness { 1 } else { 0 };
        let outputs = send_outputs(
            recipient_id,
            witness_data,
            pre.db.script_at(Keychain::Colored, ci),
            pre.db.script_at(Keychain::Vanilla, vi),
            btc_in - need,
        );
        let t = post.db.transfers@[idx as int];
        &&& res matches Ok(p) && {
            &&& p.transfer_idx == idx
            &&& p.proxy_key.view_key() == (recipient_id, nonce)
            &&& p.consignment == Consignment {
                asset_id,
                amount,
                txid,
                vout: if recipient_id is Witness { Some(0u32) } else { None },
                script: match recipient_id {
                    RecipientId::Witness(script) => Some(script),
                    _ => None,
                },
                seal: match recipient_id {
                    RecipientId::Blind(seal) => Some(seal),
                    _ => None,
                },
                btc_amount: witness_sat as u64,
            }
        }
        &&& post.online == pre.online
        &&& post.db == WalletDatabase {
            colored: KeychainState { revealed: cn },
            vanilla: KeychainState { revealed: vn },
            txos: post.db.txos,
            transfers: post.db.transfers,
            allocations: post.db.allocations,
            own_txids: post.db.own_txids,
            ..pre.db
        }
        &&& post.db.transfers@ == pre.db.transfers@.push(t)
        &&& t.idx == idx && t.kind == TransferKind::Send && t.status == TransferStatus::WaitingCounterparty
        &&& t.recipient_id == Some(recipient_id) && t.recipient_type is None
        &&& t.asset_id == Some(asset_id) && t.assignment == assignment && t.amount == amount
        &&& t.txid == Some(txid) && t.proxy_nonce@ == nonce
        &&& t.tx_inputs@ == rows_outpoints(pre.db.txos@, chosen) + indexed_outpoints(vanilla)
        &&& t.tx_outputs@ == outputs
        &&& endpoints_view(t.transport_endpoints@) == endpoints
        &&& post.db.txos@ == pre.db.txos@.push(
            DbTxo {
                idx: change_row as usize,
                txid,
                vout: change_vout,
                btc_amount: UTXO_SIZE,
                spent: false,
                exists: false,
                pending_witness: false,
            },
        )
        &&& post.db.allocations@ == if total > amount {
            pre.db.allocations@.push(
                DbAllocation {
                    txo_idx: change_row as usize,
                    asset_id,
                    amount: (total - amount) as u64,
                    transfer_idx: idx as usize,
                    settled: false,
                },
            )
        } else {
            pre.db.allocations@
        }
        &&& post.db.own_txids@ == pre.db.own_txids@.push(txid)
    }
}

/// The TXO rows from `i` on that a send spends to gather `need` of `asset_id`: each row it
/// can spend, in table order, until the rows taken hold `need`.
pub open spec fn spec_greedy(db: WalletDatabase, asset_id: u64, need: int, i: int) -> Seq<usize>
    decreases db.txos@.len() - i,
{
    if i >= db.txos@.len() || need <= 0 || i < 0 {
        seq![]
    } else if is_asset_input(db, i, asset_id) {
        seq![i as usize] + spec_greedy(
            db,
            asset_id,
            need - txo_asset_amount(db.allocations@, i, asset_id),
            i + 1,
        )
    } else {
        spec_greedy(db, asset_id, need, i + 1)
    }
}




proof fn lemma_greedy_bounds(db: WalletDatabase, asset_id: u64, need: int, i: int)
    ensures
        forall|k: int|
            0 <= k < spec_greedy(db, asset_id, need, i).len() ==> (#[trigger] spec_greedy(
                db,
                asset_id,
                need,
                i,
            )[k]) < db.txos@.len(),
    decreases db.txos@.len() - i,
{
    if i >= db.txos@.len() || need <= 0 || i < 0 {
    } else if is_asset_input(db, i, asset_id) {
        let rest = spec_greedy(db, asset_id, need - txo_asset_amount(db.allocations@, i, asset_id), i + 1);
        lemma_greedy_bounds(db, asset_id, need - txo_asset_amount(db.allocations@, i, asset_id), i + 1);
        let all = spec_greedy(db, asset_id, need, i);
        assert(all == seq![i as usize] + rest);
        assert forall|k: int| 0 <= k < all.len() implies (#[trigger] all[k]) < db.txos@.len() by {
            if k > 0 {
                assert(all[k] == rest[k - 1]);
            } else {
                assert(all[k] == i as usize);
            }
        }
    } else {
        lemma_greedy_bounds(db, asset_id, need, i + 1);
        assert(spec_greedy(db, asset_id, need, i) == spec_greedy(db, asset_id, need, i + 1));
    }
}

/// TXO row `i` can be spent by a send of `asset_id`: it is free (see
/// `crate::wallet::free_row`), and every allocation on it is a settled one of that asset.
pub open spec fn row_spendable_for(db: WalletDatabase, i: int, asset_id: u64) -> bool {
    &&& crate::wallet::free_row(db, i)
    &&& forall|a: int|
        0 <= a < db.allocations@.len() && (#[trigger] db.allocations@[a]).txo_idx == i
            ==> db.allocations@[a].asset_id == asset_id && db.allocations@[a].settled
}

/// The amount of `asset_id` that a send can spend from rows `i` onwards: what the rows that
/// `row_spendable_for` admits hold of it.
pub open spec fn spendable_from(db: WalletDatabase, asset_id: u64, i: int) -> int
    decreases db.txos@.len() - i,
{
    if i >= db.txos@.len() || i < 0 {
        0
    } else {
        (if row_spendable_for(db, i, asset_id) {
            txo_asset_amount(db.allocations@, i, asset_id)
        } else {
            0
        }) + spendable_from(db, asset_id, i + 1)
    }
}

/// A row is one the selection takes exactly where a send can spend it and it holds some of
/// the asset.
proof fn lemma_asset_input_is_spendable(db: WalletDatabase, i: int, asset_id: u64)
    ensures
        is_asset_input(db, i, asset_id) == (row_spendable_for(db, i, asset_id) && txo_asset_amount(
            db.allocations@,
            i,
            asset_id,
        ) > 0),
{
    crate::wallet::lemma_free_row_is_available(db, i);
}

/// The asset held by one row and then some more rows.
proof fn lemma_chosen_total_front(allocs: Seq<DbAllocation>, x: usize, rest: Seq<usize>, asset_id: u64)
    ensures
        chosen_total(allocs, seq![x] + rest, asset_id) == txo_asset_amount(allocs, x as int, asset_id)
            + chosen_total(allocs, rest, asset_id),
    decreases rest.len(),
{
    let all = seq![x] + rest;
    if rest.len() == 0 {
        assert(all =~= seq![x]);
        assert(all.drop_last() =~= Seq::<usize>::empty());
        assert(chosen_total(allocs, Seq::<usize>::empty(), asset_id) == 0);
        assert(all.last() == x);
        assert(chosen_total(allocs, all, asset_id) == chosen_total(allocs, all.drop_last(), asset_id)
            + txo_asset_amount(allocs, all.last() as int, asset_id));
    } else {
        lemma_chosen_total_front(allocs, x, rest.drop_last(), asset_id);
        assert(all.drop_last() =~= seq![x] + rest.drop_last());
        assert(all.last() == rest.last());
        assert(chosen_total(allocs, all, asset_id) == chosen_total(allocs, all.drop_last(), asset_id)
            + txo_asset_amount(allocs, all.last() as int, asset_id));
        assert(chosen_total(allocs, rest, asset_id) == chosen_total(allocs, rest.drop_last(), asset_id)
            + txo_asset_amount(allocs, rest.last() as int, asset_id));
    }
}

/// Amounts of the asset on a row are not negative.
proof fn lemma_txo_asset_amount_nonneg(allocs: Seq<DbAllocation>, i: int, asset_id: u64)
    ensures
        txo_asset_amount(allocs, i, asset_id) >= 0,
    decreases allocs.len(),
{
    crate::assets::lemma_sum_nonneg(
        allocs,
        |a: DbAllocation| a.txo_idx == i && a.asset_id == asset_id && a.settled,
    );
}

/// Law: input selection gathers up to the amount: the rows chosen for a send of `need` of
/// `asset_id` from row `i` onwards hold at least `need`, or everything a send can spend there
/// (`spendable_from`) where that is less.
pub proof fn lemma_selection_gathers(db: WalletDatabase, asset_id: u64, need: int, i: int)
    requires
        i >= 0,
    ensures
        chosen_total(db.allocations@, spec_greedy(db, asset_id, need, i), asset_id) >= if need
            <= spendable_from(db, asset_id, i) {
            need
        } else {
            spendable_from(db, asset_id, i)
        },
    decreases db.txos@.len() - i,
{
    if i >= db.txos@.len() || need <= 0 {
        lemma_spendable_from_nonneg(db, asset_id, i);
    } else {
        lemma_asset_input_is_spendable(db, i, asset_id);
        lemma_txo_asset_amount_nonneg(db.allocations@, i, asset_id);
        let h = txo_asset_amount(db.allocations@, i, asset_id);
        assert(db.txos@.len() == db.txos.len());
        if is_asset_input(db, i, asset_id) {
            lemma_selection_gathers(db, asset_id, need - h, i + 1);
            lemma_chosen_total_front(
                db.allocations@,
                i as usize,
                spec_greedy(db, asset_id, need - h, i + 1),
                asset_id,
            );
            assert((i as usize) as int == i);
        } else {
            lemma_selection_gathers(db, asset_id, need, i + 1);
        }
    }
}

/// What a send can spend is not negative.
proof fn lemma_spendable_from_nonneg(db: WalletDatabase, asset_id: u64, i: int)
    ensures
        spendable_from(db, asset_id, i) >= 0,
    decreases db.txos@.len() - i,
{
    if i < db.txos@.len() && i >= 0 {
        lemma_spendable_from_nonneg(db, asset_id, i + 1);
        lemma_txo_asset_amount_nonneg(db.allocations@, i, asset_id);
    }
}

/// Law: input selection takes only rows a send can spend (see `row_spendable_for`) that hold
/// some of the asset, each once, in table order.
pub proof fn lemma_selection_takes_spendable_rows(db: WalletDatabase, asset_id: u64, need: int, i: int)
    requires
        i >= 0,
    ensures
        forall|k: int|
            0 <= k < spec_greedy(db, asset_id, need, i).len() ==> {
                let r = #[trigger] spec_greedy(db, asset_id, need, i)[k] as int;
                &&& i <= r
                &&& row_spendable_for(db, r, asset_id)
                &&& txo_asset_amount(db.allocations@, r, asset_id) > 0
            },
        forall|k: int, m: int|
            0 <= k < m < spec_greedy(db, asset_id, need, i).len() ==> #[trigger] spec_greedy(
                db,
                asset_id,
                need,
                i,
            )[k] < #[trigger] spec_greedy(db, asset_id, need, i)[m],
    decreases db.txos@.len() - i,
{
    if i >= db.txos@.len() || need <= 0 {
    } else {
        lemma_asset_input_is_spendable(db, i, asset_id);
        if is_asset_input(db, i, asset_id) {
            let h = txo_asset_amount(db.allocations@, i, asset_id);
            let rest = spec_greedy(db, asset_id, need - h, i + 1);
            lemma_selection_takes_spendable_rows(db, asset_id, need - h, i + 1);
            let all = spec_greedy(db, asset_id, need, i);
            assert(all == seq![i as usize] + rest);
            assert(db.txos@.len() == db.txos.len());
            assert((i as usize) as int == i);
            assert forall|k: int| 0 <= k < all.len() implies {
                let r = #[trigger] all[k] as int;
                &&& i <= r
                &&& row_spendable_for(db, r, asset_id)
                &&& txo_asset_amount(db.allocations@, r, asset_id) > 0
            } by {
                if k > 0 {
                    assert(all[k] == rest[k - 1]);
                } else {
                    assert(all[k] == i as usize);
                }
            }
            assert forall|k: int, m: int| 0 <= k < m < all.len() implies #[trigger] all[k] < #[trigger] all[m] by {
                assert(all[m] == rest[m - 1]);
                if k > 0 {
                    assert(all[k] == rest[k - 1]);
                } else {
                    assert(all[k] == i as usize);
                }
            }
        } else {
            lemma_selection_takes_spendable_rows(db, asset_id, need, i + 1);
            assert(spec_greedy(db, asset_id, need, i) == spec_greedy(db, asset_id, need, i + 1));
        }
    }
}

/// Law: a send is refused for want of the asset only where what the wallet can spend of it
/// (see `spendable_from`) is below the amount.
pub proof fn lemma_send_refused_only_below_spendable(
    pre: Wallet,
    post: Wallet,
    online: Online,
    asset_id: u64,
    assignment: Assignment,
    recipient_id: RecipientId,
    witness_data: Option<WitnessData>,
    endpoints: Seq<Seq<u8>>,
    vanilla: Seq<IndexedTxo>,
    txid: u64,
    fee_rate: u64,
    res: Result<PreparedSend, Error>,
)
    requires
        send_outcome(
            pre,
            post,
            online,
            asset_id,
            assignment,
            recipient_id,
            witness_data,
            endpoints,
            vanilla,
            txid,
            fee_rate,
            res,
        ),
        res == Err::<PreparedSend, Error>(Error::InsufficientAssets),
    ensures
        assignment is Fungible,
        spendable_from(pre.db, asset_id, 0) < assignment->Fungible_0,
{
    lemma_selection_gathers(pre.db, asset_id, assignment->Fungible_0 as int, 0);
}

proof fn lemma_rows_btc_nonneg(txos: Seq<DbTxo>, chosen: Seq<usize>)
    ensures
        rows_btc(txos, chosen) >= 0,
    decreases chosen.len(),
{
    if chosen.len() > 0 {
        lemma_rows_btc_nonneg(txos, chosen.drop_last());
    }
}

pub proof fn lemma_btc_sum_nonneg(outs: Seq<IndexedTxo>)
    ensures
        btc_sum(outs) >= 0,
    decreases outs.len(),
{
    if outs.len() > 0 {
        lemma_btc_sum_nonneg(outs.drop_last());
    }
}

/// The bitcoin of the given TXO rows, `None` where it does not fit in `u64`.
fn sum_rows_btc(txos: &Vec<DbTxo>, chosen: &Vec<usize>) -> (res: Option<u64>)
    requires
        forall|k: int| 0 <= k < chosen@.len() ==> (#[trigger] chosen@[k]) < txos@.len(),
    ensures
        match res {
            Some(v) => v == rows_btc(txos@, chosen@),
            None => rows_btc(txos@, chosen@) > u64::MAX,
        },
{
    let mut total: u64 = 0;
    let mut k: usize = 0;
    while k < chosen.len()
        invariant
            k <= chosen@.len(),
            forall|j: int| 0 <= j < chosen@.len() ==> (#[trigger] chosen@[j]) < txos@.len(),
            total == rows_btc(txos@, chosen@.take(k as int)),
        decreases chosen@.len() - k,
    {
        assert(chosen@.take(k + 1).drop_last() =~= chosen@.take(k as int));
        let b = txos[chosen[k]].btc_amount;
        match total.checked_add(b) {
            Some(t) => {
                total = t;
            },
            None => {
                proof {
                    lemma_rows_prefix_le(txos@, chosen@, k + 1);
                }
                return None;
            },
        }
        k = k + 1;
    }
    assert(chosen@.take(chosen@.len() as int) =~= chosen@);
    Some(total)
}

proof fn lemma_rows_prefix_le(txos: Seq<DbTxo>, chosen: Seq<usize>, i: int)
    requires
        0 <= i <= chosen.len(),
    ensures
        rows_btc(txos, chosen.take(i)) <= rows_btc(txos, chosen),
    decreases chosen.len() - i,
{
    if i < chosen.len() {
        lemma_rows_prefix_le(txos, chosen, i + 1);
        assert(chosen.take(i + 1).drop_last() =~= chosen.take(i));
    } else {
        assert(chosen.take(i) =~= chosen);
    }
}

proof fn lemma_btc_prefix_le(outs: Seq<IndexedTxo>, i: int)
    requires
        0 <= i <= outs.len(),
    ensures
        btc_sum(outs.take(i)) <= btc_sum(outs),
    decreases outs.len() - i,
{
    if i < outs.len() {
        lemma_btc_prefix_le(outs, i + 1);
        assert(outs.take(i + 1).drop_last() =~= outs.take(i));
    } else {
        assert(outs.take(i) =~= outs);
    }
}

/// The bitcoin of indexed outputs, `None` where it does not fit in `u64`.
pub fn sum_indexed_btc(outs: &Vec<IndexedTxo>) -> (res: Option<u64>)
    ensures
        match res {
            Some(v) => v == btc_sum(outs@),
            None => btc_sum(outs@) > u64::MAX,
        },
{
    let mut total: u64 = 0;
    let mut k: usize = 0;
    while k < outs.len()
        invariant
            k <= outs@.len(),
            total == btc_sum(outs@.take(k as int)),
        decreases outs@.len() - k,
    {
        assert(outs@.take(k + 1).drop_last() =~= outs@.take(k as int));
        match total.checked_add(outs[k].btc_amount) {
            Some(t) => {
                total = t;
            },
            None => {
                proof {
                    lemma_btc_prefix_le(outs@, k + 1);
                }
                return None;
            },
        }
        k = k + 1;
    }
    assert(outs@.take(outs@.len() as int) =~= outs@);
    Some(total)
}

/// The outpoints a send spends: those of the chosen TXO rows, then those of the vanilla
/// outputs.
fn spent_outpoints(txos: &Vec<DbTxo>, chosen: &Vec<usize>, vanilla: &Vec<IndexedTxo>) -> (res: Vec<
    Outpoint,
>)
    requires
        forall|k: int| 0 <= k < chosen@.len() ==> (#[trigger] chosen@[k]) < txos@.len(),
    ensures
        res@ == rows_outpoints(txos@, chosen@) + indexed_outpoints(vanilla@),
{
    let mut res: Vec<Outpoint> = Vec::new();
    let mut k: usize = 0;
    while k < chosen.len()
        invariant
            k <= chosen@.len(),
            forall|j: int| 0 <= j < chosen@.len() ==> (#[trigger] chosen@[j]) < txos@.len(),
            res@ == rows_outpoints(txos@, chosen@.take(k as int)),
        decreases chosen@.len() - k,
    {
        res.push(txos[chosen[k]].outpoint());
        k = k + 1;
        assert(res@ =~= rows_outpoints(txos@, chosen@.take(k as int)));
    }
    assert(chosen@.take(chosen@.len() as int) =~= chosen@);
    let ghost first = res@;
    let mut m: usize = 0;
    while m < vanilla.len()
        invariant
            m <= vanilla@.len(),
            first == rows_outpoints(txos@, chosen@),
            res@ == first + indexed_outpoints(vanilla@.take(m as int)),
        decreases vanilla@.len() - m,
    {
        res.push(vanilla[m].outpoint);
        m = m + 1;
        assert(res@ =~= first + indexed_outpoints(vanilla@.take(m as int)));
    }
    assert(vanilla@.take(vanilla@.len() as int) =~= vanilla@);
    res
}

/// The outputs of a send, see `send_outputs`.
fn build_send_outputs(
    recipient_id: RecipientId,
    witness_data: Option<WitnessData>,
    colored_change: Script,
    vanilla_change: Script,
    change_sat: u64,
) -> (res: Vec<TxOut>)
    ensures
        res@ == send_outputs(recipient_id, witness_data, colored_change, vanilla_change, change_sat as int),
{
    let mut res: Vec<TxOut> = Vec::new();
    match (recipient_id, witness_data) {
        (RecipientId::Witness(s), Some(w)) => {
            res.push(TxOut { script: s, amount: w.amount_sat });
        },
        _ => {},
    }
    res.push(TxOut { script: colored_change, amount: UTXO_SIZE });
    res.push(TxOut { script: vanilla_change, amount: change_sat });
    assert(res@ =~= send_outputs(recipient_id, witness_data, colored_change, vanilla_change, change_sat as int));
    res
}


impl Wallet {
    /// Prepares the send of `recipient.assignment` of `asset_id` to `recipient`, as a
    /// transaction `txid` at `fee_rate`, funded by the vanilla outputs `vanilla` (those the
    /// indexer shows for the wallet's vanilla keychain): see `send_outcome`. The send then waits
    /// for the receiver to accept the consignment handed back.
    #[verifier::rlimit(30)]
    pub fn prepare_send(
        &mut self,
        online: Online,
        asset_id: u64,
        recipient: &Recipient,
        vanilla: &Vec<IndexedTxo>,
        txid: u64,
        fee_rate: u64,
    ) -> (res: Result<PreparedSend, Error>)
        requires
            old(self).wf(),
        ensures
            crate::world::keeps_pins(*old(self), *final(self)),
            final(self).wf(),
            send_outcome(
                *old(self),
                *final(self),
                online,
                asset_id,
                recipient.assignment,
                recipient.recipient_id,
                recipient.witness_data,
                endpoints_view(recipient.transport_endpoints@),
                vanilla@,
                txid,
                fee_rate,
                res,
            ),
    {
        self.check_online(online)?;
        let amount = match recipient.assignment {
            Assignment::Any => {
                return Err(Error::InvalidAssignment);
            },
            Assignment::Fungible(a) => a,
        };
        if amount == 0 {
            return Err(Error::InvalidAmountZero);
        }
        let is_witness = match recipient.recipient_id {
            RecipientId::Witness(_) => true,
            RecipientId::Blind(_) => false,
        };
        if is_witness != recipient.witness_data.is_some() {
            return Err(Error::InvalidRecipientData);
        }
        let nonce = invoice_nonce(&recipient.transport_endpoints)?;
        let fee = match fee_rate.checked_mul(TX_VSIZE) {
            Some(f) => f,
            None => {
                return Err(Error::InvalidFeeRate);
            },
        };
        let (chosen, held) = self.select_asset_inputs(asset_id, amount);
        let ghost chosen_spec = spec_greedy(self.db, asset_id, amount as int, 0);
        let total = match held {
            Some(t) => {
                if t < amount {
                    return Err(Error::InsufficientAssets);
                }
                t
            },
            None => {
                return Err(Error::BalanceOverflow);
            },
        };
        proof {
            lemma_greedy_bounds(self.db, asset_id, amount as int, 0);
            lemma_rows_btc_nonneg(self.db.txos@, chosen@);
            lemma_btc_sum_nonneg(vanilla@);
        }
        let rows = sum_rows_btc(&self.db.txos, &chosen);
        let van = sum_indexed_btc(vanilla);
        let btc_in = match (rows, van) {
            (Some(a), Some(b)) => match a.checked_add(b) {
                Some(x) => x,
                None => {
                    return Err(Error::BitcoinOverflow);
                },
            },
            _ => {
                return Err(Error::BitcoinOverflow);
            },
        };
        let witness_sat: u64 = match recipient.witness_data {
            Some(w) => w.amount_sat,
            None => 0,
        };
        let need: Option<u64> = match witness_sat.checked_add(UTXO_SIZE) {
            Some(x) => x.checked_add(fee),
            None => None,
        };
        let change_sat = match need {
            Some(n) => {
                if btc_in < n {
                    return Err(Error::InsufficientBitcoins);
                }
                btc_in - n
            },
            None => {
                return Err(Error::InsufficientBitcoins);
            },
        };
        let reuse = self.db.wallet_data.reuse_addresses;
        let mut colored = self.db.colored;
        let ci = colored.address_index(reuse)?;
        let mut vanilla_kc = self.db.vanilla;
        let vi = vanilla_kc.address_index(reuse)?;
        let colored_change = self.script_at(Keychain::Colored, ci);
        let vanilla_change = self.script_at(Keychain::Vanilla, vi);
        let outputs = build_send_outputs(
            recipient.recipient_id,
            recipient.witness_data,
            colored_change,
            vanilla_change,
            change_sat,
        );
        let inputs = spent_outpoints(&self.db.txos, &chosen, vanilla);
        let idx = self.db.transfers.len();
        let change_row = self.db.txos.len();
        let change_vout: u32 = if is_witness {
            1
        } else {
            0
        };
        let proxy_key = derive_proxy_recipient_id(&recipient.recipient_id, nonce.as_slice());
        let consignment = Consignment {
            asset_id,
            amount,
            txid,
            vout: if is_witness {
                Some(0u32)
            } else {
                None
            },
            script: match recipient.recipient_id {
                RecipientId::Witness(script) => Some(script),
                _ => None,
            },
            seal: match recipient.recipient_id {
                RecipientId::Blind(seal) => Some(seal),
                _ => None,
            },
            btc_amount: witness_sat,
        };
        self.db.colored = colored;
        self.db.vanilla = vanilla_kc;
        self.db.transfers.push(
            DbTransfer {
                idx,
                kind: TransferKind::Send,
                status: TransferStatus::WaitingCounterparty,
                recipient_id: Some(recipient.recipient_id),
                recipient_type: None,
                asset_id: Some(asset_id),
                assignment: recipient.assignment,
                expiration_timestamp: None,
                min_confirmations: 1,
                transport_endpoints: copy_endpoints(&recipient.transport_endpoints),
                txid: Some(txid),
                amount,
                proxy_nonce: copy_bytes(nonce.as_slice()),
                tx_inputs: inputs,
                tx_outputs: outputs,
            },
        );
        self.db.txos.push(
            DbTxo {
                idx: change_row,
                txid,
                vout: change_vout,
                btc_amount: UTXO_SIZE,
                spent: false,
                exists: false,
                pending_witness: false,
            },
        );
        if total > amount {
            self.db.allocations.push(
                DbAllocation {
                    txo_idx: change_row,
                    asset_id,
                    amount: total - amount,
                    transfer_idx: idx,
                    settled: false,
                },
            );
        }
        self.db.own_txids.push(txid);
        Ok(PreparedSend { transfer_idx: idx, proxy_key, consignment })
    }
}


/// Law: the endpoints of an invoice that a receiver under address reuse hands out (endpoints
/// it accepted, each with the invoice's nonce added) give the sender that nonce back, so the
/// sender posts to the mailbox the receiver polls.
pub proof fn lemma_reuse_invoice_nonce(endpoints: Seq<Seq<u8>>, nonce: Seq<u8>)
    requires
        spec_endpoints_issue(endpoints, true) is None,
        nonce.len() == NONCE_LEN,
    ensures
        spec_invoice_nonce(endpoints.map_values(|e: Seq<u8>| spec_add_recipient_nonce(e, nonce)))
            == Some(nonce),
{
    let inv = endpoints.map_values(|e: Seq<u8>| spec_add_recipient_nonce(e, nonce));
    assert forall|k: int| 0 <= k < inv.len() implies (#[trigger] spec_extract_recipient_nonce(inv[k]))
        == Some((endpoints[k], Some(nonce))) by {
        assert(!endpoints[k].contains(crate::endpoint::QUESTION_MARK));
        lemma_nonce_roundtrip(endpoints[k], nonce);
    }
    assert(endpoints.len() > 0);
    assert(spec_extract_recipient_nonce(inv[0]) == Some((endpoints[0], Some(nonce))));
}


/// Law: the endpoints of an invoice without a nonce, accepted by the receiver, give the sender
/// the empty nonce.
pub proof fn lemma_plain_invoice_nonce(endpoints: Seq<Seq<u8>>)
    requires
        spec_endpoints_issue(endpoints, false) is None,
        endpoints.len() > 0,
    ensures
        spec_invoice_nonce(endpoints) == Some(Seq::<u8>::empty()),
{
    assert forall|k: int| 0 <= k < endpoints.len() implies (#[trigger] spec_extract_recipient_nonce(
        endpoints[k],
    )) == Some((endpoints[k], None::<Seq<u8>>)) by {
        assert(!crate::endpoint::carries_reserved_param(endpoints[k]));
    }
    assert(spec_extract_recipient_nonce(endpoints[0]) == Some((endpoints[0], None::<Seq<u8>>)));
}

/// Law: the sender of a witness invoice (with at least one endpoint) derives from it the
/// mailbox key that the receive row polls: the invoice's recipient ID and the nonce the row
/// stores.
pub proof fn lemma_sender_finds_receiver_mailbox(
    pre: Wallet,
    post: Wallet,
    asset_id: Option<u64>,
    assignment: Assignment,
    expiration_timestamp: Option<u64>,
    endpoints: Seq<Seq<u8>>,
    min_confirmations: u8,
    nonce: Seq<u8>,
    res: Result<ReceiveData, Error>,
)
    requires
        witness_receive_outcome(
            pre,
            post,
            asset_id,
            assignment,
            expiration_timestamp,
            endpoints,
            min_confirmations,
            nonce,
            res,
        ),
        res is Ok,
        nonce.len() == NONCE_LEN,
        endpoints.len() > 0,
    ensures
        ({
            let data = res.unwrap();
            let row = post.db.transfers@.last();
            &&& row.recipient_id == Some(data.invoice_data.recipient_id)
            &&& row.recipient_type matches Some(RecipientTypeFull::Witness { recipient_nonce, .. })
                && spec_invoice_nonce(endpoints_view(data.invoice_data.transport_endpoints@))
                == Some(recipient_nonce@)
        }),
{
    if pre.db.wallet_data.reuse_addresses {
        lemma_reuse_invoice_nonce(endpoints, nonce);
    } else {
        lemma_plain_invoice_nonce(endpoints);
    }
}


/// Law: preparing a send keeps every witness payment credited at most once.
pub proof fn lemma_send_keeps_credits_unique(
    pre: Wallet,
    post: Wallet,
    online: Online,
    asset_id: u64,
    assignment: Assignment,
    recipient_id: RecipientId,
    witness_data: Option<WitnessData>,
    endpoints: Seq<Seq<u8>>,
    vanilla: Seq<IndexedTxo>,
    txid: u64,
    fee_rate: u64,
    res: Result<PreparedSend, Error>,
)
    requires
        send_outcome(
            pre,
            post,
            online,
            asset_id,
            assignment,
            recipient_id,
            witness_data,
            endpoints,
            vanilla,
            txid,
            fee_rate,
            res,
        ),
        witness_credits_unique(pre.db.transfers@),
    ensures
        witness_credits_unique(post.db.transfers@),
{
    if res is Ok {
        lemma_push_keeps_credits_unique(pre.db.transfers@, post.db.transfers@.last());
        assert(post.db.transfers@ == pre.db.transfers@.push(post.db.transfers@.last()));
    }
}

} // verus!
