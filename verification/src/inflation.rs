//! Inflation of an asset issued with an inflation allowance: new amounts on new colored
//! outputs, within what is left of the allowance.
use vstd::prelude::*;

use crate::assets::{checked_total, sum_u64};
use crate::btc::{
    build_colored_outputs, colored_outputs, copy_outputs, fund, funding_change, funding_issue, iter_addresses,
    outpoints_of, request_addresses,
};
use crate::db::{
    Assignment, DbAllocation, DbAsset, DbTransfer, DbTxo, IndexedTxo, TransferKind,
    TransferStatus,
};
use crate::error::Error;
use crate::keychain::{spec_address_index, KeychainState};
use crate::consignment::{lemma_push_keeps_credits_unique, witness_credits_unique};
use crate::transfer::{indexed_outpoints, UTXO_SIZE};
use crate::types::{Keychain, Outpoint, TxOut};
use crate::wallet::{spec_check_online, Online, Wallet, WalletDatabase};

verus! {

/// Row `i` is the first row of the asset table for `asset_id`.
pub open spec fn is_first_asset(assets: Seq<DbAsset>, asset_id: u64, i: int) -> bool {
    &&& 0 <= i < assets.len()
    &&& assets[i].asset_id == asset_id
    &&& forall|j: int| 0 <= j < i ==> (#[trigger] assets[j]).asset_id != asset_id
}

/// The TXO rows of the outputs of inflation transaction `txid`, from row `base` on.
pub open spec fn inflation_rows(base: int, txid: u64, n: nat) -> Seq<DbTxo> {
    Seq::new(
        n,
        |k: int|
            DbTxo {
                idx: (base + k) as usize,
                txid,
                vout: k as u32,
                btc_amount: UTXO_SIZE,
                spent: false,
                exists: false,
                pending_witness: false,
            },
    )
}

/// The pending allocations of an inflation: amount `k` on row `base + k`.
pub open spec fn inflation_allocations(
    base: int,
    asset_id: u64,
    amounts: Seq<u64>,
    transfer_idx: int,
) -> Seq<DbAllocation> {
    Seq::new(
        amounts.len(),
        |k: int|
            DbAllocation {
                txo_idx: (base + k) as usize,
                asset_id,
                amount: amounts[k],
                transfer_idx: transfer_idx as usize,
                settled: false,
            },
    )
}

/// The outcome of preparing the inflation of `asset_id` by `amounts` in transaction `txid`:
/// the checks in order (online, amounts, asset, allowance, funding, addresses), then one
/// colored output of `UTXO_SIZE` per amount (on the pinned address under reuse), rows for them
/// that wait to be seen on chain with the amounts allocated, the allowance reduced, and an
/// inflation transfer waiting for confirmations.
pub open spec fn inflation_outcome(
    pre: Wallet,
    post: Wallet,
    online: Online,
    asset_id: u64,
    amounts: Seq<u64>,
    vanilla: Seq<IndexedTxo>,
    txid: u64,
    fee_rate: u64,
    res: Result<(Vec<Outpoint>, Vec<TxOut>), Error>,
) -> bool {
    let reuse = pre.db.wallet_data.reuse_addresses;
    let n = amounts.len();
    let it = iter_addresses(pre.db.colored.revealed, reuse, n);
    let outputs_sat = n * UTXO_SIZE;
    if spec_check_online(pre.online, online) is Err {
        res == Err::<(Vec<Outpoint>, Vec<TxOut>), Error>(spec_check_online(pre.online, online)->Err_0)
            && post == pre
    } else if n == 0 {
        res == Err::<(Vec<Outpoint>, Vec<TxOut>), Error>(Error::NoIssuanceAmounts) && post == pre
    } else if sum_u64(amounts) > u64::MAX {
        res == Err::<(Vec<Outpoint>, Vec<TxOut>), Error>(Error::TooHighIssuanceAmounts) && post
            == pre
    } else if forall|i: int| !is_first_asset(pre.db.assets@, asset_id, i) {
        res == Err::<(Vec<Outpoint>, Vec<TxOut>), Error>(Error::UnknownAsset) && post == pre
    } else if pre.db.assets@[choose|i: int| is_first_asset(pre.db.assets@, asset_id, i)].inflation_allowance
        < sum_u64(amounts) {
        res == Err::<(Vec<Outpoint>, Vec<TxOut>), Error>(Error::InflationAllowanceExceeded) && post
            == pre
    } else if funding_issue(vanilla, fee_rate, outputs_sat) is Some {
        res == Err::<(Vec<Outpoint>, Vec<TxOut>), Error>(
            funding_issue(vanilla, fee_rate, outputs_sat).unwrap(),
        ) && post == pre
    } else if it is None || spec_address_index(pre.db.vanilla.revealed, reuse) is None {
        res == Err::<(Vec<Outpoint>, Vec<TxOut>), Error>(Error::KeychainExhausted) && post == pre
    } else {
        let ai = choose|i: int| is_first_asset(pre.db.assets@, asset_id, i);
        let a = pre.db.assets@[ai];
        let (indices, cn) = it.unwrap();
        let (vi, vn) = spec_address_index(pre.db.vanilla.revealed, reuse).unwrap();
        let base = pre.db.txos@.len() as int;
        let idx = pre.db.transfers@.len() as int;
        let outputs = colored_outputs(pre.db, indices, UTXO_SIZE).push(
            TxOut {
                script: pre.db.script_at(Keychain::Vanilla, vi),
                amount: funding_change(vanilla, fee_rate, outputs_sat) as u64,
            },
        );
        let t = post.db.transfers@[idx];
        &&& res is Ok
        &&& res.unwrap().0@ == indexed_outpoints(vanilla)
        &&& res.unwrap().1@ == outputs
        &&& post.online == pre.online
        &&& post.db == WalletDatabase {
            vanilla: KeychainState { revealed: vn },
            colored: KeychainState { revealed: cn },
            txos: post.db.txos,
            transfers: post.db.transfers,
            allocations: post.db.allocations,
            assets: post.db.assets,
            own_txids: post.db.own_txids,
            ..pre.db
        }
        &&& post.db.txos@ == pre.db.txos@ + inflation_rows(base, txid, n)
        &&& post.db.allocations@ == pre.db.allocations@ + inflation_allocations(
            base,
            asset_id,
            amounts,
            idx,
        )
        &&& post.db.assets@ == pre.db.assets@.update(
            ai,
            DbAsset { inflation_allowance: (a.inflation_allowance - sum_u64(amounts)) as u64, ..a },
        )
        &&& post.db.own_txids@ == pre.db.own_txids@.push(txid)
        &&& post.db.transfers@ == pre.db.transfers@.push(t)
        &&& t.idx == idx && t.kind == TransferKind::Inflation
        &&& t.status == TransferStatus::WaitingConfirmations
        &&& t.asset_id == Some(asset_id) && t.amount == sum_u64(amounts)
        &&& t.txid == Some(txid) && t.recipient_id is None && t.recipient_type is None
        &&& t.tx_inputs@ == indexed_outpoints(vanilla) && t.tx_outputs@ == outputs
    }
}

/// The position of the first row of the asset table for `asset_id`, if any.
pub fn find_asset(assets: &Vec<DbAsset>, asset_id: u64) -> (res: Option<usize>)
    ensures
        match res {
            Some(i) => is_first_asset(assets@, asset_id, i as int),
            None => forall|i: int| !is_first_asset(assets@, asset_id, i),
        },
{
    let mut i: usize = 0;
    while i < assets.len()
        invariant
            i <= assets@.len(),
            forall|j: int| 0 <= j < i ==> (#[trigger] assets@[j]).asset_id != asset_id,
        decreases assets@.len() - i,
    {
        if assets[i].asset_id == asset_id {
            return Some(i);
        }
        i = i + 1;
    }
    proof {
        assert forall|i: int| !is_first_asset(assets@, asset_id, i) by {
            if is_first_asset(assets@, asset_id, i) {
                assert(assets@[i].asset_id == asset_id);
            }
        }
    }
    None
}

proof fn lemma_first_asset_unique(assets: Seq<DbAsset>, asset_id: u64, i: int)
    requires
        is_first_asset(assets, asset_id, i),
    ensures
        (choose|j: int| is_first_asset(assets, asset_id, j)) == i,
{
    let c = choose|j: int| is_first_asset(assets, asset_id, j);
    if c < i {
        assert(assets[c].asset_id != asset_id);
    } else if i < c {
        assert(assets[i].asset_id != asset_id);
    }
}

impl Wallet {
    /// Prepares the inflation of `asset_id` by `amounts` in transaction `txid`, funded by every
    /// vanilla output in `vanilla`: see `inflation_outcome`. Outputs are numbered by `u32`.
    #[verifier::rlimit(40)]
    pub fn prepare_inflation(
        &mut self,
        online: Online,
        asset_id: u64,
        amounts: &Vec<u64>,
        vanilla: &Vec<IndexedTxo>,
        txid: u64,
        fee_rate: u64,
    ) -> (res: Result<(Vec<Outpoint>, Vec<TxOut>), Error>)
        requires
            old(self).wf(),
            amounts@.len() < u32::MAX,
        ensures
            crate::world::keeps_pins(*old(self), *final(self)),
            final(self).wf(),
            inflation_outcome(
                *old(self),
                *final(self),
                online,
                asset_id,
                amounts@,
                vanilla@,
                txid,
                fee_rate,
                res,
            ),
    {
        proof {
            if self.db.wallet_data.reuse_addresses && self.db.colored.revealed > 0 {
                crate::btc::lemma_reuse_requests_return_pin(self.db.colored.revealed, amounts@.len());
            }
        }
        self.check_online(online)?;
        let n = amounts.len();
        if n == 0 {
            return Err(Error::NoIssuanceAmounts);
        }
        let total = match checked_total(amounts) {
            Some(t) => t,
            None => {
                return Err(Error::TooHighIssuanceAmounts);
            },
        };
        let ai = match find_asset(&self.db.assets, asset_id) {
            Some(i) => i,
            None => {
                return Err(Error::UnknownAsset);
            },
        };
        proof {
            lemma_first_asset_unique(self.db.assets@, asset_id, ai as int);
        }
        let asset = self.db.assets[ai];
        if asset.inflation_allowance < total {
            return Err(Error::InflationAllowanceExceeded);
        }
        let change_sat = match (n as u64).checked_mul(UTXO_SIZE) {
            Some(outputs_sat) => fund(vanilla, fee_rate, outputs_sat)?,
            None => {
                fund(vanilla, fee_rate, 0)?;
                return Err(Error::InsufficientBitcoins);
            },
        };
        let reuse = self.db.wallet_data.reuse_addresses;
        let mut colored = self.db.colored;
        let indices = request_addresses(&mut colored, reuse, n)?;
        let mut vanilla_kc = self.db.vanilla;
        let vi = vanilla_kc.address_index(reuse)?;
        let mut outputs = build_colored_outputs(self, &indices, UTXO_SIZE);
        outputs.push(TxOut { script: self.script_at(Keychain::Vanilla, vi), amount: change_sat });
        let inputs = outpoints_of(vanilla);
        let ghost pre = self.db;
        let base = self.db.txos.len();
        let idx = self.db.transfers.len();
        self.db.colored = colored;
        self.db.vanilla = vanilla_kc;
        self.db.own_txids.push(txid);
        self.db.assets.set(
            ai,
            DbAsset { inflation_allowance: asset.inflation_allowance - total, ..asset },
        );
        self.db.transfers.push(
            DbTransfer {
                idx,
                kind: TransferKind::Inflation,
                status: TransferStatus::WaitingConfirmations,
                recipient_id: None,
                recipient_type: None,
                asset_id: Some(asset_id),
                assignment: Assignment::Fungible(total),
                expiration_timestamp: None,
                min_confirmations: 1,
                transport_endpoints: Vec::new(),
                txid: Some(txid),
                amount: total,
                proxy_nonce: Vec::new(),
                tx_inputs: outpoints_of(vanilla),
                tx_outputs: copy_outputs(&outputs),
            },
        );
        let ghost mid = self.db;
        let mut k: usize = 0;
        while k < n
            invariant
                k <= n,
                pre.wf(),
                pre == old(self).db,
                n == amounts@.len(),
                n < u32::MAX,
                base == pre.txos@.len(),
                idx == pre.transfers@.len(),
                mid.transfers@.len() == idx + 1,
                mid.txos == pre.txos,
                mid.allocations == pre.allocations,
                forall|a: int|
                    0 <= a < pre.allocations@.len() ==> (#[trigger] pre.allocations@[a]).txo_idx
                        < pre.txos@.len() && pre.allocations@[a].transfer_idx < pre.transfers@.len(),
                self.db == (WalletDatabase {
                    txos: self.db.txos,
                    allocations: self.db.allocations,
                    ..mid
                }),
                self.db.txos@ == pre.txos@ + inflation_rows(base as int, txid, k as nat),
                self.db.txos@.len() == base + k,
                self.db.allocations@ == pre.allocations@ + inflation_allocations(
                    base as int,
                    asset_id,
                    amounts@.take(k as int),
                    idx as int,
                ),
                self.online == old(self).online,
            decreases n - k,
        {
            self.db.txos.push(
                DbTxo {
                    idx: self.db.txos.len(),
                    txid,
                    vout: k as u32,
                    btc_amount: UTXO_SIZE,
                    spent: false,
                    exists: false,
                    pending_witness: false,
                },
            );
            let row = self.db.txos.len() - 1;
            self.db.allocations.push(
                DbAllocation {
                    txo_idx: row,
                    asset_id,
                    amount: amounts[k],
                    transfer_idx: idx,
                    settled: false,
                },
            );
            k = k + 1;
            assert(self.db.txos@ =~= pre.txos@ + inflation_rows(base as int, txid, k as nat));
            assert(self.db.allocations@ =~= pre.allocations@ + inflation_allocations(
                base as int,
                asset_id,
                amounts@.take(k as int),
                idx as int,
            ));
        }
        assert(amounts@.take(n as int) =~= amounts@);
        // the rows stay indexed and the allocations point at existing rows and transfers
        assert forall|i: int| 0 <= i < self.db.txos@.len() implies (#[trigger] self.db.txos@[i]).idx == i by {
            if i >= base {
                assert(i < self.db.txos.len());
                assert(self.db.txos@[i] == inflation_rows(base as int, txid, n as nat)[i - base]);
            } else {
                assert(self.db.txos@[i] == pre.txos@[i]);
            }
        }
        assert forall|a: int| 0 <= a < self.db.allocations@.len() implies (
        #[trigger] self.db.allocations@[a]).txo_idx < self.db.txos@.len()
            && self.db.allocations@[a].transfer_idx < self.db.transfers@.len() by {
            if a >= pre.allocations@.len() {
                assert(self.db.allocations@[a] == inflation_allocations(
                    base as int,
                    asset_id,
                    amounts@,
                    idx as int,
                )[a - pre.allocations@.len()]);
            } else {
                assert(self.db.allocations@[a] == pre.allocations@[a]);
            }
        }
        assert forall|t: int|
            0 <= t < self.db.transfers@.len() implies ((#[trigger] self.db.transfers@[t]).recipient_type matches Some(
            crate::db::RecipientTypeFull::Blind { txo_idx },
        ) ==> txo_idx < self.db.txos@.len()) by {
            if t < idx {
                assert(self.db.transfers@[t] == pre.transfers@[t]);
            }
        }
        Ok((inputs, outputs))
    }
}


/// Law: an inflation keeps every witness payment credited at most once.
pub proof fn lemma_inflation_keeps_credits_unique(
    pre: Wallet,
    post: Wallet,
    online: Online,
    asset_id: u64,
    amounts: Seq<u64>,
    vanilla: Seq<IndexedTxo>,
    txid: u64,
    fee_rate: u64,
    res: Result<(Vec<Outpoint>, Vec<TxOut>), Error>,
)
    requires
        inflation_outcome(pre, post, online, asset_id, amounts, vanilla, txid, fee_rate, res),
        witness_credits_unique(pre.db.transfers@),
    ensures
        witness_credits_unique(post.db.transfers@),
{
    if res is Ok {
        lemma_push_keeps_credits_unique(pre.db.transfers@, post.db.transfers@.last());
        assert(post.db.transfers@ == pre.db.transfers@.push(post.db.transfers@.last()));
    }
}

} // verus!
