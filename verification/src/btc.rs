//! Bitcoin-only transactions of the wallet: creating the UTXOs that take allocations, and
//! sending bitcoin. Both spend every vanilla output the indexer shows and send the change to
//! the vanilla keychain.
use vstd::prelude::*;

use crate::db::IndexedTxo;
use crate::error::Error;
use crate::keychain::{spec_address_index, KeychainState};
use crate::transfer::{btc_sum, indexed_outpoints, lemma_btc_sum_nonneg, sum_indexed_btc, TX_VSIZE, UTXO_SIZE};
use crate::types::{Keychain, Outpoint, Script, TxOut};
use crate::wallet::{spec_check_online, Online, Wallet, WalletDatabase};

verus! {

/// The indices that `k` address requests in a row return on a keychain with `revealed`
/// addresses, and the count afterwards; `None` where the keychain runs out.
pub open spec fn iter_addresses(revealed: u32, reuse: bool, k: nat) -> Option<(Seq<u32>, u32)>
    decreases k,
{
    if k == 0 {
        Some((seq![], revealed))
    } else {
        match iter_addresses(revealed, reuse, (k - 1) as nat) {
            None => None,
            Some((s, r)) => match spec_address_index(r, reuse) {
                None => None,
                Some((i, n)) => Some((s.push(i), n)),
            },
        }
    }
}

/// Outputs of `amount` satoshis to the colored addresses at the given indices.
pub open spec fn colored_outputs(db: WalletDatabase, indices: Seq<u32>, amount: u64) -> Seq<TxOut> {
    indices.map_values(|i: u32| TxOut { script: db.script_at(Keychain::Colored, i), amount })
}

/// Law: under address reuse, with an address pinned, every request returns the pin and
/// reveals nothing.
pub proof fn lemma_reuse_requests_return_pin(revealed: u32, k: nat)
    requires
        revealed > 0,
    ensures
        iter_addresses(revealed, true, k) == Some(
            (Seq::new(k, |j: int| (revealed - 1) as u32), revealed),
        ),
    decreases k,
{
    if k > 0 {
        lemma_reuse_requests_return_pin(revealed, (k - 1) as nat);
        assert(Seq::new((k - 1) as nat, |j: int| (revealed - 1) as u32).push((revealed - 1) as u32)
            =~= Seq::new(k, |j: int| (revealed - 1) as u32));
    }
}

/// A request for an address leaves the keychain with an address revealed.
pub proof fn lemma_requests_reveal(revealed: u32, reuse: bool, k: nat)
    requires
        k > 0,
        iter_addresses(revealed, reuse, k) is Some,
    ensures
        iter_addresses(revealed, reuse, k).unwrap().1 > 0,
{
}

/// `k` address requests in a row on `kc`: see `iter_addresses`.
pub fn request_addresses(kc: &mut KeychainState, reuse: bool, k: usize) -> (res: Result<
    Vec<u32>,
    Error,
>)
    requires
        old(kc).wf(),
    ensures
        final(kc).wf(),
        match iter_addresses(old(kc).revealed, reuse, k as nat) {
            Some((s, n)) => res is Ok && res.unwrap()@ == s && final(kc).revealed == n,
            None => res == Err::<Vec<u32>, Error>(Error::KeychainExhausted),
        },
{
    let ghost start = kc.revealed;
    let mut out: Vec<u32> = Vec::new();
    let mut j: usize = 0;
    while j < k
        invariant
            j <= k,
            kc.wf(),
            iter_addresses(start, reuse, j as nat) == Some((out@, kc.revealed)),
            start == old(kc).revealed,
        decreases k - j,
    {
        let ghost before = kc.revealed;
        match kc.address_index(reuse) {
            Ok(i) => {
                out.push(i);
            },
            Err(e) => {
                proof {
                    assert(spec_address_index(before, reuse) is None);
                    assert(iter_addresses(start, reuse, (j + 1) as nat) is None);
                    lemma_iter_none_stays(start, reuse, (j + 1) as nat, k as nat);
                }
                return Err(e);
            },
        }
        j = j + 1;
    }
    Ok(out)
}

proof fn lemma_iter_none_stays(revealed: u32, reuse: bool, j: nat, k: nat)
    requires
        j <= k,
        iter_addresses(revealed, reuse, j) is None,
    ensures
        iter_addresses(revealed, reuse, k) is None,
    decreases k - j,
{
    if j < k {
        lemma_iter_none_stays(revealed, reuse, j + 1, k);
    }
}

/// Where a bitcoin-only transaction stands after its checks: the fee, and the bitcoin of the
/// vanilla outputs it spends, against what its outputs need before the change.
pub open spec fn funding_issue(vanilla: Seq<IndexedTxo>, fee_rate: u64, outputs_sat: int) -> Option<
    Error,
> {
    if fee_rate * TX_VSIZE > u64::MAX {
        Some(Error::InvalidFeeRate)
    } else if btc_sum(vanilla) > u64::MAX {
        Some(Error::BitcoinOverflow)
    } else if btc_sum(vanilla) < outputs_sat + fee_rate * TX_VSIZE {
        Some(Error::InsufficientBitcoins)
    } else {
        None
    }
}

/// The change of a bitcoin-only transaction without `funding_issue`.
pub open spec fn funding_change(vanilla: Seq<IndexedTxo>, fee_rate: u64, outputs_sat: int) -> int {
    btc_sum(vanilla) - outputs_sat - fee_rate * TX_VSIZE
}

/// Checks the fee and the funding of a bitcoin-only transaction whose outputs before the
/// change take `outputs_sat`, and returns the change.
pub fn fund(vanilla: &Vec<IndexedTxo>, fee_rate: u64, outputs_sat: u64) -> (res: Result<u64, Error>)
    ensures
        match funding_issue(vanilla@, fee_rate, outputs_sat as int) {
            Some(e) => res == Err::<u64, Error>(e),
            None => res == Ok::<u64, Error>(funding_change(vanilla@, fee_rate, outputs_sat as int) as u64),
        },
{
    let fee = match fee_rate.checked_mul(TX_VSIZE) {
        Some(f) => f,
        None => {
            return Err(Error::InvalidFeeRate);
        },
    };
    let btc_in = match sum_indexed_btc(vanilla) {
        Some(b) => b,
        None => {
            return Err(Error::BitcoinOverflow);
        },
    };
    let need = match outputs_sat.checked_add(fee) {
        Some(n) => n,
        None => {
            return Err(Error::InsufficientBitcoins);
        },
    };
    if btc_in < need {
        return Err(Error::InsufficientBitcoins);
    }
    Ok(btc_in - need)
}

/// The outpoints of a list of indexed outputs.
pub fn outpoints_of(outs: &Vec<IndexedTxo>) -> (res: Vec<Outpoint>)
    ensures
        res@ == indexed_outpoints(outs@),
{
    let mut res: Vec<Outpoint> = Vec::new();
    let mut k: usize = 0;
    while k < outs.len()
        invariant
            k <= outs@.len(),
            res@ == indexed_outpoints(outs@.take(k as int)),
        decreases outs@.len() - k,
    {
        res.push(outs[k].outpoint);
        k = k + 1;
        assert(res@ =~= indexed_outpoints(outs@.take(k as int)));
    }
    assert(outs@.take(outs@.len() as int) =~= outs@);
    res
}

/// A copy of a list of outputs.
pub fn copy_outputs(outs: &Vec<TxOut>) -> (res: Vec<TxOut>)
    ensures
        res@ == outs@,
{
    let mut res: Vec<TxOut> = Vec::new();
    let mut k: usize = 0;
    while k < outs.len()
        invariant
            k <= outs@.len(),
            res@ == outs@.take(k as int),
        decreases outs@.len() - k,
    {
        res.push(outs[k]);
        k = k + 1;
        assert(res@ =~= outs@.take(k as int));
    }
    assert(outs@.take(outs@.len() as int) =~= outs@);
    res
}

/// The outputs to colored addresses at `indices`, each of `amount` satoshis.
pub fn build_colored_outputs(wallet: &Wallet, indices: &Vec<u32>, amount: u64) -> (res: Vec<TxOut>)
    ensures
        res@ == colored_outputs(wallet.db, indices@, amount),
{
    let mut res: Vec<TxOut> = Vec::new();
    let mut k: usize = 0;
    while k < indices.len()
        invariant
            k <= indices@.len(),
            res@ == colored_outputs(wallet.db, indices@.take(k as int), amount),
        decreases indices@.len() - k,
    {
        res.push(TxOut { script: wallet.script_at(Keychain::Colored, indices[k]), amount });
        k = k + 1;
        assert(res@ =~= colored_outputs(wallet.db, indices@.take(k as int), amount));
    }
    assert(indices@.take(indices@.len() as int) =~= indices@);
    res
}

/// The outcome of preparing a bitcoin-only transaction `txid` that pays `paid` and sends the
/// change to the next vanilla address (the pinned one under reuse): the checks in order
/// (online, funding, addresses), then the keychains advanced as the address requests do, the
/// transaction recorded as the wallet's own, and its inputs (every vanilla output) and outputs.
pub open spec fn btc_tx_outcome(
    pre: Wallet,
    post: Wallet,
    online: Online,
    vanilla: Seq<IndexedTxo>,
    paid: Seq<TxOut>,
    paid_sat: int,
    colored_revealed: u32,
    colored_issue: bool,
    txid: u64,
    fee_rate: u64,
    res: Result<(Vec<Outpoint>, Vec<TxOut>), Error>,
) -> bool {
    let reuse = pre.db.wallet_data.reuse_addresses;
    if spec_check_online(pre.online, online) is Err {
        res == Err::<(Vec<Outpoint>, Vec<TxOut>), Error>(spec_check_online(pre.online, online)->Err_0)
            && post == pre
    } else if funding_issue(vanilla, fee_rate, paid_sat) is Some {
        res == Err::<(Vec<Outpoint>, Vec<TxOut>), Error>(
            funding_issue(vanilla, fee_rate, paid_sat).unwrap(),
        ) && post == pre
    } else if colored_issue || spec_address_index(pre.db.vanilla.revealed, reuse) is None {
        res == Err::<(Vec<Outpoint>, Vec<TxOut>), Error>(Error::KeychainExhausted) && post == pre
    } else {
        let (vi, vn) = spec_address_index(pre.db.vanilla.revealed, reuse).unwrap();
        let change = TxOut {
            script: pre.db.script_at(Keychain::Vanilla, vi),
            amount: funding_change(vanilla, fee_rate, paid_sat) as u64,
        };
        &&& res is Ok
        &&& res.unwrap().0@ == indexed_outpoints(vanilla)
        &&& res.unwrap().1@ == paid.push(change)
        &&& post.online == pre.online
        &&& post.db == WalletDatabase {
            vanilla: KeychainState { revealed: vn },
            colored: KeychainState { revealed: colored_revealed },
            own_txids: post.db.own_txids,
            ..pre.db
        }
        &&& post.db.own_txids@ == pre.db.own_txids@.push(txid)
    }
}

/// The outcome of preparing the transaction `txid` that creates `num` UTXOs: none is refused,
/// else see `btc_tx_outcome`, with outputs of `UTXO_SIZE` to the colored addresses that `num`
/// address requests return.
pub open spec fn create_utxos_outcome(
    pre: Wallet,
    post: Wallet,
    online: Online,
    vanilla: Seq<IndexedTxo>,
    num: u8,
    txid: u64,
    fee_rate: u64,
    res: Result<(Vec<Outpoint>, Vec<TxOut>), Error>,
) -> bool {
    let it = iter_addresses(pre.db.colored.revealed, pre.db.wallet_data.reuse_addresses, num as nat);
    if num == 0 {
        res == Err::<(Vec<Outpoint>, Vec<TxOut>), Error>(Error::InvalidUtxoNum) && post == pre
    } else {
        btc_tx_outcome(
            pre,
            post,
            online,
            vanilla,
            if it is Some {
                colored_outputs(pre.db, it.unwrap().0, UTXO_SIZE)
            } else {
                seq![]
            },
            num * UTXO_SIZE,
            if it is Some {
                it.unwrap().1
            } else {
                pre.db.colored.revealed
            },
            it is None,
            txid,
            fee_rate,
            res,
        )
    }
}

/// The outcome of preparing the transaction `txid` that sends `amount` satoshis to `address`:
/// nothing is refused, else see `btc_tx_outcome`.
pub open spec fn send_btc_outcome(
    pre: Wallet,
    post: Wallet,
    online: Online,
    vanilla: Seq<IndexedTxo>,
    address: Script,
    amount: u64,
    txid: u64,
    fee_rate: u64,
    res: Result<(Vec<Outpoint>, Vec<TxOut>), Error>,
) -> bool {
    if amount == 0 {
        res == Err::<(Vec<Outpoint>, Vec<TxOut>), Error>(Error::InvalidAmountZero) && post == pre
    } else {
        btc_tx_outcome(
            pre,
            post,
            online,
            vanilla,
            seq![TxOut { script: address, amount }],
            amount as int,
            pre.db.colored.revealed,
            false,
            txid,
            fee_rate,
            res,
        )
    }
}

/// `k` address requests in a row return `k` indices.
pub proof fn lemma_iter_len(revealed: u32, reuse: bool, k: nat)
    requires
        iter_addresses(revealed, reuse, k) is Some,
    ensures
        iter_addresses(revealed, reuse, k).unwrap().0.len() == k,
    decreases k,
{
    if k > 0 {
        lemma_iter_len(revealed, reuse, (k - 1) as nat);
    }
}

impl Wallet {
    /// Prepares the transaction `txid` that creates `num` UTXOs of `UTXO_SIZE` satoshis on the
    /// colored keychain (all on the pinned address under reuse, else each on the next one),
    /// funded by every vanilla output in `vanilla`: see `btc_tx_outcome`. `num` must be
    /// positive. The new outputs get TXO rows once a sync sees them.
    pub fn prepare_create_utxos(
        &mut self,
        online: Online,
        vanilla: &Vec<IndexedTxo>,
        num: u8,
        txid: u64,
        fee_rate: u64,
    ) -> (res: Result<(Vec<Outpoint>, Vec<TxOut>), Error>)
        requires
            old(self).wf(),
        ensures
            crate::world::keeps_pins(*old(self), *final(self)),
            final(self).wf(),
            create_utxos_outcome(*old(self), *final(self), online, vanilla@, num, txid, fee_rate, res),
    {
        proof {
            if self.db.wallet_data.reuse_addresses && self.db.colored.revealed > 0 {
                lemma_reuse_requests_return_pin(self.db.colored.revealed, num as nat);
            }
        }
        if num == 0 {
            return Err(Error::InvalidUtxoNum);
        }
        self.check_online(online)?;
        let utxos_sat: u64 = (num as u64) * UTXO_SIZE;
        let change_sat = fund(vanilla, fee_rate, utxos_sat)?;
        let reuse = self.db.wallet_data.reuse_addresses;
        let mut colored = self.db.colored;
        let indices = request_addresses(&mut colored, reuse, num as usize)?;
        let mut vanilla_kc = self.db.vanilla;
        let vi = vanilla_kc.address_index(reuse)?;
        let mut outputs = build_colored_outputs(self, &indices, UTXO_SIZE);
        outputs.push(TxOut { script: self.script_at(Keychain::Vanilla, vi), amount: change_sat });
        let inputs = outpoints_of(vanilla);
        self.db.colored = colored;
        self.db.vanilla = vanilla_kc;
        self.db.own_txids.push(txid);
        Ok((inputs, outputs))
    }

    /// Prepares the transaction `txid` that sends `amount` satoshis to `address`, funded by
    /// every vanilla output in `vanilla`: see `btc_tx_outcome`. `amount` must be positive.
    pub fn prepare_send_btc(
        &mut self,
        online: Online,
        vanilla: &Vec<IndexedTxo>,
        address: Script,
        amount: u64,
        txid: u64,
        fee_rate: u64,
    ) -> (res: Result<(Vec<Outpoint>, Vec<TxOut>), Error>)
        requires
            old(self).wf(),
        ensures
            crate::world::keeps_pins(*old(self), *final(self)),
            final(self).wf(),
            send_btc_outcome(*old(self), *final(self), online, vanilla@, address, amount, txid, fee_rate, res),
    {
        if amount == 0 {
            return Err(Error::InvalidAmountZero);
        }
        self.check_online(online)?;
        let change_sat = fund(vanilla, fee_rate, amount)?;
        let reuse = self.db.wallet_data.reuse_addresses;
        let mut vanilla_kc = self.db.vanilla;
        let vi = vanilla_kc.address_index(reuse)?;
        let mut outputs: Vec<TxOut> = Vec::new();
        outputs.push(TxOut { script: address, amount });
        outputs.push(TxOut { script: self.script_at(Keychain::Vanilla, vi), amount: change_sat });
        let inputs = outpoints_of(vanilla);
        self.db.vanilla = vanilla_kc;
        self.db.own_txids.push(txid);
        proof {
            lemma_btc_sum_nonneg(vanilla@);
        }
        Ok((inputs, outputs))
    }
}


/// Address requests that stay within the non-hardened indices do not run out.
pub proof fn lemma_iter_some(revealed: u32, reuse: bool, k: nat)
    requires
        revealed + k <= crate::keychain::MAX_REVEALED,
    ensures
        iter_addresses(revealed, reuse, k) is Some,
        iter_addresses(revealed, reuse, k).unwrap().1 <= revealed + k,
    decreases k,
{
    if k > 0 {
        lemma_iter_some(revealed, reuse, (k - 1) as nat);
    }
}


/// Without reuse, `k` requests reveal the next `k` indices.
pub proof fn lemma_iter_fresh(revealed: u32, k: nat)
    requires
        revealed + k <= crate::keychain::MAX_REVEALED,
    ensures
        iter_addresses(revealed, false, k) == Some(
            (Seq::new(k, |j: int| (revealed + j) as u32), (revealed + k) as u32),
        ),
    decreases k,
{
    if k > 0 {
        lemma_iter_fresh(revealed, (k - 1) as nat);
        assert(Seq::new((k - 1) as nat, |j: int| (revealed + j) as u32).push(
            (revealed + k - 1) as u32,
        ) =~= Seq::new(k, |j: int| (revealed + j) as u32));
    }
}

/// Under reuse, on a keychain with nothing revealed, `k` requests reveal index 0 and return it
/// each time.
pub proof fn lemma_iter_reuse_from_zero(k: nat)
    requires
        k > 0,
    ensures
        iter_addresses(0, true, k) == Some((Seq::new(k, |j: int| 0u32), 1u32)),
    decreases k,
{
    if k > 1 {
        lemma_iter_reuse_from_zero((k - 1) as nat);
        assert(Seq::new((k - 1) as nat, |j: int| 0u32).push(0u32) =~= Seq::new(k, |j: int| 0u32));
    } else {
        assert(iter_addresses(0, true, 0) == Some((Seq::<u32>::empty(), 0u32)));
        assert(Seq::<u32>::empty().push(0u32) =~= Seq::new(k, |j: int| 0u32));
    }
}

} // verus!
