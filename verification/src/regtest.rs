//! A regtest chain as the wallet sees it through its indexer: transactions with their inputs
//! and outputs, confirmed once mined. Unconfirmed transactions are shown too.
use vstd::prelude::*;

use crate::db::IndexedTxo;
use crate::error::Error;
use crate::types::{Keychain, Outpoint, Script, TxOut};

verus! {

/// A transaction on the chain.
#[derive(Debug)]
pub struct ChainTx {
    pub txid: u64,
    pub inputs: Vec<Outpoint>,
    pub outputs: Vec<TxOut>,
    pub confirmed: bool,
}

/// The chain: its transactions, and the next transaction id to hand out.
#[derive(Debug)]
pub struct Regtest {
    pub txs: Vec<ChainTx>,
    pub next_txid: u64,
}

/// Some transaction on the chain spends `op`.
pub open spec fn spends(txs: Seq<ChainTx>, op: Outpoint) -> bool {
    exists|i: int, k: int|
        0 <= i < txs.len() && 0 <= k < txs[i].inputs@.len() && (#[trigger] txs[i].inputs@[k]) == op
}

/// The position of the transaction `txid` on the chain.
pub open spec fn tx_at(txs: Seq<ChainTx>, txid: u64, i: int) -> bool {
    0 <= i < txs.len() && txs[i].txid == txid
}

/// `op` is an output of a transaction on the chain that no transaction spends.
pub open spec fn is_unspent(txs: Seq<ChainTx>, op: Outpoint) -> bool {
    &&& exists|i: int| tx_at(txs, op.txid, i) && op.vout < txs[i].outputs@.len()
    &&& !spends(txs, op)
}

/// The indexer entry of output `vout` of the `i`-th transaction.
pub open spec fn indexed_output(txs: Seq<ChainTx>, i: int, vout: int) -> IndexedTxo {
    IndexedTxo {
        outpoint: Outpoint { txid: txs[i].txid, vout: vout as u32 },
        script: txs[i].outputs@[vout].script,
        btc_amount: txs[i].outputs@[vout].amount,
    }
}

/// An output pays a script of the given keychain of the wallet with this account key.
pub open spec fn pays_keychain(s: Script, xpub: u128, keychain: Keychain) -> bool {
    s.account_xpub == xpub && s.keychain == keychain
}

/// `view` is what the indexer shows of the unspent outputs of `keychain` of the wallet with
/// this account key: each is such an output, and each such output is there.
pub open spec fn is_unspent_view(
    txs: Seq<ChainTx>,
    xpub: u128,
    keychain: Keychain,
    view: Seq<IndexedTxo>,
) -> bool {
    &&& forall|k: int|
        0 <= k < view.len() ==> {
            &&& is_unspent(txs, (#[trigger] view[k]).outpoint)
            &&& pays_keychain(view[k].script, xpub, keychain)
            &&& exists|i: int, v: int|
                0 <= i < txs.len() && 0 <= v < txs[i].outputs@.len() && view[k]
                    == indexed_output(txs, i, v)
        }
    &&& forall|i: int, v: int|
        0 <= i < txs.len() && 0 <= v < txs[i].outputs@.len() && !spends(
            txs,
            Outpoint { txid: txs[i].txid, vout: v as u32 },
        ) && pays_keychain(txs[i].outputs@[v].script, xpub, keychain)
            ==> view.contains(#[trigger] indexed_output(txs, i, v))
    &&& forall|k: int, m: int|
        0 <= k < m < view.len() ==> (#[trigger] view[k]).outpoint != (#[trigger] view[m]).outpoint
}

impl Regtest {
    /// Transaction ids are distinct, below the next one, and outputs are few enough to be
    /// numbered by `u32`.
    pub open spec fn wf(&self) -> bool {
        &&& forall|i: int, j: int|
            0 <= i < j < self.txs@.len() ==> (#[trigger] self.txs@[i]).txid != (#[trigger] self.txs@[j]).txid
        &&& forall|i: int|
            0 <= i < self.txs@.len() ==> (#[trigger] self.txs@[i]).txid < self.next_txid
        &&& forall|i: int|
            0 <= i < self.txs@.len() ==> (#[trigger] self.txs@[i]).outputs@.len() <= u32::MAX
    }

    /// An empty chain.
    pub fn new() -> (res: Regtest)
        ensures
            res.wf(),
            res.txs@.len() == 0,
            res.next_txid == 1,
    {
        Regtest { txs: Vec::new(), next_txid: 1 }
    }

    /// Hands out a new transaction id.
    pub fn reserve_txid(&mut self) -> (res: Result<u64, Error>)
        requires
            old(self).wf(),
        ensures
            final(self).wf(),
            final(self).txs == old(self).txs,
            match res {
                Ok(id) => id == old(self).next_txid && final(self).next_txid == id + 1,
                Err(e) => e == Error::ChainFull && old(self).next_txid == u64::MAX && *final(self)
                    == *old(self),
            },
    {
        if self.next_txid == u64::MAX {
            return Err(Error::ChainFull);
        }
        let id = self.next_txid;
        self.next_txid = id + 1;
        Ok(id)
    }

    /// The position of transaction `txid`, if it is on the chain.
    pub fn find_tx(&self, txid: u64) -> (res: Option<usize>)
        ensures
            match res {
                Some(i) => tx_at(self.txs@, txid, i as int),
                None => forall|i: int| !tx_at(self.txs@, txid, i),
            },
    {
        let mut i: usize = 0;
        while i < self.txs.len()
            invariant
                i <= self.txs@.len(),
                forall|j: int| 0 <= j < i ==> (#[trigger] self.txs@[j]).txid != txid,
            decreases self.txs@.len() - i,
        {
            if self.txs[i].txid == txid {
                return Some(i);
            }
            i = i + 1;
        }
        None
    }

    /// Whether some transaction on the chain spends `op`.
    pub fn is_spent(&self, op: Outpoint) -> (res: bool)
        ensures
            res == spends(self.txs@, op),
    {
        let mut i: usize = 0;
        while i < self.txs.len()
            invariant
                i <= self.txs@.len(),
                forall|a: int, k: int|
                    0 <= a < i && 0 <= k < self.txs@[a].inputs@.len() ==> (#[trigger] self.txs@[a].inputs@[k])
                        != op,
            decreases self.txs@.len() - i,
        {
            let tx = &self.txs[i];
            let mut k: usize = 0;
            while k < tx.inputs.len()
                invariant
                    k <= tx.inputs@.len(),
                    i < self.txs@.len(),
                    *tx == self.txs@[i as int],
                    forall|a: int, b: int|
                        0 <= a < i && 0 <= b < self.txs@[a].inputs@.len() ==> (#[trigger] self.txs@[a].inputs@[b])
                            != op,
                    forall|b: int| 0 <= b < k ==> (#[trigger] tx.inputs@[b]) != op,
                decreases tx.inputs@.len() - k,
            {
                if tx.inputs[k] == op {
                    assert(self.txs@[i as int].inputs@[k as int] == op);
                    return true;
                }
                k = k + 1;
            }
            i = i + 1;
        }
        false
    }

    /// Whether `txid` is on the chain and mined.
    pub fn is_confirmed(&self, txid: u64) -> (res: bool)
        requires
            self.wf(),
        ensures
            res == exists|i: int| tx_at(self.txs@, txid, i) && self.txs@[i].confirmed,
    {
        match self.find_tx(txid) {
            Some(i) => {
                assert forall|j: int| tx_at(self.txs@, txid, j) implies j == i by {
                    if j != i as int {
                        if j < i {
                            assert(self.txs@[j].txid != self.txs@[i as int].txid);
                        } else {
                            assert(self.txs@[i as int].txid != self.txs@[j].txid);
                        }
                    }
                }
                self.txs[i].confirmed
            },
            None => false,
        }
    }

    /// Whether `op` is an unspent output on the chain.
    pub fn output_is_unspent(&self, op: Outpoint) -> (res: bool)
        requires
            self.wf(),
        ensures
            res == is_unspent(self.txs@, op),
    {
        match self.find_tx(op.txid) {
            Some(i) => {
                assert forall|j: int| tx_at(self.txs@, op.txid, j) implies j == i by {
                    if j != i as int {
                        if j < i {
                            assert(self.txs@[j].txid != self.txs@[i as int].txid);
                        } else {
                            assert(self.txs@[i as int].txid != self.txs@[j].txid);
                        }
                    }
                }
                (op.vout as usize) < self.txs[i].outputs.len() && !self.is_spent(op)
            },
            None => false,
        }
    }

    /// Adds a transaction with the reserved id `txid`. It is refused where an input is not an
    /// unspent output on the chain, or an input is listed twice.
    pub fn broadcast(&mut self, txid: u64, inputs: Vec<Outpoint>, outputs: Vec<TxOut>) -> (res:
        Result<(), Error>)
        requires
            old(self).wf(),
            txid < old(self).next_txid,
            forall|i: int| 0 <= i < old(self).txs@.len() ==> (#[trigger] old(self).txs@[i]).txid != txid,
            outputs@.len() <= u32::MAX,
        ensures
            final(self).wf(),
            final(self).next_txid == old(self).next_txid,
            (forall|k: int| 0 <= k < inputs@.len() ==> is_unspent(old(self).txs@, #[trigger] inputs@[k]))
                && (forall|k: int, m: int| 0 <= k < m < inputs@.len() ==> #[trigger] inputs@[k] != #[trigger] inputs@[m])
                <==> res is Ok,
            match res {
                Ok(_) => final(self).txs@.len() == old(self).txs@.len() + 1
                    && final(self).txs@.take(old(self).txs@.len() as int) == old(self).txs@
                    && final(self).txs@.last().txid == txid && final(self).txs@.last().inputs@
                    == inputs@ && final(self).txs@.last().outputs@ == outputs@
                    && !final(self).txs@.last().confirmed,
                Err(e) => e == Error::InvalidTransaction && *final(self) == *old(self),
            },
    {
        let mut k: usize = 0;
        while k < inputs.len()
            invariant
                k <= inputs@.len(),
                self.wf(),
                forall|a: int| 0 <= a < k ==> is_unspent(self.txs@, #[trigger] inputs@[a]),
                forall|a: int, b: int| 0 <= a < b < k ==> #[trigger] inputs@[a] != #[trigger] inputs@[b],
            decreases inputs@.len() - k,
        {
            if !self.output_is_unspent(inputs[k]) {
                return Err(Error::InvalidTransaction);
            }
            let mut m: usize = 0;
            while m < k
                invariant
                    m <= k,
                    k < inputs@.len(),
                    self.wf(),
                    forall|b: int| 0 <= b < m ==> inputs@[b] != inputs@[k as int],
                decreases k - m,
            {
                if inputs[m] == inputs[k] {
                    return Err(Error::InvalidTransaction);
                }
                m = m + 1;
            }
            k = k + 1;
        }
        let ghost pre = self.txs@;
        self.txs.push(ChainTx { txid, inputs, outputs, confirmed: false });
        assert(self.txs@.take(pre.len() as int) =~= pre);
        Ok(())
    }

    /// Adds a transaction without inputs that pays `amount` to `script`, as a faucet does, and
    /// returns its id.
    pub fn fund(&mut self, script: Script, amount: u64) -> (res: Result<u64, Error>)
        requires
            old(self).wf(),
        ensures
            final(self).wf(),
            match res {
                Ok(txid) => {
                    &&& txid == old(self).next_txid
                    &&& final(self).next_txid == txid + 1
                    &&& final(self).txs@.len() == old(self).txs@.len() + 1
                    &&& final(self).txs@.take(old(self).txs@.len() as int) == old(self).txs@
                    &&& final(self).txs@.last().txid == txid
                    &&& final(self).txs@.last().inputs@.len() == 0
                    &&& final(self).txs@.last().outputs@ == seq![TxOut { script, amount }]
                    &&& !final(self).txs@.last().confirmed
                },
                Err(e) => e == Error::ChainFull && old(self).next_txid == u64::MAX && *final(self)
                    == *old(self),
            },
    {
        let txid = self.reserve_txid()?;
        let mut outputs: Vec<TxOut> = Vec::new();
        outputs.push(TxOut { script, amount });
        let ghost pre = self.txs@;
        self.txs.push(ChainTx { txid, inputs: Vec::new(), outputs, confirmed: false });
        assert(self.txs@.take(pre.len() as int) =~= pre);
        assert(self.txs@.last().outputs@ =~= seq![TxOut { script, amount }]);
        Ok(txid)
    }

    /// Mines every transaction.
    pub fn mine(&mut self)
        requires
            old(self).wf(),
        ensures
            final(self).wf(),
            final(self).next_txid == old(self).next_txid,
            final(self).txs@.len() == old(self).txs@.len(),
            forall|i: int|
                0 <= i < final(self).txs@.len() ==> {
                    &&& (#[trigger] final(self).txs@[i]).confirmed
                    &&& final(self).txs@[i].txid == old(self).txs@[i].txid
                    &&& final(self).txs@[i].inputs == old(self).txs@[i].inputs
                    &&& final(self).txs@[i].outputs == old(self).txs@[i].outputs
                },
    {
        let mut i: usize = 0;
        while i < self.txs.len()
            invariant
                i <= self.txs@.len(),
                self.txs@.len() == old(self).txs@.len(),
                self.next_txid == old(self).next_txid,
                forall|j: int|
                    0 <= j < self.txs@.len() ==> {
                        &&& (#[trigger] self.txs@[j]).txid == old(self).txs@[j].txid
                        &&& self.txs@[j].inputs == old(self).txs@[j].inputs
                        &&& self.txs@[j].outputs == old(self).txs@[j].outputs
                        &&& (j < i ==> self.txs@[j].confirmed)
                    },
            decreases self.txs@.len() - i,
        {
            let mut tx = self.txs.remove(i);
            tx.confirmed = true;
            self.txs.insert(i, tx);
            i = i + 1;
        }
    }

    /// The unspent outputs that pay the given keychain of the wallet with this xpub, in
    /// chain order.
    pub fn unspent_for(&self, xpub: u128, keychain: Keychain) -> (res: Vec<IndexedTxo>)
        requires
            self.wf(),
        ensures
            is_unspent_view(self.txs@, xpub, keychain, res@),
    {
        let mut res: Vec<IndexedTxo> = Vec::new();
        let mut i: usize = 0;
        while i < self.txs.len()
            invariant
                i <= self.txs@.len(),
                self.wf(),
                forall|k: int|
                    0 <= k < res@.len() ==> {
                        &&& is_unspent(self.txs@, (#[trigger] res@[k]).outpoint)
                        &&& pays_keychain(res@[k].script, xpub, keychain)
                        &&& exists|a: int, v: int|
                            0 <= a < i && 0 <= v < self.txs@[a].outputs@.len()
                                && res@[k] == indexed_output(self.txs@, a, v)
                    },
                forall|k: int, m: int|
                    0 <= k < m < res@.len() ==> (#[trigger] res@[k]).outpoint != (#[trigger] res@[m]).outpoint,
                forall|a: int, v: int|
                    0 <= a < i && 0 <= v < self.txs@[a].outputs@.len() && !spends(
                        self.txs@,
                        Outpoint { txid: self.txs@[a].txid, vout: v as u32 },
                    ) && pays_keychain(self.txs@[a].outputs@[v].script, xpub, keychain)
                        ==> res@.contains(#[trigger] indexed_output(self.txs@, a, v)),
            decreases self.txs@.len() - i,
        {
            let tx = &self.txs[i];
            let mut v: usize = 0;
            while v < tx.outputs.len()
                invariant
                    v <= tx.outputs@.len(),
                    i < self.txs@.len(),
                    *tx == self.txs@[i as int],
                    self.wf(),
                    forall|k: int|
                        0 <= k < res@.len() ==> {
                            &&& is_unspent(self.txs@, (#[trigger] res@[k]).outpoint)
                            &&& pays_keychain(res@[k].script, xpub, keychain)
                            &&& exists|a: int, w: int|
                                0 <= a < self.txs@.len() && 0 <= w < self.txs@[a].outputs@.len()
                                    && (a < i || (a == i && w < v))
                                    && res@[k] == indexed_output(self.txs@, a, w)
                        },
                    forall|k: int, m: int|
                        0 <= k < m < res@.len() ==> (#[trigger] res@[k]).outpoint != (#[trigger] res@[m]).outpoint,
                    forall|a: int, w: int|
                        0 <= a < i && 0 <= w < self.txs@[a].outputs@.len() && !spends(
                            self.txs@,
                            Outpoint { txid: self.txs@[a].txid, vout: w as u32 },
                        ) && pays_keychain(self.txs@[a].outputs@[w].script, xpub, keychain)
                            ==> res@.contains(#[trigger] indexed_output(self.txs@, a, w)),
                    forall|w: int|
                        0 <= w < v && !spends(
                            self.txs@,
                            Outpoint { txid: self.txs@[i as int].txid, vout: w as u32 },
                        ) && pays_keychain(self.txs@[i as int].outputs@[w].script, xpub, keychain)
                            ==> res@.contains(#[trigger] indexed_output(self.txs@, i as int, w)),
                decreases tx.outputs@.len() - v,
            {
                let out = tx.outputs[v];
                let op = Outpoint { txid: tx.txid, vout: v as u32 };
                if out.script.account_xpub == xpub && out.script.keychain == keychain
                    && !self.is_spent(op) {
                    let entry = IndexedTxo { outpoint: op, script: out.script, btc_amount: out.amount };
                    let ghost before = res@;
                    res.push(entry);
                    assert(entry == indexed_output(self.txs@, i as int, v as int));
                    assert(tx_at(self.txs@, op.txid, i as int));
                    assert(res@[before.len() as int] == entry);
                    assert forall|k: int, m: int|
                        0 <= k < m < res@.len() implies (#[trigger] res@[k]).outpoint
                        != (#[trigger] res@[m]).outpoint by {
                        if m == before.len() {
                            assert(res@[k] == before[k]);
                            let (a, w) = choose|a: int, w: int|
                                0 <= a < self.txs@.len() && 0 <= w < self.txs@[a].outputs@.len()
                                    && (a < i || (a == i && w < v))
                                    && before[k] == indexed_output(self.txs@, a, w);
                            if a < i {
                                assert(self.txs@[a].txid != self.txs@[i as int].txid);
                            } else {
                                assert(self.txs@[i as int].outputs@.len() <= u32::MAX);
                                assert(w as u32 != v as u32);
                            }
                        } else {
                            assert(res@[k] == before[k] && res@[m] == before[m]);
                        }
                    }
                    assert forall|a: int, w: int|
                        0 <= a < i && 0 <= w < self.txs@[a].outputs@.len() && !spends(
                            self.txs@,
                            Outpoint { txid: self.txs@[a].txid, vout: w as u32 },
                        ) && pays_keychain(self.txs@[a].outputs@[w].script, xpub, keychain)
                        implies res@.contains(#[trigger] indexed_output(self.txs@, a, w)) by {
                        let x = indexed_output(self.txs@, a, w);
                        let j = choose|j: int| 0 <= j < before.len() && before[j] == x;
                        assert(res@[j] == x);
                    }
                    assert forall|w: int|
                        0 <= w < v + 1 && !spends(
                            self.txs@,
                            Outpoint { txid: self.txs@[i as int].txid, vout: w as u32 },
                        ) && pays_keychain(self.txs@[i as int].outputs@[w].script, xpub, keychain)
                        implies res@.contains(#[trigger] indexed_output(self.txs@, i as int, w)) by {
                        let x = indexed_output(self.txs@, i as int, w);
                        if w < v {
                            let j = choose|j: int| 0 <= j < before.len() && before[j] == x;
                            assert(res@[j] == x);
                        } else {
                            assert(res@[before.len() as int] == x);
                        }
                    }
                }
                v = v + 1;
            }
            i = i + 1;
        }
        res
    }
}


/// Law: where the last transaction of the chain is the only one that pays the keychain of
/// this xpub, has no inputs, one output of `amount`, and no transaction spends it, the
/// indexer shows that output alone.
pub proof fn lemma_single_output_view(
    txs: Seq<ChainTx>,
    xpub: u128,
    keychain: Keychain,
    view: Seq<IndexedTxo>,
    amount: u64,
)
    requires
        txs.len() > 0,
        is_unspent_view(txs, xpub, keychain, view),
        forall|i: int, v: int|
            0 <= i < txs.len() - 1 && 0 <= v < txs[i].outputs@.len() ==> !pays_keychain(
                #[trigger] txs[i].outputs@[v].script,
                xpub,
                keychain,
            ),
        forall|i: int, k: int|
            0 <= i < txs.len() - 1 && 0 <= k < txs[i].inputs@.len() ==> (#[trigger] txs[i].inputs@[k]).txid
                != txs.last().txid,
        txs.last().inputs@.len() == 0,
        txs.last().outputs@.len() == 1,
        txs.last().outputs@[0].amount == amount,
        pays_keychain(txs.last().outputs@[0].script, xpub, keychain),
    ensures
        view.len() == 1,
        view[0] == indexed_output(txs, txs.len() - 1, 0),
        view[0].btc_amount == amount,
{
    let n = txs.len() - 1;
    let x = indexed_output(txs, n, 0);
    assert forall|k: int| 0 <= k < view.len() implies #[trigger] view[k] == x by {
        let (a, v) = choose|a: int, v: int|
            0 <= a < txs.len() && 0 <= v < txs[a].outputs@.len() && view[k] == indexed_output(
                txs,
                a,
                v,
            );
        if a < n {
            assert(pays_keychain(txs[a].outputs@[v].script, xpub, keychain));
        }
    }
    assert(!spends(txs, Outpoint { txid: txs[n].txid, vout: 0 })) by {
        if spends(txs, Outpoint { txid: txs[n].txid, vout: 0 }) {
            let (i, k) = choose|i: int, k: int|
                0 <= i < txs.len() && 0 <= k < txs[i].inputs@.len() && (#[trigger] txs[i].inputs@[k])
                    == Outpoint { txid: txs[n].txid, vout: 0 };
            if i < n {
                assert(txs[i].inputs@[k].txid != txs[n].txid);
            }
        }
    }
    assert(view.contains(x));
    if view.len() > 1 {
        assert(view[0] == x && view[1] == x);
        assert(view[0].outpoint != view[1].outpoint);
    }
}

} // verus!
