//! Assets held by the wallet: issuance, balances, and the allocations that transfers put on
//! TXO rows.
use vstd::prelude::*;

use crate::db::{is_pending_status, DbAllocation, DbAsset, DbTransfer, RecipientTypeFull, TransferKind, TransferStatus, Assignment};
use crate::error::Error;
use crate::wallet::{is_first_available, is_reserved, reserved, spec_check_online, Online, Wallet, WalletDatabase};

verus! {

/// The balance of an asset: `settled` on unspent outputs; `future` once every transfer under
/// way settles; `spendable` what a send can take now.
#[derive(Debug, Clone, Copy, PartialEq, Eq, Structural)]
pub struct Balance {
    pub settled: u64,
    pub future: u64,
    pub spendable: u64,
}

/// The sum of the amounts of the allocations that `f` selects.
pub open spec fn sum_amounts(allocs: Seq<DbAllocation>, f: spec_fn(DbAllocation) -> bool) -> int
    decreases allocs.len(),
{
    if allocs.len() == 0 {
        0
    } else {
        sum_amounts(allocs.drop_last(), f) + if f(allocs.last()) {
            allocs.last().amount as int
        } else {
            0
        }
    }
}

/// An allocation of `asset_id`, settled, on an unspent output.
pub open spec fn counts_settled(db: WalletDatabase, asset_id: u64, a: DbAllocation) -> bool {
    &&& a.asset_id == asset_id
    &&& a.settled
    &&& !db.txos@[a.txo_idx as int].spent
}

/// An allocation of `asset_id` that a transfer which has not failed puts on an unspent output
/// that no send under way spends.
pub open spec fn counts_future(db: WalletDatabase, asset_id: u64, a: DbAllocation) -> bool {
    &&& a.asset_id == asset_id
    &&& db.transfers@[a.transfer_idx as int].status != TransferStatus::Failed
    &&& !db.txos@[a.txo_idx as int].spent
    &&& !is_reserved(db.transfers@, db.txos@[a.txo_idx as int].spec_outpoint())
}

/// A settled allocation of `asset_id` on an output that a send can spend.
pub open spec fn counts_spendable(db: WalletDatabase, asset_id: u64, a: DbAllocation) -> bool {
    &&& counts_settled(db, asset_id, a)
    &&& db.is_available(a.txo_idx as int)
}

/// The balance of `asset_id` as integers.
pub open spec fn spec_balance(db: WalletDatabase, asset_id: u64) -> (int, int, int) {
    (
        sum_amounts(db.allocations@, |a: DbAllocation| counts_settled(db, asset_id, a)),
        sum_amounts(db.allocations@, |a: DbAllocation| counts_future(db, asset_id, a)),
        sum_amounts(db.allocations@, |a: DbAllocation| counts_spendable(db, asset_id, a)),
    )
}

/// Adding the amounts of a longer prefix.
proof fn lemma_sum_step(allocs: Seq<DbAllocation>, f: spec_fn(DbAllocation) -> bool, i: int)
    requires
        0 <= i < allocs.len(),
    ensures
        sum_amounts(allocs.take(i + 1), f) == sum_amounts(allocs.take(i), f) + if f(allocs[i]) {
            allocs[i].amount as int
        } else {
            0
        },
{
    assert(allocs.take(i + 1).drop_last() =~= allocs.take(i));
}


/// The sum of the amounts of issuance.
pub open spec fn sum_u64(s: Seq<u64>) -> int
    decreases s.len(),
{
    if s.len() == 0 {
        0
    } else {
        sum_u64(s.drop_last()) + s.last()
    }
}

/// The total of `amounts`, where it fits in `u64`.
pub fn checked_total(amounts: &Vec<u64>) -> (res: Option<u64>)
    ensures
        match res {
            Some(t) => t == sum_u64(amounts@),
            None => sum_u64(amounts@) > u64::MAX,
        },
{
    let mut total: u64 = 0;
    let mut k: usize = 0;
    while k < amounts.len()
        invariant
            k <= amounts@.len(),
            total == sum_u64(amounts@.take(k as int)),
        decreases amounts@.len() - k,
    {
        assert(amounts@.take(k + 1).drop_last() =~= amounts@.take(k as int));
        match total.checked_add(amounts[k]) {
            Some(t) => {
                total = t;
            },
            None => {
                proof {
                    lemma_sum_u64_prefix_le(amounts@, k as int + 1);
                }
                return None;
            },
        }
        k = k + 1;
    }
    assert(amounts@.take(amounts@.len() as int) =~= amounts@);
    Some(total)
}

/// A prefix sums to no more than the whole.
proof fn lemma_sum_u64_prefix_le(s: Seq<u64>, i: int)
    requires
        0 <= i <= s.len(),
    ensures
        sum_u64(s.take(i)) <= sum_u64(s),
    decreases s.len() - i,
{
    if i < s.len() {
        lemma_sum_u64_prefix_le(s, i + 1);
        assert(s.take(i + 1).drop_last() =~= s.take(i));
    } else {
        assert(s.take(i) =~= s);
    }
}

/// The allocations an issuance records: one per amount, settled, on TXO row `txo_idx`, by
/// transfer `transfer_idx`.
pub open spec fn issuance_allocations(
    amounts: Seq<u64>,
    txo_idx: int,
    asset_id: u64,
    transfer_idx: int,
) -> Seq<DbAllocation> {
    amounts.map_values(
        |a: u64|
            DbAllocation {
                txo_idx: txo_idx as usize,
                asset_id,
                amount: a,
                transfer_idx: transfer_idx as usize,
                settled: true,
            },
    )
}

/// The outcome of issuing `asset_id` with `amounts` and an inflation allowance: the checks in
/// order (online, amounts, their sum, a UTXO to hold them), then a settled issuance transfer,
/// one settled allocation per amount on the first TXO row that can take one, and the asset
/// recorded with its allowance.
pub open spec fn issue_outcome(
    pre_wallet: Wallet,
    post_wallet: Wallet,
    online: Online,
    asset_id: u64,
    amounts: Seq<u64>,
    inflation_allowance: u64,
    res: Result<(), Error>,
) -> bool {
    &&& post_wallet.online == pre_wallet.online
    &&& match spec_check_online(pre_wallet.online, online) {
        Err(e) => res == Err::<(), Error>(e) && post_wallet == pre_wallet,
        Ok(_) => if amounts.len() == 0 {
            res == Err::<(), Error>(Error::NoIssuanceAmounts) && post_wallet == pre_wallet
        } else if sum_u64(amounts) > u64::MAX {
            res == Err::<(), Error>(Error::TooHighIssuanceAmounts) && post_wallet == pre_wallet
        } else if forall|i: int| !pre_wallet.db.is_available(i) {
            res == Err::<(), Error>(Error::InsufficientAllocationSlots) && post_wallet == pre_wallet
        } else {
            let pre = pre_wallet.db;
            let post = post_wallet.db;
            let txo_idx = choose|i: int| is_first_available(pre, i);
            let idx = pre.transfers@.len();
            &&& res is Ok
            &&& post == WalletDatabase {
                transfers: post.transfers,
                allocations: post.allocations,
                assets: post.assets,
                ..pre
            }
            &&& post.transfers@.len() == idx + 1
            &&& post.transfers@.take(idx as int) == pre.transfers@
            &&& post.transfers@[idx as int].idx == idx
            &&& post.transfers@[idx as int].kind == TransferKind::Issuance
            &&& post.transfers@[idx as int].status == TransferStatus::Settled
            &&& post.transfers@[idx as int].asset_id == Some(asset_id)
            &&& post.transfers@[idx as int].amount == sum_u64(amounts)
            &&& post.transfers@[idx as int].recipient_id is None
            &&& post.transfers@[idx as int].recipient_type is None
            &&& post.transfers@[idx as int].tx_inputs@.len() == 0
            &&& post.allocations@ == pre.allocations@ + issuance_allocations(
                amounts,
                txo_idx,
                asset_id,
                idx as int,
            )
            &&& post.assets@ == pre.assets@.push(DbAsset { asset_id, inflation_allowance })
        },
    }
}

impl Wallet {
    /// Sums the amounts of the allocations of `asset_id` that `which` selects (0: settled, 1:
    /// future, 2: spendable); `None` where the sum does not fit in `u64`.
    fn balance_part(&self, asset_id: u64, which: u8) -> (res: Option<u64>)
        requires
            self.wf(),
            which < 3,
        ensures
            ({
                let f = if which == 0 {
                    |a: DbAllocation| counts_settled(self.db, asset_id, a)
                } else if which == 1 {
                    |a: DbAllocation| counts_future(self.db, asset_id, a)
                } else {
                    |a: DbAllocation| counts_spendable(self.db, asset_id, a)
                };
                match res {
                    Some(v) => v == sum_amounts(self.db.allocations@, f),
                    None => sum_amounts(self.db.allocations@, f) > u64::MAX,
                }
            }),
    {
        let ghost f = if which == 0 {
            |a: DbAllocation| counts_settled(self.db, asset_id, a)
        } else if which == 1 {
            |a: DbAllocation| counts_future(self.db, asset_id, a)
        } else {
            |a: DbAllocation| counts_spendable(self.db, asset_id, a)
        };
        let allocs = &self.db.allocations;
        let mut total: u64 = 0;
        let mut k: usize = 0;
        while k < allocs.len()
            invariant
                k <= allocs@.len(),
                self.wf(),
                *allocs == self.db.allocations,
                which < 3,
                f == (if which == 0 {
                    |a: DbAllocation| counts_settled(self.db, asset_id, a)
                } else if which == 1 {
                    |a: DbAllocation| counts_future(self.db, asset_id, a)
                } else {
                    |a: DbAllocation| counts_spendable(self.db, asset_id, a)
                }),
                total == sum_amounts(allocs@.take(k as int), f),
            decreases allocs@.len() - k,
        {
            let a = allocs[k];
            let txo = self.db.txos[a.txo_idx];
            let counted = if a.asset_id != asset_id || txo.spent {
                false
            } else if which == 0 {
                a.settled
            } else if which == 1 {
                let st = self.db.transfers[a.transfer_idx].status;
                let failed = match st {
                    TransferStatus::Failed => true,
                    _ => false,
                };
                !failed && !reserved(&self.db.transfers, txo.outpoint())
            } else {
                a.settled && txo.exists && !txo.pending_witness && !reserved(&self.db.transfers, txo.outpoint())
            };
            proof {
                lemma_sum_step(allocs@, f, k as int);
                assert(counted == f(allocs@[k as int]));
            }
            if counted {
                match total.checked_add(a.amount) {
                    Some(t) => {
                        total = t;
                    },
                    None => {
                        proof {
                            lemma_sum_prefix_le(allocs@, f, k as int + 1);
                        }
                        return None;
                    },
                }
            }
            k = k + 1;
        }
        assert(allocs@.take(allocs@.len() as int) =~= allocs@);
        Some(total)
    }

    /// The balance of `asset_id`: see `Balance` and `spec_balance`; an error where a sum does
    /// not fit in `u64`.
    pub fn get_asset_balance(&self, asset_id: u64) -> (res: Result<Balance, Error>)
        requires
            self.wf(),
        ensures
            ({
                let (s, f, p) = spec_balance(self.db, asset_id);
                match res {
                    Ok(b) => b.settled == s && b.future == f && b.spendable == p,
                    Err(e) => e == Error::BalanceOverflow && (s > u64::MAX || f > u64::MAX || p
                        > u64::MAX),
                }
            }),
    {
        let settled = match self.balance_part(asset_id, 0) {
            Some(v) => v,
            None => {
                return Err(Error::BalanceOverflow);
            },
        };
        let future = match self.balance_part(asset_id, 1) {
            Some(v) => v,
            None => {
                return Err(Error::BalanceOverflow);
            },
        };
        let spendable = match self.balance_part(asset_id, 2) {
            Some(v) => v,
            None => {
                return Err(Error::BalanceOverflow);
            },
        };
        Ok(Balance { settled, future, spendable })
    }

    /// Issues `asset_id` with the given amounts, all on the first TXO row that can take an
    /// allocation, and an inflation allowance. The issuance is settled at once.
    pub fn issue_asset(
        &mut self,
        online: Online,
        asset_id: u64,
        amounts: &Vec<u64>,
        inflation_allowance: u64,
    ) -> (res: Result<(), Error>)
        requires
            old(self).wf(),
        ensures
            crate::world::keeps_pins(*old(self), *final(self)),
            final(self).wf(),
            issue_outcome(*old(self), *final(self), online, asset_id, amounts@, inflation_allowance, res),
    {
        self.check_online(online)?;
        if amounts.len() == 0 {
            return Err(Error::NoIssuanceAmounts);
        }
        let total = match checked_total(amounts) {
            Some(t) => t,
            None => {
                return Err(Error::TooHighIssuanceAmounts);
            },
        };
        let txo_idx = match self.first_available_txo() {
            Some(i) => i,
            None => {
                return Err(Error::InsufficientAllocationSlots);
            },
        };
        proof {
            let c = choose|i: int| is_first_available(self.db, i);
            assert(is_first_available(self.db, txo_idx as int));
            if c != txo_idx as int {
                if c < txo_idx {
                } else {
                }
            }
            assert(c == txo_idx);
        }
        let idx = self.db.transfers.len();
        let ghost pre = self.db;
        self.db.transfers.push(
            DbTransfer {
                idx,
                kind: TransferKind::Issuance,
                status: TransferStatus::Settled,
                recipient_id: None,
                recipient_type: None,
                asset_id: Some(asset_id),
                assignment: Assignment::Any,
                expiration_timestamp: None,
                min_confirmations: 0,
                transport_endpoints: Vec::new(),
                txid: None,
                amount: total,
                proxy_nonce: Vec::new(),
                tx_inputs: Vec::new(),
                tx_outputs: Vec::new(),
            },
        );
        assert(self.db.transfers@.take(idx as int) =~= pre.transfers@);
        let ghost mid = self.db;
        let mut k: usize = 0;
        while k < amounts.len()
            invariant
                k <= amounts@.len(),
                txo_idx < self.db.txos@.len(),
                idx < self.db.transfers@.len(),
                self.db.txos == pre.txos,
                forall|a: int|
                    0 <= a < pre.allocations@.len() ==> (#[trigger] pre.allocations@[a]).txo_idx
                        < pre.txos@.len() && pre.allocations@[a].transfer_idx < pre.transfers@.len(),
                self.db.allocations@ == pre.allocations@ + issuance_allocations(
                    amounts@.take(k as int),
                    txo_idx as int,
                    asset_id,
                    idx as int,
                ),
                self.db.transfers@.len() == pre.transfers@.len() + 1,
                self.db == (WalletDatabase { allocations: self.db.allocations, ..mid }),
                self.online == old(self).online,
            decreases amounts@.len() - k,
        {
            self.db.allocations.push(
                DbAllocation {
                    txo_idx,
                    asset_id,
                    amount: amounts[k],
                    transfer_idx: idx,
                    settled: true,
                },
            );
            k = k + 1;
            assert(self.db.allocations@ =~= pre.allocations@ + issuance_allocations(
                amounts@.take(k as int),
                txo_idx as int,
                asset_id,
                idx as int,
            ));
        }
        assert(amounts@.take(amounts@.len() as int) =~= amounts@);
        self.db.assets.push(DbAsset { asset_id, inflation_allowance });
        assert forall|a: int|
            0 <= a < self.db.allocations@.len() implies (#[trigger] self.db.allocations@[a]).txo_idx
            < self.db.txos@.len() && self.db.allocations@[a].transfer_idx
            < self.db.transfers@.len() by {
            if a >= pre.allocations@.len() {
            }
        }
        assert forall|t: int|
            0 <= t < self.db.transfers@.len() implies ((#[trigger] self.db.transfers@[t]).recipient_type matches Some(
            RecipientTypeFull::Blind { txo_idx },
        ) ==> txo_idx < self.db.txos@.len()) by {
            if t < idx {
                assert(self.db.transfers@[t] == pre.transfers@[t]);
            }
        }
        Ok(())
    }
}

/// Law: an issuance puts its allocations on a free row (see `crate::wallet::free_row`), the
/// first one: on success every allocation it adds is on that row, and no row before it is free.
pub proof fn lemma_issuance_on_first_free_row(
    pre: Wallet,
    post: Wallet,
    online: Online,
    asset_id: u64,
    amounts: Seq<u64>,
    inflation_allowance: u64,
)
    requires
        issue_outcome(pre, post, online, asset_id, amounts, inflation_allowance, Ok::<(), Error>(())),
    ensures
        post.db.allocations@.len() == pre.db.allocations@.len() + amounts.len(),
        exists|t: int|
            #[trigger] crate::wallet::free_row(pre.db, t) && (forall|j: int|
                0 <= j < t ==> !#[trigger] crate::wallet::free_row(pre.db, j)) && forall|k: int|
                pre.db.allocations@.len() <= k < post.db.allocations@.len()
                    ==> (#[trigger] post.db.allocations@[k]).txo_idx == t && post.db.allocations@[k].asset_id
                    == asset_id,
{
    let a = choose|i: int| pre.db.is_available(i);
    crate::wallet::lemma_first_available_exists(pre.db, a);
    let t = choose|i: int| is_first_available(pre.db, i);
    crate::wallet::lemma_free_row_is_available(pre.db, t);
    assert forall|j: int| 0 <= j < t implies !#[trigger] crate::wallet::free_row(pre.db, j) by {
        crate::wallet::lemma_free_row_is_available(pre.db, j);
    }
    let n = pre.db.allocations@.len();
    assert forall|k: int| n <= k < post.db.allocations@.len() implies (
    #[trigger] post.db.allocations@[k]).txo_idx == t && post.db.allocations@[k].asset_id == asset_id by {
        assert(post.db.allocations@[k] == issuance_allocations(amounts, t, asset_id, pre.db.transfers@.len() as int)[k - n]);
        assert(pre.db.txos@.len() <= usize::MAX) by {
            assert(pre.db.txos@.len() == pre.db.txos.len());
        }
    }
}

/// Law: an issuance that passes its checks of the session and the amounts fails for want of a
/// UTXO exactly where no row is free (see `crate::wallet::free_row`).
pub proof fn lemma_issuance_needs_a_free_row(
    pre: Wallet,
    post: Wallet,
    online: Online,
    asset_id: u64,
    amounts: Seq<u64>,
    inflation_allowance: u64,
    res: Result<(), Error>,
)
    requires
        issue_outcome(pre, post, online, asset_id, amounts, inflation_allowance, res),
        spec_check_online(pre.online, online) is Ok,
        amounts.len() > 0,
        sum_u64(amounts) <= u64::MAX,
    ensures
        res == Err::<(), Error>(Error::InsufficientAllocationSlots) <==> forall|i: int|
            !#[trigger] crate::wallet::free_row(pre.db, i),
        res is Ok <==> exists|i: int| #[trigger] crate::wallet::free_row(pre.db, i),
{
    if forall|i: int| !pre.db.is_available(i) {
        assert forall|i: int| !#[trigger] crate::wallet::free_row(pre.db, i) by {
            crate::wallet::lemma_free_row_is_available(pre.db, i);
        }
    } else {
        let i = choose|i: int| pre.db.is_available(i);
        crate::wallet::lemma_free_row_is_available(pre.db, i);
        assert(crate::wallet::free_row(pre.db, i));
    }
}

/// The amount of `asset_id` that the wallet's allocations put on unspent outputs, whatever
/// their transfers.
pub open spec fn unspent_total(db: WalletDatabase, asset_id: u64) -> int {
    sum_amounts(
        db.allocations@,
        |a: DbAllocation| a.asset_id == asset_id && !db.txos@[a.txo_idx as int].spent,
    )
}

/// Sums under a selection that takes no more allocations than another are no larger.
proof fn lemma_sum_mono(allocs: Seq<DbAllocation>, f: spec_fn(DbAllocation) -> bool, g: spec_fn(DbAllocation) -> bool)
    requires
        forall|i: int| 0 <= i < allocs.len() && f(#[trigger] allocs[i]) ==> g(allocs[i]),
    ensures
        sum_amounts(allocs, f) <= sum_amounts(allocs, g),
    decreases allocs.len(),
{
    if allocs.len() > 0 {
        lemma_sum_mono(allocs.drop_last(), f, g);
        assert(f(allocs[allocs.len() - 1]) ==> g(allocs[allocs.len() - 1]));
    }
}

/// Sums under two selections that agree on every allocation are equal.
proof fn lemma_sum_same(allocs: Seq<DbAllocation>, f: spec_fn(DbAllocation) -> bool, g: spec_fn(DbAllocation) -> bool)
    requires
        forall|i: int| 0 <= i < allocs.len() ==> f(#[trigger] allocs[i]) == g(allocs[i]),
    ensures
        sum_amounts(allocs, f) == sum_amounts(allocs, g),
    decreases allocs.len(),
{
    if allocs.len() > 0 {
        lemma_sum_same(allocs.drop_last(), f, g);
        assert(f(allocs[allocs.len() - 1]) == g(allocs[allocs.len() - 1]));
    }
}

/// Law: no part of an asset's balance counts an allocation on a spent output: the settled,
/// future and spendable balances are each at most what the asset's allocations put on
/// unspent outputs. Where every output holding the asset is spent, the balance is zero.
pub proof fn lemma_balance_only_on_unspent_outputs(db: WalletDatabase, asset_id: u64)
    ensures
        spec_balance(db, asset_id).0 <= unspent_total(db, asset_id),
        spec_balance(db, asset_id).1 <= unspent_total(db, asset_id),
        spec_balance(db, asset_id).2 <= unspent_total(db, asset_id),
        unspent_total(db, asset_id) == 0 ==> spec_balance(db, asset_id) == (0int, 0int, 0int),
{
    let u = |a: DbAllocation| a.asset_id == asset_id && !db.txos@[a.txo_idx as int].spent;
    lemma_sum_mono(db.allocations@, |a: DbAllocation| counts_settled(db, asset_id, a), u);
    lemma_sum_mono(db.allocations@, |a: DbAllocation| counts_future(db, asset_id, a), u);
    lemma_sum_mono(db.allocations@, |a: DbAllocation| counts_spendable(db, asset_id, a), u);
    lemma_sum_nonneg(db.allocations@, |a: DbAllocation| counts_settled(db, asset_id, a));
    lemma_sum_nonneg(db.allocations@, |a: DbAllocation| counts_future(db, asset_id, a));
    lemma_sum_nonneg(db.allocations@, |a: DbAllocation| counts_spendable(db, asset_id, a));
}

/// Sums of amounts are not negative.
pub(crate) proof fn lemma_sum_nonneg(allocs: Seq<DbAllocation>, f: spec_fn(DbAllocation) -> bool)
    ensures
        sum_amounts(allocs, f) >= 0,
    decreases allocs.len(),
{
    if allocs.len() > 0 {
        lemma_sum_nonneg(allocs.drop_last(), f);
    }
}

/// Law: once nothing is under way, the future balance is the settled one. Where no transfer
/// waits for the counterparty or for confirmations, and each allocation of the asset is
/// settled exactly where its transfer has not failed, `future == settled`: an allocation on a
/// spent output (the input of a settled send) counts in neither.
pub proof fn lemma_future_is_settled_when_quiet(db: WalletDatabase, asset_id: u64)
    requires
        forall|k: int|
            0 <= k < db.transfers@.len() ==> (#[trigger] db.transfers@[k]).status
                != TransferStatus::WaitingCounterparty && db.transfers@[k].status
                != TransferStatus::WaitingConfirmations,
        forall|i: int|
            0 <= i < db.allocations@.len() && (#[trigger] db.allocations@[i]).asset_id == asset_id
                ==> db.allocations@[i].settled == (db.transfers@[db.allocations@[i].transfer_idx as int].status
                != TransferStatus::Failed),
    ensures
        spec_balance(db, asset_id).1 == spec_balance(db, asset_id).0,
{
    let allocs = db.allocations@;
    assert forall|i: int| 0 <= i < allocs.len() implies counts_future(db, asset_id, #[trigger] allocs[i])
        == counts_settled(db, asset_id, allocs[i]) by {
        let op = db.txos@[allocs[i].txo_idx as int].spec_outpoint();
        if is_reserved(db.transfers@, op) {
            let k = choose|k: int|
                0 <= k < db.transfers@.len() && (#[trigger] db.transfers@[k]).kind == TransferKind::Send
                    && is_pending_status(db.transfers@[k].status) && db.transfers@[k].tx_inputs@.contains(op);
            assert(db.transfers@[k].status != TransferStatus::WaitingCounterparty);
        }
    }
    lemma_sum_same(
        allocs,
        |a: DbAllocation| counts_future(db, asset_id, a),
        |a: DbAllocation| counts_settled(db, asset_id, a),
    );
}

/// A prefix of a sum of non-negative amounts is no more than the whole.
proof fn lemma_sum_prefix_le(allocs: Seq<DbAllocation>, f: spec_fn(DbAllocation) -> bool, i: int)
    requires
        0 <= i <= allocs.len(),
    ensures
        sum_amounts(allocs.take(i), f) <= sum_amounts(allocs, f),
    decreases allocs.len() - i,
{
    if i < allocs.len() {
        lemma_sum_prefix_le(allocs, f, i + 1);
        lemma_sum_step(allocs, f, i);
    } else {
        assert(allocs.take(i) =~= allocs);
    }
}


/// Law: an issuance keeps every witness payment credited at most once.
pub proof fn lemma_issuance_keeps_credits_unique(
    pre: Wallet,
    post: Wallet,
    online: Online,
    asset_id: u64,
    amounts: Seq<u64>,
    inflation_allowance: u64,
    res: Result<(), Error>,
)
    requires
        issue_outcome(pre, post, online, asset_id, amounts, inflation_allowance, res),
        crate::consignment::witness_credits_unique(pre.db.transfers@),
    ensures
        crate::consignment::witness_credits_unique(post.db.transfers@),
{
    if res is Ok && spec_check_online(pre.online, online) is Ok {
        crate::consignment::lemma_extend_keeps_credits_unique(pre.db.transfers@, post.db.transfers@);
    }
}

} // verus!
