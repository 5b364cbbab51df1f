//! A single-signature wallet: its settings, keychains, tables, and the operations on them that
//! need no chain data beyond what the caller hands in.
use vstd::prelude::*;

use crate::db::{
    find_txo, has_row, record_new_txos, reconcile_txos, retain_pending_witness_scripts,
    spec_new_row, spec_retained_scripts, spec_sync_row, txos_indexed, is_pending_status,
    Assignment, DbAllocation, DbAsset, DbTransfer, DbTxo, IndexedTxo, RecipientTypeFull,
    TransferKind, TransferStatus,
};
use crate::endpoint::{
    add_recipient_nonce_to_all, copy_bytes, copy_endpoints, endpoints_issue, endpoints_view,
    spec_add_recipient_nonce, spec_endpoints_issue, NONCE_LEN,
};
use crate::error::Error;
use crate::keychain::{spec_address_index, KeychainState, MAX_REVEALED};
use crate::random::{random_bytes, u64_from_bytes};
use crate::types::{BitcoinNetwork, Keychain, Outpoint, RecipientId, Script, WitnessVersion};

verus! {

/// The settings a wallet is opened with.
#[derive(Debug)]
pub struct WalletData {
    pub data_dir: String,
    pub bitcoin_network: BitcoinNetwork,
    pub max_allocations_per_utxo: u32,
    pub reuse_addresses: bool,
}

impl WalletData {
    /// A copy of the settings.
    pub fn duplicate(&self) -> (res: WalletData)
        ensures
            res == *self,
    {
        WalletData {
            data_dir: self.data_dir.clone(),
            bitcoin_network: self.bitcoin_network,
            max_allocations_per_utxo: self.max_allocations_per_utxo,
            reuse_addresses: self.reuse_addresses,
        }
    }
}

/// The public key material of a single-signature wallet: the account key its scripts derive
/// from, and that key's master fingerprint.
#[derive(Debug, Clone, Copy, PartialEq, Eq, Structural)]
pub struct SinglesigKeys {
    pub account_xpub: u128,
    pub master_fingerprint: u32,
    pub bitcoin_network: BitcoinNetwork,
    pub witness_version: WitnessVersion,
}

/// The number that the bytes `s` stand for, most significant first.
pub open spec fn be_value(s: Seq<u8>) -> nat
    decreases s.len(),
{
    if s.len() == 0 {
        0
    } else {
        be_value(s.drop_last()) * 256 + s.last() as nat
    }
}

/// `256` to the power `n`.
pub open spec fn byte_power(n: nat) -> nat
    decreases n,
{
    if n == 0 {
        1
    } else {
        256 * byte_power((n - 1) as nat)
    }
}

/// A number of `n` bytes is below `256` to the power `n`.
proof fn lemma_be_value_bound(s: Seq<u8>)
    ensures
        be_value(s) < byte_power(s.len()),
    decreases s.len(),
{
    if s.len() > 0 {
        lemma_be_value_bound(s.drop_last());
    }
}

/// The keys that the key material `material` gives: the account key is the number the
/// material stands for, most significant byte first, and the master fingerprint is its low
/// 32 bits.
pub open spec fn spec_keys_from_material(
    material: Seq<u8>,
    bitcoin_network: BitcoinNetwork,
    witness_version: WitnessVersion,
) -> SinglesigKeys {
    SinglesigKeys {
        account_xpub: be_value(material) as u128,
        master_fingerprint: (be_value(material) % 0x1_0000_0000) as u32,
        bitcoin_network,
        witness_version,
    }
}

/// The keys of sixteen bytes of key material, for the given network and witness version: see
/// `spec_keys_from_material`.
pub fn keys_from_material(
    material: &Vec<u8>,
    bitcoin_network: BitcoinNetwork,
    witness_version: WitnessVersion,
) -> (res: SinglesigKeys)
    requires
        material@.len() == NONCE_LEN,
    ensures
        res == spec_keys_from_material(material@, bitcoin_network, witness_version),
        be_value(material@) <= u128::MAX,
{
    let mut xpub: u128 = 0;
    let mut k: usize = 0;
    proof {
        reveal_with_fuel(byte_power, 17);
        assert(byte_power(16) == 0x1_0000_0000_0000_0000_0000_0000_0000_0000);
    }
    while k < material.len()
        invariant
            k <= material@.len(),
            material@.len() == 16,
            xpub == be_value(material@.take(k as int)),
            byte_power(16) == 0x1_0000_0000_0000_0000_0000_0000_0000_0000,
        decreases material@.len() - k,
    {
        proof {
            let next = material@.take(k + 1);
            assert(next.drop_last() =~= material@.take(k as int));
            lemma_be_value_bound(next);
            lemma_byte_power_grows(next.len(), 16);
        }
        xpub = xpub * 256 + material[k] as u128;
        k = k + 1;
    }
    assert(material@.take(16) =~= material@);
    SinglesigKeys {
        account_xpub: xpub,
        master_fingerprint: (xpub % 0x1_0000_0000) as u32,
        bitcoin_network,
        witness_version,
    }
}

/// A power of 256 grows with its exponent.
proof fn lemma_byte_power_grows(m: nat, n: nat)
    requires
        m <= n,
    ensures
        byte_power(m) <= byte_power(n),
    decreases n,
{
    if m < n {
        lemma_byte_power_grows(m, (n - 1) as nat);
    }
}

/// New keys for the given network and witness version, from sixteen random bytes of key
/// material (see `keys_from_material`).
pub fn generate_keys(bitcoin_network: BitcoinNetwork, witness_version: WitnessVersion) -> (res:
    SinglesigKeys)
    ensures
        exists|material: Seq<u8>|
            material.len() == NONCE_LEN && res == #[trigger] spec_keys_from_material(
                material,
                bitcoin_network,
                witness_version,
            ),
        res.bitcoin_network == bitcoin_network,
        res.witness_version == witness_version,
        res.master_fingerprint == res.account_xpub as u32,
{
    let b = random_bytes();
    let keys = keys_from_material(&b, bitcoin_network, witness_version);
    proof {
        let x = keys.account_xpub;
        assert((x % 0x1_0000_0000) as u32 == x as u32) by (bit_vector);
    }
    keys
}

/// Proof that a wallet went online: operations that need the network take it back.
#[derive(Debug, Clone, Copy, PartialEq, Eq, Structural)]
pub struct Online {
    pub id: u64,
}

/// Which keychain a sync reads.
#[derive(Debug, Clone, Copy, PartialEq, Eq, Structural)]
pub enum SyncKeychain {
    Vanilla,
    Colored,
}

/// Options of a sync.
#[derive(Debug, Clone, Copy, PartialEq, Eq, Structural)]
pub struct SyncOptions {
    pub keychain: SyncKeychain,
}

/// What an invoice tells the sender.
#[derive(Debug)]
pub struct InvoiceData {
    pub recipient_id: RecipientId,
    pub asset_id: Option<u64>,
    pub assignment: Assignment,
    pub transport_endpoints: Vec<Vec<u8>>,
}

/// The result of a receive: the invoice and the transfer recorded for it.
#[derive(Debug)]
pub struct ReceiveData {
    pub invoice_data: InvoiceData,
    pub recipient_id: RecipientId,
    pub batch_transfer_idx: usize,
}

/// What a wallet's data directory holds.
#[derive(Debug)]
pub struct WalletDatabase {
    pub wallet_data: WalletData,
    pub account_xpub: u128,
    pub master_fingerprint: u32,
    pub witness_version: WitnessVersion,
    pub vanilla: KeychainState,
    pub colored: KeychainState,
    pub sessions: u32,
    pub txos: Vec<DbTxo>,
    pub transfers: Vec<DbTransfer>,
    pub pending_witness_scripts: Vec<Script>,
    pub own_txids: Vec<u64>,
    pub allocations: Vec<DbAllocation>,
    pub assets: Vec<DbAsset>,
}

/// Each transfer's index is its position.
pub open spec fn transfers_indexed(transfers: Seq<DbTransfer>) -> bool {
    forall|i: int| 0 <= i < transfers.len() ==> (#[trigger] transfers[i]).idx == i
}

impl WalletDatabase {
    /// The tables are consistent.
    pub open spec fn wf(&self) -> bool {
        &&& self.vanilla.wf()
        &&& self.colored.wf()
        &&& txos_indexed(self.txos@)
        &&& transfers_indexed(self.transfers@)
        &&& forall|a: int|
            0 <= a < self.allocations@.len() ==> (#[trigger] self.allocations@[a]).txo_idx
                < self.txos@.len() && self.allocations@[a].transfer_idx < self.transfers@.len()
        &&& forall|t: int|
            0 <= t < self.transfers@.len() ==> ((#[trigger] self.transfers@[t]).recipient_type matches Some(
                RecipientTypeFull::Blind { txo_idx },
            ) ==> txo_idx < self.txos@.len())
    }

    /// The TXO row `i` can take a new allocation: it exists, is unspent, is no pending witness
    /// payment, and no send under way spends it.
    pub open spec fn is_available(&self, i: int) -> bool {
        &&& 0 <= i < self.txos@.len()
        &&& self.txos@[i].exists
        &&& !self.txos@[i].spent
        &&& !self.txos@[i].pending_witness
        &&& !is_reserved(self.transfers@, self.txos@[i].spec_outpoint())
    }

    /// The address at `index` of `keychain`.
    pub open spec fn script_at(&self, keychain: Keychain, index: u32) -> Script {
        Script {
            account_xpub: self.account_xpub,
            keychain,
            index,
            witness_version: self.witness_version,
        }
    }

    /// The keys the database was made with.
    pub open spec fn spec_keys(&self) -> SinglesigKeys {
        SinglesigKeys {
            account_xpub: self.account_xpub,
            master_fingerprint: self.master_fingerprint,
            bitcoin_network: self.wallet_data.bitcoin_network,
            witness_version: self.witness_version,
        }
    }

    /// The database of a new wallet: nothing revealed, no rows.
    pub open spec fn is_fresh(&self, wallet_data: WalletData, keys: SinglesigKeys) -> bool {
        &&& self.wallet_data == wallet_data
        &&& self.account_xpub == keys.account_xpub
        &&& self.master_fingerprint == keys.master_fingerprint
        &&& self.witness_version == keys.witness_version
        &&& self.vanilla.revealed == 0
        &&& self.colored.revealed == 0
        &&& self.sessions == 0
        &&& self.txos@.len() == 0
        &&& self.transfers@.len() == 0
        &&& self.pending_witness_scripts@.len() == 0
        &&& self.own_txids@.len() == 0
        &&& self.allocations@.len() == 0
        &&& self.assets@.len() == 0
    }
}

/// A send under way spends `op`.
pub open spec fn is_reserved(transfers: Seq<DbTransfer>, op: Outpoint) -> bool {
    exists|k: int|
        0 <= k < transfers.len() && (#[trigger] transfers[k]).kind == TransferKind::Send
            && is_pending_status(transfers[k].status) && transfers[k].tx_inputs@.contains(op)
}

/// Whether a send under way spends `op`.
pub fn reserved(transfers: &Vec<DbTransfer>, op: Outpoint) -> (res: bool)
    ensures
        res == is_reserved(transfers@, op),
{
    let mut k: usize = 0;
    while k < transfers.len()
        invariant
            k <= transfers@.len(),
            forall|j: int|
                0 <= j < k ==> !((#[trigger] transfers@[j]).kind == TransferKind::Send
                    && is_pending_status(transfers@[j].status) && transfers@[j].tx_inputs@.contains(op)),
        decreases transfers@.len() - k,
    {
        let t = &transfers[k];
        let is_send = match t.kind {
            TransferKind::Send => true,
            _ => false,
        };
        let pending = match t.status {
            TransferStatus::WaitingCounterparty => true,
            TransferStatus::WaitingConfirmations => true,
            _ => false,
        };
        if is_send && pending {
            let mut m: usize = 0;
            while m < t.tx_inputs.len()
                invariant
                    m <= t.tx_inputs@.len(),
                    k < transfers@.len(),
                    *t == transfers@[k as int],
                    t.kind == TransferKind::Send,
                    is_pending_status(t.status),
                    forall|b: int| 0 <= b < m ==> t.tx_inputs@[b] != op,
                decreases t.tx_inputs@.len() - m,
            {
                if t.tx_inputs[m] == op {
                    assert(t.tx_inputs@[m as int] == op);
                    assert(transfers@[k as int].tx_inputs@.contains(op));
                    assert(transfers@[k as int].kind == TransferKind::Send);
                    assert(is_pending_status(transfers@[k as int].status));
                    return true;
                }
                m = m + 1;
            }
            assert(!t.tx_inputs@.contains(op));
        }
        k = k + 1;
    }
    false
}

/// The first TXO row that can take a new allocation.
pub open spec fn is_first_available(db: WalletDatabase, i: int) -> bool {
    &&& db.is_available(i)
    &&& forall|j: int| 0 <= j < i ==> !db.is_available(j)
}

/// The online id of the `session`-th time a wallet with this fingerprint goes online.
pub open spec fn spec_online_id(fingerprint: u32, session: u32) -> int {
    (fingerprint as u64) * 0x1_0000_0000 + session as u64
}

/// A single-signature wallet.
#[derive(Debug)]
pub struct Wallet {
    pub db: WalletDatabase,
    pub online: Option<Online>,
}

/// What a check of an `Online` object against a wallet's own gives.
pub open spec fn spec_check_online(own: Option<Online>, online: Online) -> Result<(), Error> {
    match own {
        None => Err(Error::Offline),
        Some(o) => if o.id == online.id {
            Ok(())
        } else {
            Err(Error::CannotChangeOnline)
        },
    }
}

/// The transfer row that a receive records.
pub open spec fn is_receive_row(
    t: DbTransfer,
    idx: int,
    kind: TransferKind,
    recipient_id: RecipientId,
    asset_id: Option<u64>,
    assignment: Assignment,
    expiration_timestamp: Option<u64>,
    endpoints: Seq<Seq<u8>>,
    min_confirmations: u8,
) -> bool {
    &&& t.idx == idx
    &&& t.kind == kind
    &&& t.status == TransferStatus::WaitingCounterparty
    &&& t.recipient_id == Some(recipient_id)
    &&& t.asset_id == asset_id
    &&& t.assignment == assignment
    &&& t.expiration_timestamp == expiration_timestamp
    &&& t.min_confirmations == min_confirmations
    &&& endpoints_view(t.transport_endpoints@) == endpoints
    &&& t.txid is None
    &&& t.amount == 0
    &&& t.proxy_nonce@.len() == 0
    &&& t.tx_inputs@.len() == 0
    &&& t.tx_outputs@.len() == 0
}

/// The outcome of a witness receive with the given nonce: the endpoints are checked, the next
/// colored address (the pinned one under reuse) is the recipient, the invoice endpoints carry
/// the nonce under reuse, and a transfer waiting for the counterparty is recorded, whose
/// script is watched for payments.
pub open spec fn witness_receive_outcome(
    pre: Wallet,
    post: Wallet,
    asset_id: Option<u64>,
    assignment: Assignment,
    expiration_timestamp: Option<u64>,
    endpoints: Seq<Seq<u8>>,
    min_confirmations: u8,
    nonce: Seq<u8>,
    res: Result<ReceiveData, Error>,
) -> bool {
    let reuse = pre.db.wallet_data.reuse_addresses;
    match spec_endpoints_issue(endpoints, reuse) {
        Some(issue) => res == Err::<ReceiveData, Error>(
            Error::InvalidTransportEndpoints { details: issue },
        ) && post == pre,
        None => match spec_address_index(pre.db.colored.revealed, reuse) {
            None => res == Err::<ReceiveData, Error>(Error::KeychainExhausted) && post == pre,
            Some((index, revealed)) => {
                let script = pre.db.script_at(Keychain::Colored, index);
                let recipient_id = RecipientId::Witness(script);
                let stored_nonce = if reuse {
                    nonce
                } else {
                    Seq::<u8>::empty()
                };
                let invoice_endpoints = if reuse {
                    endpoints.map_values(|e: Seq<u8>| spec_add_recipient_nonce(e, nonce))
                } else {
                    endpoints
                };
                let idx = pre.db.transfers@.len();
                &&& res matches Ok(data) && {
                    &&& data.recipient_id == recipient_id
                    &&& data.batch_transfer_idx == idx
                    &&& data.invoice_data.recipient_id == recipient_id
                    &&& data.invoice_data.asset_id == asset_id
                    &&& data.invoice_data.assignment == assignment
                    &&& endpoints_view(data.invoice_data.transport_endpoints@) == invoice_endpoints
                }
                &&& post.online == pre.online
                &&& post.db == WalletDatabase {
                    colored: KeychainState { revealed },
                    transfers: post.db.transfers,
                    pending_witness_scripts: post.db.pending_witness_scripts,
                    ..pre.db
                }
                &&& post.db.transfers@.len() == idx + 1
                &&& post.db.transfers@.take(idx as int) == pre.db.transfers@
                &&& is_receive_row(
                    post.db.transfers@[idx as int],
                    idx as int,
                    TransferKind::ReceiveWitness,
                    recipient_id,
                    asset_id,
                    assignment,
                    expiration_timestamp,
                    endpoints,
                    min_confirmations,
                )
                &&& post.db.transfers@[idx as int].recipient_type matches Some(
                    RecipientTypeFull::Witness { vout, recipient_nonce },
                ) && vout is None && recipient_nonce@ == stored_nonce
                &&& post.db.pending_witness_scripts@ == if pre.db.pending_witness_scripts@.contains(
                    script,
                ) {
                    pre.db.pending_witness_scripts@
                } else {
                    pre.db.pending_witness_scripts@.push(script)
                }
            },
        },
    }
}

/// The outcome of a blind receive to the given seal: the endpoints are checked, the seal is
/// put on the first TXO row that can take an allocation, and a transfer waiting for the
/// counterparty is recorded.
pub open spec fn blind_receive_outcome(
    pre: Wallet,
    post: Wallet,
    asset_id: Option<u64>,
    assignment: Assignment,
    expiration_timestamp: Option<u64>,
    endpoints: Seq<Seq<u8>>,
    min_confirmations: u8,
    seal: u64,
    res: Result<ReceiveData, Error>,
) -> bool {
    match spec_endpoints_issue(endpoints, false) {
        Some(issue) => res == Err::<ReceiveData, Error>(
            Error::InvalidTransportEndpoints { details: issue },
        ) && post == pre,
        None => if forall|i: int| !pre.db.is_available(i) {
            res == Err::<ReceiveData, Error>(Error::InsufficientAllocationSlots) && post == pre
        } else {
            let txo_idx = choose|i: int| is_first_available(pre.db, i);
            let recipient_id = RecipientId::Blind(seal);
            let idx = pre.db.transfers@.len();
            &&& res matches Ok(data) && {
                &&& data.recipient_id == recipient_id
                &&& data.batch_transfer_idx == idx
                &&& data.invoice_data.recipient_id == recipient_id
                &&& data.invoice_data.asset_id == asset_id
                &&& data.invoice_data.assignment == assignment
                &&& endpoints_view(data.invoice_data.transport_endpoints@) == endpoints
            }
            &&& post.online == pre.online
            &&& post.db == WalletDatabase { transfers: post.db.transfers, ..pre.db }
            &&& post.db.transfers@.len() == idx + 1
            &&& post.db.transfers@.take(idx as int) == pre.db.transfers@
            &&& is_receive_row(
                post.db.transfers@[idx as int],
                idx as int,
                TransferKind::ReceiveBlind,
                recipient_id,
                asset_id,
                assignment,
                expiration_timestamp,
                endpoints,
                min_confirmations,
            )
            &&& post.db.transfers@[idx as int].recipient_type matches Some(
                RecipientTypeFull::Blind { txo_idx: t },
            ) && t == txo_idx
        },
    }
}

/// The outcome of a sync of `options.keychain` with the unspent outputs `observed` that the
/// indexer shows for the colored keychain: rows the indexer shows exist, rows it no longer
/// shows are reconciled (see `spec_sync_row`), rows are added for outputs seen for the first
/// time (flagged as pending witness payments where they pay a watched script from a
/// transaction the wallet did not make), and scripts that no witness receive under way pays
/// any more stop being watched. A sync of the vanilla keychain, whose outputs the indexer
/// tracks alone, changes no table.
pub open spec fn sync_outcome(
    pre_wallet: Wallet,
    post_wallet: Wallet,
    online: Online,
    options: SyncOptions,
    observed: Seq<IndexedTxo>,
    res: Result<(), Error>,
) -> bool {
    let pre = pre_wallet.db;
    let post = post_wallet.db;
    &&& res == spec_check_online(pre_wallet.online, online)
    &&& res is Err || options.keychain == SyncKeychain::Vanilla ==> post_wallet == pre_wallet
    &&& res is Ok && options.keychain == SyncKeychain::Colored ==> {
        &&& post_wallet.online == pre_wallet.online
        &&& post == WalletDatabase {
            txos: post.txos,
            pending_witness_scripts: post.pending_witness_scripts,
            ..pre
        }
        &&& post.pending_witness_scripts@ == spec_retained_scripts(
            pre.pending_witness_scripts@,
            pre.transfers@,
        )
        &&& post.txos@.len() >= pre.txos@.len()
        &&& forall|i: int|
            0 <= i < pre.txos@.len() ==> post.txos@[i] == spec_sync_row(pre.txos@[i], observed)
        &&& forall|k: int|
            0 <= k < observed.len() ==> has_row(post.txos@, (#[trigger] observed[k]).outpoint)
        &&& forall|i: int|
            pre.txos@.len() <= i < post.txos@.len() ==> {
                &&& !has_row(pre.txos@, (#[trigger] post.txos@[i]).spec_outpoint())
                &&& exists|k: int|
                    0 <= k < observed.len() && post.txos@[i] == spec_new_row(
                        i,
                        pre.pending_witness_scripts@,
                        pre.own_txids@,
                        #[trigger] observed[k],
                    )
            }
        &&& forall|i: int, j: int|
            pre.txos@.len() <= i < j < post.txos@.len() ==> (#[trigger] post.txos@[i]).spec_outpoint()
                != (#[trigger] post.txos@[j]).spec_outpoint()
    }
}

fn contains_script(scripts: &Vec<Script>, s: Script) -> (res: bool)
    ensures
        res == scripts@.contains(s),
{
    let mut k: usize = 0;
    while k < scripts.len()
        invariant
            k <= scripts.len(),
            forall|j: int| 0 <= j < k ==> scripts@[j] != s,
        decreases scripts.len() - k,
    {
        if scripts[k] == s {
            assert(scripts@[k as int] == s);
            return true;
        }
        k = k + 1;
    }
    false
}

impl Wallet {
    /// The wallet's tables are consistent.
    pub open spec fn wf(&self) -> bool {
        self.db.wf()
    }

    /// A new wallet with an empty data directory. The keys must be of the wallet's network.
    pub fn new(wallet_data: WalletData, keys: SinglesigKeys) -> (res: Result<Wallet, Error>)
        ensures
            keys.bitcoin_network == wallet_data.bitcoin_network <==> res is Ok,
            match res {
                Ok(w) => w.wf() && w.db.is_fresh(wallet_data, keys) && w.online is None,
                Err(e) => e == Error::InvalidBitcoinKeys,
            },
    {
        if keys.bitcoin_network != wallet_data.bitcoin_network {
            return Err(Error::InvalidBitcoinKeys);
        }
        let db = WalletDatabase {
            wallet_data,
            account_xpub: keys.account_xpub,
            master_fingerprint: keys.master_fingerprint,
            witness_version: keys.witness_version,
            vanilla: KeychainState::new(),
            colored: KeychainState::new(),
            sessions: 0,
            txos: Vec::new(),
            transfers: Vec::new(),
            pending_witness_scripts: Vec::new(),
            own_txids: Vec::new(),
            allocations: Vec::new(),
            assets: Vec::new(),
        };
        Ok(Wallet { db, online: None })
    }

    /// Reopens the data directory `db` with (possibly changed) settings: everything stored is
    /// kept but the settings, which are replaced. The keys must be of the wallet's network and
    /// be those the directory was made with.
    pub fn open(wallet_data: WalletData, keys: SinglesigKeys, db: WalletDatabase) -> (res: Result<
        Wallet,
        Error,
    >)
        requires
            db.wf(),
        ensures
            match res {
                Ok(w) => {
                    &&& keys.bitcoin_network == wallet_data.bitcoin_network
                    &&& keys.account_xpub == db.account_xpub
                    &&& keys.master_fingerprint == db.master_fingerprint
                    &&& keys.witness_version == db.witness_version
                    &&& w.wf()
                    &&& w.db == (WalletDatabase { wallet_data, ..db })
                    &&& w.online is None
                },
                Err(e) => if keys.bitcoin_network != wallet_data.bitcoin_network {
                    e == Error::InvalidBitcoinKeys
                } else {
                    e == Error::WalletDirAlreadyInUse && (keys.account_xpub != db.account_xpub
                        || keys.master_fingerprint != db.master_fingerprint || keys.witness_version
                        != db.witness_version)
                },
            },
    {
        if keys.bitcoin_network != wallet_data.bitcoin_network {
            return Err(Error::InvalidBitcoinKeys);
        }
        if keys.account_xpub != db.account_xpub || keys.master_fingerprint != db.master_fingerprint
            || keys.witness_version != db.witness_version {
            return Err(Error::WalletDirAlreadyInUse);
        }
        let mut db = db;
        db.wallet_data = wallet_data;
        Ok(Wallet { db, online: None })
    }

    /// Loads the wallet stored in `db` with the settings stored there, given the master
    /// fingerprint of its keys.
    pub fn load(db: WalletDatabase, master_fingerprint: u32) -> (res: Result<Wallet, Error>)
        requires
            db.wf(),
        ensures
            master_fingerprint == db.master_fingerprint <==> res is Ok,
            match res {
                Ok(w) => w.wf() && w.db == db && w.online is None,
                Err(e) => e == Error::WalletDirAlreadyInUse,
            },
    {
        if master_fingerprint != db.master_fingerprint {
            return Err(Error::WalletDirAlreadyInUse);
        }
        Ok(Wallet { db, online: None })
    }

    /// Closes the wallet, handing back its data directory.
    pub fn close(self) -> (res: WalletDatabase)
        ensures
            res == self.db,
    {
        self.db
    }

    /// The settings the wallet was opened with.
    pub fn get_wallet_data(&self) -> (res: WalletData)
        ensures
            res == self.db.wallet_data,
    {
        self.db.wallet_data.duplicate()
    }

    /// The wallet's keys.
    pub fn get_keys(&self) -> (res: SinglesigKeys)
        ensures
            res == self.db.spec_keys(),
    {
        SinglesigKeys {
            account_xpub: self.db.account_xpub,
            master_fingerprint: self.db.master_fingerprint,
            bitcoin_network: self.db.wallet_data.bitcoin_network,
            witness_version: self.db.witness_version,
        }
    }

    /// The address at `index` of `keychain`.
    pub fn script_at(&self, keychain: Keychain, index: u32) -> (res: Script)
        ensures
            res == self.db.script_at(keychain, index),
    {
        Script {
            account_xpub: self.db.account_xpub,
            keychain,
            index,
            witness_version: self.db.witness_version,
        }
    }

    /// A vanilla address to receive bitcoin: under address reuse the pinned one, else the
    /// next one.
    pub fn get_address(&mut self) -> (res: Result<Script, Error>)
        requires
            old(self).wf(),
        ensures
            crate::world::keeps_pins(*old(self), *final(self)),
            final(self).wf(),
            match spec_address_index(old(self).db.vanilla.revealed, old(self).db.wallet_data.reuse_addresses) {
                Some((i, n)) => {
                    &&& res == Ok::<Script, Error>(old(self).db.script_at(Keychain::Vanilla, i))
                    &&& final(self).db == (WalletDatabase { vanilla: KeychainState { revealed: n }, ..old(self).db })
                    &&& final(self).online == old(self).online
                },
                None => res == Err::<Script, Error>(Error::KeychainExhausted) && *final(self)
                    == *old(self),
            },
    {
        let reuse = self.db.wallet_data.reuse_addresses;
        let index = self.db.vanilla.address_index(reuse)?;
        Ok(self.script_at(Keychain::Vanilla, index))
    }

    /// A colored address, to receive the outputs that hold assets: under address reuse the
    /// pinned one, else the next one.
    pub fn get_new_address(&mut self) -> (res: Result<Script, Error>)
        requires
            old(self).wf(),
        ensures
            crate::world::keeps_pins(*old(self), *final(self)),
            final(self).wf(),
            match spec_address_index(old(self).db.colored.revealed, old(self).db.wallet_data.reuse_addresses) {
                Some((i, n)) => {
                    &&& res == Ok::<Script, Error>(old(self).db.script_at(Keychain::Colored, i))
                    &&& final(self).db == (WalletDatabase { colored: KeychainState { revealed: n }, ..old(self).db })
                    &&& final(self).online == old(self).online
                },
                None => res == Err::<Script, Error>(Error::KeychainExhausted) && *final(self)
                    == *old(self),
            },
    {
        let reuse = self.db.wallet_data.reuse_addresses;
        let index = self.db.colored.address_index(reuse)?;
        Ok(self.script_at(Keychain::Colored, index))
    }

    /// Moves the vanilla pin to the next address and returns it. Needs address reuse.
    pub fn rotate_vanilla_address(&mut self) -> (res: Result<Script, Error>)
        requires
            old(self).wf(),
        ensures
            crate::world::keeps_pin(*old(self), *final(self), Keychain::Colored),
            final(self).wf(),
            if !old(self).db.wallet_data.reuse_addresses {
                res == Err::<Script, Error>(Error::AddressReuseDisabled) && *final(self) == *old(self)
            } else if old(self).db.vanilla.revealed == MAX_REVEALED {
                res == Err::<Script, Error>(Error::KeychainExhausted) && *final(self) == *old(self)
            } else {
                &&& res == Ok::<Script, Error>(old(self).db.script_at(Keychain::Vanilla, old(self).db.vanilla.revealed))
                &&& final(self).db == (WalletDatabase {
                    vanilla: KeychainState { revealed: (old(self).db.vanilla.revealed + 1) as u32 },
                    ..old(self).db
                })
                &&& final(self).online == old(self).online
            },
    {
        if !self.db.wallet_data.reuse_addresses {
            return Err(Error::AddressReuseDisabled);
        }
        let index = self.db.vanilla.reveal_next()?;
        Ok(self.script_at(Keychain::Vanilla, index))
    }

    /// Moves the colored pin to the next address and returns it. Needs address reuse.
    pub fn rotate_colored_address(&mut self) -> (res: Result<Script, Error>)
        requires
            old(self).wf(),
        ensures
            crate::world::keeps_pin(*old(self), *final(self), Keychain::Vanilla),
            final(self).wf(),
            if !old(self).db.wallet_data.reuse_addresses {
                res == Err::<Script, Error>(Error::AddressReuseDisabled) && *final(self) == *old(self)
            } else if old(self).db.colored.revealed == MAX_REVEALED {
                res == Err::<Script, Error>(Error::KeychainExhausted) && *final(self) == *old(self)
            } else {
                &&& res == Ok::<Script, Error>(old(self).db.script_at(Keychain::Colored, old(self).db.colored.revealed))
                &&& final(self).db == (WalletDatabase {
                    colored: KeychainState { revealed: (old(self).db.colored.revealed + 1) as u32 },
                    ..old(self).db
                })
                &&& final(self).online == old(self).online
            },
    {
        if !self.db.wallet_data.reuse_addresses {
            return Err(Error::AddressReuseDisabled);
        }
        let index = self.db.colored.reveal_next()?;
        Ok(self.script_at(Keychain::Colored, index))
    }

    /// Moves the vanilla pin as a multisig hub hands out indices: `hub_indices` are the hub's
    /// answers to successive bump requests, and the pin becomes the first answer that is not
    /// below the indices revealed here (see `crate::keychain::rotate_with_hub`). Returns the new
    /// pinned address and the number of bumps it took; `None` where every answer is below the
    /// local pin. Needs address reuse.
    pub fn rotate_vanilla_address_with_hub(&mut self, hub_indices: &Vec<u32>) -> (res: Result<
        Option<(Script, usize)>,
        Error,
    >)
        requires
            old(self).wf(),
        ensures
            final(self).wf(),
            crate::world::keeps_pin(*old(self), *final(self), Keychain::Colored),
            !old(self).db.wallet_data.reuse_addresses ==> res == Err::<Option<(Script, usize)>, Error>(
                Error::AddressReuseDisabled,
            ) && *final(self) == *old(self),
            old(self).db.wallet_data.reuse_addresses ==> match res {
                Ok(Some((script, bumps))) => {
                    let index = hub_indices@[bumps - 1];
                    &&& 1 <= bumps <= hub_indices@.len()
                    &&& crate::keychain::answers_below(hub_indices@, bumps - 1, old(self).db.vanilla.revealed)
                    &&& old(self).db.vanilla.revealed <= index < MAX_REVEALED
                    &&& script == old(self).db.script_at(Keychain::Vanilla, index)
                    &&& final(self).online == old(self).online
                    &&& final(self).db == (WalletDatabase {
                        vanilla: KeychainState { revealed: (index + 1) as u32 },
                        ..old(self).db
                    })
                },
                Ok(None) => crate::keychain::answers_below(
                    hub_indices@,
                    hub_indices@.len() as int,
                    old(self).db.vanilla.revealed,
                ) && *final(self) == *old(self),
                Err(e) => e == Error::KeychainExhausted && *final(self) == *old(self) && exists|n: int|
                    0 <= n < hub_indices@.len() && crate::keychain::answers_below(
                        hub_indices@,
                        n,
                        old(self).db.vanilla.revealed,
                    ) && hub_indices@[n] >= MAX_REVEALED,
            },
    {
        if !self.db.wallet_data.reuse_addresses {
            return Err(Error::AddressReuseDisabled);
        }
        let mut vanilla = self.db.vanilla;
        match crate::keychain::rotate_with_hub(&mut vanilla, hub_indices)? {
            Some((index, bumps)) => {
                self.db.vanilla = vanilla;
                Ok(Some((self.script_at(Keychain::Vanilla, index), bumps)))
            },
            None => Ok(None),
        }
    }

    /// Goes online: a new session with its own id.
    pub fn go_online(&mut self) -> (res: Online)
        requires
            old(self).wf(),
        ensures
            crate::world::keeps_pins(*old(self), *final(self)),
            final(self).wf(),
            res.id == spec_online_id(old(self).db.master_fingerprint, old(self).db.sessions),
            final(self).online == Some(res),
            final(self).db == (WalletDatabase {
                sessions: final(self).db.sessions,
                ..old(self).db
            }),
    {
        let fp = self.db.master_fingerprint;
        let session = self.db.sessions;
        let id = ((fp as u64) << 32u64) | (session as u64);
        assert(((fp as u64) << 32u64) | (session as u64) == (fp as u64) * 0x1_0000_0000u64 + (
        session as u64)) by (bit_vector);
        self.db.sessions = self.db.sessions.wrapping_add(1);
        let online = Online { id };
        self.online = Some(online);
        online
    }

    /// Checks that `online` is this wallet's current session.
    pub fn check_online(&self, online: Online) -> (res: Result<(), Error>)
        ensures
            res == spec_check_online(self.online, online),
    {
        match self.online {
            None => Err(Error::Offline),
            Some(o) => if o.id == online.id {
                Ok(())
            } else {
                Err(Error::CannotChangeOnline)
            },
        }
    }

    /// Syncs the colored keychain with the unspent outputs `observed` that the indexer shows
    /// for it: see `sync_outcome`.
    pub fn sync(&mut self, online: Online, options: SyncOptions, observed: &Vec<IndexedTxo>) -> (res:
        Result<(), Error>)
        requires
            old(self).wf(),
        ensures
            crate::world::keeps_pins(*old(self), *final(self)),
            final(self).wf(),
            sync_outcome(*old(self), *final(self), online, options, observed@, res),
    {
        self.check_online(online)?;
        match options.keychain {
            SyncKeychain::Vanilla => {
                return Ok(());
            },
            SyncKeychain::Colored => {},
        }
        let ghost pre = self.db.txos@;
        reconcile_txos(&mut self.db.txos, observed);
        let ghost mid = self.db.txos@;
        assert(txos_indexed(mid)) by {
            assert forall|i: int| 0 <= i < mid.len() implies (#[trigger] mid[i]).idx == i by {
                assert(mid[i] == spec_sync_row(pre[i], observed@));
            }
        }
        assert forall|o| has_row(mid, o) == has_row(pre, o) by {
            if has_row(mid, o) {
                let i = choose|i: int| 0 <= i < mid.len() && (#[trigger] mid[i]).spec_outpoint() == o;
                assert(mid[i] == spec_sync_row(pre[i], observed@));
            }
            if has_row(pre, o) {
                let i = choose|i: int| 0 <= i < pre.len() && (#[trigger] pre[i]).spec_outpoint() == o;
                assert(mid[i] == spec_sync_row(pre[i], observed@));
            }
        }
        record_new_txos(
            &mut self.db.txos,
            observed,
            &self.db.pending_witness_scripts,
            &self.db.own_txids,
        );
        let ghost post = self.db.txos@;
        assert forall|i: int| 0 <= i < pre.len() implies post[i] == spec_sync_row(
            pre[i],
            observed@,
        ) by {
            assert(post.subrange(0, mid.len() as int)[i] == mid[i]);
        }
        retain_pending_witness_scripts(&mut self.db.pending_witness_scripts, &self.db.transfers);
        Ok(())
    }

    /// A witness receive whose nonce (used under address reuse only) is `nonce`: see
    /// `witness_receive_outcome`.
    pub fn witness_receive_with_nonce(
        &mut self,
        asset_id: Option<u64>,
        assignment: Assignment,
        expiration_timestamp: Option<u64>,
        transport_endpoints: Vec<Vec<u8>>,
        min_confirmations: u8,
        nonce: &[u8],
    ) -> (res: Result<ReceiveData, Error>)
        requires
            old(self).wf(),
            nonce@.len() == NONCE_LEN,
        ensures
            crate::world::keeps_pins(*old(self), *final(self)),
            final(self).wf(),
            witness_receive_outcome(
                *old(self),
                *final(self),
                asset_id,
                assignment,
                expiration_timestamp,
                endpoints_view(transport_endpoints@),
                min_confirmations,
                nonce@,
                res,
            ),
    {
        let reuse = self.db.wallet_data.reuse_addresses;
        match endpoints_issue(&transport_endpoints, reuse) {
            Some(issue) => {
                return Err(Error::InvalidTransportEndpoints { details: issue });
            },
            None => {},
        }
        let index = self.db.colored.address_index(reuse)?;
        let script = self.script_at(Keychain::Colored, index);
        let recipient_id = RecipientId::Witness(script);
        let invoice_endpoints = if reuse {
            add_recipient_nonce_to_all(&transport_endpoints, nonce)
        } else {
            copy_endpoints(&transport_endpoints)
        };
        let stored_nonce = if reuse {
            copy_bytes(nonce)
        } else {
            Vec::new()
        };
        let idx = self.db.transfers.len();
        let ghost pre_transfers = self.db.transfers@;
        self.db.transfers.push(
            DbTransfer {
                idx,
                kind: TransferKind::ReceiveWitness,
                status: TransferStatus::WaitingCounterparty,
                recipient_id: Some(recipient_id),
                recipient_type: Some(
                    RecipientTypeFull::Witness { vout: None, recipient_nonce: stored_nonce },
                ),
                asset_id,
                assignment,
                expiration_timestamp,
                min_confirmations,
                transport_endpoints,
                txid: None,
                amount: 0,
                proxy_nonce: Vec::new(),
                tx_inputs: Vec::new(),
                tx_outputs: Vec::new(),
            },
        );
        assert(self.db.transfers@.take(idx as int) =~= pre_transfers);
        if !contains_script(&self.db.pending_witness_scripts, script) {
            self.db.pending_witness_scripts.push(script);
        }
        let data = ReceiveData {
            invoice_data: InvoiceData {
                recipient_id,
                asset_id,
                assignment,
                transport_endpoints: invoice_endpoints,
            },
            recipient_id,
            batch_transfer_idx: idx,
        };
        Ok(data)
    }

    /// A witness receive: an invoice paid with a witness output to the wallet's colored
    /// address, whose endpoints carry a new random nonce under address reuse. See
    /// `witness_receive_outcome`.
    pub fn witness_receive(
        &mut self,
        asset_id: Option<u64>,
        assignment: Assignment,
        expiration_timestamp: Option<u64>,
        transport_endpoints: Vec<Vec<u8>>,
        min_confirmations: u8,
    ) -> (res: Result<ReceiveData, Error>)
        requires
            old(self).wf(),
        ensures
            crate::world::keeps_pins(*old(self), *final(self)),
            final(self).wf(),
            exists|nonce: Seq<u8>|
                nonce.len() == NONCE_LEN && #[trigger] witness_receive_outcome(
                    *old(self),
                    *final(self),
                    asset_id,
                    assignment,
                    expiration_timestamp,
                    endpoints_view(transport_endpoints@),
                    min_confirmations,
                    nonce,
                    res,
                ),
    {
        let ghost eps = endpoints_view(transport_endpoints@);
        let nonce = random_bytes();
        let res = self.witness_receive_with_nonce(
            asset_id,
            assignment,
            expiration_timestamp,
            transport_endpoints,
            min_confirmations,
            nonce.as_slice(),
        );
        assert(witness_receive_outcome(
            *old(self),
            *self,
            asset_id,
            assignment,
            expiration_timestamp,
            eps,
            min_confirmations,
            nonce@,
            res,
        ));
        res
    }

    /// A blind receive to the blinded seal `seal`: see `blind_receive_outcome`.
    pub fn blind_receive_with_seal(
        &mut self,
        asset_id: Option<u64>,
        assignment: Assignment,
        expiration_timestamp: Option<u64>,
        transport_endpoints: Vec<Vec<u8>>,
        min_confirmations: u8,
        seal: u64,
    ) -> (res: Result<ReceiveData, Error>)
        requires
            old(self).wf(),
        ensures
            crate::world::keeps_pins(*old(self), *final(self)),
            final(self).wf(),
            blind_receive_outcome(
                *old(self),
                *final(self),
                asset_id,
                assignment,
                expiration_timestamp,
                endpoints_view(transport_endpoints@),
                min_confirmations,
                seal,
                res,
            ),
    {
        match endpoints_issue(&transport_endpoints, false) {
            Some(issue) => {
                return Err(Error::InvalidTransportEndpoints { details: issue });
            },
            None => {},
        }
        let txo_idx = match self.first_available_txo() {
            Some(i) => i,
            None => {
                return Err(Error::InsufficientAllocationSlots);
            },
        };
        let recipient_id = RecipientId::Blind(seal);
        let invoice_endpoints = copy_endpoints(&transport_endpoints);
        let idx = self.db.transfers.len();
        let ghost pre_transfers = self.db.transfers@;
        self.db.transfers.push(
            DbTransfer {
                idx,
                kind: TransferKind::ReceiveBlind,
                status: TransferStatus::WaitingCounterparty,
                recipient_id: Some(recipient_id),
                recipient_type: Some(RecipientTypeFull::Blind { txo_idx }),
                asset_id,
                assignment,
                expiration_timestamp,
                min_confirmations,
                transport_endpoints,
                txid: None,
                amount: 0,
                proxy_nonce: Vec::new(),
                tx_inputs: Vec::new(),
                tx_outputs: Vec::new(),
            },
        );
        assert(self.db.transfers@.take(idx as int) =~= pre_transfers);
        Ok(
            ReceiveData {
                invoice_data: InvoiceData {
                    recipient_id,
                    asset_id,
                    assignment,
                    transport_endpoints: invoice_endpoints,
                },
                recipient_id,
                batch_transfer_idx: idx,
            },
        )
    }

    /// A blind receive to a new random blinded seal: see `blind_receive_outcome`.
    pub fn blind_receive(
        &mut self,
        asset_id: Option<u64>,
        assignment: Assignment,
        expiration_timestamp: Option<u64>,
        transport_endpoints: Vec<Vec<u8>>,
        min_confirmations: u8,
    ) -> (res: Result<ReceiveData, Error>)
        requires
            old(self).wf(),
        ensures
            crate::world::keeps_pins(*old(self), *final(self)),
            final(self).wf(),
            exists|seal: u64|
                #[trigger] blind_receive_outcome(
                    *old(self),
                    *final(self),
                    asset_id,
                    assignment,
                    expiration_timestamp,
                    endpoints_view(transport_endpoints@),
                    min_confirmations,
                    seal,
                    res,
                ),
    {
        let ghost eps = endpoints_view(transport_endpoints@);
        let b = random_bytes();
        let seal = u64_from_bytes(&b);
        let res = self.blind_receive_with_seal(
            asset_id,
            assignment,
            expiration_timestamp,
            transport_endpoints,
            min_confirmations,
            seal,
        );
        assert(blind_receive_outcome(
            *old(self),
            *self,
            asset_id,
            assignment,
            expiration_timestamp,
            eps,
            min_confirmations,
            seal,
            res,
        ));
        res
    }

    /// Fails the transfer `batch_transfer_idx` if it still waits for the counterparty:
    /// `Ok(true)` when it is failed now, `Ok(false)` when it had failed before.
    pub fn fail_transfers(&mut self, online: Online, batch_transfer_idx: usize) -> (res: Result<
        bool,
        Error,
    >)
        requires
            old(self).wf(),
        ensures
            crate::world::keeps_pins(*old(self), *final(self)),
            final(self).wf(),
            crate::consignment::witness_credits_unique(old(self).db.transfers@)
                ==> crate::consignment::witness_credits_unique(final(self).db.transfers@),
            final(self).online == old(self).online,
            match spec_check_online(old(self).online, online) {
                Err(e) => res == Err::<bool, Error>(e) && *final(self) == *old(self),
                Ok(_) => if batch_transfer_idx >= old(self).db.transfers@.len() {
                    res == Err::<bool, Error>(Error::UnknownTransfer { idx: batch_transfer_idx })
                        && *final(self) == *old(self)
                } else {
                    let t = old(self).db.transfers@[batch_transfer_idx as int];
                    match t.status {
                        TransferStatus::WaitingCounterparty => {
                            &&& res == Ok::<bool, Error>(true)
                            &&& final(self).db == (WalletDatabase {
                                transfers: final(self).db.transfers,
                                ..old(self).db
                            })
                            &&& final(self).db.transfers@ == old(self).db.transfers@.update(
                                batch_transfer_idx as int,
                                DbTransfer { status: TransferStatus::Failed, ..t },
                            )
                        },
                        TransferStatus::Failed => res == Ok::<bool, Error>(false) && *final(self)
                            == *old(self),
                        _ => res == Err::<bool, Error>(
                            Error::CannotFailTransfer { idx: batch_transfer_idx },
                        ) && *final(self) == *old(self),
                    }
                },
            },
    {
        self.check_online(online)?;
        if batch_transfer_idx >= self.db.transfers.len() {
            return Err(Error::UnknownTransfer { idx: batch_transfer_idx });
        }
        match self.db.transfers[batch_transfer_idx].status {
            TransferStatus::WaitingCounterparty => {},
            TransferStatus::Failed => {
                return Ok(false);
            },
            _ => {
                return Err(Error::CannotFailTransfer { idx: batch_transfer_idx });
            },
        }
        let ghost pre = self.db.transfers@;
        let mut t = self.db.transfers.remove(batch_transfer_idx);
        t.status = TransferStatus::Failed;
        self.db.transfers.insert(batch_transfer_idx, t);
        assert(self.db.transfers@ =~= pre.update(batch_transfer_idx as int, t));
        proof {
            if crate::consignment::witness_credits_unique(pre) {
                crate::consignment::lemma_update_keeps_credits_unique(pre, batch_transfer_idx as int, t);
            }
        }
        Ok(true)
    }

    /// The first TXO row that can take a new allocation, if any.
    pub fn first_available_txo(&self) -> (res: Option<usize>)
        ensures
            match res {
                Some(i) => is_first_available(self.db, i as int),
                None => forall|i: int| !self.db.is_available(i),
            },
    {
        let mut i: usize = 0;
        while i < self.db.txos.len()
            invariant
                i <= self.db.txos@.len(),
                forall|j: int| 0 <= j < i ==> !self.db.is_available(j),
            decreases self.db.txos@.len() - i,
        {
            let t = self.db.txos[i];
            if t.exists && !t.spent && !t.pending_witness && !reserved(&self.db.transfers, t.outpoint()) {
                return Some(i);
            }
            i = i + 1;
        }
        None
    }

    /// The row of the TXO table for `outpoint`, if any.
    pub fn get_txo(&self, outpoint: crate::types::Outpoint) -> (res: Option<DbTxo>)
        ensures
            match res {
                Some(t) => t.spec_outpoint() == outpoint && exists|i: int|
                    0 <= i < self.db.txos@.len() && self.db.txos@[i] == t,
                None => !has_row(self.db.txos@, outpoint),
            },
    {
        match find_txo(&self.db.txos, outpoint) {
            Some(i) => Some(self.db.txos[i]),
            None => None,
        }
    }

    /// Adds a row to the TXO table, at the next index, and returns that index.
    pub fn set_txo(&mut self, txo: DbTxo) -> (res: usize)
        requires
            old(self).wf(),
        ensures
            crate::world::keeps_pins(*old(self), *final(self)),
            final(self).wf(),
            res == old(self).db.txos@.len(),
            final(self).online == old(self).online,
            final(self).db == (WalletDatabase { txos: final(self).db.txos, ..old(self).db }),
            final(self).db.txos@ == old(self).db.txos@.push(DbTxo { idx: res, ..txo }),
    {
        let idx = self.db.txos.len();
        self.db.txos.push(DbTxo { idx, ..txo });
        idx
    }

    /// Replaces the row of the TXO table at `txo.idx`.
    pub fn update_txo(&mut self, txo: DbTxo) -> (res: Result<(), Error>)
        requires
            old(self).wf(),
        ensures
            crate::world::keeps_pins(*old(self), *final(self)),
            final(self).wf(),
            final(self).online == old(self).online,
            txo.idx < old(self).db.txos@.len() <==> res is Ok,
            match res {
                Ok(_) => {
                    &&& final(self).db == (WalletDatabase { txos: final(self).db.txos, ..old(self).db })
                    &&& final(self).db.txos@ == old(self).db.txos@.update(txo.idx as int, txo)
                },
                Err(e) => e == Error::UnknownTxo { idx: txo.idx } && *final(self) == *old(self),
            },
    {
        if txo.idx >= self.db.txos.len() {
            return Err(Error::UnknownTxo { idx: txo.idx });
        }
        self.db.txos.set(txo.idx, txo);
        Ok(())
    }
}


/// Law: under address reuse two witness invoices in a row pay the same recipient ID, the pinned
/// colored address, whatever else they ask for (each invoice is given as its asset ID,
/// assignment, expiration, endpoints, confirmations and nonce).
pub proof fn lemma_reuse_invoices_share_recipient_id(
    w0: Wallet,
    w1: Wallet,
    w2: Wallet,
    invoice_1: (Option<u64>, Assignment, Option<u64>, Seq<Seq<u8>>, u8, Seq<u8>),
    invoice_2: (Option<u64>, Assignment, Option<u64>, Seq<Seq<u8>>, u8, Seq<u8>),
    res_1: Result<ReceiveData, Error>,
    res_2: Result<ReceiveData, Error>,
)
    requires
        w0.db.wallet_data.reuse_addresses,
        witness_receive_outcome(
            w0,
            w1,
            invoice_1.0,
            invoice_1.1,
            invoice_1.2,
            invoice_1.3,
            invoice_1.4,
            invoice_1.5,
            res_1,
        ),
        witness_receive_outcome(
            w1,
            w2,
            invoice_2.0,
            invoice_2.1,
            invoice_2.2,
            invoice_2.3,
            invoice_2.4,
            invoice_2.5,
            res_2,
        ),
        res_1 is Ok,
        res_2 is Ok,
    ensures
        res_1.unwrap().recipient_id == res_2.unwrap().recipient_id,
        res_1.unwrap().recipient_id == RecipientId::Witness(
            w1.db.script_at(Keychain::Colored, (w1.db.colored.revealed - 1) as u32),
        ),
{
}


/// The recipient ID of the wallet's next witness invoice: the next colored address, the pinned
/// one under reuse; `None` where the colored keychain is exhausted.
pub open spec fn next_witness_recipient(w: Wallet) -> Option<RecipientId> {
    match spec_address_index(w.db.colored.revealed, w.db.wallet_data.reuse_addresses) {
        Some((i, _)) => Some(RecipientId::Witness(w.db.script_at(Keychain::Colored, i))),
        None => None,
    }
}

/// Law: a witness invoice pays the recipient ID of `next_witness_recipient`; under address
/// reuse the wallet's next invoice then pays the same one.
pub proof fn lemma_witness_receive_pays_next_recipient(
    w0: Wallet,
    w1: Wallet,
    asset_id: Option<u64>,
    assignment: Assignment,
    expiration_timestamp: Option<u64>,
    endpoints: Seq<Seq<u8>>,
    min_confirmations: u8,
    nonce: Seq<u8>,
    res: Result<ReceiveData, Error>,
)
    requires
        w0.wf(),
        witness_receive_outcome(
            w0,
            w1,
            asset_id,
            assignment,
            expiration_timestamp,
            endpoints,
            min_confirmations,
            nonce,
            res,
        ),
        res is Ok,
    ensures
        next_witness_recipient(w0) == Some(res.unwrap().recipient_id),
        w1.db.wallet_data.reuse_addresses ==> w1.db.colored.revealed > 0 && next_witness_recipient(
            w1,
        ) == Some(res.unwrap().recipient_id),
{
    if w0.db.wallet_data.reuse_addresses {
        crate::keychain::lemma_reuse_address_is_stable(w0.db.colored.revealed);
    }
}

/// Law: under address reuse, once the colored keychain has a pinned address, every later
/// state that keeps the colored pin (see `crate::world::keeps_pin`; anything but a colored
/// rotation) and the keys issues witness invoices to the same recipient ID.
pub proof fn lemma_recipient_kept_until_colored_rotation(w1: Wallet, w2: Wallet)
    requires
        w1.db.wallet_data.reuse_addresses,
        w1.db.colored.revealed > 0,
        crate::world::keeps_pin(w1, w2, Keychain::Colored),
        w2.db.account_xpub == w1.db.account_xpub,
        w2.db.witness_version == w1.db.witness_version,
    ensures
        next_witness_recipient(w2) == next_witness_recipient(w1),
        next_witness_recipient(w1) is Some,
{
}

/// Law: a rotation of the colored pin (the effect of `Wallet::rotate_colored_address`) changes
/// the recipient ID of the next witness invoice.
pub proof fn lemma_colored_rotation_changes_recipient(w1: Wallet, w2: Wallet)
    requires
        w1.db.wallet_data.reuse_addresses,
        w1.db.colored.revealed > 0,
        w1.db.colored.revealed < MAX_REVEALED,
        w2.db == (WalletDatabase {
            colored: KeychainState { revealed: (w1.db.colored.revealed + 1) as u32 },
            ..w1.db
        }),
    ensures
        next_witness_recipient(w1) is Some,
        next_witness_recipient(w2) is Some,
        next_witness_recipient(w2) != next_witness_recipient(w1),
{
}

/// Wallet `post` keeps the colored pin of `pre` (see `crate::world::keeps_pin`) and its keys.
pub open spec fn keeps_colored_recipient(pre: Wallet, post: Wallet) -> bool {
    &&& crate::world::keeps_pin(pre, post, Keychain::Colored)
    &&& post.db.account_xpub == pre.db.account_xpub
    &&& post.db.witness_version == pre.db.witness_version
}

/// Steps that each keep the colored pin and the keys keep them from the first state to the
/// last.
proof fn lemma_colored_recipient_kept_along(states: Seq<Wallet>)
    requires
        states.len() > 0,
        forall|i: int|
            0 <= i < states.len() - 1 ==> #[trigger] keeps_colored_recipient(states[i], states[i + 1]),
    ensures
        keeps_colored_recipient(states[0], states.last()),
    decreases states.len(),
{
    if states.len() > 1 {
        let prefix = states.drop_last();
        assert forall|i: int| 0 <= i < prefix.len() - 1 implies #[trigger] keeps_colored_recipient(
            prefix[i],
            prefix[i + 1],
        ) by {
            assert(prefix[i] == states[i] && prefix[i + 1] == states[i + 1]);
            assert(keeps_colored_recipient(states[i], states[i + 1]));
        }
        lemma_colored_recipient_kept_along(prefix);
        let k = states.len() - 2;
        assert(prefix.last() == states[k]);
        assert(keeps_colored_recipient(states[k], states[k + 1]));
    }
}

/// Law: under address reuse, once the colored keychain has a pinned address, witness invoices
/// pay the same recipient ID along any sequence of operations that keep the colored pin and the
/// keys (anything but a colored rotation): the last state's next witness recipient is the first
/// state's.
pub proof fn lemma_recipient_kept_along(states: Seq<Wallet>)
    requires
        states.len() > 0,
        states[0].db.wallet_data.reuse_addresses,
        states[0].db.colored.revealed > 0,
        forall|i: int|
            0 <= i < states.len() - 1 ==> #[trigger] keeps_colored_recipient(states[i], states[i + 1]),
    ensures
        next_witness_recipient(states.last()) == next_witness_recipient(states[0]),
        next_witness_recipient(states[0]) is Some,
{
    lemma_colored_recipient_kept_along(states);
    lemma_recipient_kept_until_colored_rotation(states[0], states.last());
}

/// Law: under address reuse, a colored rotation between two runs of operations that keep the
/// colored pin and the keys changes the recipient ID that witness invoices pay: the next
/// witness recipient after the second run differs from the one before the first.
pub proof fn lemma_recipient_moves_with_colored_rotation(before: Seq<Wallet>, after: Seq<Wallet>)
    requires
        before.len() > 0,
        after.len() > 0,
        before[0].db.wallet_data.reuse_addresses,
        before[0].db.colored.revealed > 0,
        forall|i: int|
            0 <= i < before.len() - 1 ==> #[trigger] keeps_colored_recipient(before[i], before[i + 1]),
        forall|i: int|
            0 <= i < after.len() - 1 ==> #[trigger] keeps_colored_recipient(after[i], after[i + 1]),
        before.last().db.colored.revealed < MAX_REVEALED,
        after[0].db == (WalletDatabase {
            colored: KeychainState { revealed: (before.last().db.colored.revealed + 1) as u32 },
            ..before.last().db
        }),
    ensures
        next_witness_recipient(after.last()) != next_witness_recipient(before[0]),
{
    lemma_recipient_kept_along(before);
    lemma_colored_recipient_kept_along(before);
    let w1 = before.last();
    lemma_colored_rotation_changes_recipient(w1, after[0]);
    lemma_recipient_kept_along(after);
}

/// A send under way spends `op`: a send waiting for the counterparty or for confirmations
/// lists it among its inputs.
pub open spec fn spent_by_pending_send(transfers: Seq<DbTransfer>, op: Outpoint) -> bool {
    exists|k: int|
        0 <= k < transfers.len() && (#[trigger] transfers[k]).kind == TransferKind::Send && (
        transfers[k].status == TransferStatus::WaitingCounterparty || transfers[k].status
            == TransferStatus::WaitingConfirmations) && transfers[k].tx_inputs@.contains(op)
}

/// TXO row `i` is free for a new allocation: the output is on the chain, unspent, no pending
/// witness payment, and no send under way spends it.
pub open spec fn free_row(db: WalletDatabase, i: int) -> bool {
    &&& 0 <= i < db.txos@.len()
    &&& db.txos@[i].exists
    &&& !db.txos@[i].spent
    &&& !db.txos@[i].pending_witness
    &&& !spent_by_pending_send(db.transfers@, db.txos@[i].spec_outpoint())
}

/// A row is free exactly where the wallet counts it as one that can take an allocation.
pub proof fn lemma_free_row_is_available(db: WalletDatabase, i: int)
    ensures
        free_row(db, i) == db.is_available(i),
{
    if 0 <= i < db.txos@.len() {
        let op = db.txos@[i].spec_outpoint();
        if is_reserved(db.transfers@, op) {
            let k = choose|k: int|
                0 <= k < db.transfers@.len() && (#[trigger] db.transfers@[k]).kind == TransferKind::Send
                    && is_pending_status(db.transfers@[k].status) && db.transfers@[k].tx_inputs@.contains(op);
            assert(spent_by_pending_send(db.transfers@, op));
        }
        if spent_by_pending_send(db.transfers@, op) {
            let k = choose|k: int|
                0 <= k < db.transfers@.len() && (#[trigger] db.transfers@[k]).kind == TransferKind::Send && (
                db.transfers@[k].status == TransferStatus::WaitingCounterparty || db.transfers@[k].status
                    == TransferStatus::WaitingConfirmations) && db.transfers@[k].tx_inputs@.contains(op);
            assert(is_reserved(db.transfers@, op));
        }
    }
}

/// Where some row can take an allocation, a first one can.
pub(crate) proof fn lemma_first_available_exists(db: WalletDatabase, i: int)
    requires
        db.is_available(i),
    ensures
        exists|j: int| is_first_available(db, j),
    decreases i,
{
    if exists|j: int| 0 <= j < i && db.is_available(j) {
        let j = choose|j: int| 0 <= j < i && db.is_available(j);
        lemma_first_available_exists(db, j);
    } else {
        assert(is_first_available(db, i));
    }
}

/// Law: a blind receive puts its seal on a free row (see `free_row`), the first one: on
/// success the invoice's transfer holds the seal on a free row, and no row before it is free.
pub proof fn lemma_blind_seal_on_first_free_row(
    pre: Wallet,
    post: Wallet,
    asset_id: Option<u64>,
    assignment: Assignment,
    expiration_timestamp: Option<u64>,
    endpoints: Seq<Seq<u8>>,
    min_confirmations: u8,
    seal: u64,
    res: Result<ReceiveData, Error>,
)
    requires
        blind_receive_outcome(
            pre,
            post,
            asset_id,
            assignment,
            expiration_timestamp,
            endpoints,
            min_confirmations,
            seal,
            res,
        ),
        res is Ok,
    ensures
        post.db.transfers@.len() == pre.db.transfers@.len() + 1,
        post.db.transfers@[pre.db.transfers@.len() as int].recipient_type matches Some(
            RecipientTypeFull::Blind { txo_idx },
        ) && free_row(pre.db, txo_idx as int) && forall|j: int|
            0 <= j < txo_idx ==> !#[trigger] free_row(pre.db, j),
{
    let a = choose|i: int| pre.db.is_available(i);
    lemma_first_available_exists(pre.db, a);
    let t = choose|i: int| is_first_available(pre.db, i);
    lemma_free_row_is_available(pre.db, t);
    assert forall|j: int| 0 <= j < t implies !#[trigger] free_row(pre.db, j) by {
        lemma_free_row_is_available(pre.db, j);
    }
}

/// Law: a blind receive with acceptable endpoints fails for want of a UTXO exactly where no
/// row is free (see `free_row`).
pub proof fn lemma_blind_receive_needs_a_free_row(
    pre: Wallet,
    post: Wallet,
    asset_id: Option<u64>,
    assignment: Assignment,
    expiration_timestamp: Option<u64>,
    endpoints: Seq<Seq<u8>>,
    min_confirmations: u8,
    seal: u64,
    res: Result<ReceiveData, Error>,
)
    requires
        blind_receive_outcome(
            pre,
            post,
            asset_id,
            assignment,
            expiration_timestamp,
            endpoints,
            min_confirmations,
            seal,
            res,
        ),
        spec_endpoints_issue(endpoints, false) is None,
    ensures
        res == Err::<ReceiveData, Error>(Error::InsufficientAllocationSlots) <==> forall|i: int|
            !#[trigger] free_row(pre.db, i),
        res is Ok <==> exists|i: int| #[trigger] free_row(pre.db, i),
{
    if forall|i: int| !pre.db.is_available(i) {
        assert forall|i: int| !#[trigger] free_row(pre.db, i) by {
            lemma_free_row_is_available(pre.db, i);
        }
    } else {
        let i = choose|i: int| pre.db.is_available(i);
        lemma_free_row_is_available(pre.db, i);
        assert(free_row(pre.db, i));
    }
}

} // verus!
