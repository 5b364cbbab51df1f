//! Wallets and parties as the tests and examples set them up: regtest, taproot keys unless
//! said otherwise, five allocations per UTXO, funded parties with UTXOs to allocate.
use vstd::prelude::*;

use crate::db::Assignment;
use crate::error::Error;
use crate::keychain::spec_address_index;
use crate::consignment::witness_credits_unique;
use crate::transfer::{Recipient, WitnessData};
use crate::types::{BitcoinNetwork, Keychain, RecipientId, WitnessVersion};
use crate::wallet::{
    generate_keys, sync_outcome, Online, SinglesigKeys, SyncKeychain, SyncOptions, Wallet, WalletData,
};
use crate::btc::{
    colored_outputs, create_utxos_outcome, funding_change, iter_addresses, lemma_iter_fresh,
    lemma_iter_reuse_from_zero, lemma_iter_some,
};
use crate::db::{has_row, spec_new_row, IndexedTxo};
use crate::regtest::{is_unspent_view, lemma_single_output_view, pays_keychain, ChainTx};
use crate::transfer::{btc_sum, indexed_outpoints, UTXO_SIZE};
use crate::types::{Outpoint, TxOut};
use crate::endpoint::{endpoints_view, NONCE_LEN};
use crate::wallet::{
    lemma_witness_receive_pays_next_recipient, next_witness_recipient, witness_receive_outcome,
    ReceiveData,
};
use crate::consignment::{accepted_transfer, credit_of, paid_outpoint};
use crate::db::{TransferKind, TransferStatus};
use crate::endpoint::{
    carries_reserved_param, lemma_nonce_roundtrip, spec_add_recipient_nonce, QUESTION_MARK,
};
use crate::proxy::{entry_has_key, mailbox};
use crate::transfer::spec_invoice_nonce;
use crate::world::{
    lemma_refresh_settle_clears_flag, lemma_refresh_takes_mailbox_consignment, mined, unflagged, keeps_pins, posted_consignment, refresh_outcome,
    refresh_step, same_wallet, spec_receive_key, world_send_outcome, Party, World, FUNDING_SAT,
};

verus! {

/// The data directory of the test wallets.
pub fn get_test_data_dir_string() -> (res: String)
    ensures
        res@ == "tests/tmp"@,
{
    "tests/tmp".to_owned()
}

/// Settings of a test wallet in `data_dir`: regtest, five allocations per UTXO, no address
/// reuse.
pub fn get_test_wallet_data(data_dir: &str) -> (res: WalletData)
    ensures
        res.data_dir@ == data_dir@,
        res.bitcoin_network == BitcoinNetwork::Regtest,
        res.max_allocations_per_utxo == 5,
        !res.reuse_addresses,
{
    WalletData {
        data_dir: data_dir.to_owned(),
        bitcoin_network: BitcoinNetwork::Regtest,
        max_allocations_per_utxo: 5,
        reuse_addresses: false,
    }
}

/// Settings of a test wallet with address reuse.
pub fn get_test_reuse_wallet_data() -> (res: WalletData)
    ensures
        res.data_dir@ == "tests/tmp"@,
        res.bitcoin_network == BitcoinNetwork::Regtest,
        res.max_allocations_per_utxo == 5,
        res.reuse_addresses,
{
    let mut wallet_data = get_test_wallet_data(get_test_data_dir_string().as_str());
    wallet_data.reuse_addresses = true;
    wallet_data
}

/// A new test wallet with address reuse and new taproot keys.
pub fn get_test_reuse_wallet() -> (res: Wallet)
    ensures
        res.wf(),
        res.db.master_fingerprint == res.db.account_xpub as u32,
        res.db.wallet_data.reuse_addresses,
        res.db.wallet_data.bitcoin_network == BitcoinNetwork::Regtest,
        res.db.wallet_data.max_allocations_per_utxo == 5,
        res.db.witness_version == WitnessVersion::Taproot,
        res.db.vanilla.revealed == 0,
        res.db.colored.revealed == 0,
        res.db.txos@.len() == 0,
        res.db.transfers@.len() == 0,
        res.db.pending_witness_scripts@.len() == 0,
        res.db.own_txids@.len() == 0,
        res.db.allocations@.len() == 0,
        res.db.assets@.len() == 0,
        res.db.wallet_data.data_dir@ == "tests/tmp"@,
        (res.online is None),
{
    let keys = generate_keys(BitcoinNetwork::Regtest, WitnessVersion::Taproot);
    match Wallet::new(get_test_reuse_wallet_data(), keys) {
        Ok(w) => w,
        Err(_) => vstd::pervasive::unreached(),
    }
}


/// The amount of an asset the test issuances issue.
pub const AMOUNT: u64 = 666;

/// The fee rate of the test transactions, in satoshis per virtual byte.
pub const FEE_RATE: u64 = 2;

/// The number of UTXOs a funded test party creates.
pub const UTXO_NUM: u8 = 5;

/// The confirmations the test invoices ask for.
pub const MIN_CONFIRMATIONS: u8 = 1;

/// The satoshis a witness payment of the tests sends along.
pub const WITNESS_SAT: u64 = 1000;

/// A new test wallet without address reuse and with new taproot keys.
pub fn get_test_wallet() -> (res: Wallet)
    ensures
        res.wf(),
        res.db.master_fingerprint == res.db.account_xpub as u32,
        !res.db.wallet_data.reuse_addresses,
        res.db.wallet_data.bitcoin_network == BitcoinNetwork::Regtest,
        res.db.witness_version == WitnessVersion::Taproot,
        res.db.vanilla.revealed == 0,
        res.db.colored.revealed == 0,
        res.db.txos@.len() == 0,
        res.db.transfers@.len() == 0,
        res.db.pending_witness_scripts@.len() == 0,
        res.db.own_txids@.len() == 0,
        res.db.allocations@.len() == 0,
        res.db.assets@.len() == 0,
        res.db.wallet_data.data_dir@ == "tests/tmp"@,
        res.db.wallet_data.max_allocations_per_utxo == 5,
        (res.online is None),
{
    let keys = generate_keys(BitcoinNetwork::Regtest, WitnessVersion::Taproot);
    match Wallet::new(get_test_wallet_data(get_test_data_dir_string().as_str()), keys) {
        Ok(w) => w,
        Err(_) => vstd::pervasive::unreached(),
    }
}

/// Nothing on the chain touches the keys with this account key material: no output pays them, and no input
/// spends an output of a transaction that is not on the chain yet (`next_txid` or later).
pub open spec fn untouched_by(txs: Seq<ChainTx>, xpub: u128, next_txid: u64) -> bool {
    &&& forall|i: int, v: int|
        0 <= i < txs.len() && 0 <= v < txs[i].outputs@.len()
            ==> (#[trigger] txs[i].outputs@[v]).script.account_xpub != xpub
    &&& forall|i: int, k: int|
        0 <= i < txs.len() && 0 <= k < txs[i].inputs@.len() ==> (#[trigger] txs[i].inputs@[k]).txid
            < next_txid
}

/// The party that funding leaves on a chain nothing touched: with the keys, online, its vanilla
/// address funded and pinned (under reuse), and one TXO row for each of the `UTXO_NUM` outputs
/// of transaction `utxo_txid`, each existing, unspent and no pending witness payment; nothing
/// else in its tables.
pub open spec fn funded_state(p: Party, reuse: bool, keys: SinglesigKeys, utxo_txid: u64) -> bool {
    let db = p.wallet.db;
    &&& db.vanilla.revealed == if reuse {
        1u32
    } else {
        2u32
    }
    &&& db.colored.revealed == if reuse {
        1u32
    } else {
        UTXO_NUM as u32
    }
    &&& forall|i: int|
        0 <= i < db.txos@.len() ==> {
            &&& (#[trigger] db.txos@[i]).txid == utxo_txid
            &&& db.txos@[i].vout < UTXO_NUM
            &&& db.txos@[i].exists
            &&& !db.txos@[i].spent
            &&& !db.txos@[i].pending_witness
        }
    &&& forall|v: int|
        0 <= v < UTXO_NUM ==> #[trigger] has_row(db.txos@, Outpoint { txid: utxo_txid, vout: v as u32 })
    &&& db.allocations@.len() == 0
    &&& db.assets@.len() == 0
    &&& db.own_txids@ == seq![utxo_txid]
}

/// The outcome of funding a party with `keys` (see `get_funded_party_with_keys`), the world
/// going from `w0` to `w1`. Keys of another network are refused, and so is a chain without two
/// transaction ids left. On a chain that nothing touches the keys on, funding succeeds with the
/// party of `funded_state`; elsewhere it may fail for want of bitcoin or by overflow. On
/// success the chain has the funding and the UTXO transactions added and a block mined over
/// them. Whatever the chain holds, a funded party is online with these keys, has its vanilla address (the
/// funded one) and colored addresses revealed or pinned, and holds no allocation, asset,
/// transfer, watched script or flagged TXO row.
pub open spec fn funded_outcome(
    w0: World,
    w1: World,
    reuse: bool,
    keys: SinglesigKeys,
    res: Result<Party, Error>,
) -> bool {
    let next = w0.chain.next_txid;
    let regtest = keys.bitcoin_network == BitcoinNetwork::Regtest;
    &&& w1.proxy == w0.proxy
    &&& w1.proxy_endpoint == w0.proxy_endpoint
    &&& !regtest ==> res == Err::<Party, Error>(Error::InvalidBitcoinKeys) && w1 == w0
    &&& regtest && next >= u64::MAX - 1 ==> res == Err::<Party, Error>(Error::ChainFull)
    &&& regtest && next < u64::MAX - 1 && untouched_by(w0.chain.txs@, keys.account_xpub, next)
        ==> res is Ok && funded_state(res.unwrap(), reuse, keys, (next + 1) as u64)
    &&& regtest && next < u64::MAX - 1 && res is Err ==> !untouched_by(
        w0.chain.txs@,
        keys.account_xpub,
        next,
    ) && (res == Err::<Party, Error>(Error::InsufficientBitcoins) || res == Err::<Party, Error>(
        Error::BitcoinOverflow,
    ))
    &&& res is Ok ==> {
        let p = res.unwrap();
        &&& w1.chain.txs@.len() == w0.chain.txs@.len() + 2
        &&& w1.chain.txs@[w0.chain.txs@.len() as int].txid == next
        &&& w1.chain.txs@[w0.chain.txs@.len() as int].inputs@.len() == 0
        &&& w1.chain.txs@[w0.chain.txs@.len() as int].outputs@ == seq![
            TxOut { script: p.wallet.db.script_at(Keychain::Vanilla, 0), amount: FUNDING_SAT },
        ]
        &&& w1.chain.txs@[w0.chain.txs@.len() + 1int].txid == next + 1
        &&& forall|i: int| 0 <= i < w1.chain.txs@.len() ==> (#[trigger] w1.chain.txs@[i]).confirmed
        &&& p.wf()
        &&& p.wallet.db.wallet_data.reuse_addresses == reuse
        &&& p.wallet.db.wallet_data.bitcoin_network == BitcoinNetwork::Regtest
        &&& p.wallet.db.spec_keys() == keys
        &&& p.wallet.db.vanilla.revealed == if reuse {
            1u32
        } else {
            2u32
        }
        &&& p.wallet.db.colored.revealed == if reuse {
            1u32
        } else {
            UTXO_NUM as u32
        }
        &&& p.wallet.db.transfers@.len() == 0
        &&& p.wallet.db.pending_witness_scripts@.len() == 0
        &&& forall|i: int|
            0 <= i < p.wallet.db.txos@.len() ==> !(#[trigger] p.wallet.db.txos@[i]).pending_witness
        &&& p.wallet.db.allocations@.len() == 0
        &&& p.wallet.db.assets@.len() == 0
    }
}

/// A new online party with `keys`, whose wallet (with address reuse or not) funds its vanilla
/// address with `FUNDING_SAT` and creates `UTXO_NUM` UTXOs, mined: see `funded_outcome`. It
/// needs regtest keys and two transaction ids; on a chain that nothing touches the keys on, it
/// succeeds, with the party of `funded_state`. Elsewhere the vanilla outputs it finds may not
/// pay for the UTXOs, or add up beyond `u64`.
pub fn get_funded_party_with_keys(world: &mut World, reuse: bool, keys: SinglesigKeys) -> (res:
    Result<Party, Error>)
    requires
        old(world).wf(),
    ensures
        final(world).wf(),
        funded_outcome(*old(world), *final(world), reuse, keys, res),
{
    let ghost txs0 = world.chain.txs@;
    let ghost next0 = world.chain.next_txid;
    let ghost fp = keys.account_xpub;
    let mut wallet_data = get_test_wallet_data(get_test_data_dir_string().as_str());
    wallet_data.reuse_addresses = reuse;
    let mut wallet = Wallet::new(wallet_data, keys)?;
    let online = wallet.go_online();
    let address = wallet.get_address()?;
    let mut party = Party { wallet, online };
    world.fund_wallet(address)?;
    let ghost txs1 = world.chain.txs@;
    let ghost pre_party = party;
    let r = world.create_utxos(&mut party, UTXO_NUM, FEE_RATE);
    proof {
        let w = pre_party.wallet;
        lemma_iter_some(0, reuse, UTXO_NUM as nat);
        if next0 < u64::MAX - 1 {
            let (vanilla, mid, prepared) = choose|
                vanilla: Seq<IndexedTxo>,
                mid: Wallet,
                prepared: Result<(Vec<Outpoint>, Vec<TxOut>), Error>,
            |
                #[trigger] create_utxos_outcome(
                    w,
                    mid,
                    pre_party.online,
                    vanilla,
                    UTXO_NUM,
                    (next0 + 1) as u64,
                    FEE_RATE,
                    prepared,
                ) && is_unspent_view(txs1, fp, Keychain::Vanilla, vanilla) && match prepared {
                    Err(e) => r == Err::<u64, Error>(e) && party.wallet == mid,
                    Ok(p) => {
                        &&& r == Ok::<u64, Error>((next0 + 1) as u64)
                        &&& world.chain.txs@.len() == txs1.len() + 1
                        &&& world.chain.txs@.take(txs1.len() as int) == txs1
                        &&& world.chain.txs@.last().txid == (next0 + 1) as u64
                        &&& world.chain.txs@.last().inputs@ == indexed_outpoints(vanilla)
                        &&& world.chain.txs@.last().outputs@ == p.1@
                        &&& exists|observed: Seq<IndexedTxo>|
                            is_unspent_view(world.chain.txs@, fp, Keychain::Colored, observed)
                                && #[trigger] sync_outcome(
                                mid,
                                party.wallet,
                                pre_party.online,
                                SyncOptions { keychain: SyncKeychain::Colored },
                                observed,
                                Ok(()),
                            )
                    },
                };
            if prepared is Ok {
                let observed = choose|observed: Seq<IndexedTxo>|
                    is_unspent_view(world.chain.txs@, fp, Keychain::Colored, observed)
                        && #[trigger] sync_outcome(
                        mid,
                        party.wallet,
                        pre_party.online,
                        SyncOptions { keychain: SyncKeychain::Colored },
                        observed,
                        Ok(()),
                    );
                lemma_funded_basics(
                    reuse,
                    w,
                    mid,
                    party.wallet,
                    vanilla,
                    prepared,
                    observed,
                    pre_party.online,
                    (next0 + 1) as u64,
                );
            }
            if untouched_by(txs0, fp, next0) {
                lemma_funding_found(txs0, txs1, fp, next0, vanilla);
                assert(prepared is Ok);
                let p = prepared.unwrap();
                let (observed) = choose|observed: Seq<IndexedTxo>|
                    is_unspent_view(world.chain.txs@, fp, Keychain::Colored, observed)
                        && #[trigger] sync_outcome(
                        mid,
                        party.wallet,
                        pre_party.online,
                        SyncOptions { keychain: SyncKeychain::Colored },
                        observed,
                        Ok(()),
                    );
                lemma_funded_rows(txs0, txs1, world.chain.txs@, fp, next0, reuse, w, mid, party.wallet, vanilla, prepared, observed, pre_party.online);
            } else {
                if prepared is Err {
                    assert(prepared == Err::<(Vec<Outpoint>, Vec<TxOut>), Error>(Error::InsufficientBitcoins)
                        || prepared == Err::<(Vec<Outpoint>, Vec<TxOut>), Error>(Error::BitcoinOverflow));
                }
            }
        }
    }
    r?;
    world.mine();
    Ok(party)
}


/// A new online party with new keys (random key material, regtest, scripts of the given
/// witness version) funded as `get_funded_party_with_keys` funds one.
pub fn get_funded_party(world: &mut World, reuse: bool, witness_version: WitnessVersion) -> (res:
    Result<Party, Error>)
    requires
        old(world).wf(),
    ensures
        final(world).wf(),
        exists|keys: SinglesigKeys|
            keys.bitcoin_network == BitcoinNetwork::Regtest && keys.witness_version
                == witness_version && #[trigger] funded_outcome(
                *old(world),
                *final(world),
                reuse,
                keys,
                res,
            ),
{
    let keys = generate_keys(BitcoinNetwork::Regtest, witness_version);
    get_funded_party_with_keys(world, reuse, keys)
}

/// A funded party (see `get_funded_party`) with address reuse and taproot keys: both of its
/// keychains have a pinned address, the vanilla one the funded address.
pub fn get_funded_reuse_party(world: &mut World) -> (res: Result<Party, Error>)
    requires
        old(world).wf(),
    ensures
        final(world).wf(),
        exists|keys: SinglesigKeys|
            keys.bitcoin_network == BitcoinNetwork::Regtest && keys.witness_version
                == WitnessVersion::Taproot && #[trigger] funded_outcome(
                *old(world),
                *final(world),
                true,
                keys,
                res,
            ),
{
    get_funded_party(world, true, WitnessVersion::Taproot)
}

/// A funded party (see `get_funded_party`) without address reuse and with P2WPKH scripts.
pub fn get_funded_wallet_p2wpkh(world: &mut World) -> (res: Result<Party, Error>)
    requires
        old(world).wf(),
    ensures
        final(world).wf(),
        exists|keys: SinglesigKeys|
            keys.bitcoin_network == BitcoinNetwork::Regtest && keys.witness_version
                == WitnessVersion::SegwitV0 && #[trigger] funded_outcome(
                *old(world),
                *final(world),
                false,
                keys,
                res,
            ),
{
    get_funded_party(world, false, WitnessVersion::SegwitV0)
}

/// What a new wallet holds after it creates its UTXOs and syncs, whatever else the chain
/// holds: its pins, no allocation, no asset, no watched script, and no TXO row flagged as a
/// pending witness payment.
proof fn lemma_funded_basics(
    reuse: bool,
    w: Wallet,
    mid: Wallet,
    post: Wallet,
    vanilla: Seq<IndexedTxo>,
    prepared: Result<(Vec<Outpoint>, Vec<TxOut>), Error>,
    observed: Seq<IndexedTxo>,
    online: Online,
    txid: u64,
)
    requires
        w.db.wallet_data.reuse_addresses == reuse,
        w.db.colored.revealed == 0,
        w.db.vanilla.revealed == 1,
        w.db.txos@.len() == 0,
        w.db.pending_witness_scripts@.len() == 0,
        w.db.allocations@.len() == 0,
        w.db.assets@.len() == 0,
        w.online == Some(online),
        create_utxos_outcome(w, mid, online, vanilla, UTXO_NUM, txid, FEE_RATE, prepared),
        prepared is Ok,
        sync_outcome(
            mid,
            post,
            online,
            SyncOptions { keychain: SyncKeychain::Colored },
            observed,
            Ok(()),
        ),
    ensures
        post.db.vanilla.revealed == if reuse {
            1u32
        } else {
            2u32
        },
        post.db.colored.revealed == if reuse {
            1u32
        } else {
            UTXO_NUM as u32
        },
        forall|i: int| 0 <= i < post.db.txos@.len() ==> !(#[trigger] post.db.txos@[i]).pending_witness,
        post.db.allocations@.len() == 0,
        post.db.assets@.len() == 0,
        post.db.pending_witness_scripts@.len() == 0,
{
    if reuse {
        lemma_iter_reuse_from_zero(UTXO_NUM as nat);
    } else {
        lemma_iter_fresh(0, UTXO_NUM as nat);
    }
    assert(mid.db.txos@.len() == 0);
    assert(mid.db.pending_witness_scripts@.len() == 0);
    assert forall|i: int| 0 <= i < post.db.txos@.len() implies !(
    #[trigger] post.db.txos@[i]).pending_witness by {
        let k = choose|k: int|
            0 <= k < observed.len() && post.db.txos@[i] == spec_new_row(
                i,
                mid.db.pending_witness_scripts@,
                mid.db.own_txids@,
                #[trigger] observed[k],
            );
        assert(!mid.db.pending_witness_scripts@.contains(observed[k].script));
    }
}

/// The TXO table a new wallet has after it creates its UTXOs and syncs, on a chain nothing
/// touched: one row per UTXO, each existing, unspent and unflagged.
proof fn lemma_funded_rows(
    txs0: Seq<ChainTx>,
    txs1: Seq<ChainTx>,
    txs2: Seq<ChainTx>,
    fp: u128,
    next0: u64,
    reuse: bool,
    w: Wallet,
    mid: Wallet,
    post: Wallet,
    vanilla: Seq<IndexedTxo>,
    prepared: Result<(Vec<Outpoint>, Vec<TxOut>), Error>,
    observed: Seq<IndexedTxo>,
    online: Online,
)
    requires
        untouched_by(txs0, fp, next0),
        next0 < u64::MAX - 1,
        txs1.len() == txs0.len() + 1,
        txs1.take(txs0.len() as int) == txs0,
        txs1.last().txid == next0,
        txs1.last().inputs@.len() == 0,
        txs1.last().outputs@.len() == 1,
        txs1.last().outputs@[0].script.keychain == Keychain::Vanilla,
        vanilla.len() == 1,
        vanilla[0] == crate::regtest::indexed_output(txs1, txs0.len() as int, 0),
        txs2.len() == txs1.len() + 1,
        txs2.take(txs1.len() as int) == txs1,
        txs2.last().txid == next0 + 1,
        txs2.last().inputs@ == indexed_outpoints(vanilla),
        prepared is Ok,
        txs2.last().outputs@ == prepared.unwrap().1@,
        w.db.account_xpub == fp,
        w.db.wallet_data.reuse_addresses == reuse,
        w.db.colored.revealed == 0,
        w.db.vanilla.revealed == 1,
        w.db.txos@.len() == 0,
        w.db.pending_witness_scripts@.len() == 0,
        w.db.own_txids@.len() == 0,
        w.db.allocations@.len() == 0,
        w.db.assets@.len() == 0,
        w.online == Some(online),
        create_utxos_outcome(w, mid, online, vanilla, UTXO_NUM, (next0 + 1) as u64, FEE_RATE, prepared),
        is_unspent_view(txs2, fp, Keychain::Colored, observed),
        sync_outcome(
            mid,
            post,
            online,
            SyncOptions { keychain: SyncKeychain::Colored },
            observed,
            Ok(()),
        ),
    ensures
        post.db.vanilla.revealed == if reuse {
            1u32
        } else {
            2u32
        },
        post.db.colored.revealed == if reuse {
            1u32
        } else {
            UTXO_NUM as u32
        },
        forall|i: int|
            0 <= i < post.db.txos@.len() ==> {
                &&& (#[trigger] post.db.txos@[i]).txid == next0 + 1
                &&& post.db.txos@[i].vout < UTXO_NUM
                &&& post.db.txos@[i].exists
                &&& !post.db.txos@[i].spent
                &&& !post.db.txos@[i].pending_witness
            },
        forall|v: int|
            0 <= v < UTXO_NUM ==> #[trigger] has_row(
                post.db.txos@,
                Outpoint { txid: (next0 + 1) as u64, vout: v as u32 },
            ),
        post.db.allocations@.len() == 0,
        post.db.assets@.len() == 0,
        post.db.own_txids@ == seq![(next0 + 1) as u64],
        post.db.pending_witness_scripts@.len() == 0,
{
    let n = txs0.len() as int;
    let it = iter_addresses(0, reuse, UTXO_NUM as nat);
    if reuse {
        lemma_iter_reuse_from_zero(UTXO_NUM as nat);
    } else {
        lemma_iter_fresh(0, UTXO_NUM as nat);
    }
    let indices = it.unwrap().0;
    let outs = txs2.last().outputs@;
    assert(outs == colored_outputs(w.db, indices, UTXO_SIZE).push(
        TxOut {
            script: w.db.script_at(
                Keychain::Vanilla,
                spec_address_index(w.db.vanilla.revealed, reuse).unwrap().0,
            ),
            amount: funding_change(vanilla, FEE_RATE, UTXO_NUM * UTXO_SIZE) as u64,
        },
    ));
    assert(outs.len() == UTXO_NUM + 1);
    // which outputs of the chain pay the colored keychain: the first `UTXO_NUM` of the last
    assert forall|a: int, v: int|
        0 <= a < txs2.len() && 0 <= v < txs2[a].outputs@.len() && pays_keychain(
            txs2[a].outputs@[v].script,
            fp,
            Keychain::Colored,
        ) implies a == n + 1 && v < UTXO_NUM by {
        if a < n {
            assert(txs2.take(txs1.len() as int)[a] == txs1[a]);
            assert(txs1.take(n)[a] == txs0[a]);
            assert(txs0[a].outputs@[v].script.account_xpub != fp);
        } else if a == n {
            assert(txs2.take(txs1.len() as int)[a] == txs1[a]);
            assert(txs2[a].outputs@[v] == txs1.last().outputs@[v]);
            assert(v == 0);
        } else {
            assert(a == n + 1);
            if v == UTXO_NUM {
                assert(outs[v].script.keychain == Keychain::Vanilla);
            }
        }
    }
    // the sync only added rows: each for an observed output, none flagged
    assert(mid.db.txos@.len() == 0);
    assert(mid.db.pending_witness_scripts@.len() == 0);
    assert forall|i: int| 0 <= i < post.db.txos@.len() implies {
        &&& (#[trigger] post.db.txos@[i]).txid == next0 + 1
        &&& post.db.txos@[i].vout < UTXO_NUM
        &&& post.db.txos@[i].exists
        &&& !post.db.txos@[i].spent
        &&& !post.db.txos@[i].pending_witness
    } by {
        let k = choose|k: int|
            0 <= k < observed.len() && post.db.txos@[i] == spec_new_row(
                i,
                mid.db.pending_witness_scripts@,
                mid.db.own_txids@,
                #[trigger] observed[k],
            );
        let (a, v) = choose|a: int, v: int|
            0 <= a < txs2.len() && 0 <= v < txs2[a].outputs@.len() && observed[k]
                == crate::regtest::indexed_output(txs2, a, v);
        assert(pays_keychain(txs2[a].outputs@[v].script, fp, Keychain::Colored));
        assert(!mid.db.pending_witness_scripts@.contains(observed[k].script));
    }
    // and there is a row for each UTXO: none is spent
    assert forall|v: int| 0 <= v < UTXO_NUM implies #[trigger] has_row(
        post.db.txos@,
        Outpoint { txid: (next0 + 1) as u64, vout: v as u32 },
    ) by {
        let op = Outpoint { txid: txs2[n + 1].txid, vout: v as u32 };
        assert(!crate::regtest::spends(txs2, op)) by {
            if crate::regtest::spends(txs2, op) {
                let (i, k) = choose|i: int, k: int|
                    0 <= i < txs2.len() && 0 <= k < txs2[i].inputs@.len() && (#[trigger] txs2[i].inputs@[k])
                        == op;
                if i < n {
                    assert(txs2.take(txs1.len() as int)[i] == txs1[i]);
                    assert(txs1.take(n)[i] == txs0[i]);
                    assert(txs0[i].inputs@[k].txid < next0);
                } else if i == n {
                    assert(txs2.take(txs1.len() as int)[i] == txs1[i]);
                } else {
                    assert(txs2[i].inputs@[k] == vanilla[0].outpoint);
                    assert(txs1[n].txid == next0);
                }
            }
        }
        let x = crate::regtest::indexed_output(txs2, n + 1, v);
        assert(observed.contains(x));
        let k = choose|k: int| 0 <= k < observed.len() && observed[k] == x;
        assert(has_row(post.db.txos@, observed[k].outpoint));
    }
}

/// The vanilla outputs a new wallet finds after its funding on a chain nothing touched: the
/// funding alone.
proof fn lemma_funding_found(
    txs0: Seq<ChainTx>,
    txs1: Seq<ChainTx>,
    fp: u128,
    next0: u64,
    vanilla: Seq<IndexedTxo>,
)
    requires
        untouched_by(txs0, fp, next0),
        txs1.len() == txs0.len() + 1,
        txs1.take(txs0.len() as int) == txs0,
        txs1.last().txid == next0,
        txs1.last().inputs@.len() == 0,
        txs1.last().outputs@.len() == 1,
        txs1.last().outputs@[0].amount == FUNDING_SAT,
        pays_keychain(txs1.last().outputs@[0].script, fp, Keychain::Vanilla),
        is_unspent_view(txs1, fp, Keychain::Vanilla, vanilla),
    ensures
        vanilla.len() == 1,
        vanilla[0] == crate::regtest::indexed_output(txs1, txs0.len() as int, 0),
        btc_sum(vanilla) == FUNDING_SAT,
{
    assert forall|i: int, v: int|
        0 <= i < txs1.len() - 1 && 0 <= v < txs1[i].outputs@.len() implies !pays_keychain(
        #[trigger] txs1[i].outputs@[v].script,
        fp,
        Keychain::Vanilla,
    ) by {
        assert(txs1.take(txs0.len() as int)[i] == txs1[i]);
        assert(txs0[i].outputs@[v].script.account_xpub != fp);
    }
    assert forall|i: int, k: int|
        0 <= i < txs1.len() - 1 && 0 <= k < txs1[i].inputs@.len() implies (
    #[trigger] txs1[i].inputs@[k]).txid != txs1.last().txid by {
        assert(txs1.take(txs0.len() as int)[i] == txs1[i]);
        assert(txs0[i].inputs@[k].txid < next0);
    }
    lemma_single_output_view(txs1, fp, Keychain::Vanilla, vanilla, FUNDING_SAT);
    assert(vanilla.drop_last() =~= Seq::<IndexedTxo>::empty());
    assert(btc_sum(Seq::<IndexedTxo>::empty()) == 0);
    assert(vanilla.last() == vanilla[0]);
}

/// The recipient that `pay_witness_invoice` pays for the invoice `data`.
pub open spec fn payment_recipient(data: ReceiveData) -> Recipient {
    Recipient {
        assignment: Assignment::Fungible(AMOUNT / 3),
        recipient_id: data.recipient_id,
        witness_data: Some(WitnessData { amount_sat: WITNESS_SAT }),
        transport_endpoints: data.invoice_data.transport_endpoints,
    }
}

/// The rounds of refreshes that settle a payment, from world `w0`, sender `s0` and receiver
/// `r0` to `w1`, `s1` and `r1`: the receiver refreshes, then the sender (see
/// `refresh_outcome`); a block is mined (see `mined`); then the receiver refreshes and the
/// sender again.
pub open spec fn settling_rounds(w0: World, s0: Party, r0: Party, w1: World, s1: Party, r1: Party) -> bool {
    exists|
        wa: World,
        ra: Party,
        wb: World,
        sb: Party,
        wc: World,
        wd: World,
        ba: bool,
        bb: bool,
        bd: bool,
        be: bool,
    |
        #![trigger refresh_outcome(w0, r0, wa, ra, Ok::<bool, Error>(ba)), refresh_outcome(wa, s0, wb, sb, Ok::<bool, Error>(bb)), refresh_outcome(wc, ra, wd, r1, Ok::<bool, Error>(bd)), refresh_outcome(wd, sb, w1, s1, Ok::<bool, Error>(be))]
        refresh_outcome(w0, r0, wa, ra, Ok::<bool, Error>(ba)) && refresh_outcome(
            wa,
            s0,
            wb,
            sb,
            Ok::<bool, Error>(bb),
        ) && mined(wb, wc) && refresh_outcome(wc, ra, wd, r1, Ok::<bool, Error>(bd))
            && refresh_outcome(wd, sb, w1, s1, Ok::<bool, Error>(be))
}

/// What `pay_witness_invoice` does, from world `w0`, sender `s0` and receiver `r0` to `w1`,
/// `s1` and `r1`: the receiver issues a witness invoice (on the world's proxy endpoint, for
/// any amount of any asset) and fails with its error; or the sender sends `AMOUNT / 3` of
/// `asset_id` to it (see `world_send_outcome`) and fails with its error; or the settling
/// rounds follow (see `settling_rounds`), and the result is the invoice's recipient ID where
/// both the receive and the send have settled, `PaymentNotSettled` where not.
pub open spec fn witness_payment_outcome(
    w0: World,
    s0: Party,
    r0: Party,
    w1: World,
    s1: Party,
    r1: Party,
    asset_id: u64,
    res: Result<RecipientId, Error>,
) -> bool {
    exists|nonce: Seq<u8>, rw: Wallet, receive: Result<ReceiveData, Error>|
        nonce.len() == NONCE_LEN && #[trigger] witness_receive_outcome(
            r0.wallet,
            rw,
            None,
            Assignment::Any,
            None,
            seq![w0.proxy_endpoint@],
            MIN_CONFIRMATIONS,
            nonce,
            receive,
        ) && {
            let ra = Party { wallet: rw, online: r0.online };
            match receive {
                Err(e) => res == Err::<RecipientId, Error>(e) && w1 == w0 && s1 == s0 && r1 == ra,
                Ok(data) => exists|wa: World, sa: Party, sent: Result<u64, Error>|
                    #[trigger] world_send_outcome(
                        w0,
                        wa,
                        s0,
                        sa,
                        asset_id,
                        payment_recipient(data),
                        FEE_RATE,
                        sent,
                    ) && match sent {
                        Err(e) => res == Err::<RecipientId, Error>(e) && w1 == wa && s1 == sa && r1
                            == ra,
                        Ok(_) => settling_rounds(wa, sa, ra, w1, s1, r1) && res == if r1.wallet.db.transfers@[
                            r0.wallet.db.transfers@.len() as int].status == TransferStatus::Settled
                            && s1.wallet.db.transfers@[s0.wallet.db.transfers@.len() as int].status
                            == TransferStatus::Settled {
                            Ok::<RecipientId, Error>(data.recipient_id)
                        } else {
                            Err::<RecipientId, Error>(Error::PaymentNotSettled)
                        },
                    },
            }
        }
}

/// The receive of a witness payment settles with the consignment its sender posted: where
/// receiver `r0` issues a witness invoice (becoming `r1`), the sender pays it (the world going
/// from `w0` to `w1`), the receiver refreshes (becoming `ra`), and the receive later settles in
/// `r2` by a refresh, the settled receive holds `AMOUNT / 3` of `asset_id` on output 0 of the
/// payment's transaction.
proof fn lemma_payment_lands(
    w0: World,
    r0: Party,
    r1: Party,
    w1: World,
    s0: Party,
    s1: Party,
    wa: World,
    ra: Party,
    ba: bool,
    wc: World,
    wd: World,
    bd: bool,
    r2: Party,
    m: int,
    asset_id: u64,
    data: ReceiveData,
    sent: Result<u64, Error>,
)
    requires
        w0.wf(),
        m == r0.wallet.db.transfers@.len(),
        r1.online == r0.online,
        exists|nonce: Seq<u8>|
            nonce.len() == NONCE_LEN && #[trigger] witness_receive_outcome(
                r0.wallet,
                r1.wallet,
                None,
                Assignment::Any,
                None,
                seq![w0.proxy_endpoint@],
                MIN_CONFIRMATIONS,
                nonce,
                Ok::<ReceiveData, Error>(data),
            ),
        w1.wf(),
        w1.proxy_endpoint == w0.proxy_endpoint,
        world_send_outcome(w0, w1, s0, s1, asset_id, payment_recipient(data), FEE_RATE, sent),
        sent is Ok,
        refresh_outcome(w1, r1, wa, ra, Ok::<bool, Error>(ba)),
        ra.wallet.db.transfers@.len() == r1.wallet.db.transfers@.len(),
        refresh_outcome(wc, ra, wd, r2, Ok::<bool, Error>(bd)),
        r2.wallet.db.transfers@.len() == ra.wallet.db.transfers@.len(),
        forall|k: int|
            0 <= k < ra.wallet.db.transfers@.len() ==> refresh_step(
                #[trigger] ra.wallet.db.transfers@[k],
                r2.wallet.db.transfers@[k],
            ),
        r2.wallet.db.transfers@[m].status == TransferStatus::Settled,
    ensures
        ({
            let rt = r2.wallet.db.transfers@[m];
            &&& rt.asset_id == Some(asset_id)
            &&& rt.amount == AMOUNT / 3
            &&& rt.txid == Some(w0.chain.next_txid)
            &&& credit_of(rt) == Some(Outpoint { txid: w0.chain.next_txid, vout: 0 })
        }),
        unflagged(r2.wallet.db.txos@, Outpoint { txid: w0.chain.next_txid, vout: 0 }),
{
    let nonce = choose|nonce: Seq<u8>|
        nonce.len() == NONCE_LEN && #[trigger] witness_receive_outcome(
            r0.wallet,
            r1.wallet,
            None,
            Assignment::Any,
            None,
            seq![w0.proxy_endpoint@],
            MIN_CONFIRMATIONS,
            nonce,
            Ok::<ReceiveData, Error>(data),
        );
    let reuse = r0.wallet.db.wallet_data.reuse_addresses;
    let e = w0.proxy_endpoint@;
    let t = r1.wallet.db.transfers@[m];
    let stored = if reuse {
        nonce
    } else {
        Seq::<u8>::empty()
    };
    let key = (data.recipient_id, stored);
    assert(spec_receive_key(t) == Some(key));
    // the invoice's endpoints carry the receive's nonce
    let recipient = payment_recipient(data);
    let eps = endpoints_view(recipient.transport_endpoints@);
    assert(spec_invoice_nonce(eps) == Some(stored)) by {
        assert(!carries_reserved_param(seq![e][0]));
        if reuse {
            assert(!seq![e][0].contains(QUESTION_MARK));
            lemma_nonce_roundtrip(e, nonce);
            assert(eps =~= seq![spec_add_recipient_nonce(e, nonce)]);
        } else {
            assert(eps =~= seq![e]);
        }
    }
    // the mailbox of the receive holds the posted consignment
    let c = posted_consignment(asset_id, recipient, sent.unwrap());
    let entries = w1.proxy.entries@;
    let last = entries.len() - 1;
    assert(entry_has_key(entries, last, key));
    assert(mailbox(entries, key) == Some((c, entries[last].ack))) by {
        let i = choose|i: int| entry_has_key(entries, i, key);
        if i < last {
            assert(entries[i].key.view_key() != entries[last].key.view_key());
        } else if last < i {
            assert(false);
        }
    }
    lemma_refresh_takes_mailbox_consignment(w1, r1, wa, ra, ba, m, c);
    assert(refresh_step(ra.wallet.db.transfers@[m], r2.wallet.db.transfers@[m]));
    // the receive took the consignment in the first refresh and settles in the second
    let op = Outpoint { txid: w0.chain.next_txid, vout: 0 };
    assert(ra.wallet.db.transfers@[m] == accepted_transfer(t, c));
    assert(paid_outpoint(c) == op);
    lemma_refresh_settle_clears_flag(wc, ra, wd, r2, bd, m, op);
}

/// Issues a witness invoice on `receiver` (for any amount of any asset, on the world's proxy),
/// has `sender` pay `AMOUNT / 3` of `asset_id` with `WITNESS_SAT` satoshis of witness
/// funding, and settles it on both sides (refresh, broadcast, mine, refresh); returns the
/// invoice's recipient ID, the receiver's next colored address (its pinned one under reuse).
/// Neither party's pinned addresses move. It fails where the receive or the send fails, and
/// where the payment has not settled on both sides: see `witness_payment_outcome`.
pub fn pay_witness_invoice(world: &mut World, sender: &mut Party, receiver: &mut Party, asset_id: u64) -> (res:
    Result<RecipientId, Error>)
    requires
        old(world).wf(),
        old(sender).wf(),
        old(receiver).wf(),
    ensures
        final(world).wf(),
        final(sender).wf(),
        final(receiver).wf(),
        final(world).proxy_endpoint == old(world).proxy_endpoint,
        same_wallet(old(sender).wallet, final(sender).wallet),
        same_wallet(old(receiver).wallet, final(receiver).wallet),
        keeps_pins(old(sender).wallet, final(sender).wallet),
        keeps_pins(old(receiver).wallet, final(receiver).wallet),
        witness_credits_unique(old(receiver).wallet.db.transfers@) ==> witness_credits_unique(
            final(receiver).wallet.db.transfers@,
        ),
        witness_payment_outcome(
            *old(world),
            *old(sender),
            *old(receiver),
            *final(world),
            *final(sender),
            *final(receiver),
            asset_id,
            res,
        ),
        res is Ok ==> {
            let m = old(receiver).wallet.db.transfers@.len() as int;
            let ms = old(sender).wallet.db.transfers@.len() as int;
            let rt = final(receiver).wallet.db.transfers@[m];
            let st = final(sender).wallet.db.transfers@[ms];
            &&& spec_address_index(
                old(receiver).wallet.db.colored.revealed,
                old(receiver).wallet.db.wallet_data.reuse_addresses,
            ) is Some
            &&& res.unwrap() == RecipientId::Witness(
                old(receiver).wallet.db.script_at(
                    Keychain::Colored,
                    spec_address_index(
                        old(receiver).wallet.db.colored.revealed,
                        old(receiver).wallet.db.wallet_data.reuse_addresses,
                    ).unwrap().0,
                ),
            )
            &&& next_witness_recipient(old(receiver).wallet) == Some(res.unwrap())
            &&& old(receiver).wallet.db.wallet_data.reuse_addresses
                ==> final(receiver).wallet.db.colored.revealed > 0
                && next_witness_recipient(final(receiver).wallet) == Some(res.unwrap())
            &&& final(receiver).wallet.db.transfers@.len() == m + 1
            &&& rt.kind == TransferKind::ReceiveWitness
            &&& rt.status == TransferStatus::Settled
            &&& rt.recipient_id == Some(res.unwrap())
            &&& rt.asset_id == Some(asset_id)
            &&& rt.amount == AMOUNT / 3
            &&& rt.txid == Some(old(world).chain.next_txid)
            &&& credit_of(rt) == Some(Outpoint { txid: old(world).chain.next_txid, vout: 0 })
            &&& unflagged(
                final(receiver).wallet.db.txos@,
                Outpoint { txid: old(world).chain.next_txid, vout: 0 },
            )
            &&& final(sender).wallet.db.transfers@.len() == ms + 1
            &&& st.kind == TransferKind::Send
            &&& st.status == TransferStatus::Settled
            &&& st.recipient_id == Some(res.unwrap())
            &&& st.txid == Some(old(world).chain.next_txid)
            &&& res.unwrap() matches RecipientId::Witness(script) && st.tx_outputs@.len() == 3
                && st.tx_outputs@[0] == TxOut { script, amount: WITNESS_SAT }
        },
{
    let ghost r0 = receiver.wallet.db.transfers@;
    let ghost receiver0 = *receiver;
    let m = receiver.wallet.db.transfers.len();
    let endpoints = world.transport_endpoints();
    assert(endpoints_view(endpoints@) =~= seq![world.proxy_endpoint@]);
    let received = receiver.wallet.witness_receive(
        None,
        Assignment::Any,
        None,
        endpoints,
        MIN_CONFIRMATIONS,
    );
    let receive = match received {
        Ok(data) => data,
        Err(e) => {
            assert(*receiver == Party { wallet: receiver.wallet, online: receiver0.online });
            return Err(e);
        },
    };
    proof {
        if witness_credits_unique(r0) {
            crate::consignment::lemma_push_keeps_credits_unique(r0, receiver.wallet.db.transfers@.last());
            assert(receiver.wallet.db.transfers@ =~= r0.push(receiver.wallet.db.transfers@.last()));
        }
    }
    let ghost data = receive;
    let recipient = Recipient {
        assignment: Assignment::Fungible(AMOUNT / 3),
        recipient_id: receive.recipient_id,
        witness_data: Some(WitnessData { amount_sat: WITNESS_SAT }),
        transport_endpoints: receive.invoice_data.transport_endpoints,
    };
    assert(recipient == payment_recipient(data));
    let ghost sender0 = *sender;
    let ms = sender.wallet.db.transfers.len();
    let sent = world.send(sender, asset_id, &recipient, FEE_RATE);
    match sent {
        Ok(_) => {},
        Err(e) => {
            return Err(e);
        },
    }
    let ghost world1 = *world;
    let ghost sender1 = *sender;
    let ghost receiver1 = *receiver;
    let ghost pre_r = receiver.wallet.db.transfers@;
    let ghost pre_s = sender.wallet.db.transfers@;
    let ba = world.refresh(receiver)?;
    let ghost world_a = *world;
    let ghost receiver_a = *receiver;
    let ghost mid_r = receiver.wallet.db.transfers@;
    let bb = world.refresh(sender)?;
    let ghost world_b = *world;
    let ghost sender_b = *sender;
    let ghost mid_s = sender.wallet.db.transfers@;
    world.mine();
    let ghost world_c = *world;
    let bd = world.refresh(receiver)?;
    let ghost world_d = *world;
    let be = world.refresh(sender)?;
    proof {
        assert(refresh_outcome(world1, receiver1, world_a, receiver_a, Ok::<bool, Error>(ba)));
        assert(refresh_outcome(world_a, sender1, world_b, sender_b, Ok::<bool, Error>(bb)));
        assert(refresh_outcome(world_c, receiver_a, world_d, *receiver, Ok::<bool, Error>(bd)));
        assert(refresh_outcome(world_d, sender_b, *world, *sender, Ok::<bool, Error>(be)));
        assert(settling_rounds(world1, sender1, receiver1, *world, *sender, *receiver));
        // the new receive and the new send keep their kind and recipient through the refreshes
        assert(refresh_step(pre_r[m as int], mid_r[m as int]));
        assert(refresh_step(mid_r[m as int], receiver.wallet.db.transfers@[m as int]));
        assert(refresh_step(pre_s[ms as int], mid_s[ms as int]));
        assert(refresh_step(mid_s[ms as int], sender.wallet.db.transfers@[ms as int]));
    }
    let r_settled = match receiver.wallet.db.transfers[m].status {
        TransferStatus::Settled => true,
        _ => false,
    };
    let s_settled = match sender.wallet.db.transfers[ms].status {
        TransferStatus::Settled => true,
        _ => false,
    };
    if r_settled && s_settled {
        proof {
            let nonce = choose|nonce: Seq<u8>|
                nonce.len() == NONCE_LEN && #[trigger] witness_receive_outcome(
                    receiver0.wallet,
                    receiver1.wallet,
                    None,
                    Assignment::Any,
                    None,
                    seq![old(world).proxy_endpoint@],
                    MIN_CONFIRMATIONS,
                    nonce,
                    Ok::<ReceiveData, Error>(data),
                );
            lemma_witness_receive_pays_next_recipient(
                receiver0.wallet,
                receiver1.wallet,
                None,
                Assignment::Any,
                None,
                seq![old(world).proxy_endpoint@],
                MIN_CONFIRMATIONS,
                nonce,
                Ok::<ReceiveData, Error>(data),
            );
            lemma_payment_lands(
                *old(world),
                receiver0,
                receiver1,
                world1,
                sender0,
                sender1,
                world_a,
                receiver_a,
                ba,
                world_c,
                world_d,
                bd,
                *receiver,
                m as int,
                asset_id,
                data,
                sent,
            );
        }
        Ok(receive.recipient_id)
    } else {
        Err(Error::PaymentNotSettled)
    }
}

} // verus!
