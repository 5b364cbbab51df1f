use rgb_lib::db::{Assignment, DbTxo};
use rgb_lib::error::Error;
use rgb_lib::fixtures::{get_funded_party, get_test_wallet, AMOUNT, FEE_RATE, MIN_CONFIRMATIONS};
use rgb_lib::transfer::Recipient;
use rgb_lib::types::{Keychain, Outpoint, WitnessVersion};
use rgb_lib::wallet::{Online, SyncKeychain, SyncOptions, Wallet};
use rgb_lib::world::{Party, World};

const PROXY_ENDPOINT: &str = "rpc://127.0.0.1:3000/json-rpc";

/// A transaction id the chain never hands out.
const FAKE_TXID: u64 = 0xdead_beef_dead_beef;

fn new_world() -> World {
    World::new(PROXY_ENDPOINT.as_bytes().to_vec())
}

fn transport_endpoints() -> Vec<Vec<u8>> {
    vec![PROXY_ENDPOINT.as_bytes().to_vec()]
}

fn colored_sync_options() -> SyncOptions {
    SyncOptions { keychain: SyncKeychain::Colored }
}

fn online_test_wallet() -> Party {
    let mut wallet: Wallet = get_test_wallet();
    let online = wallet.go_online();
    Party { wallet, online }
}

fn row(outpoint: Outpoint, exists: bool, pending_witness: bool) -> DbTxo {
    DbTxo {
        idx: 0,
        txid: outpoint.txid,
        vout: outpoint.vout,
        btc_amount: 2000,
        spent: false,
        exists,
        pending_witness,
    }
}

#[test]
fn fail() {
    // === offline tests

    let mut offline_wallet = get_test_wallet();
    let result = offline_wallet.sync(Online { id: 0 }, colored_sync_options(), &vec![]);
    assert!(matches!(result, Err(Error::Offline)));

    // === online tests

    let mut world = new_world();
    let mut party = get_funded_party(&mut world, false, WitnessVersion::Taproot).unwrap();

    // sync input params
    // - check online is correct
    let wrong_online = Online { id: 1 };
    let observed = world.list_unspents(&party, Keychain::Colored);
    let result = party.wallet.sync(wrong_online, colored_sync_options(), &observed);
    assert!(matches!(result, Err(Error::CannotChangeOnline)));
}

/// Sync reconciles the TXO table downward: a row held as `exists && !spent && !pending_witness`
/// whose outpoint the indexer does not show among the unspent outputs gets marked spent.
#[test]
fn sync_marks_orphan_txo_spent() {
    let world = new_world();
    let mut party = online_test_wallet();

    // an orphan row: the table claims this outpoint is on chain and unspent, the indexer has no
    // record of it
    let orphan_outpoint = Outpoint { txid: FAKE_TXID, vout: 0 };
    party.wallet.set_txo(row(orphan_outpoint, true, false));

    // sanity: row is present, unspent
    let before = party.wallet.get_txo(orphan_outpoint).expect("orphan row");
    assert!(!before.spent);
    assert!(before.exists);

    world.sync(&mut party, colored_sync_options()).unwrap();

    let after = party.wallet.get_txo(orphan_outpoint).expect("orphan row");
    assert!(
        after.spent,
        "sync should mark Txo spent when BDK no longer holds it as unspent"
    );
}

/// `pending_witness` rows are skipped by the reconcile pass: the payment they wait for may not be
/// on chain yet.
#[test]
fn sync_skips_pending_witness_txos() {
    let world = new_world();
    let mut party = online_test_wallet();

    let pending_outpoint = Outpoint { txid: FAKE_TXID, vout: 1 };
    party.wallet.set_txo(row(pending_outpoint, true, true));

    world.sync(&mut party, colored_sync_options()).unwrap();

    let after = party.wallet.get_txo(pending_outpoint).expect("pending row");
    assert!(
        !after.spent,
        "pending_witness rows must not be marked spent by the reconcile pass"
    );
    assert!(
        after.pending_witness,
        "pending_witness flag should be preserved"
    );
}

/// `exists=false` rows are outputs the wallet made that the indexer has not shown yet: they are
/// not missing, they are not yet visible.
#[test]
fn sync_skips_unobserved_txos() {
    let world = new_world();
    let mut party = online_test_wallet();

    let unobserved_outpoint = Outpoint { txid: FAKE_TXID, vout: 2 };
    party.wallet.set_txo(row(unobserved_outpoint, false, false));

    world.sync(&mut party, colored_sync_options()).unwrap();

    let after = party.wallet.get_txo(unobserved_outpoint).expect("unobserved row");
    assert!(
        !after.spent,
        "exists=false rows must not be marked spent by the reconcile pass"
    );
}

/// A real issuance and send, then the spent input row flipped back to unspent (the shape of a
/// snapshot restore): the next sync heals it.
#[test]
fn sync_reconciles_after_simulated_snapshot_restore() {
    let amount: u64 = 66;

    let mut world = new_world();
    let mut party = get_funded_party(&mut world, false, WitnessVersion::Taproot).unwrap();
    let mut rcv_party = get_funded_party(&mut world, false, WitnessVersion::Taproot).unwrap();

    // issue, then send
    let asset_id = world.issue_asset(&mut party, &vec![AMOUNT], 0).unwrap();
    let receive_data = rcv_party
        .wallet
        .blind_receive(None, Assignment::Any, None, transport_endpoints(), MIN_CONFIRMATIONS)
        .unwrap();
    let recipient = Recipient {
        assignment: Assignment::Fungible(amount),
        recipient_id: receive_data.recipient_id,
        witness_data: None,
        transport_endpoints: transport_endpoints(),
    };
    world.send(&mut party, asset_id, &recipient, FEE_RATE).unwrap();

    // mine + refresh until settled, so the indexer and the table agree on the spent set
    world.refresh(&mut rcv_party).unwrap();
    world.refresh(&mut party).unwrap();
    world.mine();
    world.refresh(&mut rcv_party).unwrap();
    world.refresh(&mut party).unwrap();

    // pick an input that was actually consumed by the send
    let spent_input = party
        .wallet
        .db
        .txos
        .iter()
        .copied()
        .find(|t| t.spent && t.exists && !t.pending_witness)
        .expect("send should have produced at least one spent input");

    // simulate the snapshot restore: reset spent=false while the indexer knows the UTXO is gone
    party
        .wallet
        .update_txo(DbTxo { spent: false, ..spent_input })
        .unwrap();
    let mid = party.wallet.get_txo(spent_input.outpoint()).expect("row exists");
    assert!(
        !mid.spent,
        "precondition: the table now claims this UTXO is unspent"
    );

    // sync: the reconcile pass heals the row
    world.sync(&mut party, colored_sync_options()).unwrap();

    let healed = party.wallet.get_txo(spent_input.outpoint()).expect("row still exists");
    assert!(
        healed.spent,
        "sync should re-mark the diverged Txo spent after a snapshot restore"
    );
}
