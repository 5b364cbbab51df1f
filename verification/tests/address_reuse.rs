use rgb_lib::db::{Assignment, DbTransfer, DbTxo, RecipientTypeFull, TransferKind, TransferStatus};
use rgb_lib::endpoint::{derive_proxy_recipient_id, extract_recipient_nonce};
use rgb_lib::error::Error;
use rgb_lib::fixtures::{
    get_funded_party, get_funded_reuse_party, get_test_data_dir_string, get_test_reuse_wallet,
    get_test_reuse_wallet_data, get_test_wallet, get_test_wallet_data, pay_witness_invoice, AMOUNT,
    FEE_RATE, MIN_CONFIRMATIONS, UTXO_NUM,
};
use rgb_lib::keychain::{rotate_with_hub, KeychainState};
use rgb_lib::transfer::{Recipient, WitnessData};
use rgb_lib::types::{BitcoinNetwork, Keychain, WitnessVersion};
use rgb_lib::wallet::{generate_keys, ReceiveData, SyncKeychain, SyncOptions, Wallet};
use rgb_lib::world::{Party, World};

const PROXY_ENDPOINT: &str = "rpc://127.0.0.1:3000/json-rpc";

fn new_world() -> World {
    World::new(PROXY_ENDPOINT.as_bytes().to_vec())
}

fn transport_endpoints() -> Vec<Vec<u8>> {
    vec![PROXY_ENDPOINT.as_bytes().to_vec()]
}

fn contains_bytes(haystack: &[u8], needle: &[u8]) -> bool {
    haystack.windows(needle.len()).any(|w| w == needle)
}

fn witness_receive(party: &mut Party) -> ReceiveData {
    party
        .wallet
        .witness_receive(None, Assignment::Any, None, transport_endpoints(), MIN_CONFIRMATIONS)
        .unwrap()
}

fn blind_receive(party: &mut Party) -> ReceiveData {
    party
        .wallet
        .blind_receive(None, Assignment::Any, None, transport_endpoints(), MIN_CONFIRMATIONS)
        .unwrap()
}

fn sync(world: &World, party: &mut Party) {
    world
        .sync(party, SyncOptions { keychain: SyncKeychain::Colored })
        .unwrap();
}

fn settled_balance(party: &Party, asset_id: u64) -> u64 {
    party.wallet.get_asset_balance(asset_id).unwrap().settled
}

fn settled_witness_receives(party: &Party, asset_id: u64) -> usize {
    party
        .wallet
        .db
        .transfers
        .iter()
        .filter(|t| {
            t.asset_id == Some(asset_id)
                && t.status == TransferStatus::Settled
                && t.kind == TransferKind::ReceiveWitness
        })
        .count()
}

fn invoice_nonce_of(receive: &ReceiveData) -> Option<Vec<u8>> {
    let (_, nonce) = extract_recipient_nonce(&receive.invoice_data.transport_endpoints[0]).unwrap();
    nonce
}

#[test]
fn flag_survives_load() {
    let keys = generate_keys(BitcoinNetwork::Regtest, WitnessVersion::Taproot);
    let wallet_data = get_test_reuse_wallet_data();
    let wallet = Wallet::new(wallet_data.duplicate(), keys).unwrap();
    assert!(wallet.get_wallet_data().reuse_addresses);
    let db = wallet.close();

    let loaded = Wallet::load(db, keys.master_fingerprint).unwrap();
    assert!(loaded.get_wallet_data().reuse_addresses);
}

#[test]
fn same_address_until_rotated() {
    let mut wallet = get_test_reuse_wallet();

    // vanilla: the first call reveals index 0, later calls return it again
    let vanilla_1 = wallet.get_address().unwrap();
    let vanilla_2 = wallet.get_address().unwrap();
    assert_eq!(vanilla_1, vanilla_2);

    // colored: same behavior through the internal address getter
    let colored_1 = wallet.get_new_address().unwrap();
    let colored_2 = wallet.get_new_address().unwrap();
    assert_eq!(colored_1, colored_2);
    assert_ne!(vanilla_1, colored_1);

    // rotating one keychain moves only that keychain's pin
    let vanilla_3 = wallet.rotate_vanilla_address().unwrap();
    assert_ne!(vanilla_3, vanilla_1);
    assert_eq!(wallet.get_address().unwrap(), vanilla_3);
    assert_eq!(wallet.get_new_address().unwrap(), colored_1);

    let colored_3 = wallet.rotate_colored_address().unwrap();
    assert_ne!(colored_3, colored_1);
    assert_eq!(wallet.get_new_address().unwrap(), colored_3);
    assert_eq!(wallet.get_address().unwrap(), vanilla_3);
}

#[test]
fn rotate_requires_flag() {
    let mut wallet = get_test_wallet();
    assert!(matches!(
        wallet.rotate_vanilla_address(),
        Err(Error::AddressReuseDisabled)
    ));
    assert!(matches!(
        wallet.rotate_colored_address(),
        Err(Error::AddressReuseDisabled)
    ));
}

#[test]
fn pin_survives_reload() {
    let keys = generate_keys(BitcoinNetwork::Regtest, WitnessVersion::Taproot);
    let wallet_data = get_test_reuse_wallet_data();

    let mut wallet = Wallet::new(wallet_data.duplicate(), keys).unwrap();
    wallet.get_address().unwrap();
    let rotated = wallet.rotate_vanilla_address().unwrap();
    let db = wallet.close();

    let mut wallet = Wallet::open(wallet_data, keys, db).unwrap();
    assert_eq!(wallet.get_address().unwrap(), rotated);
}

#[test]
fn btc_change_lands_on_pin() {
    let mut world = new_world();
    let mut wallet = get_test_reuse_wallet();
    let online = wallet.go_online();
    let vanilla_pin = wallet.get_address().unwrap();
    let colored_pin = wallet.get_new_address().unwrap();
    let mut party = Party { wallet, online };

    world.fund_wallet(vanilla_pin).unwrap();
    world.create_utxos(&mut party, UTXO_NUM, FEE_RATE).unwrap();
    world.mine();

    let mut rcv_wallet = get_test_wallet();
    let rcv_addr = rcv_wallet.get_address().unwrap();
    world.send_btc(&mut party, rcv_addr, 1000, FEE_RATE).unwrap();
    world.mine();

    // pins did not move
    assert_eq!(party.wallet.get_address().unwrap(), vanilla_pin);
    assert_eq!(party.wallet.get_new_address().unwrap(), colored_pin);

    // every vanilla unspent (change from both operations) sits on the pinned script
    let vanilla_unspents = world.list_unspents(&party, Keychain::Vanilla);
    assert!(!vanilla_unspents.is_empty());
    assert!(vanilla_unspents.iter().all(|u| u.script == vanilla_pin));

    // every colored unspent sits on the pinned colored script
    let colored_unspents = world.list_unspents(&party, Keychain::Colored);
    assert_eq!(colored_unspents.len(), UTXO_NUM as usize);
    assert!(colored_unspents.iter().all(|u| u.script == colored_pin));
    assert!(colored_unspents.iter().all(|u| u.btc_amount == 1000));
}

#[test]
fn witness_invoices_share_recipient_id_but_not_nonce() {
    let mut world = new_world();
    let mut party = get_funded_reuse_party(&mut world).unwrap();

    let receive_1 = witness_receive(&mut party);
    let receive_2 = witness_receive(&mut party);
    assert_eq!(receive_1.recipient_id, receive_2.recipient_id);

    let nonces: Vec<Vec<u8>> = [&receive_1, &receive_2]
        .iter()
        .map(|r| invoice_nonce_of(r).expect("reuse invoices carry a nonce"))
        .collect();
    assert_eq!(nonces[0].len(), 16);
    assert_ne!(nonces[0], nonces[1]);

    // the nonces are persisted on the transfers, the stored endpoints are bare
    let transfers: Vec<&DbTransfer> = party
        .wallet
        .db
        .transfers
        .iter()
        .filter(|t| t.recipient_id == Some(receive_1.recipient_id))
        .collect();
    assert_eq!(transfers.len(), 2);
    let mut stored: Vec<Vec<u8>> = transfers
        .iter()
        .map(|t| match &t.recipient_type {
            Some(RecipientTypeFull::Witness {
                recipient_nonce, ..
            }) => recipient_nonce.clone(),
            other => panic!("unexpected recipient type: {other:?}"),
        })
        .collect();
    stored.sort();
    let mut expected = nonces.clone();
    expected.sort();
    assert_eq!(stored, expected);
    for transfer in &transfers {
        assert!(!transfer.transport_endpoints.is_empty());
        assert!(transfer
            .transport_endpoints
            .iter()
            .all(|e| !contains_bytes(e, b"rid_nonce")));
    }
}

#[test]
fn out_of_band_witness_refused_under_reuse() {
    let mut world = new_world();
    let mut party = get_funded_reuse_party(&mut world).unwrap();
    let result = party
        .wallet
        .witness_receive(None, Assignment::Any, None, vec![], MIN_CONFIRMATIONS);
    assert!(matches!(
        result,
        Err(Error::InvalidTransportEndpoints { .. })
    ));

    // blind out-of-band is unaffected: the blinded seal is unique per invoice
    party
        .wallet
        .blind_receive(None, Assignment::Any, None, vec![], MIN_CONFIRMATIONS)
        .unwrap();
}

#[test]
fn endpoint_with_reserved_parameter_is_rejected() {
    let receive = |wallet: &mut Wallet, endpoint: String| {
        wallet.witness_receive(
            None,
            Assignment::Any,
            None,
            vec![endpoint.into_bytes()],
            MIN_CONFIRMATIONS,
        )
    };

    // the nonce parameter is reserved on every wallet: the sender would derive a proxy key the
    // receiver never polls
    let reserved = format!("{}?rid_nonce={}", PROXY_ENDPOINT, "11".repeat(16));
    for mut wallet in [get_test_reuse_wallet(), get_test_wallet()] {
        assert!(matches!(
            receive(&mut wallet, reserved.clone()),
            Err(Error::InvalidTransportEndpoints { .. })
        ));
    }

    // any other query string is refused only under reuse, where the nonce takes the query string
    let query = format!("{}?token=x", PROXY_ENDPOINT);
    assert!(matches!(
        receive(&mut get_test_reuse_wallet(), query.clone()),
        Err(Error::InvalidTransportEndpoints { .. })
    ));
    receive(&mut get_test_wallet(), query).unwrap();
}

#[test]
fn sender_rejects_malformed_invoice_nonce() {
    let mut world = new_world();
    let mut sender = get_funded_party(&mut world, false, WitnessVersion::Taproot).unwrap();
    let asset_id = world.issue_asset(&mut sender, &vec![AMOUNT], 0).unwrap();
    let mut receiver = get_funded_reuse_party(&mut world).unwrap();

    let mut receive_data = witness_receive(&mut receiver);
    let mut endpoint = receive_data.invoice_data.transport_endpoints.remove(0);
    // drop the last nonce byte: 30 hex characters instead of 32
    endpoint.truncate(endpoint.len() - 2);
    let recipient = Recipient {
        assignment: Assignment::Fungible(AMOUNT / 3),
        recipient_id: receive_data.recipient_id,
        witness_data: Some(WitnessData { amount_sat: 1000 }),
        transport_endpoints: vec![endpoint],
    };
    assert!(matches!(
        world.send(&mut sender, asset_id, &recipient, FEE_RATE),
        Err(Error::InvalidTransportEndpoints { .. })
    ));
}

#[test]
fn two_witness_transfers_settle_and_pins_hold() {
    let mut world = new_world();
    let mut sender = get_funded_party(&mut world, false, WitnessVersion::Taproot).unwrap();
    let asset_id = world
        .issue_asset(&mut sender, &vec![AMOUNT, AMOUNT * 2], 0)
        .unwrap();
    // each witness send burns two of the sender's UTXOs (BTC funding and RGB change)
    world.create_utxos(&mut sender, 5, FEE_RATE).unwrap();
    world.mine();

    let mut receiver = get_funded_reuse_party(&mut world).unwrap();
    let vanilla_pin = receiver.wallet.get_address().unwrap();
    let colored_pin = receiver.wallet.get_new_address().unwrap();

    let mut recipient_ids = vec![];
    for _ in 0..2 {
        recipient_ids.push(
            pay_witness_invoice(&mut world, &mut sender, &mut receiver, asset_id).unwrap(),
        );
    }
    assert_eq!(recipient_ids[0], recipient_ids[1]);

    // both receives settled
    assert_eq!(settled_witness_receives(&receiver, asset_id), 2);
    assert_eq!(settled_balance(&receiver, asset_id), AMOUNT / 3 * 2);

    // nothing above moved either pin
    assert_eq!(receiver.wallet.get_address().unwrap(), vanilla_pin);
    assert_eq!(receiver.wallet.get_new_address().unwrap(), colored_pin);

    // rotation moves the pins, the next invoice lands on the new colored one
    let new_colored = receiver.wallet.rotate_colored_address().unwrap();
    let new_vanilla = receiver.wallet.rotate_vanilla_address().unwrap();
    assert_ne!(new_colored, colored_pin);
    assert_ne!(new_vanilla, vanilla_pin);
    let third = pay_witness_invoice(&mut world, &mut sender, &mut receiver, asset_id).unwrap();
    assert!(!recipient_ids.contains(&third));
    assert_eq!(settled_balance(&receiver, asset_id), AMOUNT / 3 * 3);

    // the receiver spends some of it back (RGB send with change)
    let receive_back = blind_receive(&mut sender);
    let recipient = Recipient {
        assignment: Assignment::Fungible(1),
        recipient_id: receive_back.recipient_id,
        witness_data: None,
        transport_endpoints: transport_endpoints(),
    };
    world
        .send(&mut receiver, asset_id, &recipient, FEE_RATE)
        .unwrap();
    world.refresh(&mut sender).unwrap();
    world.refresh(&mut receiver).unwrap();
    world.mine();
    world.refresh(&mut sender).unwrap();
    world.refresh(&mut receiver).unwrap();
    // the sender holds what it issued, less the three payments, plus what came back
    assert_eq!(settled_balance(&sender, asset_id), AMOUNT * 3 - AMOUNT / 3 * 3 + 1);
    assert_eq!(settled_balance(&receiver, asset_id), AMOUNT / 3 * 3 - 1);

    // invariant: nothing since the rotation moved either pin
    assert_eq!(receiver.wallet.get_address().unwrap(), new_vanilla);
    assert_eq!(receiver.wallet.get_new_address().unwrap(), new_colored);
}

#[test]
fn own_utxos_on_pinned_script_are_not_witness_flagged() {
    let mut world = new_world();
    let mut sender = get_funded_party(&mut world, false, WitnessVersion::Taproot).unwrap();
    let asset_id = world.issue_asset(&mut sender, &vec![AMOUNT], 0).unwrap();

    let mut receiver = get_funded_reuse_party(&mut world).unwrap();
    let colored_script = receiver.wallet.get_new_address().unwrap();

    // an invoice is pending on the pinned script...
    let receive_data = witness_receive(&mut receiver);

    // ...while the wallet creates more UTXOs on that same script
    let vanilla_address = receiver.wallet.get_address().unwrap();
    world.fund_wallet(vanilla_address).unwrap();
    world.mine();
    world.create_utxos(&mut receiver, 2, FEE_RATE).unwrap();
    world.mine();
    sync(&world, &mut receiver);
    assert!(
        receiver.wallet.db.txos.iter().all(|t| !t.pending_witness),
        "own UTXOs must not be flagged as pending witness receives"
    );

    // a sender-funded output on the pinned script is flagged (paid from outside the wallet)
    let colored_address = receiver.wallet.get_new_address().unwrap();
    world.send_to_address(colored_address).unwrap();
    world.mine();
    sync(&world, &mut receiver);
    let flagged: Vec<DbTxo> = receiver
        .wallet
        .db
        .txos
        .iter()
        .copied()
        .filter(|t| t.pending_witness)
        .collect();
    assert_eq!(flagged.len(), 1);
    let indexed = world
        .list_unspents(&receiver, Keychain::Colored)
        .into_iter()
        .find(|u| u.outpoint == flagged[0].outpoint())
        .unwrap();
    assert_eq!(indexed.script, colored_script);
    let foreign_txid = flagged[0].txid;

    // the actual witness payment: refresh records the TXO as pending witness at ACK time; the
    // later sync only marks the outpoint as existing and leaves the flag alone
    let recipient = Recipient {
        assignment: Assignment::Fungible(AMOUNT / 2),
        recipient_id: receive_data.recipient_id,
        witness_data: Some(WitnessData { amount_sat: 1000 }),
        transport_endpoints: receive_data.invoice_data.transport_endpoints,
    };
    let txid = world.send(&mut sender, asset_id, &recipient, FEE_RATE).unwrap();
    // the receiver ACKs (recording the pending witness TXO), the sender broadcasts
    world.refresh(&mut receiver).unwrap();
    world.refresh(&mut sender).unwrap();
    sync(&world, &mut receiver);
    let flagged: Vec<DbTxo> = receiver
        .wallet
        .db
        .txos
        .iter()
        .copied()
        .filter(|t| t.pending_witness && t.txid != foreign_txid)
        .collect();
    assert_eq!(flagged.len(), 1);
    assert_eq!(flagged[0].txid, txid);
    assert!(flagged[0].exists);

    // the pending witness script row survives settlement (the settle path syncs it) and is
    // released by the next sync
    world.mine();
    world.refresh(&mut receiver).unwrap();
    world.refresh(&mut sender).unwrap();
    assert!(receiver
        .wallet
        .db
        .txos
        .iter()
        .all(|t| !t.pending_witness || t.txid == foreign_txid));
    assert_eq!(receiver.wallet.db.pending_witness_scripts.len(), 1);
    sync(&world, &mut receiver);
    assert!(receiver.wallet.db.pending_witness_scripts.is_empty());
}

#[test]
fn enabling_reuse_pins_last_revealed_address() {
    let keys = generate_keys(BitcoinNetwork::Regtest, WitnessVersion::Taproot);
    let mut wallet_data = get_test_wallet_data(&get_test_data_dir_string());
    wallet_data.reuse_addresses = false;

    let mut wallet = Wallet::new(wallet_data.duplicate(), keys).unwrap();
    wallet.get_address().unwrap();
    let last_revealed = wallet.get_address().unwrap();
    let db = wallet.close();

    wallet_data.reuse_addresses = true;
    let mut wallet = Wallet::open(wallet_data, keys, db).unwrap();
    assert_eq!(wallet.get_address().unwrap(), last_revealed);
    assert_eq!(wallet.get_address().unwrap(), last_revealed);
}

#[test]
fn replayed_consignment_is_refused() {
    let mut world = new_world();
    let mut sender = get_funded_party(&mut world, false, WitnessVersion::Taproot).unwrap();
    let asset_id = world.issue_asset(&mut sender, &vec![AMOUNT], 0).unwrap();
    let mut receiver = get_funded_reuse_party(&mut world).unwrap();

    // invoice A: paid and settled
    let receive_a = witness_receive(&mut receiver);
    let nonce_a = invoice_nonce_of(&receive_a).unwrap();
    let recipient = Recipient {
        assignment: Assignment::Fungible(AMOUNT / 2),
        recipient_id: receive_a.recipient_id,
        witness_data: Some(WitnessData { amount_sat: 1000 }),
        transport_endpoints: receive_a.invoice_data.transport_endpoints,
    };
    let txid = world.send(&mut sender, asset_id, &recipient, FEE_RATE).unwrap();
    world.refresh(&mut receiver).unwrap();
    world.refresh(&mut sender).unwrap();
    world.mine();
    world.refresh(&mut receiver).unwrap();
    world.refresh(&mut sender).unwrap();
    let settled_before = settled_balance(&receiver, asset_id);
    assert_eq!(settled_before, AMOUNT / 2);
    let transfer_a = receiver
        .wallet
        .db
        .transfers
        .iter()
        .find(|t| t.recipient_id == Some(receive_a.recipient_id))
        .unwrap();
    let vout = match &transfer_a.recipient_type {
        Some(RecipientTypeFull::Witness { vout, .. }) => vout.unwrap(),
        _ => unreachable!(),
    };
    let transfer_a_idx = transfer_a.idx;
    let key_a = derive_proxy_recipient_id(&receive_a.recipient_id, &nonce_a);
    let (consignment_a, _) = world.proxy.get_consignment(&key_a).unwrap();
    assert_eq!(consignment_a.txid, txid);
    assert_eq!(consignment_a.vout, Some(vout));

    // invoice B on the same script: replay A's consignment into B's proxy mailbox
    let receive_b = witness_receive(&mut receiver);
    assert_eq!(receive_a.recipient_id, receive_b.recipient_id);
    let nonce = invoice_nonce_of(&receive_b);
    let replay_key = derive_proxy_recipient_id(&receive_b.recipient_id, &nonce.unwrap());
    let response = world.proxy.post_consignment(&replay_key, consignment_a);
    assert!(response.is_ok(), "{response:?}");
    world.refresh(&mut receiver).unwrap();

    // nothing was credited twice and B failed
    assert_eq!(settled_balance(&receiver, asset_id), settled_before);
    assert_eq!(settled_witness_receives(&receiver, asset_id), 1);
    let transfer_b = receiver
        .wallet
        .db
        .transfers
        .iter()
        .find(|t| t.idx != transfer_a_idx)
        .unwrap();
    assert_eq!(transfer_b.status, TransferStatus::Failed);
}

#[test]
fn disabling_reuse_keeps_pending_invoices_protected() {
    let mut world = new_world();
    let mut receiver = get_funded_reuse_party(&mut world).unwrap();
    let receive_1 = witness_receive(&mut receiver);
    let receive_2 = witness_receive(&mut receiver);
    assert_eq!(receive_1.recipient_id, receive_2.recipient_id);
    let colored_address = receiver.wallet.get_new_address().unwrap();

    // reopen with reuse disabled while both invoices are pending
    let keys = receiver.wallet.get_keys();
    let mut wallet_data = receiver.wallet.get_wallet_data();
    wallet_data.reuse_addresses = false;
    let db = receiver.wallet.close();
    let mut wallet = Wallet::open(wallet_data, keys, db).unwrap();
    let online = wallet.go_online();
    let mut receiver = Party { wallet, online };

    // two foreign payments to the pinned script, synced one at a time
    for _ in 0..2 {
        world.send_to_address(colored_address).unwrap();
        world.mine();
        sync(&world, &mut receiver);
    }
    let flagged = receiver
        .wallet
        .db
        .txos
        .iter()
        .filter(|t| t.pending_witness)
        .count();
    assert_eq!(flagged, 2);
    assert_eq!(receiver.wallet.db.pending_witness_scripts.len(), 1);
}

#[test]
fn failed_invoices_release_the_watched_script() {
    // non-reuse wallet: the watched script of a failed invoice is released
    let mut world = new_world();
    let mut party = get_funded_party(&mut world, false, WitnessVersion::Taproot).unwrap();
    witness_receive(&mut party);
    assert_eq!(party.wallet.db.pending_witness_scripts.len(), 1);

    let batch_transfer_idx = party.wallet.db.transfers[0].idx;
    assert!(party
        .wallet
        .fail_transfers(party.online, batch_transfer_idx)
        .unwrap());
    sync(&world, &mut party);
    assert!(party.wallet.db.pending_witness_scripts.is_empty());
}

#[test]
fn inflation_with_several_outputs_works_under_reuse() {
    let mut world = new_world();
    let mut party = get_funded_reuse_party(&mut world).unwrap();
    let asset_id = world
        .issue_asset_ifa(&mut party, &vec![AMOUNT], &vec![500])
        .unwrap();
    let colored_pin = party.wallet.get_new_address().unwrap();

    // every inflation output lands on the pinned colored script
    let inflation_amounts = vec![100, 200];
    world
        .inflate(&mut party, asset_id, &inflation_amounts, FEE_RATE)
        .unwrap();
    world.mine();
    assert!(world.refresh(&mut party).unwrap());

    assert_eq!(settled_balance(&party, asset_id), AMOUNT + 300);
    assert_eq!(party.wallet.get_new_address().unwrap(), colored_pin);
}

#[test]
fn multisig_rotation_advances_past_legacy_local_pin() {
    // a hub that bumps its index to 2, then 3 (the legacy local pin is 2)
    let hub_answers = vec![2u32, 3u32];

    // legacy state: local last revealed 2
    let mut keychain = KeychainState::new();
    for _ in 0..3 {
        keychain.reveal_next().unwrap();
    }
    let old = keychain.address_index(true).unwrap();
    assert_eq!(Some(old), keychain.last_revealed());

    // the first bump returns the local pin (2), rotation must bump again and land on 3
    let (rotated, bumps) = rotate_with_hub(&mut keychain, &hub_answers).unwrap().unwrap();
    assert_ne!(rotated, old);
    assert_eq!(bumps, 2);
    assert_eq!(keychain.last_revealed(), Some(3));
    assert_eq!(keychain.address_index(true), Ok(rotated));
}
