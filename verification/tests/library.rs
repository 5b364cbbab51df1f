use rgb_lib::db::{Assignment, DbTxo, IndexedTxo, RecipientTypeFull, TransferKind, TransferStatus};
use rgb_lib::endpoint::{
    add_recipient_nonce, derive_proxy_recipient_id, endpoints_issue, extract_recipient_nonce,
};
use rgb_lib::error::{EndpointIssue, Error};
use rgb_lib::fixtures::{
    get_funded_party, get_funded_reuse_party, get_test_wallet, get_test_wallet_data,
    pay_witness_invoice, AMOUNT, FEE_RATE, MIN_CONFIRMATIONS,
};
use rgb_lib::world::{World, FUNDING_SAT};
use rgb_lib::hex::{hex_decode, hex_encode};
use rgb_lib::keychain::{rotate_with_hub, KeychainState, MAX_REVEALED};
use rgb_lib::proxy::{Consignment, Proxy};
use rgb_lib::regtest::Regtest;
use rgb_lib::transfer::{invoice_nonce, Recipient, WitnessData, TX_VSIZE, UTXO_SIZE};
use rgb_lib::types::{BitcoinNetwork, Keychain, Outpoint, RecipientId, Script, TxOut, WitnessVersion};
use rgb_lib::wallet::{generate_keys, keys_from_material, Online, SyncKeychain, SyncOptions, Wallet};

const ENDPOINT: &str = "rpc://127.0.0.1:3000/json-rpc";

fn endpoints() -> Vec<Vec<u8>> {
    vec![ENDPOINT.as_bytes().to_vec()]
}

fn witness_script(recipient_id: RecipientId) -> Script {
    match recipient_id {
        RecipientId::Witness(script) => script,
        RecipientId::Blind(_) => panic!("a blind recipient has no script"),
    }
}

/// An online test wallet without reuse, with one UTXO row of `btc` satoshis that exists.
fn wallet_with_utxo(btc: u64) -> (Wallet, Online) {
    let mut wallet = get_test_wallet();
    let online = wallet.go_online();
    wallet.set_txo(DbTxo {
        idx: 0,
        txid: 900,
        vout: 0,
        btc_amount: btc,
        spent: false,
        exists: true,
        pending_witness: false,
    });
    (wallet, online)
}

fn vanilla_output(wallet: &Wallet, txid: u64, btc: u64) -> IndexedTxo {
    IndexedTxo {
        outpoint: Outpoint { txid, vout: 0 },
        script: wallet.script_at(Keychain::Vanilla, 0),
        btc_amount: btc,
    }
}

fn blind_recipient(seal: u64, amount: u64) -> Recipient {
    Recipient {
        assignment: Assignment::Fungible(amount),
        recipient_id: RecipientId::Blind(seal),
        witness_data: None,
        transport_endpoints: endpoints(),
    }
}

#[test]
fn hex_encodes_lower_case_and_decodes_either_case() {
    assert_eq!(hex_encode(&[0x00, 0xab, 0x1f]), b"00ab1f".to_vec());
    assert_eq!(hex_decode(b"00AB1f"), Some(vec![0x00, 0xab, 0x1f]));
    assert_eq!(hex_decode(b"0g"), None);
    assert_eq!(hex_decode(b"abc"), None);
    let bytes: Vec<u8> = (0..=255u8).collect();
    assert_eq!(hex_decode(&hex_encode(&bytes)), Some(bytes));
}

#[test]
fn nonce_is_added_and_extracted_back() {
    let nonce = [0x11u8; 16];
    let with_nonce = add_recipient_nonce(ENDPOINT.as_bytes(), &nonce);
    assert_eq!(
        with_nonce,
        format!("{}?rid_nonce={}", ENDPOINT, "11".repeat(16)).into_bytes()
    );
    let (base, extracted) = extract_recipient_nonce(&with_nonce).unwrap();
    assert_eq!(base, ENDPOINT.as_bytes().to_vec());
    assert_eq!(extracted, Some(nonce.to_vec()));
}

#[test]
fn endpoints_without_nonce_are_handed_back_whole() {
    let (base, nonce) = extract_recipient_nonce(ENDPOINT.as_bytes()).unwrap();
    assert_eq!(base, ENDPOINT.as_bytes().to_vec());
    assert_eq!(nonce, None);
    let query = format!("{}?token=x", ENDPOINT).into_bytes();
    assert_eq!(extract_recipient_nonce(&query).unwrap(), (query.clone(), None));
    let not_the_parameter = format!("{}?rid_nonces=1", ENDPOINT).into_bytes();
    assert_eq!(
        extract_recipient_nonce(&not_the_parameter).unwrap(),
        (not_the_parameter.clone(), None)
    );
}

#[test]
fn malformed_nonces_are_refused() {
    let malformed = Err(Error::InvalidTransportEndpoints {
        details: EndpointIssue::MalformedNonce,
    });
    for endpoint in [
        format!("{}?rid_nonce={}", ENDPOINT, "zz".repeat(16)),
        format!("{}?rid_nonce={}", ENDPOINT, "11".repeat(15)),
        format!("{}?a=1&rid_nonce={}", ENDPOINT, "11".repeat(16)),
        format!("{}?rid_nonce", ENDPOINT),
    ] {
        assert_eq!(extract_recipient_nonce(endpoint.as_bytes()), malformed);
    }
}

#[test]
fn endpoint_issues_are_told_apart() {
    let reserved = vec![format!("{}?rid_nonce={}", ENDPOINT, "11".repeat(16)).into_bytes()];
    let query = vec![format!("{}?token=x", ENDPOINT).into_bytes()];
    assert_eq!(endpoints_issue(&reserved, false), Some(EndpointIssue::ReservedParameter));
    assert_eq!(endpoints_issue(&reserved, true), Some(EndpointIssue::ReservedParameter));
    assert_eq!(endpoints_issue(&vec![], true), Some(EndpointIssue::MissingEndpoint));
    assert_eq!(endpoints_issue(&vec![], false), None);
    assert_eq!(endpoints_issue(&query, true), Some(EndpointIssue::QueryString));
    assert_eq!(endpoints_issue(&query, false), None);
    assert_eq!(endpoints_issue(&endpoints(), true), None);
}

#[test]
fn invoice_nonce_cases() {
    assert_eq!(
        invoice_nonce(&vec![]),
        Err(Error::InvalidTransportEndpoints { details: EndpointIssue::MissingEndpoint })
    );
    assert_eq!(invoice_nonce(&endpoints()), Ok(vec![]));
    let nonce = [0xa5u8; 16];
    let with_nonce = vec![add_recipient_nonce(ENDPOINT.as_bytes(), &nonce), endpoints()[0].clone()];
    assert_eq!(invoice_nonce(&with_nonce), Ok(nonce.to_vec()));
    let mut truncated = add_recipient_nonce(ENDPOINT.as_bytes(), &nonce);
    truncated.pop();
    assert_eq!(
        invoice_nonce(&vec![endpoints()[0].clone(), truncated]),
        Err(Error::InvalidTransportEndpoints { details: EndpointIssue::MalformedNonce })
    );
}

#[test]
fn keychain_requests_pin_under_reuse_and_advance_without() {
    let mut keychain = KeychainState::new();
    assert_eq!(keychain.last_revealed(), None);
    assert_eq!(keychain.address_index(true), Ok(0));
    assert_eq!(keychain.address_index(true), Ok(0));
    assert_eq!(keychain.revealed, 1);
    assert_eq!(keychain.address_index(false), Ok(1));
    assert_eq!(keychain.address_index(false), Ok(2));
    // turning reuse on pins the last revealed index
    assert_eq!(keychain.address_index(true), Ok(2));
    assert_eq!(keychain.last_revealed(), Some(2));

    let mut full = KeychainState { revealed: MAX_REVEALED };
    assert_eq!(full.reveal_next(), Err(Error::KeychainExhausted));
    assert_eq!(full.address_index(false), Err(Error::KeychainExhausted));
    assert_eq!(full.address_index(true), Ok(MAX_REVEALED - 1));
}

#[test]
fn hub_index_below_the_local_pin_is_asked_again() {
    let mut keychain = KeychainState { revealed: 3 };
    assert_eq!(keychain.apply_hub_index(1), None);
    assert_eq!(keychain.apply_hub_index(2), None);
    assert_eq!(keychain.revealed, 3);
    assert_eq!(keychain.apply_hub_index(5), Some(5));
    assert_eq!(keychain.last_revealed(), Some(5));
}

#[test]
fn wallet_refuses_foreign_keys_and_directories() {
    let keys = generate_keys(BitcoinNetwork::Mainnet, WitnessVersion::Taproot);
    assert!(matches!(
        Wallet::new(get_test_wallet_data("tests/tmp"), keys),
        Err(Error::InvalidBitcoinKeys)
    ));

    let keys = generate_keys(BitcoinNetwork::Regtest, WitnessVersion::Taproot);
    let wallet = Wallet::new(get_test_wallet_data("tests/tmp"), keys).unwrap();
    let db = wallet.close();
    let mut other = keys;
    other.master_fingerprint = keys.master_fingerprint.wrapping_add(1);
    assert!(matches!(
        Wallet::open(get_test_wallet_data("tests/tmp"), other, db),
        Err(Error::WalletDirAlreadyInUse)
    ));
    let wallet = Wallet::new(get_test_wallet_data("tests/tmp"), keys).unwrap();
    let db = wallet.close();
    assert!(matches!(
        Wallet::load(db, other.master_fingerprint),
        Err(Error::WalletDirAlreadyInUse)
    ));
    let wallet = Wallet::new(get_test_wallet_data("tests/tmp"), keys).unwrap();
    let mut twin = keys;
    twin.account_xpub = keys.account_xpub ^ (1u128 << 100);
    assert_eq!(twin.master_fingerprint, keys.master_fingerprint);
    assert!(matches!(
        Wallet::open(get_test_wallet_data("tests/tmp"), twin, wallet.close()),
        Err(Error::WalletDirAlreadyInUse)
    ));
    let wallet = Wallet::new(get_test_wallet_data("tests/tmp"), keys).unwrap();
    let mut segwit = keys;
    segwit.witness_version = WitnessVersion::SegwitV0;
    assert!(matches!(
        Wallet::open(get_test_wallet_data("tests/tmp"), segwit, wallet.close()),
        Err(Error::WalletDirAlreadyInUse)
    ));
}

#[test]
fn each_session_has_its_own_online_id() {
    let mut wallet = get_test_wallet();
    let fingerprint = wallet.get_keys().master_fingerprint as u64;
    let first = wallet.go_online();
    assert_eq!(first.id, fingerprint << 32);
    assert_eq!(wallet.check_online(first), Ok(()));
    let second = wallet.go_online();
    assert_eq!(second.id, (fingerprint << 32) | 1);
    assert_eq!(wallet.check_online(first), Err(Error::CannotChangeOnline));
    assert_eq!(wallet.check_online(second), Ok(()));
}

#[test]
fn sync_is_idempotent_and_vanilla_sync_changes_nothing() {
    let (mut wallet, online) = wallet_with_utxo(1000);
    // an output the wallet made, not yet seen, and one it holds that has gone
    wallet.set_txo(DbTxo {
        idx: 0,
        txid: 901,
        vout: 1,
        btc_amount: 1000,
        spent: false,
        exists: false,
        pending_witness: false,
    });
    let seen = IndexedTxo {
        outpoint: Outpoint { txid: 901, vout: 1 },
        script: wallet.script_at(Keychain::Colored, 0),
        btc_amount: 1000,
    };
    let observed = vec![seen];

    let before: Vec<DbTxo> = wallet.db.txos.clone();
    wallet
        .sync(online, SyncOptions { keychain: SyncKeychain::Vanilla }, &observed)
        .unwrap();
    assert_eq!(wallet.db.txos, before);

    let colored = SyncOptions { keychain: SyncKeychain::Colored };
    wallet.sync(online, colored, &observed).unwrap();
    let once: Vec<DbTxo> = wallet.db.txos.clone();
    assert!(once[0].spent && once[0].exists);
    assert!(!once[1].spent && once[1].exists);
    wallet.sync(online, colored, &observed).unwrap();
    assert_eq!(wallet.db.txos, once);
}

#[test]
fn sync_adds_seen_outputs_and_flags_foreign_payments_to_watched_scripts() {
    let mut wallet = get_test_wallet();
    let online = wallet.go_online();
    let receive = wallet
        .witness_receive(None, Assignment::Any, None, endpoints(), MIN_CONFIRMATIONS)
        .unwrap();
    let script = match receive.recipient_id {
        RecipientId::Witness(s) => s,
        RecipientId::Blind(_) => unreachable!(),
    };
    assert_eq!(wallet.db.pending_witness_scripts, vec![script]);
    let foreign = IndexedTxo { outpoint: Outpoint { txid: 7, vout: 0 }, script, btc_amount: 500 };
    let own_txid = 8;
    wallet.db.own_txids.push(own_txid);
    let own = IndexedTxo {
        outpoint: Outpoint { txid: own_txid, vout: 3 },
        script,
        btc_amount: 1000,
    };
    wallet
        .sync(online, SyncOptions { keychain: SyncKeychain::Colored }, &vec![foreign, own])
        .unwrap();
    assert_eq!(wallet.db.txos.len(), 2);
    let foreign_row = wallet.get_txo(foreign.outpoint).unwrap();
    let own_row = wallet.get_txo(own.outpoint).unwrap();
    assert!(foreign_row.pending_witness && foreign_row.exists && foreign_row.btc_amount == 500);
    assert!(!own_row.pending_witness && own_row.exists);
    // the invoice is still pending: its script stays watched
    assert_eq!(wallet.db.pending_witness_scripts, vec![script]);
}

#[test]
fn issuance_errors_and_balance() {
    let mut wallet = get_test_wallet();
    let online = wallet.go_online();
    assert_eq!(
        wallet.issue_asset(online, 1, &vec![10], 0),
        Err(Error::InsufficientAllocationSlots)
    );
    let (mut wallet, online) = wallet_with_utxo(1000);
    assert_eq!(wallet.issue_asset(online, 1, &vec![], 0), Err(Error::NoIssuanceAmounts));
    assert_eq!(
        wallet.issue_asset(online, 1, &vec![u64::MAX, 1], 0),
        Err(Error::TooHighIssuanceAmounts)
    );
    assert_eq!(wallet.issue_asset(Online { id: 3 }, 1, &vec![10], 0), Err(Error::CannotChangeOnline));
    wallet.issue_asset(online, 1, &vec![10, 20], 0).unwrap();
    let balance = wallet.get_asset_balance(1).unwrap();
    assert_eq!((balance.settled, balance.future, balance.spendable), (30, 30, 30));
    let other = wallet.get_asset_balance(2).unwrap();
    assert_eq!((other.settled, other.future, other.spendable), (0, 0, 0));
    assert_eq!(wallet.db.transfers[0].kind, TransferKind::Issuance);
    assert_eq!(wallet.db.transfers[0].status, TransferStatus::Settled);
}

#[test]
fn blind_receive_needs_a_free_utxo() {
    let mut wallet = get_test_wallet();
    assert!(matches!(
        wallet.blind_receive(None, Assignment::Any, None, endpoints(), MIN_CONFIRMATIONS),
        Err(Error::InsufficientAllocationSlots)
    ));
    let (mut wallet, _online) = wallet_with_utxo(1000);
    let receive = wallet
        .blind_receive(Some(4), Assignment::Fungible(5), Some(99), endpoints(), MIN_CONFIRMATIONS)
        .unwrap();
    let transfer = &wallet.db.transfers[receive.batch_transfer_idx];
    assert!(matches!(transfer.recipient_type, Some(RecipientTypeFull::Blind { txo_idx: 0 })));
    assert_eq!(transfer.status, TransferStatus::WaitingCounterparty);
    assert_eq!(transfer.expiration_timestamp, Some(99));
    assert_eq!(receive.invoice_data.asset_id, Some(4));
}

#[test]
fn send_checks_in_order() {
    let (mut wallet, online) = wallet_with_utxo(1000);
    wallet.issue_asset(online, 1, &vec![30], 0).unwrap();
    let vanilla = vec![vanilla_output(&wallet, 500, 10_000)];
    let send = |wallet: &mut Wallet, recipient: Recipient, vanilla: &Vec<IndexedTxo>, fee_rate: u64| {
        wallet
            .prepare_send(online, 1, &recipient, vanilla, 77, fee_rate)
            .map(|p| p.transfer_idx)
    };
    let mut any = blind_recipient(7, 1);
    any.assignment = Assignment::Any;
    assert_eq!(send(&mut wallet, any, &vanilla, FEE_RATE), Err(Error::InvalidAssignment));
    assert_eq!(send(&mut wallet, blind_recipient(7, 0), &vanilla, FEE_RATE), Err(Error::InvalidAmountZero));
    let mut with_witness = blind_recipient(7, 1);
    with_witness.witness_data = Some(WitnessData { amount_sat: 1000 });
    assert_eq!(send(&mut wallet, with_witness, &vanilla, FEE_RATE), Err(Error::InvalidRecipientData));
    let mut no_endpoints = blind_recipient(7, 1);
    no_endpoints.transport_endpoints = vec![];
    assert_eq!(
        send(&mut wallet, no_endpoints, &vanilla, FEE_RATE),
        Err(Error::InvalidTransportEndpoints { details: EndpointIssue::MissingEndpoint })
    );
    assert_eq!(send(&mut wallet, blind_recipient(7, 1), &vanilla, u64::MAX), Err(Error::InvalidFeeRate));
    assert_eq!(send(&mut wallet, blind_recipient(7, 31), &vanilla, FEE_RATE), Err(Error::InsufficientAssets));
    let huge = vec![vanilla_output(&wallet, 501, u64::MAX), vanilla_output(&wallet, 502, 1)];
    assert_eq!(send(&mut wallet, blind_recipient(7, 1), &huge, FEE_RATE), Err(Error::BitcoinOverflow));
    // the UTXO alone pays its own change output but not the fee
    assert_eq!(send(&mut wallet, blind_recipient(7, 1), &vec![], FEE_RATE), Err(Error::InsufficientBitcoins));
    // nothing changed on the failed attempts
    assert_eq!(wallet.db.transfers.len(), 1);
    assert_eq!(wallet.db.txos.len(), 1);
    assert_eq!(wallet.db.vanilla.revealed, 0);
}

#[test]
fn send_records_change_and_reserves_inputs() {
    let (mut wallet, online) = wallet_with_utxo(1000);
    wallet.issue_asset(online, 1, &vec![30], 0).unwrap();
    let vanilla = vec![vanilla_output(&wallet, 500, 10_000)];
    let prepared = wallet
        .prepare_send(online, 1, &blind_recipient(7, 10), &vanilla, 77, FEE_RATE)
        .unwrap();
    assert_eq!(prepared.transfer_idx, 1);
    assert_eq!(
        prepared.consignment,
        Consignment { asset_id: 1, amount: 10, txid: 77, vout: None, script: None, seal: Some(7), btc_amount: 0 }
    );
    assert_eq!(prepared.proxy_key.recipient_id, RecipientId::Blind(7));
    assert!(prepared.proxy_key.nonce.is_empty());

    let transfer = &wallet.db.transfers[1];
    assert_eq!(transfer.kind, TransferKind::Send);
    assert_eq!(transfer.status, TransferStatus::WaitingCounterparty);
    assert_eq!(transfer.txid, Some(77));
    assert_eq!(
        transfer.tx_inputs,
        vec![Outpoint { txid: 900, vout: 0 }, Outpoint { txid: 500, vout: 0 }]
    );
    // colored change of UTXO_SIZE, then the bitcoin change: 1000 + 10000 - 1000 - 2 * 200
    assert_eq!(
        transfer.tx_outputs,
        vec![
            TxOut { script: wallet.script_at(Keychain::Colored, 0), amount: UTXO_SIZE },
            TxOut {
                script: wallet.script_at(Keychain::Vanilla, 0),
                amount: 1000 + 10_000 - UTXO_SIZE - FEE_RATE * TX_VSIZE,
            },
        ]
    );
    let change = wallet.db.txos[1];
    assert_eq!((change.txid, change.vout, change.exists), (77, 0, false));
    assert_eq!(wallet.db.own_txids, vec![77]);
    let balance = wallet.get_asset_balance(1).unwrap();
    // the input still holds its settled 30; only the change of 20 counts for the future, and
    // nothing can be spent while the send is under way
    assert_eq!((balance.settled, balance.future, balance.spendable), (30, 20, 0));
}

#[test]
fn witness_send_pays_the_recipient_first() {
    let (mut wallet, online) = wallet_with_utxo(1000);
    wallet.issue_asset(online, 1, &vec![30], 0).unwrap();
    let vanilla = vec![vanilla_output(&wallet, 500, 10_000)];
    let target = Script {
        account_xpub: 42,
        keychain: Keychain::Colored,
        index: 3,
        witness_version: WitnessVersion::Taproot,
    };
    let nonce = [9u8; 16];
    let recipient = Recipient {
        assignment: Assignment::Fungible(30),
        recipient_id: RecipientId::Witness(target),
        witness_data: Some(WitnessData { amount_sat: 1500 }),
        transport_endpoints: vec![add_recipient_nonce(ENDPOINT.as_bytes(), &nonce)],
    };
    let prepared = wallet
        .prepare_send(online, 1, &recipient, &vanilla, 78, FEE_RATE)
        .unwrap();
    assert_eq!(prepared.consignment.vout, Some(0));
    assert_eq!(prepared.consignment.btc_amount, 1500);
    assert_eq!(prepared.proxy_key.nonce, nonce.to_vec());
    let transfer = &wallet.db.transfers[1];
    assert_eq!(transfer.tx_outputs[0], TxOut { script: target, amount: 1500 });
    assert_eq!(transfer.tx_outputs[2].amount, 11_000 - 1500 - UTXO_SIZE - FEE_RATE * TX_VSIZE);
    assert_eq!(transfer.proxy_nonce, nonce.to_vec());
    // the whole amount goes: no change allocation, the change row sits after the witness output
    assert_eq!(wallet.db.allocations.len(), 1);
    assert_eq!(wallet.db.txos[1].vout, 1);
}

#[test]
fn consignments_are_checked_against_the_invoice() {
    let (mut wallet, online) = wallet_with_utxo(1000);
    let receive = wallet
        .blind_receive_with_seal(Some(1), Assignment::Fungible(5), None, endpoints(), MIN_CONFIRMATIONS, 44)
        .unwrap();
    let idx = receive.batch_transfer_idx;
    let good = Consignment { asset_id: 1, amount: 5, txid: 300, vout: None, script: None, seal: Some(44), btc_amount: 0 };
    assert_eq!(wallet.accept_consignment(idx + 1, good), Err(Error::UnknownTransfer { idx: idx + 1 }));
    assert_eq!(wallet.settle(idx), Err(Error::NotWaitingConfirmations { idx }));
    assert_eq!(wallet.mark_broadcast(idx), Err(Error::NotWaitingSend { idx }));
    assert_eq!(wallet.accept_consignment(idx, good), Ok(true));
    assert_eq!(wallet.accept_consignment(idx, good), Err(Error::NotWaitingReceive { idx }));
    assert_eq!(wallet.db.transfers[idx].status, TransferStatus::WaitingConfirmations);
    assert_eq!(wallet.get_asset_balance(1).unwrap().settled, 0);
    assert_eq!(wallet.settle(idx), Ok(()));
    assert_eq!(wallet.get_asset_balance(1).unwrap().settled, 5);

    // a wrong seal, asset or amount fails the receive and credits nothing
    for bad in [
        Consignment { seal: Some(45), ..good },
        Consignment { asset_id: 2, ..good },
        Consignment { amount: 6, ..good },
        Consignment { vout: Some(0), seal: None, ..good },
    ] {
        let receive = wallet
            .blind_receive_with_seal(Some(1), Assignment::Fungible(5), None, endpoints(), MIN_CONFIRMATIONS, 44)
            .unwrap();
        let allocations = wallet.db.allocations.len();
        assert_eq!(wallet.accept_consignment(receive.batch_transfer_idx, bad), Ok(false));
        assert_eq!(wallet.db.transfers[receive.batch_transfer_idx].status, TransferStatus::Failed);
        assert_eq!(wallet.db.allocations.len(), allocations);
        assert_eq!(wallet.fail_transfers(online, receive.batch_transfer_idx), Ok(false));
    }
    assert_eq!(wallet.get_asset_balance(1).unwrap().settled, 5);
}

#[test]
fn a_witness_payment_is_credited_once() {
    let mut wallet = get_test_wallet();
    let online = wallet.go_online();
    let first = wallet
        .witness_receive_with_nonce(None, Assignment::Any, None, endpoints(), MIN_CONFIRMATIONS, &[1u8; 16])
        .unwrap();
    let second = wallet
        .witness_receive_with_nonce(None, Assignment::Any, None, endpoints(), MIN_CONFIRMATIONS, &[2u8; 16])
        .unwrap();
    let paid = Consignment {
        asset_id: 1,
        amount: 8,
        txid: 400,
        vout: Some(0),
        script: Some(witness_script(first.recipient_id)),
        seal: None,
        btc_amount: 1000,
    };
    assert_eq!(wallet.accept_consignment(first.batch_transfer_idx, paid), Ok(true));
    let row = wallet.get_txo(Outpoint { txid: 400, vout: 0 }).unwrap();
    assert!(row.pending_witness && !row.exists && row.btc_amount == 1000);
    let replay = Consignment { script: Some(witness_script(second.recipient_id)), ..paid };
    assert_eq!(wallet.accept_consignment(second.batch_transfer_idx, replay), Ok(false));
    assert_eq!(wallet.db.allocations.len(), 1);
    // another output of the same transaction is a different payment
    let third = wallet
        .witness_receive_with_nonce(None, Assignment::Any, None, endpoints(), MIN_CONFIRMATIONS, &[3u8; 16])
        .unwrap();
    let other_output =
        Consignment { vout: Some(1), script: Some(witness_script(third.recipient_id)), ..paid };
    assert_eq!(wallet.accept_consignment(third.batch_transfer_idx, other_output), Ok(true));
    assert_eq!(wallet.settle(first.batch_transfer_idx), Ok(()));
    assert!(!wallet.get_txo(Outpoint { txid: 400, vout: 0 }).unwrap().pending_witness);
    assert_eq!(wallet.fail_transfers(online, first.batch_transfer_idx), Err(Error::CannotFailTransfer {
        idx: first.batch_transfer_idx
    }));
    assert_eq!(wallet.fail_transfers(online, 99), Err(Error::UnknownTransfer { idx: 99 }));
    assert_eq!(wallet.fail_transfers(Online { id: 1 }, 0), Err(Error::CannotChangeOnline));
}

#[test]
fn bitcoin_transactions_check_funding() {
    let (mut wallet, online) = wallet_with_utxo(1000);
    let vanilla = vec![vanilla_output(&wallet, 500, 10_000)];
    assert_eq!(
        wallet.prepare_create_utxos(online, &vanilla, 0, 80, FEE_RATE).map(|r| r.1),
        Err(Error::InvalidUtxoNum)
    );
    assert_eq!(
        wallet.prepare_create_utxos(online, &vanilla, 10, 80, FEE_RATE).map(|r| r.1),
        Err(Error::InsufficientBitcoins)
    );
    let address = wallet.script_at(Keychain::Vanilla, 9);
    assert_eq!(
        wallet.prepare_send_btc(online, &vanilla, address, 0, 81, FEE_RATE).map(|r| r.1),
        Err(Error::InvalidAmountZero)
    );
    assert_eq!(
        wallet.prepare_send_btc(Online { id: 5 }, &vanilla, address, 1, 81, FEE_RATE).map(|r| r.1),
        Err(Error::CannotChangeOnline)
    );
    let (inputs, outputs) = wallet.prepare_create_utxos(online, &vanilla, 3, 80, FEE_RATE).unwrap();
    assert_eq!(inputs, vec![Outpoint { txid: 500, vout: 0 }]);
    // without reuse each UTXO gets the next colored address
    assert_eq!(
        outputs,
        vec![
            TxOut { script: wallet.script_at(Keychain::Colored, 0), amount: UTXO_SIZE },
            TxOut { script: wallet.script_at(Keychain::Colored, 1), amount: UTXO_SIZE },
            TxOut { script: wallet.script_at(Keychain::Colored, 2), amount: UTXO_SIZE },
            TxOut {
                script: wallet.script_at(Keychain::Vanilla, 0),
                amount: 10_000 - 3 * UTXO_SIZE - FEE_RATE * TX_VSIZE,
            },
        ]
    );
    assert_eq!((wallet.db.colored.revealed, wallet.db.vanilla.revealed), (3, 1));
    let (_, outputs) = wallet
        .prepare_send_btc(online, &vanilla, address, 1234, 81, FEE_RATE)
        .unwrap();
    assert_eq!(outputs[0], TxOut { script: address, amount: 1234 });
    assert_eq!(outputs[1].amount, 10_000 - 1234 - FEE_RATE * TX_VSIZE);
    assert_eq!(outputs[1].script, wallet.script_at(Keychain::Vanilla, 1));
    assert_eq!(wallet.db.own_txids, vec![80, 81]);
}

#[test]
fn inflation_checks_the_allowance() {
    let (mut wallet, online) = wallet_with_utxo(1000);
    let vanilla = vec![vanilla_output(&wallet, 500, 10_000)];
    wallet.issue_asset(online, 1, &vec![50], 25).unwrap();
    assert_eq!(
        wallet.prepare_inflation(online, 2, &vec![5], &vanilla, 90, FEE_RATE).map(|r| r.1),
        Err(Error::UnknownAsset)
    );
    assert_eq!(
        wallet.prepare_inflation(online, 1, &vec![20, 6], &vanilla, 90, FEE_RATE).map(|r| r.1),
        Err(Error::InflationAllowanceExceeded)
    );
    assert_eq!(
        wallet.prepare_inflation(online, 1, &vec![], &vanilla, 90, FEE_RATE).map(|r| r.1),
        Err(Error::NoIssuanceAmounts)
    );
    wallet.prepare_inflation(online, 1, &vec![20, 5], &vanilla, 90, FEE_RATE).unwrap();
    assert_eq!(wallet.db.assets[0].inflation_allowance, 0);
    assert_eq!(wallet.db.txos.len(), 3);
    assert_eq!((wallet.db.txos[2].txid, wallet.db.txos[2].vout), (90, 1));
    let balance = wallet.get_asset_balance(1).unwrap();
    assert_eq!((balance.settled, balance.future), (50, 75));
    assert_eq!(wallet.settle(1), Ok(()));
    assert_eq!(wallet.get_asset_balance(1).unwrap().settled, 75);
}

#[test]
fn proxy_mailboxes_are_unique() {
    let mut proxy = Proxy::new();
    let key = derive_proxy_recipient_id(&RecipientId::Blind(5), &[1, 2]);
    let other = derive_proxy_recipient_id(&RecipientId::Blind(5), &[1, 3]);
    let c = Consignment { asset_id: 1, amount: 1, txid: 1, vout: None, script: None, seal: Some(5), btc_amount: 0 };
    assert_eq!(proxy.set_ack(&key, true), Err(Error::ProxyUnknownRecipientId));
    assert_eq!(proxy.post_consignment(&key, c), Ok(()));
    assert_eq!(proxy.post_consignment(&key, c), Err(Error::ProxyRecipientIdInUse));
    assert_eq!(proxy.get_consignment(&other), None);
    assert_eq!(proxy.set_ack(&key, false), Ok(()));
    assert_eq!(proxy.get_consignment(&key), Some((c, Some(false))));
}

#[test]
fn chain_refuses_double_spends_and_runs_out_of_ids() {
    let mut full = Regtest { txs: vec![], next_txid: u64::MAX };
    assert_eq!(full.reserve_txid(), Err(Error::ChainFull));

    let mut chain = Regtest::new();
    let script = Script {
        account_xpub: 1,
        keychain: Keychain::Vanilla,
        index: 0,
        witness_version: WitnessVersion::SegwitV0,
    };
    let funding = chain.fund(script, 5000).unwrap();
    let spend = chain.reserve_txid().unwrap();
    let input = Outpoint { txid: funding, vout: 0 };
    let output = TxOut { script, amount: 4000 };
    assert_eq!(chain.broadcast(spend, vec![input, input], vec![output]), Err(Error::InvalidTransaction));
    assert_eq!(chain.broadcast(spend, vec![input], vec![output]), Ok(()));
    let again = chain.reserve_txid().unwrap();
    assert_eq!(chain.broadcast(again, vec![input], vec![output]), Err(Error::InvalidTransaction));
    let unspent = chain.unspent_for(1, Keychain::Vanilla);
    assert_eq!(unspent.len(), 1);
    assert_eq!(unspent[0].outpoint, Outpoint { txid: spend, vout: 0 });
    assert!(!chain.is_confirmed(spend));
    chain.mine();
    assert!(chain.is_confirmed(spend));
    assert!(chain.unspent_for(2, Keychain::Vanilla).is_empty());
}

#[test]
fn unknown_txo_rows_are_refused() {
    let (mut wallet, _online) = wallet_with_utxo(1000);
    let row = wallet.db.txos[0];
    assert_eq!(wallet.update_txo(DbTxo { idx: 1, ..row }), Err(Error::UnknownTxo { idx: 1 }));
    assert_eq!(wallet.update_txo(DbTxo { spent: true, ..row }), Ok(()));
    assert!(wallet.db.txos[0].spent);
    assert_eq!(wallet.first_available_txo(), None);
}

#[test]
fn hub_rotation_gives_up_or_refuses() {
    let mut keychain = KeychainState { revealed: 4 };
    assert_eq!(rotate_with_hub(&mut keychain, &vec![1, 3]), Ok(None));
    assert_eq!(keychain.revealed, 4);
    assert_eq!(
        rotate_with_hub(&mut keychain, &vec![0, MAX_REVEALED, 9]),
        Err(Error::KeychainExhausted)
    );
    assert_eq!(keychain.revealed, 4);
    assert_eq!(rotate_with_hub(&mut keychain, &vec![3, 4, 9]), Ok(Some((4, 2))));
    assert_eq!(keychain.revealed, 5);
}

#[test]
fn payment_to_an_output_credited_elsewhere_does_not_settle() {

    let mut world = World::new(ENDPOINT.as_bytes().to_vec());
    let mut sender = get_funded_party(&mut world, false, WitnessVersion::Taproot).unwrap();
    let asset_id = world.issue_asset(&mut sender, &vec![AMOUNT], 0).unwrap();
    let mut receiver = get_funded_reuse_party(&mut world).unwrap();

    // invoice A takes a consignment naming the output the next payment will land on
    let receive_a = receiver
        .wallet
        .witness_receive(None, Assignment::Any, None, endpoints(), MIN_CONFIRMATIONS)
        .unwrap();
    let (_, nonce_a) = extract_recipient_nonce(&receive_a.invoice_data.transport_endpoints[0]).unwrap();
    let key_a = derive_proxy_recipient_id(&receive_a.recipient_id, &nonce_a.unwrap());
    let next_txid = world.chain.next_txid;
    let claim = Consignment {
        asset_id,
        amount: 1,
        txid: next_txid,
        vout: Some(0),
        script: Some(witness_script(receive_a.recipient_id)),
        seal: None,
        btc_amount: 1000,
    };
    assert_eq!(world.proxy.post_consignment(&key_a, claim), Ok(()));
    assert_eq!(world.refresh(&mut receiver), Ok(true));
    let accepted = receiver.wallet.db.transfers.len() - 1;
    assert_eq!(receiver.wallet.db.transfers[accepted].status, TransferStatus::WaitingConfirmations);

    // the payment lands on that output: the receiver refuses it, the send fails
    let receiver_len = receiver.wallet.db.transfers.len();
    let sender_len = sender.wallet.db.transfers.len();
    assert_eq!(
        pay_witness_invoice(&mut world, &mut sender, &mut receiver, asset_id),
        Err(Error::PaymentNotSettled)
    );
    assert_eq!(receiver.wallet.db.transfers[receiver_len].status, TransferStatus::Failed);
    assert_eq!(sender.wallet.db.transfers[sender_len].status, TransferStatus::Failed);
}

#[test]
fn refresh_answers_a_waiting_consignment_and_reports_it() {

    let mut world = World::new(ENDPOINT.as_bytes().to_vec());
    let mut receiver = get_funded_reuse_party(&mut world).unwrap();
    assert_eq!(world.refresh(&mut receiver), Ok(false));
    let receive = receiver
        .wallet
        .witness_receive(None, Assignment::Any, None, endpoints(), MIN_CONFIRMATIONS)
        .unwrap();
    assert_eq!(world.refresh(&mut receiver), Ok(false));
    let (_, nonce) = extract_recipient_nonce(&receive.invoice_data.transport_endpoints[0]).unwrap();
    let key = derive_proxy_recipient_id(&receive.recipient_id, &nonce.unwrap());
    let c = Consignment {
        asset_id: 7,
        amount: 5,
        txid: 4000,
        vout: Some(1),
        script: Some(witness_script(receive.recipient_id)),
        seal: None,
        btc_amount: 1000,
    };
    assert_eq!(world.proxy.post_consignment(&key, c), Ok(()));
    assert_eq!(world.refresh(&mut receiver), Ok(true));
    let t = &receiver.wallet.db.transfers[receive.batch_transfer_idx];
    assert_eq!(t.status, TransferStatus::WaitingConfirmations);
    assert_eq!(t.txid, Some(4000));
    assert_eq!(t.amount, 5);
    assert_eq!(world.proxy.get_consignment(&key), Some((c, Some(true))));
    // answered once: a second refresh changes nothing
    assert_eq!(world.refresh(&mut receiver), Ok(false));
}

#[test]
fn a_witness_consignment_must_pay_the_invoice_script() {
    let mut wallet = get_test_wallet();
    wallet.go_online();
    let receive = wallet
        .witness_receive_with_nonce(None, Assignment::Any, None, endpoints(), MIN_CONFIRMATIONS, &[4u8; 16])
        .unwrap();
    let script = witness_script(receive.recipient_id);
    let elsewhere = Script { index: script.index + 1, ..script };
    let c = Consignment {
        asset_id: 1,
        amount: 8,
        txid: 500,
        vout: Some(0),
        script: Some(elsewhere),
        seal: None,
        btc_amount: 1000,
    };
    assert_eq!(wallet.accept_consignment(receive.batch_transfer_idx, c), Ok(false));
    assert_eq!(wallet.db.transfers[receive.batch_transfer_idx].status, TransferStatus::Failed);
    assert!(wallet.db.allocations.is_empty());
    let missing = Consignment { script: None, ..c };
    let receive = wallet
        .witness_receive_with_nonce(None, Assignment::Any, None, endpoints(), MIN_CONFIRMATIONS, &[5u8; 16])
        .unwrap();
    assert_eq!(wallet.accept_consignment(receive.batch_transfer_idx, missing), Ok(false));
    let receive = wallet
        .witness_receive_with_nonce(None, Assignment::Any, None, endpoints(), MIN_CONFIRMATIONS, &[6u8; 16])
        .unwrap();
    let right = Consignment { script: Some(witness_script(receive.recipient_id)), ..c };
    assert_eq!(wallet.accept_consignment(receive.batch_transfer_idx, right), Ok(true));
}

#[test]
fn keys_with_the_same_fingerprint_are_different_wallets() {
    let keys = generate_keys(BitcoinNetwork::Regtest, WitnessVersion::Taproot);
    assert_eq!(keys.master_fingerprint, keys.account_xpub as u32);
    let mut twin = keys;
    twin.account_xpub = keys.account_xpub ^ (1u128 << 64);
    let mut wallet = Wallet::new(get_test_wallet_data("tests/tmp"), keys).unwrap();
    let mut other = Wallet::new(get_test_wallet_data("tests/tmp"), twin).unwrap();
    let address = wallet.get_address().unwrap();
    assert_ne!(address, other.get_address().unwrap());

    let mut chain = Regtest::new();
    chain.fund(address, 5000).unwrap();
    assert_eq!(chain.unspent_for(keys.account_xpub, Keychain::Vanilla).len(), 1);
    assert!(chain.unspent_for(twin.account_xpub, Keychain::Vanilla).is_empty());
}

#[test]
fn each_pin_holds_on_its_own_until_its_rotation() {
    let keys = generate_keys(BitcoinNetwork::Regtest, WitnessVersion::Taproot);
    let mut wallet_data = get_test_wallet_data("tests/tmp");
    wallet_data.reuse_addresses = true;
    let mut wallet = Wallet::new(wallet_data, keys).unwrap();
    wallet.go_online();
    // only the colored pin is read
    let receive = wallet
        .witness_receive_with_nonce(None, Assignment::Any, None, endpoints(), MIN_CONFIRMATIONS, &[7u8; 16])
        .unwrap();
    let colored_pin = wallet.get_new_address().unwrap();
    assert_eq!(receive.recipient_id, RecipientId::Witness(colored_pin));
    // a vanilla rotation leaves the colored pin and the recipient ID alone
    let vanilla = wallet.rotate_vanilla_address().unwrap();
    assert_eq!(wallet.get_new_address().unwrap(), colored_pin);
    assert_eq!(wallet.get_address().unwrap(), vanilla);
    let again = wallet
        .witness_receive_with_nonce(None, Assignment::Any, None, endpoints(), MIN_CONFIRMATIONS, &[8u8; 16])
        .unwrap();
    assert_eq!(again.recipient_id, receive.recipient_id);
    // a colored rotation moves the recipient ID and leaves the vanilla pin alone
    let rotated = wallet.rotate_colored_address().unwrap();
    assert_ne!(rotated, colored_pin);
    assert_eq!(wallet.get_address().unwrap(), vanilla);
    let after = wallet
        .witness_receive_with_nonce(None, Assignment::Any, None, endpoints(), MIN_CONFIRMATIONS, &[9u8; 16])
        .unwrap();
    assert_eq!(after.recipient_id, RecipientId::Witness(rotated));
}

#[test]
fn keys_come_from_their_material() {
    let material: Vec<u8> = (0u8..16).collect();
    let keys = keys_from_material(&material, BitcoinNetwork::Regtest, WitnessVersion::Taproot);
    assert_eq!(keys.account_xpub, 0x000102030405060708090a0b0c0d0e0f);
    assert_eq!(keys.master_fingerprint, 0x0c0d0e0f);
    assert_eq!(keys.bitcoin_network, BitcoinNetwork::Regtest);
    assert_eq!(keys.witness_version, WitnessVersion::Taproot);
    let top = keys_from_material(&vec![0xffu8; 16], BitcoinNetwork::Mainnet, WitnessVersion::SegwitV0);
    assert_eq!(top.account_xpub, u128::MAX);
    assert_eq!(top.master_fingerprint, u32::MAX);
    let drawn = generate_keys(BitcoinNetwork::Regtest, WitnessVersion::Taproot);
    assert_eq!(drawn.master_fingerprint, drawn.account_xpub as u32);
}

#[test]
fn a_new_world_funds_a_party_at_its_pinned_address() {
    let mut world = World::new(ENDPOINT.as_bytes().to_vec());
    assert_eq!(world.chain.next_txid, 1);
    assert!(world.chain.txs.is_empty());
    let mut party = get_funded_reuse_party(&mut world).unwrap();
    assert_eq!(world.chain.txs.len(), 2);
    assert!(world.chain.txs.iter().all(|tx| tx.confirmed));
    let funding = &world.chain.txs[0];
    assert_eq!(funding.txid, 1);
    assert!(funding.inputs.is_empty());
    let pin = party.wallet.get_address().unwrap();
    assert_eq!(funding.outputs, vec![TxOut { script: pin, amount: FUNDING_SAT }]);
    assert_eq!(pin, party.wallet.script_at(Keychain::Vanilla, 0));
    assert_eq!(world.chain.txs[1].txid, 2);
}

#[test]
fn a_reuse_wallet_rotates_its_vanilla_pin_with_a_hub() {
    let keys = generate_keys(BitcoinNetwork::Regtest, WitnessVersion::Taproot);
    let mut wallet_data = get_test_wallet_data("tests/tmp");
    wallet_data.reuse_addresses = true;
    let mut wallet = Wallet::new(wallet_data, keys).unwrap();
    // local pin at index 2
    wallet.get_address().unwrap();
    wallet.rotate_vanilla_address().unwrap();
    let old = wallet.rotate_vanilla_address().unwrap();
    assert_eq!(old, wallet.script_at(Keychain::Vanilla, 2));
    let colored = wallet.get_new_address().unwrap();

    let (rotated, bumps) = wallet.rotate_vanilla_address_with_hub(&vec![2u32, 3u32]).unwrap().unwrap();
    assert_ne!(rotated, old);
    assert_eq!(bumps, 2);
    assert_eq!(rotated, wallet.script_at(Keychain::Vanilla, 3));
    assert_eq!(wallet.get_address().unwrap(), rotated);
    assert_eq!(wallet.get_new_address().unwrap(), colored);
    // answers all below the pin change nothing
    assert_eq!(wallet.rotate_vanilla_address_with_hub(&vec![0u32, 3u32]), Ok(None));
    assert_eq!(wallet.get_address().unwrap(), rotated);

    let mut plain = get_test_wallet();
    assert_eq!(plain.rotate_vanilla_address_with_hub(&vec![5u32]), Err(Error::AddressReuseDisabled));
}
