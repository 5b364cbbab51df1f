use rgb_lib::db::Assignment;
use rgb_lib::fixtures::{
    get_funded_party, get_funded_wallet_p2wpkh, AMOUNT, FEE_RATE, MIN_CONFIRMATIONS,
};
use rgb_lib::transfer::Recipient;
use rgb_lib::types::WitnessVersion;
use rgb_lib::world::{Party, World};

const PROXY_ENDPOINT: &str = "rpc://127.0.0.1:3000/json-rpc";

fn transport_endpoints() -> Vec<Vec<u8>> {
    vec![PROXY_ENDPOINT.as_bytes().to_vec()]
}

/// Issues an asset on `wallet`, sends `amount` of it to a blind receive of `rcv_wallet`, and
/// checks the sender's future balance.
fn send_blind_and_check(world: &mut World, wallet: &mut Party, rcv_wallet: &mut Party, amount: u64) {
    let asset_id = world.issue_asset(wallet, &vec![AMOUNT], 0).unwrap();
    let receive_data = rcv_wallet
        .wallet
        .blind_receive(None, Assignment::Any, None, transport_endpoints(), MIN_CONFIRMATIONS)
        .unwrap();
    let recipient = Recipient {
        assignment: Assignment::Fungible(amount),
        recipient_id: receive_data.recipient_id,
        witness_data: None,
        transport_endpoints: transport_endpoints(),
    };
    let txid = world.send(wallet, asset_id, &recipient, FEE_RATE).unwrap();
    assert_eq!(wallet.wallet.db.transfers.last().unwrap().txid, Some(txid));

    let balance = wallet.wallet.get_asset_balance(asset_id).unwrap();
    assert_eq!(balance.future, AMOUNT - amount);
}

// End-to-end RGB on P2WPKH: fund + create_utxos + issue NIA + blind_receive + send.
#[test]
fn p2wpkh_send_receive_nia() {
    let amount: u64 = 66;

    let mut world = World::new(PROXY_ENDPOINT.as_bytes().to_vec());
    let mut wallet = get_funded_wallet_p2wpkh(&mut world).unwrap();
    let mut rcv_wallet = get_funded_wallet_p2wpkh(&mut world).unwrap();
    send_blind_and_check(&mut world, &mut wallet, &mut rcv_wallet, amount);
}

// Cross-type RGB transfer (P2TR -> P2WPKH).
#[test]
fn cross_type_p2tr_to_p2wpkh() {
    let amount: u64 = 66;

    let mut world = World::new(PROXY_ENDPOINT.as_bytes().to_vec());
    let mut wallet = get_funded_party(&mut world, false, WitnessVersion::Taproot).unwrap();
    let mut rcv_wallet = get_funded_wallet_p2wpkh(&mut world).unwrap();
    send_blind_and_check(&mut world, &mut wallet, &mut rcv_wallet, amount);
}
