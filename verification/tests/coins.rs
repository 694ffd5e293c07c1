use std::str::FromStr;

use cpp_joinstr::address_store::StoreEvent;
use cpp_joinstr::chain::{OutPoint, Script, Transaction, TxOutput, Txid};
use cpp_joinstr::coin_store::CoinStore;
use cpp_joinstr::derivator::{Derivator, Error as DerivError};
use cpp_joinstr::types::{AddrAccount, AddressStatus, CoinStatus, Network};
use miniscript::bitcoin::bip32::{DerivationPath, Xpriv, Xpub};
use miniscript::bitcoin::secp256k1::Secp256k1;
use miniscript::bitcoin::NetworkKind;

const PHRASE: &str = "abandon abandon abandon abandon abandon abandon abandon abandon abandon abandon abandon about";

fn test_descriptor(kind: NetworkKind) -> String {
    let m = bip39::Mnemonic::from_str(PHRASE).unwrap();
    let seed = m.to_seed("");
    let secp = Secp256k1::new();
    let master = Xpriv::new_master(kind, &seed).unwrap();
    let path = DerivationPath::from_str("m/84'/1'/0'").unwrap();
    let xpriv = master.derive_priv(&secp, &path).unwrap();
    let xpub = Xpub::from_priv(&secp, &xpriv);
    format!("wpkh([{}/84'/1'/0']{}/<0;1>/*)", master.fingerprint(&secp), xpub)
}

fn derivator() -> Derivator {
    Derivator::new(&test_descriptor(NetworkKind::Test), Network::Regtest).unwrap()
}

fn txid(n: u64) -> Txid {
    Txid::new(n, 0, 0, 0)
}

fn funding_tx(id: Txid, script: &Script, value: u64) -> Transaction {
    Transaction {
        txid: id,
        inputs: vec![OutPoint { txid: Txid::new(0, 0, 0, 99), vout: 0 }],
        outputs: vec![
            TxOutput { value: 1_000, script: Script::from_bytes(vec![0x51]) },
            TxOutput { value, script: script.duplicate() },
        ],
    }
}

fn spending_tx(id: Txid, spent: OutPoint) -> Transaction {
    Transaction {
        txid: id,
        inputs: vec![spent],
        outputs: vec![TxOutput { value: 500, script: Script::from_bytes(vec![0x51]) }],
    }
}

fn store_with_coin() -> (CoinStore, Derivator, Script) {
    let d = derivator();
    let spk0 = d.receive_at(0).unwrap().script;
    let mut store = CoinStore::new(derivator(), 0, 0, 5);
    store.init();
    let missing = store.handle_history_response(vec![(spk0.duplicate(), vec![(txid(1), None)])]);
    assert_eq!(missing, vec![txid(1)]);
    store.handle_txs_response(vec![funding_tx(txid(1), &spk0, 10_000_000)]);
    (store, d, spk0)
}

#[test]
fn descriptor_checks() {
    assert!(Derivator::new(&test_descriptor(NetworkKind::Test), Network::Regtest).is_ok());
    assert_eq!(
        Derivator::new(&test_descriptor(NetworkKind::Test), Network::Bitcoin).unwrap_err(),
        DerivError::WrongNetwork
    );
    assert_eq!(Derivator::new("not a descriptor", Network::Regtest).unwrap_err(), DerivError::InvalidDescriptor);
    let single = test_descriptor(NetworkKind::Test).replace("/<0;1>", "");
    assert_eq!(Derivator::new(&single, Network::Regtest).unwrap_err(), DerivError::NotMultiXpub);
}

#[test]
fn derivation_gives_distinct_branches() {
    let d = derivator();
    let r0 = d.receive_at(0).unwrap();
    let c0 = d.change_at(0).unwrap();
    let r1 = d.receive_at(1).unwrap();
    assert!(r0.address.starts_with("bcrt1"));
    assert_ne!(r0.address, c0.address);
    assert_ne!(r0.address, r1.address);
    assert_eq!(r0.script.bytes.len(), 22);
    assert!(d.receive_at(0x8000_0000).is_none());
    assert_eq!(d.receive_at(0).unwrap().address, r0.address);
}

#[test]
fn init_watches_look_ahead() {
    let mut store = CoinStore::new(derivator(), 0, 0, 5);
    assert_eq!(store.recv_watch_tip(), 6);
    assert_eq!(store.change_watch_tip(), 6);
    store.init();
    assert_eq!(store.address_store().len(), 14);
    let events = store.take_events();
    assert_eq!(events.len(), 1);
    assert!(matches!(events[0], StoreEvent::AddressTipChanged(Some(t)) if t.recv == 6 && t.change == 6));
    assert_eq!(store.take_events().len(), 0);
}

#[test]
fn receive_one_unconfirmed_coin() {
    let (store, d, spk0) = store_with_coin();
    let coins = store.coins();
    assert_eq!(coins.len(), 1);
    let coin = &coins[0];
    assert_eq!(coin.height(), None);
    assert_eq!(coin.status(), CoinStatus::Unconfirmed);
    assert_eq!(coin.status_str(), "Unconfirmed");
    assert_eq!(coin.amount_sat(), 10_000_000);
    assert_eq!(*coin.outpoint(), OutPoint { txid: txid(1), vout: 1 });
    assert_eq!(coin.address(), d.receive_at(0).unwrap().address);
    assert!(coin.spk().same(&spk0));
    assert_eq!(coin.deriv(), (AddrAccount::Receive, 0));
    assert_eq!(coin.sequence(), 0xFFFF_FFFF);
    let entry = store.address_info(&spk0).unwrap();
    assert_eq!(entry.status(), AddressStatus::Used);
}

#[test]
fn confirmation_updates_height() {
    let (mut store, _d, spk0) = store_with_coin();
    let missing = store.handle_history_response(vec![(spk0.duplicate(), vec![(txid(1), Some(1))])]);
    assert!(missing.is_empty());
    store.generate();
    let coins = store.coins();
    assert_eq!(coins.len(), 1);
    assert_eq!(coins[0].height(), Some(1));
    assert_eq!(coins[0].status(), CoinStatus::Confirmed);
}

#[test]
fn spending_marks_coin_spent() {
    let (mut store, _d, spk0) = store_with_coin();
    let spent = OutPoint { txid: txid(1), vout: 1 };
    let missing = store.handle_history_response(vec![(spk0.duplicate(), vec![(txid(1), Some(1)), (txid(2), None)])]);
    assert_eq!(missing, vec![txid(2)]);
    store.handle_txs_response(vec![spending_tx(txid(2), spent)]);
    let coins = store.coins();
    assert_eq!(coins.len(), 1);
    assert_eq!(coins[0].status(), CoinStatus::Spent);
    assert!(store.spendable_coins().is_empty());
    assert_eq!(store.get_by_status(CoinStatus::Spent).len(), 1);
}

#[test]
fn reorg_changes_height() {
    let (mut store, _d, spk0) = store_with_coin();
    store.handle_history_response(vec![(spk0.duplicate(), vec![(txid(1), Some(1))])]);
    let missing = store.handle_history_response(vec![(spk0.duplicate(), vec![(txid(1), Some(2))])]);
    assert!(missing.is_empty());
    store.generate();
    assert_eq!(store.coins()[0].height(), Some(2));
}

#[test]
fn dropped_transaction_removes_coin() {
    let (mut store, _d, spk0) = store_with_coin();
    store.handle_history_response(vec![(spk0.duplicate(), vec![])]);
    store.generate();
    assert!(store.coins().is_empty());
    assert_eq!(store.address_info(&spk0).unwrap().status(), AddressStatus::NotUsed);
}

#[test]
fn generate_twice_gives_same_coins() {
    let (mut store, _d, _spk0) = store_with_coin();
    let before = store.coins();
    store.generate();
    let after = store.coins();
    assert_eq!(before.len(), after.len());
    assert_eq!(before[0].outpoint(), after[0].outpoint());
    assert_eq!(before[0].status(), after[0].status());
    let events = store.take_events();
    assert!(matches!(events.last(), Some(StoreEvent::CoinUpdate)));
}

#[test]
fn receiving_on_later_address_raises_tip() {
    let d = derivator();
    let spk3 = d.receive_at(3).unwrap().script;
    let mut store = CoinStore::new(derivator(), 0, 0, 5);
    store.init();
    store.handle_history_response(vec![(spk3.duplicate(), vec![(txid(7), None)])]);
    assert_eq!(store.recv_tip(), 3);
    assert_eq!(store.recv_watch_tip(), 9);
    assert_eq!(store.change_tip(), 0);
}

#[test]
fn reused_address_status() {
    let (mut store, _d, spk0) = store_with_coin();
    store.handle_history_response(vec![(spk0.duplicate(), vec![(txid(1), None), (txid(3), None)])]);
    store.handle_txs_response(vec![funding_tx(txid(3), &spk0, 20_000)]);
    assert_eq!(store.coins().len(), 2);
    assert_eq!(store.address_info(&spk0).unwrap().status(), AddressStatus::Reused);
}

#[test]
fn new_addresses_advance_tips() {
    let mut store = CoinStore::new(derivator(), 0, 0, 5);
    store.init();
    let d = derivator();
    let a = store.new_recv_addr().unwrap();
    assert_eq!(a.address, d.receive_at(1).unwrap().address);
    assert_eq!(store.recv_tip(), 1);
    let c = store.new_change_addr().unwrap();
    assert_eq!(c.address, d.change_at(1).unwrap().address);
    assert_eq!(store.change_tip(), 1);
}

#[test]
fn history_reports_that_fit() {
    let (store, d, spk0) = store_with_coin();
    // confirming the stored transaction fits
    assert!(store.history_report_fits(&vec![(spk0.duplicate(), vec![(txid(1), Some(100))])]));
    // a script the store does not watch does not
    assert!(!store.history_report_fits(&vec![(Script::from_bytes(vec![0x51]), vec![])]));
    // once a report drops the transaction, a later one adds it anew
    assert!(store.history_report_fits(&vec![
        (spk0.duplicate(), vec![]),
        (spk0.duplicate(), vec![(txid(1), Some(5))]),
    ]));
    // a height change of a transaction not fetched yet does not fit
    let spk1 = d.receive_at(1).unwrap().script;
    let mut fresh = CoinStore::new(derivator(), 0, 0, 5);
    fresh.init();
    let missing = fresh.handle_history_response(vec![(spk1.duplicate(), vec![(txid(7), None)])]);
    assert_eq!(missing, vec![txid(7)]);
    assert!(!fresh.history_report_fits(&vec![(spk1.duplicate(), vec![(txid(7), Some(5))])]));
    assert!(fresh.history_report_fits(&vec![(spk1, vec![(txid(7), None)])]));
}
