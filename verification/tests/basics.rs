use cpp_joinstr::chain::{OutPoint, Script, Txid};
use cpp_joinstr::coin_store::{HistoryDiff, SpkHistory};
use cpp_joinstr::config::{decimal_text, new_config, parse_decimal, try_new_config, Config};
use cpp_joinstr::label_store::{LabelKey, LabelStore};
use cpp_joinstr::mnemonic::{generate_mnemonic, mnemonic_from_string};
use cpp_joinstr::pool_store::{
    PoolEntry, PoolFee, PoolInfo, PoolPayload, PoolRole, PoolStore, PoolTimeline, RelayEvent, RelayNext,
};
use cpp_joinstr::results::{PoolsResult, PsbtResult};
use cpp_joinstr::signal::{Error, JoinstrNotif, Notification, Poll, Signal, TxListenerNotif};
use cpp_joinstr::signer::{account_path, deriv_path, Error as SignerError};
use cpp_joinstr::tx_store::{TxEntry, TxStore};
use cpp_joinstr::txid_map::TxidMap;
use cpp_joinstr::types::{
    pool_status_to_string, signal_flag_to_string, AddrAccount, Network, PoolStatus, SignalFlag, Tip,
};
use cpp_joinstr::chain::{Transaction, TxOutput};

fn txid(n: u64) -> Txid {
    Txid::new(n, 0, 0, 0)
}

#[test]
fn flag_and_status_texts() {
    assert_eq!(signal_flag_to_string(SignalFlag::TxListenerStarted), "TxListenerStarted");
    assert_eq!(signal_flag_to_string(SignalFlag::PoolUpdate), "PoolUpdate");
    assert_eq!(signal_flag_to_string(SignalFlag::Stopped), "unexpected SignalFlag");
    assert_eq!(signal_flag_to_string(SignalFlag::Error), "unexpected SignalFlag");
    assert_eq!(pool_status_to_string(PoolStatus::Available), "Available");
    assert_eq!(pool_status_to_string(PoolStatus::Error), "Error");
}

#[test]
fn account_numbers() {
    assert_eq!(AddrAccount::Receive.to_u32(), 0);
    assert_eq!(AddrAccount::Change.to_u32(), 2);
    assert_eq!(u32::from(AddrAccount::Change), 2);
    assert_eq!(AddrAccount::from_u32(1), AddrAccount::Change);
    assert_eq!(*Network::Signet.boxed(), Network::Signet);
    let t = Tip::new();
    assert_eq!((t.receive, t.change), (0, 0));
}

#[test]
fn txid_order() {
    let a = Txid::new(1, 2, 3, 4);
    let b = Txid::new(1, 2, 3, 5);
    assert!(a.less_than(&b));
    assert!(!b.less_than(&a));
    assert!(!a.less_than(&a));
    let o1 = OutPoint { txid: a, vout: 7 };
    let o2 = OutPoint { txid: a, vout: 8 };
    assert!(o1.less_than(&o2));
    assert!(o1.same(&o1));
}

#[test]
fn txid_map_insert_remove() {
    let mut m: TxidMap<u32> = TxidMap::new();
    m.insert(txid(5), 50);
    m.insert(txid(1), 10);
    m.insert(txid(5), 55);
    assert_eq!(m.len(), 2);
    assert_eq!(m.get(&txid(5)), Some(&55));
    assert_eq!(m.entry_at(0).0, txid(1));
    assert_eq!(m.remove(&txid(1)), Some(10));
    assert!(!m.contains(&txid(1)));
    assert_eq!(m.remove(&txid(9)), None);
}

fn pairs(v: &[(u64, Option<u64>)]) -> Vec<(Txid, Option<u64>)> {
    v.iter().map(|(n, h)| (txid(*n), *h)).collect()
}

fn keys(m: &TxidMap<Option<u64>>) -> Vec<(Txid, Option<u64>)> {
    (0..m.len()).map(|i| *m.entry_at(i)).collect()
}

#[test]
fn history_diffs() {
    let mut h = SpkHistory::new();
    let d: HistoryDiff = h.insert(vec![]);
    assert_eq!(d.added.len() + d.changed.len() + d.removed.len(), 0);
    let d = h.insert(pairs(&[(1, None), (2, None)]));
    assert_eq!(keys(&d.added), pairs(&[(1, None), (2, None)]));
    let d = h.insert(pairs(&[(1, Some(10)), (3, None)]));
    assert_eq!(keys(&d.added), pairs(&[(3, None)]));
    assert_eq!(keys(&d.changed), pairs(&[(1, Some(10))]));
    assert_eq!(keys(&d.removed), pairs(&[(2, None)]));
    let d = h.insert(pairs(&[(1, Some(10)), (3, None)]));
    assert_eq!(d.added.len() + d.changed.len() + d.removed.len(), 0);
}

fn simple_tx(n: u64) -> Transaction {
    Transaction { txid: txid(n), inputs: vec![], outputs: vec![TxOutput { value: n, script: Script::from_bytes(vec![1]) }] }
}

#[test]
fn tx_store_updates() {
    let mut s = TxStore::new(vec![TxEntry::new(None, simple_tx(1))]);
    assert_eq!(s.len(), 1);
    s.update(TxEntry::new(Some(3), simple_tx(2)));
    assert_eq!(s.len(), 2);
    assert_eq!(s.inner_get(&txid(2)).unwrap().outputs[0].value, 2);
    s.update_height(&txid(1), Some(7));
    assert_eq!(s.inner().get(&txid(1)).unwrap().height(), Some(7));
    s.remove(&txid(2));
    assert!(s.inner_get(&txid(2)).is_none());
    let e = TxEntry::with_merkle(None, simple_tx(4), vec![vec![1, 2]]);
    assert_eq!(e.merkle(), vec![vec![1, 2]]);
    assert_eq!(e.txid(), txid(4));
}

#[test]
fn labels_edit_and_read() {
    let mut l = LabelStore::new();
    let op = OutPoint { txid: txid(1), vout: 0 };
    l.edit(LabelKey::OutPoint(op), Some("savings".to_string()));
    assert_eq!(l.outpoint(op), Some("savings".to_string()));
    l.edit(LabelKey::OutPoint(op), Some("spent".to_string()));
    assert_eq!(l.outpoint(op), Some("spent".to_string()));
    l.edit(LabelKey::Address("bcrt1q".to_string()), Some("mine".to_string()));
    assert_eq!(l.address("bcrt1q".to_string()), Some("mine".to_string()));
    assert_eq!(l.transaction(txid(1)), None);
    l.edit(LabelKey::OutPoint(op), None);
    assert_eq!(l.outpoint(op), None);
    assert_eq!(l.address("bcrt1q".to_string()), Some("mine".to_string()));
    l.remove(LabelKey::Address("bcrt1q".to_string()));
    assert_eq!(l.address("bcrt1q".to_string()), None);
}

fn pool(id: &str) -> PoolInfo {
    PoolInfo {
        id: id.to_string(),
        payload: Some(PoolPayload {
            denomination: 100_000,
            peers: 5,
            relays: vec!["wss://relay".to_string()],
            fee: PoolFee::Fixed(10),
            timeout: PoolTimeline::Simple(1_000),
        }),
    }
}

#[test]
fn pool_store_updates() {
    let mut s = PoolStore::new();
    assert!(!s.update(pool("bb"), PoolStatus::Available));
    assert!(!s.update(pool("aa"), PoolStatus::Available));
    assert!(!s.update(pool("aa"), PoolStatus::Available));
    assert!(s.update(pool("aa"), PoolStatus::Closed));
    let listed = s.available_pools();
    assert_eq!(listed.len(), 1);
    assert_eq!(listed[0].id, "bb");
    assert_eq!(listed[0].relay, "wss://relay");
    assert_eq!(listed[0].fees, 10);
    assert_eq!(listed[0].timeout, 1_000);
    assert_eq!(s.get_by_status(PoolStatus::Closed)[0].id, "aa");
    s.set_running("bb");
    assert!(!s.update(pool("bb"), PoolStatus::Closed));
    assert_eq!(s.get("bb").unwrap().status(), PoolStatus::Available);
    s.insert(PoolEntry { status: PoolStatus::Processing, pool: pool("cc"), role: PoolRole::Initiator, running: false });
    assert_eq!(s.get("cc").unwrap().pool_id(), "cc");
    assert!(s.get("zz").is_none());
}

#[test]
fn decimal_texts_read_back() {
    assert_eq!(decimal_text(0), "0");
    assert_eq!(decimal_text(1234), "1234");
    assert_eq!(decimal_text(u64::MAX), "18446744073709551615");
    assert_eq!(parse_decimal("1234", 65535), Some(1234));
    assert_eq!(parse_decimal("+7", 65535), Some(7));
    assert_eq!(parse_decimal("007", 65535), Some(7));
    assert_eq!(parse_decimal("65536", 65535), None);
    assert_eq!(parse_decimal("", 65535), None);
    assert_eq!(parse_decimal("+", 65535), None);
    assert_eq!(parse_decimal("-1", 65535), None);
    assert_eq!(parse_decimal("1a", 65535), None);
    assert_eq!(parse_decimal("18446744073709551615", u64::MAX), Some(u64::MAX));
    assert_eq!(parse_decimal("18446744073709551616", u64::MAX), None);
    for n in [0u64, 9, 10, 65535, 4294967295] {
        assert_eq!(parse_decimal(&decimal_text(n), u64::MAX), Some(n));
        assert_eq!(parse_decimal(&decimal_text(n), u64::MAX), format!("{n}").parse::<u64>().ok());
    }
}

fn sample_config() -> Config {
    *new_config("wpkh(02f9308a019258c31049344f85f89d5229b531c845836f99b08601f113bce036f9)".to_string())
}

#[test]
fn config_settings() {
    let mut c = sample_config();
    assert_eq!(c.network(), Network::Bitcoin);
    assert_eq!(c.look_ahead(), "20");
    assert_eq!(c.electrum_url(), "");
    assert_eq!(c.electrum_port(), "");
    c.set_electrum_url("127.0.0.1".to_string());
    c.set_electrum_port("50001".to_string());
    assert_eq!(c.electrum_url(), "127.0.0.1");
    assert_eq!(c.electrum_port(), "50001");
    c.set_electrum_port("70000".to_string());
    assert_eq!(c.electrum_port, None);
    c.set_nostr_relay("wss://r".to_string());
    c.set_nostr_back("3600".to_string());
    assert_eq!(c.nostr_url(), "wss://r");
    assert_eq!(c.nostr_back(), "3600");
    c.set_look_ahead("oops".to_string());
    assert_eq!(c.look_ahead, 20);
    c.set_look_ahead("30".to_string());
    assert_eq!(c.look_ahead, 30);
    c.set_network(Network::Regtest);
    c.set_mnemonic("m".to_string());
    c.set_account("acc".to_string());
    let b = c.boxed();
    assert_eq!(b.account, "acc");
    assert_eq!(b.network, Network::Regtest);
    assert!(try_new_config("nonsense".to_string()).is_none());
    assert!(try_new_config(c.descriptor.clone()).is_some());
}

#[test]
fn mnemonic_reading() {
    let m = mnemonic_from_string(
        "abandon abandon abandon abandon abandon abandon abandon abandon abandon abandon abandon about".to_string(),
    );
    assert!(m.is_ok());
    assert!(!m.is_err());
    assert_eq!(m.value().split(' ').count(), 12);
    let bad = mnemonic_from_string("not a mnemonic".to_string());
    assert!(bad.is_err());
    assert!(!bad.error().is_empty());
    let g = generate_mnemonic();
    assert_eq!(g.split(' ').count(), 12);
    assert!(mnemonic_from_string(g.clone()).is_ok());
    assert_eq!(mnemonic_from_string(g.clone()).value(), g);
}

#[test]
fn results_ok_and_err() {
    let p = PoolsResult::ok(vec![]);
    assert!(p.is_ok() && !p.is_err());
    assert!(p.value().is_empty());
    assert_eq!(p.relay(), "");
    let p = PoolsResult::err("PoolStore locked");
    assert!(p.is_err() && !p.is_ok());
    assert_eq!(p.boxed().error(), "PoolStore locked");
    let n = PoolsResult::new();
    assert!(!n.is_ok() && !n.is_err());
    let s = PsbtResult::ok("psbt".to_string());
    assert_eq!(s.value(), "psbt");
    assert!(PsbtResult::err("x").is_err());
}

#[test]
fn signals_from_notifications() {
    let s = Notification::CoinUpdate.to_signal();
    assert!(s.is_ok() && !s.is_err());
    assert_eq!(s.unwrap(), SignalFlag::CoinUpdate);
    let s = Notification::Electrum(TxListenerNotif::Error("boom".to_string())).to_signal();
    assert!(s.is_err() && !s.is_ok());
    assert_eq!(s.error(), "boom");
    let s = Notification::InvalidLookAhead.to_signal();
    assert_eq!(s.error(), "Invalid look_ahead value");
    let s = Notification::Joinstr(JoinstrNotif::Error(Error::Nostr("Timeout".to_string()))).to_signal();
    assert_eq!(s.error(), "Nostr(Timeout)");
    let s = Notification::Error(Error::CoinMissing).to_signal();
    assert_eq!(s.error(), "CoinMissing");
    let mut sig = Signal::new();
    assert!(!sig.is_ok() && !sig.is_err());
    assert_eq!(sig.error(), "");
    sig.set(SignalFlag::AccountError);
    sig.set_error("bad".to_string());
    assert!(sig.is_err());
    let p = Poll::ok(Notification::Stopped.to_signal());
    assert_eq!(p.signal().unwrap(), SignalFlag::Stopped);
    assert!(Poll::err("Disconnected").is_err());
}

#[test]
fn derivation_paths() {
    assert_eq!(deriv_path(&(AddrAccount::Change, 5)).unwrap(), vec![1, 5]);
    assert_eq!(account_path(&deriv_path(&(AddrAccount::Change, 5)).unwrap()).unwrap(), (AddrAccount::Change, 5));
    assert_eq!(deriv_path(&(AddrAccount::Receive, 0)).unwrap(), vec![0, 0]);
    assert!(matches!(deriv_path(&(AddrAccount::Receive, 0x8000_0000)), Err(SignerError::DerivationPath)));
    assert_eq!(account_path(&vec![1, 9]).unwrap(), (AddrAccount::Change, 9));
    assert!(matches!(account_path(&vec![1]), Err(SignerError::DerivationPath)));
    assert_eq!(SignerError::SpkNotMatch.text(), "spk in spent output do not match");
}


#[test]
fn pool_listener_steps() {
    let mut store = PoolStore::new();
    let step = store.pool_listener_step(RelayEvent::Nothing);
    assert!(step.reports.is_empty());
    assert_eq!(step.next, RelayNext::Poll(300));
    let step = store.pool_listener_step(RelayEvent::ConnectionLost);
    assert!(step.reports.is_empty());
    assert_eq!(step.next, RelayNext::Reconnect);
    let step = store.pool_listener_step(RelayEvent::StopRequested);
    assert!(matches!(step.reports[..], [JoinstrNotif::Stopped]));
    assert_eq!(step.next, RelayNext::End);
    let step = store.pool_listener_step(RelayEvent::ClientError("boom".to_string()));
    assert!(matches!(&step.reports[..], [JoinstrNotif::Error(Error::Nostr(t)), JoinstrNotif::Stopped] if t == "boom"));
    let step = store.pool_listener_step(RelayEvent::SetupFailed("no relay".to_string(), false));
    assert!(matches!(&step.reports[..], [JoinstrNotif::Error(Error::Nostr(_))]));
    assert_eq!(step.next, RelayNext::End);
    let step = store.pool_listener_step(RelayEvent::SetupFailed("no relay".to_string(), true));
    assert_eq!(step.reports.len(), 2);
    let step = store.pool_listener_step(RelayEvent::Pool(pool("p1")));
    assert!(matches!(step.reports[..], [JoinstrNotif::PoolUpdate]));
    assert_eq!(step.next, RelayNext::Poll(0));
    assert_eq!(store.available_pools().len(), 1);
}
