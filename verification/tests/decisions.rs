use std::str::FromStr;

use cpp_joinstr::account::{
    change_index, dummy_spk, process_transaction, set_electrum, set_look_ahead, set_nostr, settle_fees, stop_action,
    try_recv, tx_estimated_weight, check_addresses, parse_outpoints, AddressCheck, FeeSpec, Listeners, PlannedOutput,
    Received, SettingOutcome, Settlement, StopAction, TxPlan, DUST_AMOUNT, take_change_addresses, vsize, plan_sums_fit,
};
use cpp_joinstr::chain::{parse_outpoint, OutPoint, Script, Transaction, TxOutput, Txid};
use cpp_joinstr::transaction::{prepare_psbt, simulate_plan, size_estimates};
use cpp_joinstr::coin_store::CoinStore;
use cpp_joinstr::config::new_config;
use cpp_joinstr::derivator::Derivator;
use cpp_joinstr::listener::ScriptStatuses;
use cpp_joinstr::signal::{Error, Notification, TxListenerNotif};
use cpp_joinstr::types::{AddrAccount, AddressStatus, AddressTip, CoinStatus, Network, Output, RustAddress, RustCoin, SignalFlag};
use miniscript::bitcoin::bip32::{DerivationPath, Xpriv, Xpub};
use miniscript::bitcoin::secp256k1::Secp256k1;
use miniscript::bitcoin::NetworkKind;

const PHRASE: &str = "abandon abandon abandon abandon abandon abandon abandon abandon abandon abandon abandon about";

fn descriptor_text() -> String {
    let m = bip39::Mnemonic::from_str(PHRASE).unwrap();
    let seed = m.to_seed("");
    let secp = Secp256k1::new();
    let master = Xpriv::new_master(NetworkKind::Test, &seed).unwrap();
    let path = DerivationPath::from_str("m/84'/1'/0'").unwrap();
    let xpriv = master.derive_priv(&secp, &path).unwrap();
    let xpub = Xpub::from_priv(&secp, &xpriv);
    format!("wpkh([{}/84'/1'/0']{}/<0;1>/*)", master.fingerprint(&secp), xpub)
}

fn derivator() -> Derivator {
    Derivator::new(&descriptor_text(), Network::Regtest).unwrap()
}

fn funded_store(value: u64) -> (CoinStore, OutPoint) {
    let d = derivator();
    let spk0 = d.receive_at(0).unwrap().script;
    let mut store = CoinStore::new(derivator(), 0, 0, 5);
    store.init();
    let id = Txid::new(42, 0, 0, 0);
    store.handle_history_response(vec![(spk0.duplicate(), vec![(id, None)])]);
    store.handle_txs_response(vec![Transaction {
        txid: id,
        inputs: vec![],
        outputs: vec![TxOutput { value, script: spk0 }],
    }]);
    (store, OutPoint { txid: id, vout: 0 })
}

fn output(amount: u64, max: bool) -> Output {
    Output { address: "bcrt1q".to_string(), amount, label: String::new(), max }
}

fn payee() -> AddressCheck {
    AddressCheck::Valid(Script::from_bytes(vec![0x00, 0x14, 7, 7, 7, 7, 7, 7, 7, 7, 7, 7, 7, 7, 7, 7, 7, 7, 7, 7, 7, 7]))
}

#[test]
fn weight_estimate() {
    let d = derivator();
    let w = tx_estimated_weight(&d, 400, 1, true).unwrap();
    let w2 = tx_estimated_weight(&d, 400, 2, true).unwrap();
    assert!(w2 > w);
    assert!(w > 100);
    assert!(matches!(tx_estimated_weight(&d, 400, 0, true), Err(Error::Satisfaction)));
    assert!(matches!(tx_estimated_weight(&d, u64::MAX, 1, true), Err(Error::Satisfaction)));
}

#[test]
fn placeholder_change_output() {
    let dummy = dummy_spk();
    assert_eq!(dummy.bytes, vec![0u8; 8]);
    let outs = vec![Script::from_bytes(vec![1]), dummy_spk(), dummy_spk()];
    assert_eq!(change_index(&outs), Some(1));
    assert_eq!(change_index(&vec![Script::from_bytes(vec![1])]), None);
}

#[test]
fn settle_with_change() {
    let s = settle_fees(100_000, false, FeeSpec::Amount(1_000), &Ok(150), &Ok(180)).unwrap();
    assert_eq!(s, Settlement { fees: 1_000, change: true, leftover: 99_000 });
    let s = settle_fees(100_000, false, FeeSpec::Rate { without_change: 150, with_change: 180 }, &Ok(150), &Ok(180))
        .unwrap();
    assert_eq!(s, Settlement { fees: 180, change: true, leftover: 99_820 });
}

#[test]
fn settle_errors() {
    assert_eq!(
        settle_fees(4_000, true, FeeSpec::Amount(10), &Ok(1), &Ok(1)).unwrap_err(),
        "Not enough reserve to fill maxed output!"
    );
    assert_eq!(
        settle_fees(4_000, false, FeeSpec::Amount(5_000), &Ok(1), &Ok(1)).unwrap_err(),
        "Not enough reserve to pay fees!"
    );
    assert_eq!(
        settle_fees(6_000, false, FeeSpec::Amount(10), &Err(Error::Satisfaction), &Ok(1)).unwrap_err(),
        "Failed to estimate tx weight: Satisfaction"
    );
    assert_eq!(
        settle_fees(7_000, true, FeeSpec::Amount(3_000), &Ok(1), &Ok(1)).unwrap_err(),
        "Maxed output amount is lower than the dust limit"
    );
}

#[test]
fn settle_without_change_pays_the_rest_as_fee() {
    let s = settle_fees(4_000, false, FeeSpec::Amount(10), &Ok(1), &Ok(1)).unwrap();
    assert_eq!(s, Settlement { fees: 4_000, change: false, leftover: 0 });
    // an amount fee below one sat per virtual byte of the transaction with change drops it
    let s = settle_fees(100_000, false, FeeSpec::Amount(1_000), &Ok(600_000), &Ok(600_000)).unwrap();
    assert_eq!(s, Settlement { fees: 100_000, change: false, leftover: 0 });
}

#[test]
fn settle_drops_dust_change() {
    let s = settle_fees(DUST_AMOUNT + 1_000, false, FeeSpec::Amount(2_000), &Ok(1), &Ok(1)).unwrap();
    assert_eq!(s, Settlement { fees: DUST_AMOUNT + 1_000, change: false, leftover: 0 });
    let s = settle_fees(20_000, true, FeeSpec::Amount(1_000), &Ok(1), &Ok(1)).unwrap();
    assert_eq!(s, Settlement { fees: 1_000, change: false, leftover: 19_000 });
}

#[test]
fn plan_with_change() {
    let (store, op) = funded_store(100_000);
    let plan = process_transaction(
        &store, 1_000, false, false, &vec![output(50_000, false)], &vec![payee()], &vec![Some(op)], (0, 0),
        &Ok(150), &Ok(180),
    )
    .unwrap();
    assert!(plan.change);
    assert_eq!(plan.inputs.len(), 1);
    assert_eq!(plan.outputs.len(), 2);
    assert_eq!(plan.outputs[0].value, 50_000);
    assert_eq!(plan.outputs[1].value, 49_000);
    assert!(plan.outputs[1].script.same(&dummy_spk()));
    assert!(plan.outputs[0].deriv.is_none());
}

#[test]
fn plan_errors() {
    let (store, op) = funded_store(100_000);
    let outs = vec![output(50_000, false)];
    let checks = vec![payee()];
    let run = |fee: u64, rate: bool, below: bool, ops: Vec<Option<OutPoint>>, outs: &Vec<Output>, checks: &Vec<AddressCheck>| {
        process_transaction(&store, fee, rate, below, outs, checks, &ops, (0, 0), &Ok(1), &Ok(1)).err()
    };
    assert_eq!(run(1, true, false, vec![Some(op)], &outs, &checks).unwrap(), "Only one of fee_sats or fee_sats_vb must be filled!");
    assert_eq!(run(0, false, false, vec![Some(op)], &outs, &checks).unwrap(), "One of fee_sats or fee_sats_vb must be filled!");
    assert_eq!(run(0, true, true, vec![Some(op)], &outs, &checks).unwrap(), "Minimum allowed fee rate is 1 sat/vb!");
    assert_eq!(run(1, false, false, vec![Some(op)], &vec![], &vec![]).unwrap(), "No outputs!");
    assert_eq!(run(1, false, false, vec![], &outs, &checks).unwrap(), "No inputs!");
    let two_max = vec![output(0, true), output(0, true)];
    assert_eq!(
        run(1, false, false, vec![Some(op)], &two_max, &vec![payee(), payee()]).unwrap(),
        "A single output can have the MAX field selected"
    );
    assert_eq!(run(1, false, false, vec![None], &outs, &checks).unwrap(), "Fail to parse Outpoint");
    assert_eq!(
        run(1, false, false, vec![Some(op)], &outs, &vec![AddressCheck::WrongNetwork]).unwrap(),
        "Provided address is not valid for the current network"
    );
    assert_eq!(
        run(1, false, false, vec![Some(op)], &outs, &vec![AddressCheck::Unparsable]).unwrap(),
        "Fail to parse address"
    );
    let other = OutPoint { txid: Txid::new(1, 1, 1, 1), vout: 3 };
    assert_eq!(run(1, false, false, vec![Some(other)], &outs, &checks).unwrap(), "Provided outpoint do not match an available coin");
    assert_eq!(
        run(1, false, false, vec![Some(op)], &vec![output(200_000, false)], &checks).unwrap(),
        "Inputs amount is lower than outputs amount"
    );
}

#[test]
fn listeners_and_polls() {
    let mut l = Listeners { electrum: true, nostr: true };
    let p = try_recv(Received::Notification(Notification::Electrum(TxListenerNotif::Stopped)), &mut l);
    assert!(!l.electrum && l.nostr);
    assert_eq!(p.signal().unwrap(), SignalFlag::TxListenerStopped);
    let p = try_recv(Received::Empty, &mut l);
    assert!(!p.is_ok() && !p.is_err());
    let p = try_recv(Received::Disconnected, &mut l);
    assert_eq!(p.error(), "Disconnected");
    assert_eq!(stop_action(Listeners { electrum: false, nostr: false }), StopAction::NotifyStopped);
    assert_eq!(
        stop_action(Listeners { electrum: true, nostr: false }),
        StopAction::StopListeners { electrum: true, nostr: false }
    );
}

#[test]
fn settings_changes() {
    let mut c = *new_config(descriptor_text());
    assert!(matches!(set_electrum(&mut c, "host".to_string(), "50001".to_string()), SettingOutcome::Saved));
    assert_eq!(c.electrum_port, Some(50001));
    assert!(matches!(
        set_electrum(&mut c, "other".to_string(), "port".to_string()),
        SettingOutcome::Rejected(Notification::InvalidElectrumConfig)
    ));
    assert_eq!(c.electrum_url.as_deref(), Some("host"));
    assert!(matches!(set_nostr(&mut c, String::new(), String::new()), SettingOutcome::Ignored));
    assert!(matches!(
        set_nostr(&mut c, "wss://r".to_string(), "x".to_string()),
        SettingOutcome::Rejected(Notification::InvalidNostrConfig)
    ));
    assert!(matches!(set_nostr(&mut c, "wss://r".to_string(), "60".to_string()), SettingOutcome::Saved));
    assert_eq!(c.nostr_back, Some(60));
    assert!(matches!(set_look_ahead(&mut c, "-3".to_string()), SettingOutcome::Rejected(Notification::InvalidNostrConfig)));
    assert!(matches!(set_look_ahead(&mut c, "40".to_string()), SettingOutcome::Saved));
    assert_eq!(c.look_ahead, 40);
}

#[test]
fn tip_subscriptions_scan_branches() {
    let d = derivator();
    let mut st = ScriptStatuses::new();
    let sub = st.tip_subscriptions(&d, AddressTip { recv: 3, change: 2 });
    assert_eq!(sub.len(), 5);
    assert!(sub[0].same(&d.receive_at(0).unwrap().script));
    assert!(sub[3].same(&d.change_at(0).unwrap().script));
    assert_eq!(st.len(), 5);
    let again = st.tip_subscriptions(&d, AddressTip { recv: 3, change: 2 });
    assert!(again.is_empty());
}

#[test]
fn status_reports() {
    let d = derivator();
    let mut st = ScriptStatuses::new();
    st.tip_subscriptions(&d, AddressTip { recv: 2, change: 0 });
    let s0 = d.receive_at(0).unwrap().script;
    let s1 = d.receive_at(1).unwrap().script;
    let stranger = Script::from_bytes(vec![9, 9]);
    let a = st.handle_statuses(vec![
        (s0.duplicate(), Some("h1".to_string())),
        (s1.duplicate(), None),
        (stranger.duplicate(), None),
    ]);
    assert_eq!(a.history.len(), 1);
    assert!(a.history[0].same(&s0));
    assert_eq!(a.cleared.len(), 1);
    assert!(a.cleared[0].0.same(&stranger) && !a.cleared[0].1);
    assert_eq!(st.status_of(&s0), Some(Some("h1".to_string())));
    let a = st.handle_statuses(vec![(s0.duplicate(), None)]);
    assert!(a.history.is_empty());
    assert!(a.cleared[0].0.same(&s0) && a.cleared[0].1);
}

#[test]
fn size_estimates_of_template() {
    let d = derivator();
    // one input and one output to a 22-byte script: 82 bytes unsigned,
    // 99 with the change output
    let (without, with) = size_estimates(&d, 1, &vec![output(50_000, false)], &vec![payee()]);
    assert_eq!(without.unwrap(), tx_estimated_weight(&d, 328, 1, true).unwrap());
    assert_eq!(with.unwrap(), tx_estimated_weight(&d, 396, 1, true).unwrap());
    let (two_without, _) = size_estimates(&d, 2, &vec![output(50_000, false)], &vec![payee()]);
    assert_eq!(two_without.unwrap(), tx_estimated_weight(&d, 492, 2, true).unwrap());
    let (none, none_with) = size_estimates(&d, 0, &vec![output(50_000, false)], &vec![payee()]);
    assert!(matches!(none, Err(Error::Satisfaction)));
    assert!(matches!(none_with, Err(Error::Satisfaction)));
}

#[test]
fn outpoints_read() {
    let text = format!("{}01:3", "00".repeat(31));
    let op = parse_outpoint(&text).unwrap();
    assert_eq!(op, OutPoint { txid: Txid::new(0x0100_0000_0000_0000, 0, 0, 0), vout: 3 });
    assert!(parse_outpoint("nonsense").is_none());
    assert!(parse_outpoint(&"00".repeat(32)).is_none());
    let coins = vec![coin_at_text(&text), coin_at_text("x:1")];
    let ops = parse_outpoints(&coins);
    assert_eq!(ops, vec![Some(op), None]);
}

fn coin_at_text(text: &str) -> RustCoin {
    RustCoin {
        value: 0,
        height: 0,
        confirmed: false,
        status: CoinStatus::Unconfirmed,
        outpoint: text.to_string(),
        address: RustAddress { address: String::new(), status: AddressStatus::NotUsed, account: AddrAccount::Receive, index: 0 },
        label: String::new(),
    }
}

#[test]
fn txid_bytes_round_trip() {
    let t = Txid::new(0x0102_0304_0506_0708, 9, 0xFFFF_FFFF_FFFF_FFFF, 0);
    let b = t.to_bytes();
    assert_eq!(b.len(), 32);
    assert_eq!(&b[0..8], &[1, 2, 3, 4, 5, 6, 7, 8]);
    assert_eq!(Txid::from_bytes(&b), Some(t));
    assert_eq!(Txid::from_bytes(&vec![0u8; 31]), None);
}

#[test]
fn addresses_checked() {
    let d = derivator();
    let own = d.receive_at(0).unwrap();
    let outs = vec![
        Output { address: own.address.clone(), amount: 1, label: String::new(), max: false },
        Output { address: "bc1qcr8te4kr609gcawutmrza0j4xv80jy8z306fyu".to_string(), amount: 1, label: String::new(), max: false },
        Output { address: "nonsense".to_string(), amount: 1, label: String::new(), max: false },
    ];
    let checks = check_addresses(&outs, Network::Regtest);
    assert!(matches!(&checks[0], AddressCheck::Valid(s) if s.same(&own.script)));
    assert!(matches!(checks[1], AddressCheck::WrongNetwork));
    assert!(matches!(checks[2], AddressCheck::Unparsable));
    let mainnet_out =
        vec![Output { address: "bc1qcr8te4kr609gcawutmrza0j4xv80jy8z306fyu".to_string(), amount: 1, label: String::new(), max: false }];
    let mainnet = check_addresses(&mainnet_out, Network::Bitcoin);
    assert!(matches!(&mainnet[0], AddressCheck::Valid(s) if s.bytes.len() == 22));
}

#[test]
fn psbt_of_plans() {
    let (store, op) = funded_store(100_000);
    let plan = process_transaction(
        &store, 1_000, false, false, &vec![output(50_000, false)], &vec![payee()], &vec![Some(op)], (0, 0),
        &Ok(150), &Ok(180),
    )
    .unwrap();
    // a fresh PSBT input knows no output it spends, which the descriptor
    // update checks first
    let r = prepare_psbt(&plan, store.derivator());
    assert!(r.is_err());
    assert_eq!(r.error(), "Fail to update PSBT input with descriptor");
    let payee_only = TxPlan {
        inputs: vec![],
        outputs: vec![PlannedOutput { value: 1_000, script: Script::from_bytes(vec![0x51]), deriv: None }],
        change: false,
    };
    let r = prepare_psbt(&payee_only, store.derivator());
    assert!(r.is_ok());
    assert!(r.value().starts_with("cHNidP8"));
}

#[test]
fn outpoint_text_reads_back() {
    let op = OutPoint { txid: Txid::new(0x0102_0304_0506_0708, 9, 10, 0xFFFF_FFFF_FFFF_FFFF), vout: 17 };
    let text = op.text();
    assert!(text.ends_with(":17"));
    assert!(text.starts_with("ffffffffffffffff0a00000000000000"));
    assert_eq!(parse_outpoint(&text), Some(op));
}

#[test]
fn simulate_plans() {
    let (store, op) = funded_store(100_000);
    let plan = process_transaction(
        &store, 1_000, false, false, &vec![output(50_000, false)], &vec![payee()], &vec![Some(op)], (0, 0),
        &Ok(150), &Ok(180),
    );
    let d = derivator();
    let sim = simulate_plan(&d, &plan);
    assert!(sim.spendable);
    assert!(sim.has_change);
    // one input, outputs to a 22-byte script and the 8-byte placeholder
    assert_eq!(sim.estimated_weight, tx_estimated_weight(&d, 396, 1, true).unwrap());
    assert!(sim.error.is_empty());
    let failed = simulate_plan(&d, &Err("No inputs!".to_string()));
    assert!(!failed.spendable && !failed.has_change);
    assert_eq!(failed.estimated_weight, 0);
    assert_eq!(failed.error, "No inputs!");
}

#[test]
fn psbt_outputs_to_the_wallet() {
    let d = derivator();
    let own = d.receive_at(0).unwrap().script;
    let to_self = TxPlan {
        inputs: vec![],
        outputs: vec![PlannedOutput { value: 1_000, script: own.duplicate(), deriv: Some((AddrAccount::Receive, 0)) }],
        change: false,
    };
    assert!(prepare_psbt(&to_self, &d).is_ok());
    let wrong = TxPlan {
        inputs: vec![],
        outputs: vec![PlannedOutput { value: 1_000, script: own, deriv: Some((AddrAccount::Receive, 1)) }],
        change: false,
    };
    let r = prepare_psbt(&wrong, &d);
    assert_eq!(r.error(), "Fail to update PSBT output with descriptor");
}

#[test]
fn output_scripts_of_branches() {
    let d = derivator();
    assert!(d.receive_spk_at(3).unwrap().same(&d.receive_at(3).unwrap().script));
    assert!(d.change_spk_at(3).unwrap().same(&d.change_at(3).unwrap().script));
    assert!(!d.change_spk_at(3).unwrap().same(&d.receive_spk_at(3).unwrap()));
    assert!(d.receive_spk_at(0x8000_0000).is_none());
}

#[test]
fn placeholders_take_fresh_change_addresses() {
    let d = derivator();
    let mut store = CoinStore::new(derivator(), 0, 0, 5);
    let payee = Script::from_bytes(vec![0x00, 0x14, 7, 7, 7, 7, 7, 7, 7, 7, 7, 7, 7, 7, 7, 7, 7, 7, 7, 7, 7, 7]);
    let mut outputs = vec![
        PlannedOutput { value: 5_000, script: dummy_spk(), deriv: None },
        PlannedOutput { value: 6_000, script: payee.duplicate(), deriv: None },
        PlannedOutput { value: 7_000, script: dummy_spk(), deriv: Some((AddrAccount::Change, 0)) },
    ];
    take_change_addresses(&mut store, &mut outputs);
    assert_eq!(store.change_tip(), 2);
    assert!(outputs[0].script.same(&d.change_at(1).unwrap().script));
    assert!(outputs[1].script.same(&payee));
    assert!(outputs[2].script.same(&d.change_at(2).unwrap().script));
    assert_eq!(outputs[0].value, 5_000);
    assert_eq!(outputs[2].value, 7_000);
    assert_eq!(outputs[2].deriv, Some((AddrAccount::Change, 0)));
}

#[test]
fn max_output_takes_what_is_left() {
    let (store, op) = funded_store(100_000);
    let plan = process_transaction(
        &store, 1_000, false, false, &vec![output(20_000, false), output(0, true)], &vec![payee(), payee()],
        &vec![Some(op)], (0, 0), &Ok(150), &Ok(180),
    )
    .unwrap();
    assert!(!plan.change);
    assert_eq!(plan.outputs.len(), 2);
    assert_eq!(plan.outputs[0].value, 20_000);
    assert_eq!(plan.outputs[1].value, 79_000);
}

#[test]
fn weight_in_weight_units() {
    let d = derivator();
    let sat = tx_estimated_weight(&d, 0, 1, false).unwrap();
    assert_eq!(tx_estimated_weight(&d, 401, 1, false).unwrap(), 401 + sat);
    assert_eq!(tx_estimated_weight(&d, 401, 2, true).unwrap(), 401 + 2 * sat + 2);
    assert_eq!(vsize(401), 101);
    assert_eq!(vsize(400), 100);
}

#[test]
fn change_tip_moves_beyond_the_receive_tip() {
    let d = derivator();
    let mut st = ScriptStatuses::new();
    let first = st.tip_subscriptions(&d, AddressTip { recv: 1, change: 3 });
    assert_eq!(first.len(), 4);
    let more = st.tip_subscriptions(&d, AddressTip { recv: 1, change: 5 });
    assert_eq!(more.len(), 2);
    assert!(more[0].same(&d.change_at(3).unwrap().script));
    assert!(more[1].same(&d.change_at(4).unwrap().script));
}

#[test]
fn sums_checked_only_after_the_checks() {
    let (store, op) = funded_store(100_000);
    let outs = vec![output(u64::MAX, false), output(1, false)];
    let checks = vec![payee(), payee()];
    assert!(!plan_sums_fit(&store, 1_000, false, false, &outs, &checks, &vec![Some(op)]));
    // a fee field error comes first, so the sum is never made
    assert!(plan_sums_fit(&store, 0, false, false, &outs, &checks, &vec![Some(op)]));
    // no outpoint reads
    assert!(plan_sums_fit(&store, 1_000, false, false, &outs, &checks, &vec![None]));
    let fine = vec![output(50_000, false), output(0, true)];
    assert!(plan_sums_fit(&store, 1_000, false, false, &fine, &checks, &vec![Some(op)]));
}
