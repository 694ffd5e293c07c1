use std::str::FromStr;

use cpp_joinstr::derivator::Derivator;
use cpp_joinstr::signer::{deriv_path, wpkh, Error, HotSigner, ManagerError, SignerNotif, SigningManager};
use cpp_joinstr::types::{AddrAccount, Network};
use miniscript::bitcoin::{
    self, absolute::Height, bip32, secp256k1, Amount, Psbt, ScriptBuf, TxIn, Witness,
};

const PHRASE: &str = "abandon abandon abandon abandon abandon abandon abandon abandon abandon abandon abandon about";

fn random_xpriv(network: bitcoin::Network) -> Vec<u8> {
    let phrase = bip39::Mnemonic::generate(12).unwrap();
    bip32::Xpriv::new_master(network, &phrase.to_seed("")).unwrap().encode().to_vec()
}

fn path(text: &str) -> Vec<u32> {
    bip32::DerivationPath::from_str(text).unwrap().to_u32_vec()
}

fn txid(n: u8) -> bitcoin::Txid {
    <bitcoin::Txid as bitcoin::hashes::Hash>::from_byte_array([n; 32])
}

fn random_output() -> bitcoin::TxOut {
    bitcoin::TxOut { value: Amount::from_sat(50_000), script_pubkey: ScriptBuf::from_bytes(vec![0x51]) }
}

fn unsigned_psbt() -> Psbt {
    let txin = TxIn {
        previous_output: bitcoin::OutPoint { txid: txid(0), vout: 1 },
        script_sig: ScriptBuf::new(),
        sequence: bitcoin::Sequence::ZERO,
        witness: Witness::new(),
    };
    let tx = bitcoin::Transaction {
        version: bitcoin::transaction::Version(2),
        lock_time: bitcoin::absolute::LockTime::Blocks(Height::ZERO),
        input: vec![txin],
        output: vec![random_output()],
    };
    Psbt::from_unsigned_tx(tx).unwrap()
}

fn fingerprint(signer: &HotSigner) -> bip32::Fingerprint {
    bip32::Fingerprint::from(signer.fingerprint().to_be_bytes())
}

fn pubkey(bytes: &[u8]) -> secp256k1::PublicKey {
    secp256k1::PublicKey::from_slice(bytes).unwrap()
}

fn partial_sigs(text: &str) -> usize {
    Psbt::from_str(text).unwrap().inputs[0].partial_sigs.len()
}

#[test]
fn test_create_hot_signer_from_xpriv() {
    let signer = HotSigner::new_from_xpriv(Network::Testnet, random_xpriv(bitcoin::Network::Testnet)).unwrap();
    assert_eq!(signer.network(), Network::Testnet);
    assert!(signer.mnemonic().is_none());
    assert!(HotSigner::new_from_xpriv(Network::Testnet, vec![1, 2, 3]).is_none());
}

#[test]
fn test_create_hot_signer_from_mnemonic() {
    let signer = HotSigner::new_from_mnemonics(Network::Testnet, PHRASE).unwrap();
    assert_eq!(signer.network(), Network::Testnet);
    assert_eq!(signer.fingerprint(), 0x73c5_da0a);
    assert_eq!(signer.mnemonic().unwrap(), PHRASE);
    assert!(matches!(HotSigner::new_from_mnemonics(Network::Testnet, "not a phrase"), Err(Error::Bip39(_))));
}

#[test]
fn test_sign_transaction() {
    let signer = HotSigner::new_from_xpriv(Network::Testnet, random_xpriv(bitcoin::Network::Testnet)).unwrap();
    let xpub = signer.xpub(&path("m/84'/0'/0'/1'"));
    let descriptor = wpkh(&xpub).unwrap();

    let mut psbt = unsigned_psbt();
    let deriv = (AddrAccount::Receive, 0);
    let deriv_p = deriv_path(&deriv).unwrap();
    let key = pubkey(&signer.public_key_at(&deriv_p));

    // there is no signature
    let mut text = psbt.to_string();
    assert_eq!(partial_sigs(&text), 0);

    // nothing to sign as bip32_derivation is missing
    assert!(matches!(signer.inner_sign(&mut text, &descriptor), Some(Ok(()))));
    assert_eq!(partial_sigs(&text), 0);

    // add a wrong derivation path
    let w_deriv_p = deriv_path(&(AddrAccount::Change, 0)).unwrap();
    psbt.inputs[0].bip32_derivation.insert(key, (fingerprint(&signer), bip32::DerivationPath::from(w_deriv_p
        .iter()
        .map(|c| bip32::ChildNumber::from(*c))
        .collect::<Vec<_>>())));
    let mut text = psbt.to_string();

    // witness_utxo is missing
    assert!(matches!(signer.inner_sign(&mut text, &descriptor), Some(Err(Error::MissingWitnessUtxo))));
    assert_eq!(partial_sigs(&text), 0);

    // add the spent output
    let derivator = Derivator::new(&descriptor, Network::Regtest).unwrap();
    let spk = derivator.receive_spk_at(deriv.1).unwrap();
    psbt.inputs[0].witness_utxo =
        Some(bitcoin::TxOut { value: Amount::from_sat(100_000), script_pubkey: ScriptBuf::from_bytes(spk.bytes) });
    let mut text = psbt.to_string();

    // no signature: the public key derived at the recorded path is not the
    // recorded one
    assert!(matches!(signer.inner_sign(&mut text, &descriptor), Some(Ok(()))));
    assert_eq!(partial_sigs(&text), 0);

    // record the right derivation
    psbt.inputs[0].bip32_derivation.clear();
    psbt.inputs[0].bip32_derivation.insert(key, (fingerprint(&signer), bip32::DerivationPath::from(deriv_p
        .iter()
        .map(|c| bip32::ChildNumber::from(*c))
        .collect::<Vec<_>>())));
    let mut text = psbt.to_string();

    // the signature was added
    assert!(matches!(signer.inner_sign(&mut text, &descriptor), Some(Ok(()))));
    assert_eq!(partial_sigs(&text), 1);
}

#[test]
fn test_signer_init() {
    let signer = HotSigner::new_from_xpriv(Network::Regtest, random_xpriv(bitcoin::Network::Regtest)).unwrap();
    match signer.info() {
        SignerNotif::Info(fg) => assert_eq!(signer.fingerprint(), fg),
        _ => panic!("Expected Info notification"),
    }
}

#[test]
fn test_signer_info() {
    let signer = HotSigner::new_from_xpriv(Network::Regtest, random_xpriv(bitcoin::Network::Regtest)).unwrap();
    let _ = signer.info();
    match signer.info() {
        SignerNotif::Info(fg) => assert_eq!(signer.fingerprint(), fg),
        _ => panic!("Expected Info notification"),
    }
}

#[test]
fn test_signer_get_xpub() {
    let signer = HotSigner::new_from_xpriv(Network::Regtest, random_xpriv(bitcoin::Network::Regtest)).unwrap();
    match signer.get_xpub(&path("m/84'/0'/0'/0"), false) {
        SignerNotif::Xpub(fg, x) => {
            assert_eq!(signer.fingerprint(), fg);
            assert!(x.xkey.starts_with("tpub"));
        },
        _ => panic!("Expected Xpub notification"),
    }
}

#[test]
fn test_signer_is_descriptor_registered() {
    let mut signer = HotSigner::new_from_xpriv(Network::Regtest, random_xpriv(bitcoin::Network::Regtest)).unwrap();
    let descriptor = wpkh(&signer.xpub(&path("m/84'/0'/0'/0"))).unwrap();

    match signer.is_descriptor_registered(&descriptor) {
        SignerNotif::DescriptorRegistered(fg, desc, false) => {
            assert_eq!(signer.fingerprint(), fg);
            assert_eq!(desc, descriptor);
        },
        _ => panic!("Expected DescriptorRegistered notification"),
    }

    match signer.register_descriptor(&descriptor) {
        Some(SignerNotif::DescriptorRegistered(fg, desc, true)) => {
            assert_eq!(signer.fingerprint(), fg);
            assert_eq!(desc, descriptor);
        },
        _ => panic!("Expected DescriptorRegistered notification"),
    }

    match signer.is_descriptor_registered(&descriptor) {
        SignerNotif::DescriptorRegistered(fg, desc, true) => {
            assert_eq!(signer.fingerprint(), fg);
            assert_eq!(desc, descriptor);
        },
        _ => panic!("Expected DescriptorRegistered notification"),
    }
}

#[test]
fn test_signer_sign() {
    let mut signer = HotSigner::new_from_xpriv(Network::Regtest, random_xpriv(bitcoin::Network::Regtest)).unwrap();
    let descriptor = wpkh(&signer.xpub(&path("m/84'/0'/0'/0"))).unwrap();

    match signer.info() {
        SignerNotif::Info(fg) => assert_eq!(signer.fingerprint(), fg),
        _ => panic!("Expected DescriptorRegistered notification"),
    }

    match signer.register_descriptor(&descriptor) {
        Some(SignerNotif::DescriptorRegistered(fg, desc, true)) => {
            assert_eq!(signer.fingerprint(), fg);
            assert_eq!(desc, descriptor);
        },
        _ => panic!("Expected DescriptorRegistered notification"),
    }

    let mut psbt = unsigned_psbt();
    let deriv = (AddrAccount::Receive, 0);
    let deriv_p = deriv_path(&deriv).unwrap();
    let key = pubkey(&signer.public_key_at(&deriv_p));
    let derivator = Derivator::new(&descriptor, Network::Regtest).unwrap();
    let spk = derivator.receive_spk_at(deriv.1).unwrap();
    psbt.inputs[0].witness_utxo =
        Some(bitcoin::TxOut { value: Amount::from_sat(100_000), script_pubkey: ScriptBuf::from_bytes(spk.bytes) });
    psbt.inputs[0].bip32_derivation.insert(key, (fingerprint(&signer), bip32::DerivationPath::from(deriv_p
        .iter()
        .map(|c| bip32::ChildNumber::from(*c))
        .collect::<Vec<_>>())));

    match signer.sign(psbt.to_string(), &descriptor) {
        Some(SignerNotif::Signed(fg, signed)) => {
            assert_eq!(signer.fingerprint(), fg);
            assert_eq!(partial_sigs(&signed), 1);
        },
        _ => panic!("Expected DescriptorRegistered notification"),
    }
}

#[test]
fn test_manager_hot_signer() {
    let mut manager = SigningManager::new();
    match manager.new_hot_signer_from_mnemonic(Network::Regtest, PHRASE.to_string()) {
        Some(SignerNotif::Info(fg)) => assert_eq!(fg, 0x73c5_da0a),
        _ => panic!("expect info"),
    }
}

#[test]
fn signer_refuses_unregistered_and_foreign_descriptors() {
    let mut signer = HotSigner::new_from_mnemonics(Network::Regtest, PHRASE).unwrap();
    let descriptor = wpkh(&signer.xpub(&path("m/84'/1'/0'"))).unwrap();
    match signer.sign(unsigned_psbt().to_string(), &descriptor) {
        Some(SignerNotif::Error(_, Error::UnregisteredDescriptor)) => {},
        _ => panic!("expected an unregistered descriptor"),
    }
    let mainnet = HotSigner::new_from_mnemonics(Network::Bitcoin, PHRASE).unwrap();
    let foreign = wpkh(&mainnet.xpub(&path("m/84'/0'/0'"))).unwrap();
    match signer.register_descriptor(&foreign) {
        Some(SignerNotif::Error(_, Error::DescriptorNetwork)) => {},
        _ => panic!("expected a network error"),
    }
    assert!(signer.register_descriptor("not a descriptor").is_none());
    match signer.is_descriptor_registered(&foreign) {
        SignerNotif::DescriptorRegistered(_, _, registered) => assert!(!registered),
        _ => panic!("expected a registration report"),
    }
}

#[test]
fn manager_signs_with_first_signer() {
    let mut manager = SigningManager::new();
    manager.new_hot_signer_from_mnemonic(Network::Regtest, PHRASE.to_string());
    assert!(matches!(manager.sign(Network::Regtest, "no psbt".to_string()), Some(SignerNotif::Manager(ManagerError::ParsePsbt))));
    // the manager's signers register no descriptor
    match manager.sign(Network::Regtest, unsigned_psbt().to_string()) {
        Some(SignerNotif::Error(fg, Error::UnregisteredDescriptor)) => assert_eq!(fg, 0x73c5_da0a),
        _ => panic!("expected an unregistered descriptor"),
    }
    manager.new_hot_signer_from_mnemonic(Network::Regtest, PHRASE.to_string());
    assert_eq!(manager.fingerprints(), vec![0x73c5_da0a]);
}

#[test]
fn foreign_psbt_left_unchanged() {
    let signer = HotSigner::new_from_mnemonics(Network::Regtest, PHRASE).unwrap();
    let other = HotSigner::new_from_xpriv(Network::Regtest, random_xpriv(bitcoin::Network::Regtest)).unwrap();
    let descriptor = wpkh(&signer.xpub(&path("m/84'/1'/0'"))).unwrap();
    let mut psbt = unsigned_psbt();
    let deriv_p = deriv_path(&(AddrAccount::Receive, 0)).unwrap();
    let key = pubkey(&other.public_key_at(&deriv_p));
    psbt.inputs[0].bip32_derivation.insert(key, (fingerprint(&other), bip32::DerivationPath::from(deriv_p
        .iter()
        .map(|c| bip32::ChildNumber::from(*c))
        .collect::<Vec<_>>())));
    let before = psbt.to_string();
    let mut text = before.clone();
    assert!(matches!(signer.inner_sign(&mut text, &descriptor), Some(Ok(()))));
    assert_eq!(text, before);
    // a text that is no PSBT, or a descriptor that makes no derivator, stops
    let mut junk = "junk".to_string();
    assert!(signer.inner_sign(&mut junk, &descriptor).is_none());
    assert_eq!(junk, "junk");
    assert!(signer.inner_sign(&mut text, "not a descriptor").is_none());
}

#[test]
fn derived_keys_match_bip32() {
    let signer = HotSigner::new_from_mnemonics(Network::Regtest, PHRASE).unwrap();
    let seed = bip39::Mnemonic::from_str(PHRASE).unwrap().to_seed("");
    let secp = secp256k1::Secp256k1::new();
    let master = bip32::Xpriv::new_master(bitcoin::NetworkKind::Test, &seed).unwrap();
    let p = bip32::DerivationPath::from_str("m/84'/1'/0'").unwrap();
    let child = master.derive_priv(&secp, &p).unwrap();
    let xpriv = signer.xpriv(&p.to_u32_vec());
    assert_eq!(xpriv.origin.0, 0x73c5_da0a);
    assert_eq!(xpriv.origin.1, p.to_u32_vec());
    assert_eq!(xpriv.xkey, child.encode().to_vec());
    let xpub = signer.xpub(&p.to_u32_vec());
    assert_eq!(xpub.xkey, bip32::Xpub::from_priv(&secp, &child).to_string());
    assert_eq!(signer.depth(), 0);
    let d = wpkh(&xpub).unwrap();
    assert!(d.starts_with("wpkh([73c5da0a/84'/1'/0']tpub"));
    assert!(d.contains("/<0;1>/*)#"));
}

#[test]
fn manager_adds_a_fresh_signer() {
    let mut manager = SigningManager::new();
    match manager.new_hot_signer(Network::Regtest) {
        Some(SignerNotif::Info(f)) => assert_eq!(manager.fingerprints(), vec![f]),
        _ => panic!("a fresh phrase makes a signer"),
    }
}

#[test]
fn each_input_signed_over_its_own_sighash() {
    let signer = HotSigner::new_from_xpriv(Network::Testnet, random_xpriv(bitcoin::Network::Testnet)).unwrap();
    let xpub = signer.xpub(&path("m/84'/0'/0'/1'"));
    let descriptor = wpkh(&xpub).unwrap();
    let derivator = Derivator::new(&descriptor, Network::Regtest).unwrap();
    let mut psbt = unsigned_psbt();
    let second = TxIn {
        previous_output: bitcoin::OutPoint { txid: txid(1), vout: 0 },
        script_sig: ScriptBuf::new(),
        sequence: bitcoin::Sequence::ZERO,
        witness: Witness::new(),
    };
    psbt.unsigned_tx.input.push(second);
    psbt.inputs.push(Default::default());
    for (i, index) in [(0usize, 0u32), (1, 1)] {
        let p = deriv_path(&(AddrAccount::Receive, index)).unwrap();
        let key = pubkey(&signer.public_key_at(&p));
        psbt.inputs[i].bip32_derivation.insert(key, (fingerprint(&signer), bip32::DerivationPath::from(p
            .iter()
            .map(|c| bip32::ChildNumber::from(*c))
            .collect::<Vec<_>>())));
        let spk = derivator.receive_spk_at(index).unwrap();
        psbt.inputs[i].witness_utxo =
            Some(bitcoin::TxOut { value: Amount::from_sat(100_000), script_pubkey: ScriptBuf::from_bytes(spk.bytes) });
    }
    let mut text = psbt.to_string();
    assert!(matches!(signer.inner_sign(&mut text, &descriptor), Some(Ok(()))));
    let signed = Psbt::from_str(&text).unwrap();
    let secp = secp256k1::Secp256k1::verification_only();
    let mut cache = bitcoin::sighash::SighashCache::new(signed.unsigned_tx.clone());
    for i in 0..2 {
        assert_eq!(signed.inputs[i].partial_sigs.len(), 1);
        let (msg, _) = signed.sighash_ecdsa(i, &mut cache).unwrap();
        for (pk, sig) in &signed.inputs[i].partial_sigs {
            assert!(secp.verify_ecdsa(&msg, &sig.signature, &pk.inner).is_ok());
        }
    }
}
