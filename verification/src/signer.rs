//! The hot signer: a master key kept in the wallet, the descriptors it
//! agreed to sign for, the keys it derives, and how it signs the inputs of a
//! PSBT that are its own; the derivation paths of the wallet's keys, and the
//! errors of signing.
use vstd::prelude::*;
use std::str::FromStr;
use miniscript::bitcoin::{self, bip32, secp256k1};
use miniscript::{Descriptor, DescriptorPublicKey};
use crate::types::{AddrAccount, Network};
use crate::derivator::{Derivator, KeyInfo, KeyModel, derived_address, descriptor_keys, descriptor_key_models, descriptor_parses, derivation_check, descriptor_split_count};
use crate::config::{dec_text, decimal_text, digit_char, digit_str};
use crate::mnemonic::{mnemonic_parse, mnemonic_seed, parse_mnemonic, random_mnemonic, seed_of};

verus! {

/// Why signing failed.
#[derive(Debug)]
pub enum Error {
    SighashFail,
    InvalidSignature,
    InputNotOwned,
    XPrivFromSeed,
    MissingWitnessUtxo,
    SpkNotMatch,
    DerivationPath,
    /// a mnemonic error, with its text
    Bip39(String),
    UnregisteredDescriptor,
    DescriptorNetwork,
}

/// The message of an error.
pub open spec fn error_message(e: Error) -> Seq<char> {
    match e {
        Error::SighashFail => "Sighash id not SIGHASH_ALL | SIGHASH_ANYONE_CAN_PAY"@,
        Error::InvalidSignature => "Signature processed is invalid"@,
        Error::Bip39(t) => t@,
        Error::XPrivFromSeed => "Fail to generate XPriv from seed"@,
        Error::InputNotOwned => "this input is not owned"@,
        Error::MissingWitnessUtxo => "witness_utxo field is missing in PSBT"@,
        Error::SpkNotMatch => "spk in spent output do not match"@,
        Error::DerivationPath => "Invalid derivation path"@,
        Error::UnregisteredDescriptor => "Unknown descriptor"@,
        Error::DescriptorNetwork => "Wrong descriptor network"@,
    }
}

impl Error {
    /// The message.
    pub fn text(&self) -> (r: String)
        ensures
            r@ == error_message(*self),
    {
        match self {
            Error::SighashFail => "Sighash id not SIGHASH_ALL | SIGHASH_ANYONE_CAN_PAY".to_string(),
            Error::InvalidSignature => "Signature processed is invalid".to_string(),
            Error::Bip39(t) => t.clone(),
            Error::XPrivFromSeed => "Fail to generate XPriv from seed".to_string(),
            Error::InputNotOwned => "this input is not owned".to_string(),
            Error::MissingWitnessUtxo => "witness_utxo field is missing in PSBT".to_string(),
            Error::SpkNotMatch => "spk in spent output do not match".to_string(),
            Error::DerivationPath => "Invalid derivation path".to_string(),
            Error::UnregisteredDescriptor => "Unknown descriptor".to_string(),
            Error::DescriptorNetwork => "Wrong descriptor network".to_string(),
        }
    }
}

/// The number of the branch of `account` in a derivation path: 0 for
/// receive, 1 for change.
pub open spec fn branch_number(account: AddrAccount) -> u32 {
    match account {
        AddrAccount::Receive => 0,
        AddrAccount::Change => 1,
    }
}

/// The branch and index that a two-step derivation path names.
pub open spec fn account_of_path(p: Seq<u32>) -> (AddrAccount, u32) {
    (if p[0] == 0 { AddrAccount::Receive } else { AddrAccount::Change }, p[1])
}

/// The derivation path of the address at `path`: the branch number (0 for
/// receive, 1 for change) then the index, both unhardened; an index of
/// 2^31 or more is no such path.
pub fn deriv_path(path: &(AddrAccount, u32)) -> (r: Result<Vec<u32>, Error>)
    ensures
        match r {
            Ok(v) => path.1 < 0x8000_0000 && v@ == seq![branch_number(path.0), path.1],
            Err(e) => path.1 >= 0x8000_0000 && e is DerivationPath,
        },
{
    if path.1 >= 0x8000_0000 {
        return Err(Error::DerivationPath);
    }
    let branch: u32 = match path.0 {
        AddrAccount::Receive => 0,
        AddrAccount::Change => 1,
    };
    let v = vec![branch, path.1];
    assert(v@ =~= seq![branch_number(path.0), path.1]);
    Ok(v)
}

/// Reading back the path of a branch and an unhardened index gives them:
/// the path is one that `account_path` accepts, and it names them.
pub proof fn law_account_path_inverts_deriv_path(account: AddrAccount, index: u32)
    requires
        index < 0x8000_0000,
    ensures
        seq![branch_number(account), index].len() == 2,
        seq![branch_number(account), index][0] <= 1,
        account_of_path(seq![branch_number(account), index]) == (account, index),
{
}

/// The branch and index of a two-step derivation path; a path of another
/// length is refused. The first step must be a branch number, 0 or 1.
pub fn account_path(path: &Vec<u32>) -> (r: Result<(AddrAccount, u32), Error>)
    requires
        path@.len() == 2 ==> path@[0] <= 1,
    ensures
        match r {
            Ok((a, i)) => path@.len() == 2 && (a, i) == account_of_path(path@),
            Err(e) => path@.len() != 2 && e is DerivationPath,
        },
{
    if path.len() != 2 {
        return Err(Error::DerivationPath);
    }
    Ok((AddrAccount::from_u32(path[0]), path[1]))
}

/// The encoded master key (`Xpriv::new_master`, written with
/// `Xpriv::encode`) of `seed` for the network kind of `network`, or `None`
/// when the seed gives no valid key.
pub uninterp spec fn master_key(network: Network, seed: Seq<u8>) -> Option<Seq<u8>>;

/// The fingerprint of the encoded extended private key `xpriv`
/// (`Xpriv::decode`, `Xpriv::fingerprint`), read big-endian, or `None` when
/// the bytes are no such key.
pub uninterp spec fn key_fingerprint(xpriv: Seq<u8>) -> Option<u32>;

/// The depth of an encoded extended key: its fifth byte.
pub open spec fn key_depth(xpriv: Seq<u8>) -> nat {
    xpriv[4] as nat
}

/// The encoded extended private key derived from `master` along `path`
/// (`Xpriv::derive_priv`), or `None` when the derivation fails.
pub uninterp spec fn child_xpriv(master: Seq<u8>, path: Seq<u32>) -> Option<Seq<u8>>;

/// The text of the extended public key derived from `master` along `path`
/// (`Xpub::from_priv` of the derived private key, with its `Display`).
pub uninterp spec fn child_xpub(master: Seq<u8>, path: Seq<u32>) -> Option<Seq<char>>;

/// The compressed public key (33 bytes) of the key derived from `master`
/// along `path`.
pub uninterp spec fn child_public_key(master: Seq<u8>, path: Seq<u32>) -> Option<Seq<u8>>;

/// Makes the master key of `seed` (`Xpriv::new_master`) for the network kind
/// of `network` and encodes it (`Xpriv::encode`). Claims that the result is
/// the named master key, and that it decodes: `decode` reads back what
/// `encode` wrote.
#[verifier::external_body]
fn new_master(network: Network, seed: &Vec<u8>) -> (r: Option<Vec<u8>>)
    ensures
        match r {
            Some(k) => master_key(network, seed@) == Some(k@) && key_fingerprint(k@) is Some && k@.len() == 78,
            None => master_key(network, seed@) is None,
        },
{
    let kind = match network {
        Network::Bitcoin => bitcoin::NetworkKind::Main,
        _ => bitcoin::NetworkKind::Test,
    };
    bip32::Xpriv::new_master(kind, seed).ok().map(|k| k.encode().to_vec())
}

/// Decodes `xpriv` (`Xpriv::decode`) and takes its fingerprint
/// (`Xpriv::fingerprint`), read big-endian. Claims that the result is the
/// named fingerprint, and that a key decodes only from 78 bytes.
#[verifier::external_body]
fn fingerprint_of(xpriv: &Vec<u8>) -> (r: Option<u32>)
    ensures
        r == key_fingerprint(xpriv@),
        r is Some ==> xpriv@.len() == 78,
{
    let secp = secp256k1::Secp256k1::signing_only();
    bip32::Xpriv::decode(xpriv).ok().map(|k| u32::from_be_bytes(k.fingerprint(&secp).to_bytes()))
}

/// Derives the extended private key of `master` along `path`
/// (`Xpriv::derive_priv`) and encodes it. Claims that the result is the
/// named derived key, and what the source of `derive_priv` shows: it fails
/// only when the depth would pass 255.
#[verifier::external_body]
fn derive_xpriv(master: &Vec<u8>, path: &Vec<u32>) -> (r: Option<Vec<u8>>)
    requires
        key_fingerprint(master@) is Some,
    ensures
        r is Some <==> path@.len() + key_depth(master@) <= 255,
        match r {
            Some(k) => child_xpriv(master@, path@) == Some(k@),
            None => child_xpriv(master@, path@) is None,
        },
{
    let secp = secp256k1::Secp256k1::signing_only();
    let path: Vec<bip32::ChildNumber> = path.iter().map(|c| bip32::ChildNumber::from(*c)).collect();
    bip32::Xpriv::decode(master).ok()?.derive_priv(&secp, &path).ok().map(|k| k.encode().to_vec())
}

/// Derives the extended private key of `master` along `path` and writes its
/// extended public key (`Xpub::from_priv`, `Display`). Claims that the result
/// is the named derived key, with the condition of `derive_xpriv`.
#[verifier::external_body]
fn derive_xpub(master: &Vec<u8>, path: &Vec<u32>) -> (r: Option<String>)
    requires
        key_fingerprint(master@) is Some,
    ensures
        r is Some <==> path@.len() + key_depth(master@) <= 255,
        match r {
            Some(k) => child_xpub(master@, path@) == Some(k@),
            None => child_xpub(master@, path@) is None,
        },
{
    let secp = secp256k1::Secp256k1::signing_only();
    let path: Vec<bip32::ChildNumber> = path.iter().map(|c| bip32::ChildNumber::from(*c)).collect();
    let child = bip32::Xpriv::decode(master).ok()?.derive_priv(&secp, &path).ok()?;
    Some(bip32::Xpub::from_priv(&secp, &child).to_string())
}

/// Derives the private key of `master` along `path` and serializes its
/// public key (`SecretKey::public_key`, `PublicKey::serialize`). Claims that
/// the result is the named public key, with the condition of `derive_xpriv`.
#[verifier::external_body]
fn derive_public_key(master: &Vec<u8>, path: &Vec<u32>) -> (r: Option<Vec<u8>>)
    requires
        key_fingerprint(master@) is Some,
    ensures
        r is Some <==> path@.len() + key_depth(master@) <= 255,
        match r {
            Some(k) => child_public_key(master@, path@) == Some(k@),
            None => child_public_key(master@, path@) is None,
        },
{
    let secp = secp256k1::Secp256k1::signing_only();
    let path: Vec<bip32::ChildNumber> = path.iter().map(|c| bip32::ChildNumber::from(*c)).collect();
    let child = bip32::Xpriv::decode(master).ok()?.derive_priv(&secp, &path).ok()?;
    Some(child.private_key.public_key(&secp).serialize().to_vec())
}

/// The canonical text of the descriptor that `text` denotes
/// (`Descriptor::from_str`, then its `Display`), or `None` when the text is
/// no descriptor. Two descriptors are the same when their canonical texts
/// are.
pub uninterp spec fn canonical_descriptor(text: Seq<char>) -> Option<Seq<char>>;

/// Parses `text` as a descriptor (`Descriptor::<DescriptorPublicKey>::from_str`)
/// and writes it back (`Display`). Claims that the result is the named
/// canonical text, made exactly when the text parses.
#[verifier::external_body]
fn canonical(text: &str) -> (r: Option<String>)
    ensures
        r is Some <==> descriptor_parses(text@),
        match r {
            Some(c) => canonical_descriptor(text@) == Some(c@),
            None => canonical_descriptor(text@) is None,
        },
{
    Descriptor::<DescriptorPublicKey>::from_str(text).ok().map(|d| d.to_string())
}

/// Whether two byte strings are the same.
fn bytes_eq(a: &Vec<u8>, b: &Vec<u8>) -> (r: bool)
    ensures
        r == (a@ == b@),
{
    let n = a.len();
    if n != b.len() {
        return false;
    }
    for i in 0..n
        invariant
            n == a@.len(),
            n == b@.len(),
            forall|j: int| 0 <= j < i ==> a@[j] == b@[j],
    {
        if a[i] != b[i] {
            return false;
        }
    }
    assert(a@ =~= b@);
    true
}

/// The raw flag of the only sighash type the signer signs with: all inputs
/// and outputs.
pub const SIGHASH_ALL_FLAG: u32 = 1;

/// What the signer reads of one key of a PSBT input: the public key (33
/// bytes), the fingerprint of the master key it comes from, and its path.
#[derive(Debug)]
pub struct KeySource {
    pub pubkey: Vec<u8>,
    pub fingerprint: u32,
    pub path: Vec<u32>,
}

/// The abstract value of a key source.
pub type KeySourceModel = (Seq<u8>, u32, Seq<u32>);

impl View for KeySource {
    type V = KeySourceModel;

    open spec fn view(&self) -> KeySourceModel {
        (self.pubkey@, self.fingerprint, self.path@)
    }
}

/// What the signer reads of a PSBT input: its keys, in the order of their
/// public keys, and the script of the output it spends when the PSBT holds
/// that output.
#[derive(Debug)]
pub struct InputInfo {
    pub derivations: Vec<KeySource>,
    pub witness_script: Option<Vec<u8>>,
}

/// The abstract value of what is read of an input.
pub struct InputInfoModel {
    pub derivations: Seq<KeySourceModel>,
    pub witness_script: Option<Seq<u8>>,
}

impl View for InputInfo {
    type V = InputInfoModel;

    open spec fn view(&self) -> InputInfoModel {
        InputInfoModel {
            derivations: self.derivations@.map_values(|k: KeySource| k@),
            witness_script: match self.witness_script {
                Some(w) => Some(w@),
                None => None,
            },
        }
    }
}

/// What the signer reads of the inputs of the PSBT of base64 text `psbt`, or
/// `None` when the text is no PSBT.
pub uninterp spec fn psbt_inputs(psbt: Seq<char>) -> Option<Seq<InputInfoModel>>;

/// The message to sign for input `index` of the PSBT `psbt`
/// (`Psbt::sighash_ecdsa` of that input) and the raw flag of its sighash
/// type, or `None` when it cannot be computed.
pub uninterp spec fn psbt_sighash(psbt: Seq<char>, index: nat) -> Option<(Seq<u8>, u32)>;

/// The compact low-R ECDSA signature (64 bytes) of the 32-byte `digest` by
/// the key derived from `master` along `path`.
pub uninterp spec fn low_r_signature(master: Seq<u8>, path: Seq<u32>, digest: Seq<u8>) -> Option<Seq<u8>>;

/// Whether `sig` is a valid ECDSA signature of `digest` by `pubkey`.
pub uninterp spec fn signature_valid(pubkey: Seq<u8>, digest: Seq<u8>, sig: Seq<u8>) -> bool;

/// The base64 text of the PSBT `psbt` once the partial signature `sig` by
/// `pubkey`, with the sighash type of raw flag `sighash`, is set on input
/// `index`; `None` when that cannot be done.
pub uninterp spec fn psbt_with_signature(psbt: Seq<char>, index: nat, pubkey: Seq<u8>, sig: Seq<u8>, sighash: u32) -> Option<Seq<char>>;

/// Parses the PSBT (`Psbt::from_str`) and reads each input: its
/// `bip32_derivation` entries in map order (public key serialized,
/// fingerprint read big-endian, path with `DerivationPath::to_u32_vec`) and
/// the script of its `witness_utxo`. Claims that the result is the named
/// reading.
#[verifier::external_body]
fn read_psbt_inputs(psbt: &str) -> (r: Option<Vec<InputInfo>>)
    ensures
        match r {
            Some(v) => psbt_inputs(psbt@) == Some(v@.map_values(|i: InputInfo| i@)),
            None => psbt_inputs(psbt@) is None,
        },
{
    let p = bitcoin::Psbt::from_str(psbt).ok()?;
    Some(p.inputs.iter().map(|i| InputInfo {
        derivations: i.bip32_derivation.iter().map(|(k, (f, d))| KeySource {
            pubkey: k.serialize().to_vec(),
            fingerprint: u32::from_be_bytes(f.to_bytes()),
            path: d.to_u32_vec(),
        }).collect(),
        witness_script: i.witness_utxo.as_ref().map(|o| o.script_pubkey.to_bytes()),
    }).collect())
}

/// Parses the PSBT and computes the message of input `index`
/// (`Psbt::sighash_ecdsa` with a `SighashCache` of its unsigned transaction),
/// with the raw flag of the sighash type. Claims that the result is the
/// named message, and that a message has 32 bytes.
#[verifier::external_body]
fn input_sighash(psbt: &str, index: usize) -> (r: Option<(Vec<u8>, u32)>)
    ensures
        match r {
            Some((m, t)) => psbt_sighash(psbt@, index as nat) == Some((m@, t)) && m@.len() == 32,
            None => psbt_sighash(psbt@, index as nat) is None,
        },
{
    let p = bitcoin::Psbt::from_str(psbt).ok()?;
    let mut cache = bitcoin::sighash::SighashCache::new(p.unsigned_tx.clone());
    p.sighash_ecdsa(index, &mut cache).ok().map(|(m, t)| (m.as_ref().to_vec(), t.to_u32()))
}

/// Derives the private key of `master` along `path` and signs `digest`
/// (`Message::from_digest_slice`, `Secp256k1::sign_ecdsa_low_r`), written
/// compact (`Signature::serialize_compact`). Claims that the result is the
/// named signature, and that it is made whenever the key derives and the
/// digest has 32 bytes.
#[verifier::external_body]
fn sign_digest(master: &Vec<u8>, path: &Vec<u32>, digest: &Vec<u8>) -> (r: Option<Vec<u8>>)
    requires
        key_fingerprint(master@) is Some,
    ensures
        (path@.len() + key_depth(master@) <= 255 && digest@.len() == 32) ==> r is Some,
        match r {
            Some(s) => low_r_signature(master@, path@, digest@) == Some(s@),
            None => low_r_signature(master@, path@, digest@) is None,
        },
{
    let secp = secp256k1::Secp256k1::signing_only();
    let path: Vec<bip32::ChildNumber> = path.iter().map(|c| bip32::ChildNumber::from(*c)).collect();
    let key = bip32::Xpriv::decode(master).ok()?.derive_priv(&secp, &path).ok()?.private_key;
    let message = secp256k1::Message::from_digest_slice(digest).ok()?;
    Some(secp.sign_ecdsa_low_r(&message, &key).serialize_compact().to_vec())
}

/// Reads the public key, the message and the compact signature
/// (`PublicKey::from_slice`, `Message::from_digest_slice`,
/// `Signature::from_compact`) and checks the signature
/// (`Secp256k1::verify_ecdsa`). Claims that the result is the named
/// validity.
#[verifier::external_body]
fn verify_signature(pubkey: &Vec<u8>, digest: &Vec<u8>, sig: &Vec<u8>) -> (r: bool)
    ensures
        r == signature_valid(pubkey@, digest@, sig@),
{
    let secp = secp256k1::Secp256k1::verification_only();
    match (secp256k1::PublicKey::from_slice(pubkey), secp256k1::Message::from_digest_slice(digest),
        secp256k1::ecdsa::Signature::from_compact(sig)) {
        (Ok(k), Ok(m), Ok(s)) => secp.verify_ecdsa(&m, &s, &k).is_ok(),
        _ => false,
    }
}

/// Parses the PSBT, sets on input `index` the partial signature `sig` by
/// `pubkey` with the sighash type of raw flag `sighash`
/// (`EcdsaSighashType::from_standard`), and writes the PSBT back. Claims
/// that the result is the named PSBT.
#[verifier::external_body]
fn add_signature(psbt: &str, index: usize, pubkey: &Vec<u8>, sig: &Vec<u8>, sighash: u32) -> (r: Option<String>)
    ensures
        match r {
            Some(p) => psbt_with_signature(psbt@, index as nat, pubkey@, sig@, sighash) == Some(p@),
            None => psbt_with_signature(psbt@, index as nat, pubkey@, sig@, sighash) is None,
        },
{
    let mut p = bitcoin::Psbt::from_str(psbt).ok()?;
    let key = bitcoin::PublicKey::from_slice(pubkey).ok()?;
    let signature = secp256k1::ecdsa::Signature::from_compact(sig).ok()?;
    let sighash_type = bitcoin::EcdsaSighashType::from_standard(sighash).ok()?;
    p.inputs.get_mut(index)?.partial_sigs.insert(key, bitcoin::ecdsa::Signature { signature, sighash_type });
    Some(p.to_string())
}

/// The paths of the keys that come from the master key of fingerprint
/// `fp`, in order.
pub open spec fn own_paths(ds: Seq<KeySourceModel>, fp: u32) -> Seq<Seq<u32>>
    decreases ds.len(),
{
    if ds.len() == 0 {
        Seq::empty()
    } else if ds.last().1 == fp {
        own_paths(ds.drop_last(), fp).push(ds.last().2)
    } else {
        own_paths(ds.drop_last(), fp)
    }
}

/// The inputs to sign, in order, each with its message and the paths of its
/// own keys: an input with own keys must hold the output it spends, and its
/// own message in the PSBT `psbt` must be computed with the sighash type
/// `SIGHASH_ALL`.
pub open spec fn sign_targets(infos: Seq<InputInfoModel>, fp: u32, psbt: Seq<char>)
    -> Result<Seq<(nat, Seq<u8>, Seq<Seq<u32>>)>, Error>
    decreases infos.len(),
{
    if infos.len() == 0 {
        Ok(Seq::empty())
    } else {
        match sign_targets(infos.drop_last(), fp, psbt) {
            Err(e) => Err(e),
            Ok(t) => {
                let paths = own_paths(infos.last().derivations, fp);
                if paths.len() == 0 {
                    Ok(t)
                } else if infos.last().witness_script is None {
                    Err(Error::MissingWitnessUtxo)
                } else {
                    match psbt_sighash(psbt, (infos.len() - 1) as nat) {
                        None => Err(Error::SighashFail),
                        Some((m, flag)) => if flag != SIGHASH_ALL_FLAG {
                            Err(Error::SighashFail)
                        } else {
                            Ok(t.push(((infos.len() - 1) as nat, m, paths)))
                        },
                    }
                }
            },
        }
    }
}

/// Whether some key of the input has the public key `pk`.
pub open spec fn has_pubkey(ds: Seq<KeySourceModel>, pk: Seq<u8>) -> bool {
    exists|j: int| 0 <= j < ds.len() && (#[trigger] ds[j]).0 == pk
}

/// What signing with the key at path `d` gives: `None` where the signer
/// stops (the key does not derive, a two-step path does not start with a
/// branch, or no address derives there); no signature when the input has
/// no such public key; else the checks of the spent output against the
/// address at the path, then the signature, checked.
pub open spec fn path_signature(
    master: Seq<u8>,
    ds: Seq<KeySourceModel>,
    witness: Option<Seq<u8>>,
    desc: (Seq<char>, Network),
    digest: Seq<u8>,
    d: Seq<u32>,
) -> Option<Result<Option<(Seq<u8>, Seq<u8>)>, Error>> {
    match child_public_key(master, d) {
        None => None,
        Some(pk) => if !has_pubkey(ds, pk) {
            Some(Ok(None))
        } else {
            match witness {
                None => Some(Err(Error::MissingWitnessUtxo)),
                Some(spk) => if d.len() != 2 {
                    Some(Err(Error::DerivationPath))
                } else if d[0] > 1 {
                    None
                } else {
                    match derived_address(desc.0, desc.1, d[0] as nat, d[1]) {
                        None => None,
                        Some(a) => if spk != a.1 {
                            Some(Err(Error::SpkNotMatch))
                        } else {
                            match low_r_signature(master, d, digest) {
                                None => None,
                                Some(sig) => if !signature_valid(pk, digest, sig) {
                                    Some(Err(Error::InvalidSignature))
                                } else {
                                    Some(Ok(Some((pk, sig))))
                                },
                            }
                        },
                    }
                },
            }
        },
    }
}

/// The signatures of an input, path by path, or the first error, or `None`
/// where the signer stops.
pub open spec fn input_signatures(
    master: Seq<u8>,
    ds: Seq<KeySourceModel>,
    witness: Option<Seq<u8>>,
    desc: (Seq<char>, Network),
    digest: Seq<u8>,
    paths: Seq<Seq<u32>>,
) -> Option<Result<Seq<(Seq<u8>, Seq<u8>)>, Error>>
    decreases paths.len(),
{
    if paths.len() == 0 {
        Some(Ok(Seq::empty()))
    } else {
        match input_signatures(master, ds, witness, desc, digest, paths.drop_last()) {
            None => None,
            Some(Err(e)) => Some(Err(e)),
            Some(Ok(sigs)) => match path_signature(master, ds, witness, desc, digest, paths.last()) {
                None => None,
                Some(Err(e)) => Some(Err(e)),
                Some(Ok(None)) => Some(Ok(sigs)),
                Some(Ok(Some(s))) => Some(Ok(sigs.push(s))),
            },
        }
    }
}

/// The PSBT once the signatures are set on input `index`, in order.
pub open spec fn apply_signatures(psbt: Seq<char>, index: nat, sigs: Seq<(Seq<u8>, Seq<u8>)>) -> Option<Seq<char>>
    decreases sigs.len(),
{
    if sigs.len() == 0 {
        Some(psbt)
    } else {
        match apply_signatures(psbt, index, sigs.drop_last()) {
            None => None,
            Some(p) => psbt_with_signature(p, index, sigs.last().0, sigs.last().1, SIGHASH_ALL_FLAG),
        }
    }
}

/// Signing the targets in order: each input is signed in full and set in
/// the PSBT before the next; the first error stops, the inputs signed before
/// it staying signed. `None` where the signer stops.
pub open spec fn sign_inputs(
    master: Seq<u8>,
    desc: (Seq<char>, Network),
    psbt: Seq<char>,
    infos: Seq<InputInfoModel>,
    targets: Seq<(nat, Seq<u8>, Seq<Seq<u32>>)>,
) -> Option<(Result<(), Error>, Seq<char>)>
    decreases targets.len(),
{
    if targets.len() == 0 {
        Some((Ok(()), psbt))
    } else {
        match sign_inputs(master, desc, psbt, infos, targets.drop_last()) {
            None => None,
            Some((Err(e), p)) => Some((Err(e), p)),
            Some((Ok(()), p)) => {
                let (i, digest, paths) = targets.last();
                match input_signatures(master, infos[i as int].derivations, infos[i as int].witness_script, desc, digest, paths) {
                    None => None,
                    Some(Err(e)) => Some((Err(e), p)),
                    Some(Ok(sigs)) => match apply_signatures(p, i, sigs) {
                        None => None,
                        Some(p2) => Some((Ok(()), p2)),
                    },
                }
            },
        }
    }
}

/// The descriptor of `text` makes a derivator for `network`.
pub open spec fn derivator_ok(text: Seq<char>, network: Network) -> bool {
    descriptor_parses(text) && derivation_check(descriptor_key_models(text), network, descriptor_split_count(text)) is Ok
}

/// What signing the PSBT `psbt` for the descriptor `descriptor` gives: the
/// outcome and the PSBT after it; `None` where the signer stops (the
/// descriptor makes no derivator, the text is no PSBT, or signing an input
/// stops).
pub open spec fn sign_spec(signer: HotSignerModel, psbt: Seq<char>, descriptor: Seq<char>) -> Option<(Result<(), Error>, Seq<char>)> {
    if !derivator_ok(descriptor, signer.network) {
        None
    } else {
        match psbt_inputs(psbt) {
            None => None,
            Some(infos) => match sign_targets(infos, signer.fingerprint, psbt) {
                Err(e) => Some((Err(e), psbt)),
                Ok(targets) => sign_inputs(signer.master, (descriptor, signer.network), psbt, infos, targets),
            },
        }
    }
}


/// Once signing the paths of an input has stopped or failed, more paths do
/// not change the outcome.
proof fn lemma_input_signatures_stick(
    master: Seq<u8>,
    ds: Seq<KeySourceModel>,
    witness: Option<Seq<u8>>,
    desc: (Seq<char>, Network),
    digest: Seq<u8>,
    paths: Seq<Seq<u32>>,
    k: int,
)
    requires
        0 <= k <= paths.len(),
        !(input_signatures(master, ds, witness, desc, digest, paths.take(k)) matches Some(Ok(_))),
    ensures
        input_signatures(master, ds, witness, desc, digest, paths)
            == input_signatures(master, ds, witness, desc, digest, paths.take(k)),
    decreases paths.len() - k,
{
    if k < paths.len() {
        assert(paths.take(k + 1).drop_last() =~= paths.take(k));
        lemma_input_signatures_stick(master, ds, witness, desc, digest, paths, k + 1);
    } else {
        assert(paths.take(k) =~= paths);
    }
}

/// Once setting signatures has failed, more signatures do not change that.
proof fn lemma_apply_signatures_stick(psbt: Seq<char>, index: nat, sigs: Seq<(Seq<u8>, Seq<u8>)>, k: int)
    requires
        0 <= k <= sigs.len(),
        apply_signatures(psbt, index, sigs.take(k)) is None,
    ensures
        apply_signatures(psbt, index, sigs) is None,
    decreases sigs.len() - k,
{
    if k < sigs.len() {
        assert(sigs.take(k + 1).drop_last() =~= sigs.take(k));
        lemma_apply_signatures_stick(psbt, index, sigs, k + 1);
    } else {
        assert(sigs.take(k) =~= sigs);
    }
}

/// Once signing the inputs has stopped or failed, more inputs do not change
/// the outcome.
proof fn lemma_sign_inputs_stick(
    master: Seq<u8>,
    desc: (Seq<char>, Network),
    psbt: Seq<char>,
    infos: Seq<InputInfoModel>,
    targets: Seq<(nat, Seq<u8>, Seq<Seq<u32>>)>,
    k: int,
)
    requires
        0 <= k <= targets.len(),
        !(sign_inputs(master, desc, psbt, infos, targets.take(k)) matches Some((Ok(_), _))),
    ensures
        sign_inputs(master, desc, psbt, infos, targets) == sign_inputs(master, desc, psbt, infos, targets.take(k)),
    decreases targets.len() - k,
{
    if k < targets.len() {
        assert(targets.take(k + 1).drop_last() =~= targets.take(k));
        lemma_sign_inputs_stick(master, desc, psbt, infos, targets, k + 1);
    } else {
        assert(targets.take(k) =~= targets);
    }
}

/// Once choosing the inputs to sign has failed, more inputs do not change
/// the outcome.
proof fn lemma_sign_targets_stick(infos: Seq<InputInfoModel>, fp: u32, psbt: Seq<char>, k: int)
    requires
        0 <= k <= infos.len(),
        sign_targets(infos.take(k), fp, psbt) is Err,
    ensures
        sign_targets(infos, fp, psbt) == sign_targets(infos.take(k), fp, psbt),
    decreases infos.len() - k,
{
    if k < infos.len() {
        assert(infos.take(k + 1).drop_last() =~= infos.take(k));
        lemma_sign_targets_stick(infos, fp, psbt, k + 1);
    } else {
        assert(infos.take(k) =~= infos);
    }
}

/// The paths of the keys of `ds` that come from the master key of
/// fingerprint `fp`.
fn own_paths_of(ds: &Vec<KeySource>, fp: u32) -> (r: Vec<Vec<u32>>)
    ensures
        r@.map_values(|p: Vec<u32>| p@) == own_paths(ds@.map_values(|k: KeySource| k@), fp),
{
    let ghost dv = ds@.map_values(|k: KeySource| k@);
    let mut r: Vec<Vec<u32>> = Vec::new();
    let n = ds.len();
    for i in 0..n
        invariant
            n == ds@.len(),
            dv == ds@.map_values(|k: KeySource| k@),
            r@.map_values(|p: Vec<u32>| p@) == own_paths(dv.take(i as int), fp),
    {
        assert(dv.take(i + 1).drop_last() =~= dv.take(i as int));
        assert(dv.take(i + 1).last() == ds@[i as int]@);
        if ds[i].fingerprint == fp {
            r.push(ds[i].path.clone());
            assert(r@.map_values(|p: Vec<u32>| p@) =~= own_paths(dv.take(i as int), fp).push(ds@[i as int].path@));
        }
    }
    assert(dv.take(n as int) =~= dv);
    r
}

/// Whether some key of `ds` has the public key `pk`.
fn has_key(ds: &Vec<KeySource>, pk: &Vec<u8>) -> (r: bool)
    ensures
        r == has_pubkey(ds@.map_values(|k: KeySource| k@), pk@),
{
    let ghost dv = ds@.map_values(|k: KeySource| k@);
    let n = ds.len();
    for i in 0..n
        invariant
            n == ds@.len(),
            dv == ds@.map_values(|k: KeySource| k@),
            forall|j: int| 0 <= j < i ==> (#[trigger] dv[j]).0 != pk@,
    {
        if bytes_eq(&ds[i].pubkey, pk) {
            assert(dv[i as int].0 == pk@);
            return true;
        }
    }
    false
}

/// The abstract value of a list of signatures.
pub open spec fn sigs_view(v: Seq<(Vec<u8>, Vec<u8>)>) -> Seq<(Seq<u8>, Seq<u8>)> {
    v.map_values(|s: (Vec<u8>, Vec<u8>)| (s.0@, s.1@))
}

/// The abstract value of the inputs to sign.
pub open spec fn targets_view(v: Seq<(usize, Vec<u8>, Vec<Vec<u32>>)>) -> Seq<(nat, Seq<u8>, Seq<Seq<u32>>)> {
    v.map_values(|t: (usize, Vec<u8>, Vec<Vec<u32>>)| (t.0 as nat, t.1@, t.2@.map_values(|p: Vec<u32>| p@)))
}

/// The abstract value of what is read of the inputs.
pub open spec fn infos_view(v: Seq<InputInfo>) -> Seq<InputInfoModel> {
    v.map_values(|i: InputInfo| i@)
}

impl HotSigner {
    /// What signing with the key at path `d` gives; see `path_signature`.
    fn path_sig(&self, derivator: &Derivator, info: &InputInfo, digest: &Vec<u8>, d: &Vec<u32>)
        -> (r: Option<Result<Option<(Vec<u8>, Vec<u8>)>, Error>>)
        requires
            self.wf(),
            digest@.len() == 32,
        ensures
            path_signature(self@.master, info@.derivations, info@.witness_script, derivator@, digest@, d@) == match r {
                None => None,
                Some(Err(e)) => Some(Err(e)),
                Some(Ok(None)) => Some(Ok(None)),
                Some(Ok(Some((a, b)))) => Some(Ok(Some((a@, b@)))),
            },
    {
        let pk = match derive_public_key(&self.master, d) {
            Some(k) => k,
            None => return None,
        };
        if !has_key(&info.derivations, &pk) {
            return Some(Ok(None));
        }
        let spk = match &info.witness_script {
            Some(s) => s,
            None => return Some(Err(Error::MissingWitnessUtxo)),
        };
        if d.len() == 2 && d[0] > 1 {
            return None;
        }
        let (account, index) = match account_path(d) {
            Ok(ap) => ap,
            Err(e) => return Some(Err(e)),
        };
        let address = match account {
            AddrAccount::Receive => derivator.receive_at(index),
            AddrAccount::Change => derivator.change_at(index),
        };
        let address = match address {
            Some(a) => a,
            None => return None,
        };
        if !bytes_eq(spk, &address.script.bytes) {
            return Some(Err(Error::SpkNotMatch));
        }
        let sig = match sign_digest(&self.master, d, digest) {
            Some(s) => s,
            None => return None,
        };
        if !verify_signature(&pk, digest, &sig) {
            return Some(Err(Error::InvalidSignature));
        }
        Some(Ok(Some((pk, sig))))
    }

    /// The signatures of an input; see `input_signatures`.
    pub fn sign_input(&self, derivator: &Derivator, info: &InputInfo, digest: &Vec<u8>, paths: &Vec<Vec<u32>>)
        -> (r: Option<Result<Vec<(Vec<u8>, Vec<u8>)>, Error>>)
        requires
            self.wf(),
            digest@.len() == 32,
        ensures
            input_signatures(self@.master, info@.derivations, info@.witness_script, derivator@, digest@,
                paths@.map_values(|p: Vec<u32>| p@)) == match r {
                None => None,
                Some(Err(e)) => Some(Err(e)),
                Some(Ok(v)) => Some(Ok(sigs_view(v@))),
            },
    {
        let ghost pv = paths@.map_values(|p: Vec<u32>| p@);
        let ghost (m, ds, w, desc, dg) = (self@.master, info@.derivations, info@.witness_script, derivator@, digest@);
        let mut sigs: Vec<(Vec<u8>, Vec<u8>)> = Vec::new();
        let n = paths.len();
        assert(pv.take(0) =~= Seq::<Seq<u32>>::empty());
        assert(sigs_view(sigs@) =~= Seq::<(Seq<u8>, Seq<u8>)>::empty());
        for k in 0..n
            invariant
                n == paths@.len(),
                pv == paths@.map_values(|p: Vec<u32>| p@),
                m == self@.master && ds == info@.derivations && w == info@.witness_script && desc == derivator@ && dg == digest@,
                self.wf(),
                digest@.len() == 32,
                input_signatures(m, ds, w, desc, dg, pv.take(k as int)) == Some(Ok::<Seq<(Seq<u8>, Seq<u8>)>, Error>(sigs_view(sigs@))),
        {
            assert(pv.take(k + 1).drop_last() =~= pv.take(k as int));
            assert(pv.take(k + 1).last() == paths@[k as int]@);
            let ghost prev = sigs@;
            match self.path_sig(derivator, info, digest, &paths[k]) {
                None => {
                    proof { lemma_input_signatures_stick(m, ds, w, desc, dg, pv, k + 1); }
                    return None;
                },
                Some(Err(e)) => {
                    proof { lemma_input_signatures_stick(m, ds, w, desc, dg, pv, k + 1); }
                    return Some(Err(e));
                },
                Some(Ok(None)) => {},
                Some(Ok(Some(s))) => {
                    let ghost sv = (s.0@, s.1@);
                    sigs.push(s);
                    assert(sigs_view(sigs@) =~= sigs_view(prev).push(sv));
                },
            }
        }
        assert(pv.take(n as int) =~= pv);
        Some(Ok(sigs))
    }
}

impl HotSigner {
    /// The inputs to sign; see `sign_targets`. The message of an input is
    /// computed only when it has own keys.
    fn targets(&self, psbt: &String, infos: &Vec<InputInfo>) -> (r: Result<Vec<(usize, Vec<u8>, Vec<Vec<u32>>)>, Error>)
        ensures
            match r {
                Ok(t) => sign_targets(infos_view(infos@), self@.fingerprint, psbt@)
                    == Ok::<Seq<(nat, Seq<u8>, Seq<Seq<u32>>)>, Error>(targets_view(t@)),
                Err(e) => sign_targets(infos_view(infos@), self@.fingerprint, psbt@) == Err::<Seq<(nat, Seq<u8>, Seq<Seq<u32>>)>, Error>(e),
            },
            r matches Ok(t) ==> forall|k: int| 0 <= k < t@.len() ==> (#[trigger] t@[k]).0 < infos@.len() && t@[k].1@.len() == 32,
    {
        let ghost iv = infos_view(infos@);
        let ghost fp = self@.fingerprint;
        let ghost sh = psbt@;
        let mut t: Vec<(usize, Vec<u8>, Vec<Vec<u32>>)> = Vec::new();
        let n = infos.len();
        assert(iv.take(0) =~= Seq::<InputInfoModel>::empty());
        assert(targets_view(t@) =~= Seq::<(nat, Seq<u8>, Seq<Seq<u32>>)>::empty());
        for i in 0..n
            invariant
                n == infos@.len(),
                iv == infos_view(infos@),
                fp == self@.fingerprint,
                sh == psbt@,
                sign_targets(iv.take(i as int), fp, sh) == Ok::<Seq<(nat, Seq<u8>, Seq<Seq<u32>>)>, Error>(targets_view(t@)),
                forall|k: int| 0 <= k < t@.len() ==> (#[trigger] t@[k]).0 < i && t@[k].1@.len() == 32,
        {
            assert(iv.take(i + 1).drop_last() =~= iv.take(i as int));
            assert(iv.take(i + 1).last() == infos@[i as int]@);
            let paths = own_paths_of(&infos[i].derivations, self.fingerprint);
            if paths.len() > 0 {
                if infos[i].witness_script.is_none() {
                    proof { lemma_sign_targets_stick(iv, fp, sh, i + 1); }
                    return Err(Error::MissingWitnessUtxo);
                }
                let (digest, flag) = match input_sighash(psbt.as_str(), i) {
                    Some(h) => h,
                    None => {
                        proof { lemma_sign_targets_stick(iv, fp, sh, i + 1); }
                        return Err(Error::SighashFail);
                    },
                };
                if flag != SIGHASH_ALL_FLAG {
                    proof { lemma_sign_targets_stick(iv, fp, sh, i + 1); }
                    return Err(Error::SighashFail);
                }
                let ghost prev = t@;
                let ghost tv = (i as nat, digest@, paths@.map_values(|p: Vec<u32>| p@));
                t.push((i, digest, paths));
                assert(targets_view(t@) =~= targets_view(prev).push(tv));
            }
        }
        assert(iv.take(n as int) =~= iv);
        Ok(t)
    }
}

impl HotSigner {
    /// Sets the signatures on input `index` of the PSBT text `work`, in
    /// order; `false`, with `work` left as it was, when one cannot be set.
    fn set_signatures(work: &mut String, index: usize, sigs: &Vec<(Vec<u8>, Vec<u8>)>) -> (ok: bool)
        ensures
            ok ==> apply_signatures(old(work)@, index as nat, sigs_view(sigs@)) == Some(final(work)@),
            !ok ==> apply_signatures(old(work)@, index as nat, sigs_view(sigs@)) is None && final(work)@ == old(work)@,
    {
        let ghost start = work@;
        let ghost sv = sigs_view(sigs@);
        let mut cur = work.clone();
        let n = sigs.len();
        assert(sv.take(0) =~= Seq::<(Seq<u8>, Seq<u8>)>::empty());
        for j in 0..n
            invariant
                n == sigs@.len(),
                sv == sigs_view(sigs@),
                start == work@,
                apply_signatures(start, index as nat, sv.take(j as int)) == Some(cur@),
        {
            assert(sv.take(j + 1).drop_last() =~= sv.take(j as int));
            assert(sv.take(j + 1).last() == (sigs@[j as int].0@, sigs@[j as int].1@));
            match add_signature(cur.as_str(), index, &sigs[j].0, &sigs[j].1, SIGHASH_ALL_FLAG) {
                Some(p) => {
                    cur = p;
                },
                None => {
                    proof { lemma_apply_signatures_stick(start, index as nat, sv, j + 1); }
                    return false;
                },
            }
        }
        assert(sv.take(n as int) =~= sv);
        *work = cur;
        true
    }

    /// Signs the inputs of the PSBT of base64 text `psbt` that come from this
    /// signer's master key, for the descriptor `descriptor`; see `sign_spec`.
    /// `None`, with the PSBT left as it was, where the signer stops: the
    /// descriptor makes no derivator, the text is no PSBT, or an input with
    /// one of its keys has a path that reads as no address of the descriptor.
    /// On an error the inputs signed before it stay signed.
    pub fn inner_sign(&self, psbt: &mut String, descriptor: &str) -> (r: Option<Result<(), Error>>)
        requires
            self.wf(),
        ensures
            match sign_spec(self@, old(psbt)@, descriptor@) {
                None => r is None && final(psbt)@ == old(psbt)@,
                Some((res, p)) => r == Some(res) && final(psbt)@ == p,
            },
    {
        let derivator = match Derivator::new(descriptor, self.network) {
            Ok(d) => d,
            Err(_) => return None,
        };
        let infos = match read_psbt_inputs(psbt.as_str()) {
            Some(v) => v,
            None => return None,
        };
        assert(infos_view(infos@) =~= infos@.map_values(|i: InputInfo| i@));
        let targets = match self.targets(psbt, &infos) {
            Ok(t) => t,
            Err(e) => return Some(Err(e)),
        };
        let ghost iv = infos_view(infos@);
        let ghost tv = targets_view(targets@);
        let ghost desc = (descriptor@, self.network);
        let ghost start = psbt@;
        let mut work = psbt.clone();
        let n = targets.len();
        assert(tv.take(0) =~= Seq::<(nat, Seq<u8>, Seq<Seq<u32>>)>::empty());
        assert(sign_spec(self@, start, descriptor@) == sign_inputs(self@.master, desc, start, iv, tv));
        for k in 0..n
            invariant
                sign_spec(self@, start, descriptor@) == sign_inputs(self@.master, desc, start, iv, tv),
                old(psbt)@ == start,
                n == targets@.len(),
                tv == targets_view(targets@),
                iv == infos_view(infos@),
                desc == derivator@,
                start == psbt@,
                self.wf(),
                forall|q: int| 0 <= q < targets@.len() ==> (#[trigger] targets@[q]).0 < infos@.len() && targets@[q].1@.len() == 32,
                sign_inputs(self@.master, desc, start, iv, tv.take(k as int)) == Some((Ok::<(), Error>(()), work@)),
        {
            assert(tv.take(k + 1).drop_last() =~= tv.take(k as int));
            let t = &targets[k];
            assert(tv.take(k + 1).last() == tv[k as int]);
            let i = t.0;
            assert(iv[i as int] == infos@[i as int]@);
            assert(tv[k as int] == (i as nat, t.1@, t.2@.map_values(|p: Vec<u32>| p@)));
            let ghost before = work@;
            let ghost step = input_signatures(self@.master, iv[i as int].derivations, iv[i as int].witness_script, desc,
                t.1@, t.2@.map_values(|p: Vec<u32>| p@));
            assert(sign_inputs(self@.master, desc, start, iv, tv.take(k + 1)) == match step {
                None => None,
                Some(Err(e)) => Some((Err(e), before)),
                Some(Ok(sigs)) => match apply_signatures(before, i as nat, sigs) {
                    None => None,
                    Some(p2) => Some((Ok(()), p2)),
                },
            });
            match self.sign_input(&derivator, &infos[i], &t.1, &t.2) {
                None => {
                    proof { lemma_sign_inputs_stick(self@.master, desc, start, iv, tv, k + 1); }
                    return None;
                },
                Some(Err(e)) => {
                    proof { lemma_sign_inputs_stick(self@.master, desc, start, iv, tv, k + 1); }
                    *psbt = work;
                    return Some(Err(e));
                },
                Some(Ok(sigs)) => {
                    if !HotSigner::set_signatures(&mut work, i, &sigs) {
                        proof { lemma_sign_inputs_stick(self@.master, desc, start, iv, tv, k + 1); }
                        return None;
                    }
                },
            }
        }
        assert(tv.take(n as int) =~= tv);
        *psbt = work;
        Some(Ok(()))
    }
}

/// The lowercase hexadecimal character of the digit `d`.
pub open spec fn hex_char(d: nat) -> char {
    if d < 10 { digit_char(d) } else if d == 10 { 'a' } else if d == 11 { 'b' } else if d == 12 { 'c' } else if d == 13 {
        'd'
    } else if d == 14 { 'e' } else { 'f' }
}

/// The `n` lowest hexadecimal digits of `v`, most significant first.
pub open spec fn hex_text(v: nat, n: nat) -> Seq<char>
    decreases n,
{
    if n == 0 {
        Seq::empty()
    } else {
        hex_text(v / 16, (n - 1) as nat).push(hex_char(v % 16))
    }
}

/// The text of a derivation step (`ChildNumber`'s `Display`): its index,
/// then `'` when it is hardened.
pub open spec fn step_text(c: u32) -> Seq<char> {
    if c >= 0x8000_0000 {
        dec_text((c - 0x8000_0000) as nat) + "'"@
    } else {
        dec_text(c as nat)
    }
}

/// The text of a derivation path (`DerivationPath`'s `Display`): its steps
/// joined by `/`.
pub open spec fn path_text(p: Seq<u32>) -> Seq<char>
    decreases p.len(),
{
    if p.len() == 0 {
        Seq::empty()
    } else if p.len() == 1 {
        step_text(p[0])
    } else {
        path_text(p.drop_last()) + "/"@ + step_text(p.last())
    }
}

/// The receive and change descriptor text of the extended public key
/// `xkey` of origin `fp` and `path`: `wpkh([fp/path]xkey/<0;1>/*)`, the
/// fingerprint in eight hexadecimal digits.
pub open spec fn wpkh_text(fp: u32, path: Seq<u32>, xkey: Seq<char>) -> Seq<char> {
    "wpkh(["@ + hex_text(fp as nat, 8) + "/"@ + path_text(path) + "]"@ + xkey + "/<0;1>/*)"@
}

/// The canonical text of the descriptor of `wpkh_text`, or `None` when
/// that text is no descriptor.
pub open spec fn wpkh_descriptor(fp: u32, path: Seq<u32>, xkey: Seq<char>) -> Option<Seq<char>> {
    canonical_descriptor(wpkh_text(fp, path, xkey))
}

/// The one-character text of the hexadecimal digit `d`.
fn hex_str(d: u32) -> (r: &'static str)
    requires
        d < 16,
    ensures
        r@ == seq![hex_char(d as nat)],
{
    if d < 10 {
        digit_str(d as u64)
    } else if d == 10 {
        proof { reveal_strlit("a"); }
        "a"
    } else if d == 11 {
        proof { reveal_strlit("b"); }
        "b"
    } else if d == 12 {
        proof { reveal_strlit("c"); }
        "c"
    } else if d == 13 {
        proof { reveal_strlit("d"); }
        "d"
    } else if d == 14 {
        proof { reveal_strlit("e"); }
        "e"
    } else {
        proof { reveal_strlit("f"); }
        "f"
    }
}

/// Appends the `n` lowest hexadecimal digits of `v` to `s`.
fn push_hex(s: &mut String, v: u32, n: u32)
    ensures
        final(s)@ == old(s)@ + hex_text(v as nat, n as nat),
    decreases n,
{
    if n == 0 {
        assert(old(s)@ + hex_text(v as nat, 0) =~= old(s)@);
    } else {
        push_hex(s, v / 16, n - 1);
        let d = hex_str(v % 16);
        let ghost before = s@;
        s.append(d);
        assert(s@ =~= old(s)@ + hex_text(v as nat, n as nat));
    }
}

/// The text of a derivation step.
fn push_step(s: &mut String, c: u32)
    ensures
        final(s)@ == old(s)@ + step_text(c),
{
    if c >= 0x8000_0000 {
        let t = decimal_text((c - 0x8000_0000) as u64);
        s.append(t.as_str());
        s.append("'");
        assert(s@ =~= old(s)@ + step_text(c));
    } else {
        let t = decimal_text(c as u64);
        s.append(t.as_str());
        assert(s@ =~= old(s)@ + step_text(c));
    }
}

/// The text of `wpkh_text`.
fn wpkh_text_of(fp: u32, path: &Vec<u32>, xkey: &String) -> (r: String)
    ensures
        r@ == wpkh_text(fp, path@, xkey@),
{
    let mut s = "wpkh([".to_string();
    push_hex(&mut s, fp, 8);
    s.append("/");
    let ghost head = s@;
    let n = path.len();
    assert(path@.take(0) =~= Seq::<u32>::empty());
    assert(head + path_text(path@.take(0)) =~= head);
    for i in 0..n
        invariant
            n == path@.len(),
            s@ == head + path_text(path@.take(i as int)),
    {
        let ghost before = s@;
        if i > 0 {
            s.append("/");
        }
        push_step(&mut s, path[i]);
        assert(path@.take(i + 1).drop_last() =~= path@.take(i as int));
        assert(path@.take(i + 1).last() == path@[i as int]);
        if i == 0 {
            assert(path_text(path@.take(1)) == step_text(path@[0]));
        }
        assert(s@ =~= head + path_text(path@.take(i + 1)));
    }
    assert(path@.take(n as int) =~= path@);
    s.append("]");
    s.append(xkey.as_str());
    s.append("/<0;1>/*)");
    assert(s@ =~= wpkh_text(fp, path@, xkey@));
    s
}

/// The receive and change descriptor of the extended public key `xpub`:
/// the canonical text of `wpkh_text` of its origin and key.
pub fn wpkh(xpub: &OXpub) -> (r: Option<String>)
    ensures
        match r {
            Some(d) => wpkh_descriptor(xpub.origin.0, xpub.origin.1@, xpub.xkey@) == Some(d@),
            None => wpkh_descriptor(xpub.origin.0, xpub.origin.1@, xpub.xkey@) is None,
        },
{
    let text = wpkh_text_of(xpub.origin.0, &xpub.origin.1, &xpub.xkey);
    canonical(text.as_str())
}

/// What a signer reports.
#[derive(Debug)]
pub enum SignerNotif {
    /// its fingerprint
    Info(u32),
    /// an extended public key asked for
    Xpub(u32, OXpub),
    /// whether a descriptor is registered
    DescriptorRegistered(u32, String, bool),
    /// a signed PSBT, in base64
    Signed(u32, String),
    Error(u32, Error),
    /// an error of the signing manager
    Manager(ManagerError),
}

/// Why the signing manager could not hand a PSBT to a signer.
#[derive(Debug, Clone, Copy, PartialEq, Eq, Structural)]
pub enum ManagerError {
    ParsePsbt,
}

/// A key of a descriptor does not suit a signer of `network`: a single key,
/// or an extended key of the main network for another network, or of a test
/// network for the main one.
pub open spec fn key_network_wrong(k: KeyModel, network: Network) -> bool {
    k.4 || k.1 != (network == Network::Bitcoin)
}

/// Some key of the descriptor does not suit a signer of `network`.
pub open spec fn descriptor_network_wrong(keys: Seq<KeyModel>, network: Network) -> bool {
    exists|i: int| 0 <= i < keys.len() && key_network_wrong(#[trigger] keys[i], network)
}

/// Whether the descriptor of `text` is registered with the signer.
pub open spec fn is_registered(signer: HotSignerModel, text: Seq<char>) -> bool {
    match canonical_descriptor(text) {
        Some(c) => signer.descriptors.contains(c),
        None => false,
    }
}

/// What the signer answers when asked to sign `psbt` for `descriptor`:
/// `UnregisteredDescriptor` for a descriptor it did not register; else the
/// signed PSBT or the error met, as `sign_spec` says, and nothing where
/// signing stops.
pub open spec fn sign_reply(signer: HotSignerModel, psbt: Seq<char>, descriptor: Seq<char>, r: Option<SignerNotif>) -> bool {
    if !is_registered(signer, descriptor) {
        r matches Some(SignerNotif::Error(f, e)) && f == signer.fingerprint && e is UnregisteredDescriptor
    } else {
        match sign_spec(signer, psbt, descriptor) {
            None => r is None,
            Some((Err(e), _)) => r matches Some(SignerNotif::Error(f, e2)) && f == signer.fingerprint && e2 == e,
            Some((Ok(()), p)) => r matches Some(SignerNotif::Signed(f, q)) && f == signer.fingerprint && q@ == p,
        }
    }
}

impl HotSigner {
    /// The signer's information: its fingerprint.
    pub fn info(&self) -> (r: SignerNotif)
        ensures
            r matches SignerNotif::Info(f) && f == self@.fingerprint,
    {
        SignerNotif::Info(self.fingerprint)
    }

    /// The extended public key at `deriv`; `display` is for signers that show
    /// it to their user.
    pub fn get_xpub(&self, deriv: &Vec<u32>, display: bool) -> (r: SignerNotif)
        requires
            self.wf(),
            deriv@.len() + key_depth(self@.master) <= 255,
        ensures
            r matches SignerNotif::Xpub(f, x) && f == self@.fingerprint && x.origin.0 == self@.fingerprint
                && x.origin.1@ == deriv@ && child_xpub(self@.master, deriv@) == Some(x.xkey@),
    {
        SignerNotif::Xpub(self.fingerprint, self.xpub(deriv))
    }

    /// Whether the descriptor of `descriptor` is registered, reported with
    /// the text.
    pub fn is_descriptor_registered(&self, descriptor: &str) -> (r: SignerNotif)
        ensures
            r matches SignerNotif::DescriptorRegistered(f, d, b) && f == self@.fingerprint && d@ == descriptor@
                && b == is_registered(self@, descriptor@),
    {
        let registered = match canonical(descriptor) {
            Some(c) => self.registered(&c),
            None => false,
        };
        SignerNotif::DescriptorRegistered(self.fingerprint, descriptor.to_string(), registered)
    }

    /// Registers the descriptor of `descriptor` when each of its keys is an
    /// extended key of the signer's network; reports the registration, or
    /// `DescriptorNetwork`. A text that is no descriptor is not reported.
    pub fn register_descriptor(&mut self, descriptor: &str) -> (r: Option<SignerNotif>)
        ensures
            old(self).wf() ==> final(self).wf(),
            !descriptor_parses(descriptor@) ==> r is None && final(self)@ == old(self)@,
            descriptor_parses(descriptor@) ==> {
                let wrong = descriptor_network_wrong(descriptor_key_models(descriptor@), old(self)@.network);
                &&& canonical_descriptor(descriptor@) matches Some(c)
                &&& final(self)@ == (HotSignerModel {
                    descriptors: if wrong { old(self)@.descriptors } else { old(self)@.descriptors.insert(c) },
                    ..old(self)@
                })
                &&& if wrong {
                    r matches Some(SignerNotif::Error(f, e)) && f == old(self)@.fingerprint && e is DescriptorNetwork
                } else {
                    r matches Some(SignerNotif::DescriptorRegistered(f, d, b)) && f == old(self)@.fingerprint
                        && d@ == descriptor@ && b
                }
            },
    {
        let c = match canonical(descriptor) {
            Some(c) => c,
            None => return None,
        };
        let keys = descriptor_keys(descriptor);
        let ghost ks = keys@.map_values(|k: KeyInfo| k@);
        let mut wrong = false;
        let n = keys.len();
        for i in 0..n
            invariant
                n == keys@.len(),
                ks == keys@.map_values(|k: KeyInfo| k@),
                wrong == exists|j: int| 0 <= j < i && key_network_wrong(#[trigger] ks[j], self.network),
        {
            assert(ks[i as int] == keys@[i as int]@);
            if keys[i].single || keys[i].mainnet != (self.network == Network::Bitcoin) {
                wrong = true;
            }
        }
        if wrong {
            return Some(SignerNotif::Error(self.fingerprint, Error::DescriptorNetwork));
        }
        self.inner_register_descriptor(descriptor);
        Some(SignerNotif::DescriptorRegistered(self.fingerprint, descriptor.to_string(), true))
    }

    /// Signs the PSBT of base64 text `psbt` for a registered descriptor and
    /// reports the signed PSBT or the error; `UnregisteredDescriptor` for a
    /// descriptor that is not registered. `None` where signing stops (see
    /// `inner_sign`).
    pub fn sign(&self, psbt: String, descriptor: &str) -> (r: Option<SignerNotif>)
        requires
            self.wf(),
        ensures
            sign_reply(self@, psbt@, descriptor@, r),
    {
        let registered = match canonical(descriptor) {
            Some(c) => self.registered(&c),
            None => false,
        };
        if !registered {
            return Some(SignerNotif::Error(self.fingerprint, Error::UnregisteredDescriptor));
        }
        let mut psbt = psbt;
        match self.inner_sign(&mut psbt, descriptor) {
            None => None,
            Some(Err(e)) => Some(SignerNotif::Error(self.fingerprint, e)),
            Some(Ok(())) => Some(SignerNotif::Signed(self.fingerprint, psbt)),
        }
    }
}

/// The signers, by increasing fingerprint, each fingerprint once.
pub open spec fn signers_sorted(s: Seq<HotSignerModel>) -> bool {
    forall|i: int, j: int| 0 <= i < j < s.len() ==> (#[trigger] s[i]).fingerprint < (#[trigger] s[j]).fingerprint
}

/// The signers once `signer` is added: it replaces the signer of the same
/// fingerprint, or takes its place in fingerprint order.
pub open spec fn with_signer(s: Seq<HotSignerModel>, signer: HotSignerModel) -> Seq<HotSignerModel> {
    let pos = Set::new(|i: int| 0 <= i < s.len() && s[i].fingerprint < signer.fingerprint).len() as int;
    if pos < s.len() && s[pos].fingerprint == signer.fingerprint {
        s.update(pos, signer)
    } else {
        s.insert(pos, signer)
    }
}

/// The signer that `phrase` makes for `network`, if any; see
/// `HotSigner::new_from_mnemonics`.
pub open spec fn signer_from_mnemonic(network: Network, phrase: Seq<char>) -> Option<HotSignerModel> {
    match mnemonic_parse(phrase) {
        Err(_) => None,
        Ok(p) => match master_key(network, mnemonic_seed(phrase)) {
            None => None,
            Some(m) => match key_fingerprint(m) {
                None => None,
                Some(fp) => Some(HotSignerModel { master: m, fingerprint: fp, mnemonic: Some(p), descriptors: Set::empty(), network }),
            },
        },
    }
}

/// The hot signers of the wallet, by fingerprint.
#[derive(Debug)]
pub struct SigningManager {
    hot_signers: Vec<HotSigner>,
}

/// The path of the account key that the manager signs with: `m/84'/0'/0'`
/// on the main network, `m/84'/1'/0'` on the others.
pub open spec fn manager_path(network: Network) -> Seq<u32> {
    seq![0x8000_0054u32, if network == Network::Bitcoin { 0x8000_0000u32 } else { 0x8000_0001u32 }, 0x8000_0000u32]
}

impl SigningManager {
    /// The signers, by increasing fingerprint.
    pub closed spec fn signers(&self) -> Seq<HotSignerModel> {
        self.hot_signers@.map_values(|s: HotSigner| s@)
    }

    /// The signers are well formed and sorted by fingerprint.
    pub closed spec fn wf(&self) -> bool {
        &&& forall|i: int| 0 <= i < self.hot_signers@.len() ==> (#[trigger] self.hot_signers@[i]).wf()
        &&& signers_sorted(self.signers())
    }

    /// A manager with no signer.
    pub fn new() -> (r: SigningManager)
        ensures
            r.wf(),
            r.signers() == Seq::<HotSignerModel>::empty(),
    {
        let r = SigningManager { hot_signers: Vec::new() };
        assert(r.signers() =~= Seq::<HotSignerModel>::empty());
        r
    }

    /// The fingerprints of the signers, increasing.
    pub fn fingerprints(&self) -> (r: Vec<u32>)
        ensures
            r@ == self.signers().map_values(|s: HotSignerModel| s.fingerprint),
    {
        let mut r: Vec<u32> = Vec::new();
        let n = self.hot_signers.len();
        for i in 0..n
            invariant
                n == self.hot_signers@.len(),
                r@ == self.signers().take(i as int).map_values(|s: HotSignerModel| s.fingerprint),
        {
            r.push(self.hot_signers[i].fingerprint);
            assert(self.signers().take(i + 1) =~= self.signers().take(i as int).push(self.hot_signers@[i as int]@));
            assert(r@ =~= self.signers().take(i + 1).map_values(|s: HotSignerModel| s.fingerprint));
        }
        assert(self.signers().take(n as int) =~= self.signers());
        r
    }

    /// Adds `signer`, in place of the one of the same fingerprint if any,
    /// and reports its information.
    pub fn add_hot_signer(&mut self, signer: HotSigner) -> (r: SignerNotif)
        requires
            old(self).wf(),
            signer.wf(),
        ensures
            final(self).wf(),
            final(self).signers() == with_signer(old(self).signers(), signer@),
            r matches SignerNotif::Info(f) && f == signer@.fingerprint,
    {
        let ghost s = self.signers();
        let ghost sm = signer@;
        let fp = signer.fingerprint;
        let n = self.hot_signers.len();
        let mut pos: usize = 0;
        while pos < n && self.hot_signers[pos].fingerprint < fp
            invariant
                n == self.hot_signers@.len(),
                s == self.signers(),
                pos <= n,
                signers_sorted(s),
                forall|i: int| 0 <= i < pos ==> (#[trigger] s[i]).fingerprint < fp,
            decreases n - pos,
        {
            pos = pos + 1;
        }
        proof {
            let below = Set::new(|i: int| 0 <= i < s.len() && s[i].fingerprint < fp);
            assert forall|i: int| below.contains(i) <==> vstd::set_lib::set_int_range(0, pos as int).contains(i) by {
                if pos < n && 0 <= i < s.len() && i > pos {
                    assert(s[pos as int].fingerprint < s[i].fingerprint);
                }
            }
            assert(below =~= vstd::set_lib::set_int_range(0, pos as int));
            vstd::set_lib::lemma_int_range(0, pos as int);
        }
        let info = SignerNotif::Info(fp);
        if pos < n && self.hot_signers[pos].fingerprint == fp {
            self.hot_signers.set(pos, signer);
            assert(self.signers() =~= s.update(pos as int, sm));
        } else {
            self.hot_signers.insert(pos, signer);
            assert(self.signers() =~= s.insert(pos as int, sm));
        }
        proof {
            assert forall|i: int| 0 <= i < self.hot_signers@.len() implies (#[trigger] self.hot_signers@[i]).wf() by {
                if i < pos {
                    assert(self.hot_signers@[i] == old(self).hot_signers@[i]);
                } else if i > pos {
                    if self.hot_signers@.len() == old(self).hot_signers@.len() {
                        assert(self.hot_signers@[i] == old(self).hot_signers@[i]);
                    } else {
                        assert(self.hot_signers@[i] == old(self).hot_signers@[i - 1]);
                    }
                }
            }
        }
        info
    }

    /// Makes a signer from `mnemonic` and adds it; see `add_hot_signer`.
    /// `None`, with nothing added, when the phrase makes no signer.
    pub fn new_hot_signer_from_mnemonic(&mut self, network: Network, mnemonic: String) -> (r: Option<SignerNotif>)
        requires
            old(self).wf(),
        ensures
            final(self).wf(),
            match signer_from_mnemonic(network, mnemonic@) {
                None => r is None && final(self).signers() == old(self).signers(),
                Some(sm) => (r matches Some(SignerNotif::Info(f)) && f == sm.fingerprint)
                    && final(self).signers() == with_signer(old(self).signers(), sm),
            },
    {
        match HotSigner::new_from_mnemonics(network, mnemonic.as_str()) {
            Ok(signer) => Some(self.add_hot_signer(signer)),
            Err(_) => None,
        }
    }

    /// Makes a signer from a fresh random twelve-word phrase, which reads
    /// back as itself, and adds it; see `new_hot_signer_from_mnemonic`.
    /// Which phrase comes out is left to chance.
    pub fn new_hot_signer(&mut self, network: Network) -> (r: Option<SignerNotif>)
        requires
            old(self).wf(),
        ensures
            final(self).wf(),
            exists|phrase: Seq<char>| {
                &&& mnemonic_parse(phrase) == Ok::<Seq<char>, Seq<char>>(phrase)
                &&& match #[trigger] signer_from_mnemonic(network, phrase) {
                    None => r is None && final(self).signers() == old(self).signers(),
                    Some(sm) => (r matches Some(SignerNotif::Info(f)) && f == sm.fingerprint)
                        && final(self).signers() == with_signer(old(self).signers(), sm),
                }
            },
    {
        let phrase = random_mnemonic();
        let r = self.new_hot_signer_from_mnemonic(network, phrase);
        proof {
            let p = phrase@;
            assert(mnemonic_parse(p) == Ok::<Seq<char>, Seq<char>>(p));
            assert(match signer_from_mnemonic(network, p) {
                None => r is None && final(self).signers() == old(self).signers(),
                Some(sm) => (r matches Some(SignerNotif::Info(f)) && f == sm.fingerprint)
                    && final(self).signers() == with_signer(old(self).signers(), sm),
            });
        }
        r
    }

    /// Has the signer of smallest fingerprint sign the PSBT of base64 text
    /// `psbt` for its account descriptor on `network`: `wpkh` of its
    /// extended public key at `m/84'/0'/0'` (main network) or `m/84'/1'/0'`.
    /// A text that is no PSBT is reported as `ParsePsbt`; `None` where the
    /// descriptor cannot be made or signing stops.
    pub fn sign(&self, network: Network, psbt: String) -> (r: Option<SignerNotif>)
        requires
            self.wf(),
            self.signers().len() > 0,
            key_depth(self.signers()[0].master) + 3 <= 255,
        ensures
            psbt_inputs(psbt@) is None ==> (r matches Some(SignerNotif::Manager(e)) && e == ManagerError::ParsePsbt),
            psbt_inputs(psbt@) is Some ==> {
                let s0 = self.signers()[0];
                match child_xpub(s0.master, manager_path(network)) {
                    None => false,
                    Some(x) => match wpkh_descriptor(s0.fingerprint, manager_path(network), x) {
                        None => r is None,
                        Some(d) => sign_reply(s0, psbt@, d, r),
                    },
                }
            },
    {
        match read_psbt_inputs(psbt.as_str()) {
            None => return Some(SignerNotif::Manager(ManagerError::ParsePsbt)),
            Some(_) => {},
        }
        let signer = &self.hot_signers[0];
        assert(signer@ == self.signers()[0]);
        let coin: u32 = match network {
            Network::Bitcoin => 0x8000_0000,
            _ => 0x8000_0001,
        };
        let path: Vec<u32> = vec![0x8000_0054u32, coin, 0x8000_0000u32];
        assert(path@ =~= manager_path(network));
        let xpub = signer.xpub(&path);
        let descriptor = match wpkh(&xpub) {
            Some(d) => d,
            None => return None,
        };
        signer.sign(psbt, descriptor.as_str())
    }
}

/// An input without a key of fingerprint `fp` has no own path.
proof fn lemma_no_own_paths(ds: Seq<KeySourceModel>, fp: u32)
    requires
        forall|j: int| 0 <= j < ds.len() ==> (#[trigger] ds[j]).1 != fp,
    ensures
        own_paths(ds, fp).len() == 0,
    decreases ds.len(),
{
    if ds.len() > 0 {
        lemma_no_own_paths(ds.drop_last(), fp);
    }
}

/// Inputs without a key of fingerprint `fp` give nothing to sign.
proof fn lemma_no_targets(infos: Seq<InputInfoModel>, fp: u32, psbt: Seq<char>)
    requires
        forall|i: int, j: int| 0 <= i < infos.len() && 0 <= j < infos[i].derivations.len()
            ==> (#[trigger] infos[i].derivations[j]).1 != fp,
    ensures
        sign_targets(infos, fp, psbt) == Ok::<Seq<(nat, Seq<u8>, Seq<Seq<u32>>)>, Error>(Seq::empty()),
    decreases infos.len(),
{
    if infos.len() > 0 {
        lemma_no_targets(infos.drop_last(), fp, psbt);
        let ds = infos.last().derivations;
        assert forall|j: int| 0 <= j < ds.len() implies (#[trigger] ds[j]).1 != fp by {
            assert(infos[infos.len() - 1].derivations[j] == ds[j]);
        }
        lemma_no_own_paths(ds, fp);
    }
}

/// Signing a PSBT none of whose inputs has a key of the signer succeeds
/// and leaves the PSBT as it was.
pub proof fn law_foreign_psbt_unchanged(signer: HotSignerModel, psbt: Seq<char>, descriptor: Seq<char>)
    requires
        derivator_ok(descriptor, signer.network),
        psbt_inputs(psbt) matches Some(infos) && forall|i: int, j: int|
            0 <= i < infos.len() && 0 <= j < infos[i].derivations.len()
            ==> (#[trigger] infos[i].derivations[j]).1 != signer.fingerprint,
    ensures
        sign_spec(signer, psbt, descriptor) == Some((Ok::<(), Error>(()), psbt)),
{
    let infos = psbt_inputs(psbt)->Some_0;
    lemma_no_targets(infos, signer.fingerprint, psbt);
}

/// A descriptor the signer registered is reported registered: after
/// `register_descriptor` added the canonical text of `text`, the signer
/// holds it.
pub proof fn law_registered_after_register(before: HotSignerModel, after: HotSignerModel, text: Seq<char>)
    requires
        canonical_descriptor(text) matches Some(c) && after == (HotSignerModel {
            descriptors: before.descriptors.insert(c),
            ..before
        }),
    ensures
        is_registered(after, text),
{
}

/// The abstract value of a hot signer.
pub struct HotSignerModel {
    pub master: Seq<u8>,
    pub fingerprint: u32,
    pub mnemonic: Option<Seq<char>>,
    pub descriptors: Set<Seq<char>>,
    pub network: Network,
}

/// A signer whose master key is kept in the wallet: the encoded key, its
/// fingerprint, the phrase it came from if any, the descriptors it agreed
/// to sign for (each once) and its network.
#[derive(Debug)]
pub struct HotSigner {
    master: Vec<u8>,
    fingerprint: u32,
    mnemonic: Option<String>,
    descriptors: Vec<String>,
    network: Network,
}

impl View for HotSigner {
    type V = HotSignerModel;

    closed spec fn view(&self) -> HotSignerModel {
        HotSignerModel {
            master: self.master@,
            fingerprint: self.fingerprint,
            mnemonic: match self.mnemonic {
                Some(m) => Some(m@),
                None => None,
            },
            descriptors: self.descriptors@.map_values(|d: String| d@).to_set(),
            network: self.network,
        }
    }
}

/// An extended private key with where it comes from: the fingerprint of the
/// master key and the path.
#[derive(Debug)]
pub struct OXpriv {
    pub origin: (u32, Vec<u32>),
    pub xkey: Vec<u8>,
}

/// An extended public key with where it comes from: the fingerprint of the
/// master key and the path.
#[derive(Debug)]
pub struct OXpub {
    pub origin: (u32, Vec<u32>),
    pub xkey: String,
}

impl HotSigner {
    /// The key decodes, from 78 bytes, and has the kept fingerprint.
    pub closed spec fn wf(&self) -> bool {
        &&& key_fingerprint(self.master@) == Some(self.fingerprint)
        &&& self.master@.len() == 78
    }

    /// A signer over the encoded master key `xpriv`, with no phrase and no
    /// descriptor; `None` when the bytes are no extended private key.
    pub fn new_from_xpriv(network: Network, xpriv: Vec<u8>) -> (r: Option<HotSigner>)
        ensures
            match r {
                Some(s) => s.wf() && key_fingerprint(xpriv@) == Some(s@.fingerprint) && xpriv@.len() == 78 && s@ == (HotSignerModel {
                    master: xpriv@,
                    fingerprint: s@.fingerprint,
                    mnemonic: None,
                    descriptors: Set::empty(),
                    network,
                }),
                None => key_fingerprint(xpriv@) is None,
            },
    {
        let fingerprint = match fingerprint_of(&xpriv) {
            Some(f) => f,
            None => return None,
        };
        let r = HotSigner { master: xpriv, fingerprint, mnemonic: None, descriptors: Vec::new(), network };
        assert(r@.descriptors =~= Set::<Seq<char>>::empty());
        Some(r)
    }

    /// A signer over the master key of the seed of `mnemonic`, keeping the
    /// phrase; fails with the text of the error when the phrase does not
    /// read, and with `XPrivFromSeed` when the seed gives no key.
    pub fn new_from_mnemonics(network: Network, mnemonic: &str) -> (r: Result<HotSigner, Error>)
        ensures
            match r {
                Ok(s) => mnemonic_parse(mnemonic@) matches Ok(p) && s.wf()
                    && master_key(network, mnemonic_seed(mnemonic@)) == Some(s@.master)
                    && s@.mnemonic == Some(p) && s@.descriptors == Set::<Seq<char>>::empty() && s@.network == network,
                Err(e) => match mnemonic_parse(mnemonic@) {
                    Err(t) => e matches Error::Bip39(m) && m@ == t,
                    Ok(_) => e is XPrivFromSeed && master_key(network, mnemonic_seed(mnemonic@)) is None,
                },
            },
    {
        let phrase = match parse_mnemonic(mnemonic) {
            Ok(p) => p,
            Err(e) => return Err(Error::Bip39(e)),
        };
        let seed = seed_of(mnemonic);
        let key = match new_master(network, &seed) {
            Some(k) => k,
            None => return Err(Error::XPrivFromSeed),
        };
        let fingerprint = match fingerprint_of(&key) {
            Some(f) => f,
            None => return Err(Error::XPrivFromSeed),
        };
        let r = HotSigner { master: key, fingerprint, mnemonic: Some(phrase), descriptors: Vec::new(), network };
        assert(r@.descriptors =~= Set::<Seq<char>>::empty());
        Ok(r)
    }

    /// A signer over a fresh random twelve-word phrase. Not for the main
    /// network.
    pub fn new(network: Network) -> (r: Result<HotSigner, Error>)
        requires
            network != Network::Bitcoin,
        ensures
            match r {
                Ok(s) => {
                    &&& s.wf()
                    &&& s@.mnemonic matches Some(p)
                    &&& mnemonic_parse(p) == Ok::<Seq<char>, Seq<char>>(p)
                    &&& master_key(network, mnemonic_seed(p)) == Some(s@.master)
                    &&& s@.descriptors == Set::<Seq<char>>::empty()
                    &&& s@.network == network
                },
                Err(e) => e is XPrivFromSeed,
            },
    {
        let phrase = random_mnemonic();
        HotSigner::new_from_mnemonics(network, phrase.as_str())
    }

    /// The fingerprint of the master key.
    pub fn fingerprint(&self) -> (r: u32)
        ensures
            r == self@.fingerprint,
    {
        self.fingerprint
    }

    /// The network.
    pub fn network(&self) -> (r: Network)
        ensures
            r == self@.network,
    {
        self.network
    }

    /// The phrase the master key comes from, if any.
    pub fn mnemonic(&self) -> (r: Option<String>)
        ensures
            match r {
                Some(m) => self@.mnemonic == Some(m@),
                None => self@.mnemonic is None,
            },
    {
        match &self.mnemonic {
            Some(m) => Some(m.clone()),
            None => None,
        }
    }

    /// The depth of the master key.
    pub fn depth(&self) -> (r: u8)
        requires
            self.wf(),
        ensures
            r == key_depth(self@.master),
    {
        self.master[4]
    }

    /// The extended private key at `path` from the master key, with its
    /// origin.
    pub fn xpriv(&self, path: &Vec<u32>) -> (r: OXpriv)
        requires
            self.wf(),
            path@.len() + key_depth(self@.master) <= 255,
        ensures
            r.origin.0 == self@.fingerprint,
            r.origin.1@ == path@,
            child_xpriv(self@.master, path@) == Some(r.xkey@),
    {
        let xkey = match derive_xpriv(&self.master, path) {
            Some(k) => k,
            None => Vec::new(),
        };
        OXpriv { origin: (self.fingerprint, path.clone()), xkey }
    }

    /// The extended public key at `path` from the master key, with its
    /// origin.
    pub fn xpub(&self, path: &Vec<u32>) -> (r: OXpub)
        requires
            self.wf(),
            path@.len() + key_depth(self@.master) <= 255,
        ensures
            r.origin.0 == self@.fingerprint,
            r.origin.1@ == path@,
            child_xpub(self@.master, path@) == Some(r.xkey@),
    {
        let xkey = match derive_xpub(&self.master, path) {
            Some(k) => k,
            None => String::new(),
        };
        OXpub { origin: (self.fingerprint, path.clone()), xkey }
    }

    /// The compressed public key at `path` from the master key.
    pub fn public_key_at(&self, path: &Vec<u32>) -> (r: Vec<u8>)
        requires
            self.wf(),
            path@.len() + key_depth(self@.master) <= 255,
        ensures
            child_public_key(self@.master, path@) == Some(r@),
    {
        match derive_public_key(&self.master, path) {
            Some(k) => k,
            None => Vec::new(),
        }
    }

    /// Registers the descriptor of `descriptor` if it is not yet; a text
    /// that is no descriptor registers nothing.
    pub fn inner_register_descriptor(&mut self, descriptor: &str)
        ensures
            final(self)@ == (HotSignerModel {
                descriptors: match canonical_descriptor(descriptor@) {
                    Some(c) => old(self)@.descriptors.insert(c),
                    None => old(self)@.descriptors,
                },
                ..old(self)@
            }),
            old(self).wf() ==> final(self).wf(),
    {
        let c = match canonical(descriptor) {
            Some(c) => c,
            None => return,
        };
        if !self.registered(&c) {
            let ghost before = self.descriptors@;
            self.descriptors.push(c);
            proof {
                assert(self.descriptors@.map_values(|d: String| d@) =~= before.map_values(|d: String| d@).push(c@));
                before.map_values(|d: String| d@).lemma_push_to_set_commute(c@);
            }
        } else {
            assert(old(self)@.descriptors.insert(c@) =~= old(self)@.descriptors);
        }
    }

    /// Whether the canonical descriptor text `c` is registered.
    fn registered(&self, c: &String) -> (r: bool)
        ensures
            r == self@.descriptors.contains(c@),
    {
        let n = self.descriptors.len();
        let ghost texts = self.descriptors@.map_values(|d: String| d@);
        for i in 0..n
            invariant
                n == self.descriptors@.len(),
                texts == self.descriptors@.map_values(|d: String| d@),
                forall|j: int| 0 <= j < i ==> texts[j] != c@,
        {
            if self.descriptors[i] == *c {
                assert(texts[i as int] == c@);
                return true;
            }
        }
        assert(!texts.contains(c@));
        false
    }
}

} // verus!
