//! Address derivation from a multipath descriptor: the checks that the
//! descriptor is usable, and the receive and change addresses it yields.
use vstd::prelude::*;
use std::str::FromStr;
use miniscript::{Descriptor, DescriptorPublicKey, ForEachKey};
use miniscript::descriptor::Wildcard;
use miniscript::bitcoin;
use miniscript::psbt::PsbtExt;
use crate::chain::Script;
use crate::types::{AddrAccount, Network};
use crate::transaction::{psbt_input_update, psbt_output_update};

verus! {

/// Why a descriptor cannot be used for derivation.
#[derive(Debug, Clone, Copy, PartialEq, Eq, Structural)]
pub enum Error {
    NotMultiXpub,
    WrongNetwork,
    MultiPathCount,
    MultiPath,
    Wildcard,
    /// the text is not a descriptor
    InvalidDescriptor,
}

/// What the derivation checks read of one key of a descriptor.
#[derive(Debug)]
pub struct KeyInfo {
    /// the key is an extended key with several derivation paths
    pub multi_xpub: bool,
    /// the extended key is for the main network
    pub mainnet: bool,
    /// the derivation paths, as lists of child numbers
    pub paths: Vec<Vec<u32>>,
    /// the key ends with an unhardened wildcard
    pub unhardened_wildcard: bool,
    /// the key is a single public key, not an extended one
    pub single: bool,
}

/// The abstract value of a key: multi xpub, main network, paths, unhardened
/// wildcard, single key.
pub type KeyModel = (bool, bool, Seq<Seq<u32>>, bool, bool);

impl View for KeyInfo {
    type V = KeyModel;

    open spec fn view(&self) -> KeyModel {
        (self.multi_xpub, self.mainnet, self.paths@.map_values(|p: Vec<u32>| p@), self.unhardened_wildcard, self.single)
    }
}

/// Whether `text` parses as a descriptor with public keys.
pub uninterp spec fn descriptor_parses(text: Seq<char>) -> bool;

/// The keys of the descriptor that `text` denotes, in the order the
/// descriptor visits them.
pub uninterp spec fn descriptor_key_models(text: Seq<char>) -> Seq<KeyModel>;

/// The number of single-path descriptors that the descriptor of `text`
/// splits into, or `None` when the split fails.
pub uninterp spec fn descriptor_split_count(text: Seq<char>) -> Option<nat>;

/// The address text and output script derived at `index` on branch
/// `branch` (0 receive, 1 change) of the descriptor of `text`, or `None`
/// when no address can be derived there.
pub uninterp spec fn derived_address(text: Seq<char>, network: Network, branch: nat, index: u32) -> Option<(Seq<char>, Seq<u8>)>;

/// Parses `text` as a descriptor (`Descriptor::<DescriptorPublicKey>::from_str`).
/// Claims only that it succeeds exactly when the text parses.
#[verifier::external_body]
pub(crate) fn parse_descriptor(text: &str) -> (r: bool)
    ensures
        r == descriptor_parses(text@),
{
    Descriptor::<DescriptorPublicKey>::from_str(text).is_ok()
}

/// Lists the keys of a descriptor with `ForEachKey::for_each_key`, reading
/// for each its kind, the network of its extended key, its derivation paths
/// (`DerivationPath::to_u32_vec`) and its wildcard; a single key has none of
/// these. Claims that the list is the named key list of the text.
#[verifier::external_body]
pub(crate) fn descriptor_keys(text: &str) -> (r: Vec<KeyInfo>)
    requires
        descriptor_parses(text@),
    ensures
        r@.map_values(|k: KeyInfo| k@) == descriptor_key_models(text@),
{
    let mut keys = Vec::new();
    Descriptor::<DescriptorPublicKey>::from_str(text).unwrap().for_each_key(|k| {
        let (multi_xpub, mainnet, paths, unhardened_wildcard, single) = match k {
            DescriptorPublicKey::MultiXPub(x) => (true, x.xkey.network.is_mainnet(),
                x.derivation_paths.paths().iter().map(|p| p.to_u32_vec()).collect(), x.wildcard == Wildcard::Unhardened, false),
            DescriptorPublicKey::XPub(x) => (false, x.xkey.network.is_mainnet(),
                vec![x.derivation_path.to_u32_vec()], x.wildcard == Wildcard::Unhardened, false),
            DescriptorPublicKey::Single(_) => (false, false, Vec::new(), false, true),
        };
        keys.push(KeyInfo { multi_xpub, mainnet, paths, unhardened_wildcard, single });
        true
    });
    keys
}

/// Splits the descriptor of `text` into single-path descriptors
/// (`Descriptor::into_single_descriptors`). Claims that the number of
/// descriptors is the named split count.
#[verifier::external_body]
fn split_count(text: &str) -> (r: Option<usize>)
    requires
        descriptor_parses(text@),
    ensures
        match r {
            Some(n) => descriptor_split_count(text@) == Some(n as nat),
            None => descriptor_split_count(text@) is None,
        },
{
    Descriptor::<DescriptorPublicKey>::from_str(text).unwrap().into_single_descriptors().ok().map(|v| v.len())
}

/// A key is an extended key for the network kind of `network`: main for
/// bitcoin, test for the others.
pub open spec fn key_network_ok(k: KeyModel, network: Network) -> bool {
    k.1 == (network == Network::Bitcoin)
}

/// Each derivation path of the key is one unhardened step.
pub open spec fn key_paths_ok(k: KeyModel) -> bool {
    forall|i: int| 0 <= i < k.2.len() ==> {
        &&& (#[trigger] k.2[i]).len() == 1
        &&& forall|j: int| 0 <= j < k.2[i].len() ==> k.2[i][j] < 0x8000_0000
    }
}

/// A key with derivation paths ends with an unhardened wildcard.
pub open spec fn key_wildcard_ok(k: KeyModel) -> bool {
    k.2.len() == 0 || k.3
}

/// The outcome of the descriptor checks, in the order they are made: every
/// key must be a multipath extended key; then the first failing property
/// over all keys is reported: network, paths, wildcard; then the
/// descriptor must split into exactly two.
pub open spec fn derivation_check(keys: Seq<KeyModel>, network: Network, split: Option<nat>) -> Result<(), Error> {
    if exists|i: int| 0 <= i < keys.len() && !(#[trigger] keys[i]).0 {
        Err(Error::NotMultiXpub)
    } else if exists|i: int| 0 <= i < keys.len() && !key_network_ok(#[trigger] keys[i], network) {
        Err(Error::WrongNetwork)
    } else if exists|i: int| 0 <= i < keys.len() && !key_paths_ok(#[trigger] keys[i]) {
        Err(Error::MultiPath)
    } else if exists|i: int| 0 <= i < keys.len() && !key_wildcard_ok(#[trigger] keys[i]) {
        Err(Error::Wildcard)
    } else if split != Some(2nat) {
        Err(Error::MultiPathCount)
    } else {
        Ok(())
    }
}

/// Checks the paths of one key.
fn paths_ok(k: &KeyInfo) -> (r: bool)
    ensures
        r == key_paths_ok(k@),
{
    let n = k.paths.len();
    for i in 0..n
        invariant
            n == k.paths@.len(),
            forall|a: int| 0 <= a < i ==> {
                &&& (#[trigger] k.paths@[a])@.len() == 1
                &&& forall|j: int| 0 <= j < k.paths@[a]@.len() ==> k.paths@[a]@[j] < 0x8000_0000
            },
    {
        let p = &k.paths[i];
        if p.len() != 1 {
            assert(!key_paths_ok(k@)) by {
                assert(k@.2[i as int] == p@);
            }
            return false;
        }
        if p[0] >= 0x8000_0000 {
            assert(!key_paths_ok(k@)) by {
                assert(k@.2[i as int] == p@);
            }
            return false;
        }
    }
    assert forall|a: int| 0 <= a < k@.2.len() implies {
        &&& (#[trigger] k@.2[a]).len() == 1
        &&& forall|j: int| 0 <= j < k@.2[a].len() ==> k@.2[a][j] < 0x8000_0000
    } by {
        assert(k@.2[a] == k.paths@[a]@);
    }
    true
}

/// The key checks of `derivation_check`, before the split.
pub fn check_keys(keys: &Vec<KeyInfo>, network: Network) -> (r: Result<(), Error>)
    ensures
        r == derivation_check(keys@.map_values(|k: KeyInfo| k@), network, Some(2nat)),
{
    let ghost ks = keys@.map_values(|k: KeyInfo| k@);
    let n = keys.len();
    let mut all_multi = true;
    let mut wrong_network = false;
    let mut wrong_paths = false;
    let mut wrong_wildcard = false;
    for i in 0..n
        invariant
            n == keys@.len(),
            ks == keys@.map_values(|k: KeyInfo| k@),
            all_multi == (forall|a: int| 0 <= a < i ==> (#[trigger] ks[a]).0),
            wrong_network == (exists|a: int| 0 <= a < i && !key_network_ok(#[trigger] ks[a], network)),
            wrong_paths == (exists|a: int| 0 <= a < i && !key_paths_ok(#[trigger] ks[a])),
            wrong_wildcard == (exists|a: int| 0 <= a < i && !key_wildcard_ok(#[trigger] ks[a])),
    {
        let k = &keys[i];
        assert(ks[i as int] == k@);
        if !k.multi_xpub {
            all_multi = false;
        }
        if k.mainnet != (network == Network::Bitcoin) {
            wrong_network = true;
        }
        if !paths_ok(k) {
            wrong_paths = true;
        }
        if k.paths.len() != 0 && !k.unhardened_wildcard {
            wrong_wildcard = true;
        }
        assert(all_multi == (forall|a: int| 0 <= a < i + 1 ==> (#[trigger] ks[a]).0)) by {
            if !all_multi {
                if k.multi_xpub {
                    let a = choose|a: int| 0 <= a < i && !(#[trigger] ks[a]).0;
                }
            }
        }
    }
    if !all_multi {
        return Err(Error::NotMultiXpub);
    }
    if wrong_network {
        return Err(Error::WrongNetwork);
    }
    if wrong_paths {
        return Err(Error::MultiPath);
    }
    if wrong_wildcard {
        return Err(Error::Wildcard);
    }
    Ok(())
}

/// An address derived from the descriptor, with its output script.
#[derive(Debug)]
pub struct DerivedAddress {
    pub address: String,
    pub script: Script,
}

/// Derives receive and change addresses from a checked descriptor.
#[derive(Debug)]
pub struct Derivator {
    text: String,
    network: Network,
}

impl View for Derivator {
    type V = (Seq<char>, Network);

    closed spec fn view(&self) -> (Seq<char>, Network) {
        (self.text@, self.network)
    }
}

/// The branch number of an address branch: 0 receive, 1 change.
pub open spec fn branch_of(account: AddrAccount) -> nat {
    match account {
        AddrAccount::Receive => 0,
        AddrAccount::Change => 1,
    }
}

impl Derivator {
    /// Checks the descriptor of `text` for `network` and keeps its receive
    /// and change descriptors. The descriptor must have only multipath
    /// extended keys for the network, each path one unhardened step, an
    /// unhardened wildcard, and it must split into exactly two descriptors.
    pub fn new(text: &str, network: Network) -> (r: Result<Derivator, Error>)
        ensures
            !descriptor_parses(text@) ==> r == Err::<Derivator, Error>(Error::InvalidDescriptor),
            descriptor_parses(text@) ==> match r {
                Ok(d) => d@ == (text@, network) && derivation_check(
                    descriptor_key_models(text@), network, descriptor_split_count(text@)) == Ok::<(), Error>(()),
                Err(e) => derivation_check(descriptor_key_models(text@), network, descriptor_split_count(text@))
                    == Err::<(), Error>(e),
            },
    {
        if !parse_descriptor(text) {
            return Err(Error::InvalidDescriptor);
        }
        let keys = descriptor_keys(text);
        match check_keys(&keys, network) {
            Err(e) => return Err(e),
            Ok(()) => {},
        }
        match split_count(text) {
            Some(n) => {
                if n != 2 {
                    return Err(Error::MultiPathCount);
                }
                Ok(Derivator { text: text.to_string(), network })
            },
            None => Err(Error::MultiPathCount),
        }
    }

    /// The descriptor text.
    pub fn descriptor(&self) -> (r: String)
        ensures
            r@ == self@.0,
    {
        self.text.clone()
    }

    /// The network addresses are derived for.
    pub fn network(&self) -> (r: Network)
        ensures
            r == self@.1,
    {
        self.network
    }

    /// Derives the address at `index` of `account`: parses the descriptor
    /// text, takes its receive or change single-path descriptor
    /// (`Descriptor::into_single_descriptors`), then calls
    /// `Descriptor::at_derivation_index`, `Descriptor::address`,
    /// `Address::to_string` and `Address::script_pubkey`. Claims that the
    /// result is the named derived address of the text, network, branch and
    /// index, and that there is none at a hardened index (2^31 and above),
    /// which `at_derivation_index` refuses.
    #[verifier::external_body]
    pub(crate) fn derive(&self, account: AddrAccount, index: u32) -> (r: Option<DerivedAddress>)
        ensures
            index >= 0x8000_0000 ==> r is None,
            match r {
                Some(a) => derived_address(self@.0, self@.1, branch_of(account), index) == Some((a.address@, a.script@)),
                None => derived_address(self@.0, self@.1, branch_of(account), index) is None,
            },
    {
        let singles = Descriptor::<DescriptorPublicKey>::from_str(&self.text).ok()?.into_single_descriptors().ok()?;
        let d = singles.get(match account { AddrAccount::Receive => 0, AddrAccount::Change => 1 })?;
        let net = match self.network {
            Network::Regtest => bitcoin::Network::Regtest,
            Network::Signet => bitcoin::Network::Signet,
            Network::Testnet => bitcoin::Network::Testnet,
            Network::Bitcoin => bitcoin::Network::Bitcoin,
        };
        let a = d.at_derivation_index(index).ok()?.address(net).ok()?;
        Some(DerivedAddress { address: a.to_string(), script: Script { bytes: a.script_pubkey().to_bytes() } })
    }

    /// The receive address at `index`.
    pub fn receive_at(&self, index: u32) -> (r: Option<DerivedAddress>)
        ensures
            index >= 0x8000_0000 ==> r is None,
            match r {
                Some(a) => derived_address(self@.0, self@.1, 0, index) == Some((a.address@, a.script@)),
                None => derived_address(self@.0, self@.1, 0, index) is None,
            },
    {
        self.derive(AddrAccount::Receive, index)
    }

    /// The change address at `index`.
    pub fn change_at(&self, index: u32) -> (r: Option<DerivedAddress>)
        ensures
            index >= 0x8000_0000 ==> r is None,
            match r {
                Some(a) => derived_address(self@.0, self@.1, 1, index) == Some((a.address@, a.script@)),
                None => derived_address(self@.0, self@.1, 1, index) is None,
            },
    {
        self.derive(AddrAccount::Change, index)
    }

    /// The output script of the receive address at `index`.
    pub fn receive_spk_at(&self, index: u32) -> (r: Option<Script>)
        ensures
            index >= 0x8000_0000 ==> r is None,
            match r {
                Some(s) => derived_address(self@.0, self@.1, 0, index) matches Some(a) && s@ == a.1,
                None => derived_address(self@.0, self@.1, 0, index) is None,
            },
    {
        match self.receive_at(index) {
            Some(a) => Some(a.script),
            None => None,
        }
    }

    /// The output script of the change address at `index`.
    pub fn change_spk_at(&self, index: u32) -> (r: Option<Script>)
        ensures
            index >= 0x8000_0000 ==> r is None,
            match r {
                Some(s) => derived_address(self@.0, self@.1, 1, index) matches Some(a) && s@ == a.1,
                None => derived_address(self@.0, self@.1, 1, index) is None,
            },
    {
        match self.change_at(index) {
            Some(a) => Some(a.script),
            None => None,
        }
    }
}

/// The most weight, in weight units, that satisfying an input of the first
/// single-path descriptor of `text` takes; `None` when the text does not
/// parse, does not split, or has no such bound.
pub uninterp spec fn satisfaction_weight(text: Seq<char>) -> Option<nat>;

impl Derivator {
    /// Parses the descriptor text, takes its first single-path descriptor
    /// (`Descriptor::into_single_descriptors`), and asks it
    /// `Descriptor::max_weight_to_satisfy`, read with `Weight::to_wu`.
    /// Claims that the result is the named satisfaction weight of the text.
    #[verifier::external_body]
    pub(crate) fn max_satisfaction_weight(&self) -> (r: Option<u64>)
        ensures
            match r {
                Some(w) => satisfaction_weight(self@.0) == Some(w as nat),
                None => satisfaction_weight(self@.0) is None,
            },
    {
        let singles = Descriptor::<DescriptorPublicKey>::from_str(&self.text).ok()?.into_single_descriptors().ok()?;
        let first = singles.first()?;
        first.max_weight_to_satisfy().ok().map(|w| w.to_wu())
    }
}

impl Derivator {
    /// Parses the descriptor text, takes its receive or change single-path
    /// descriptor (`Descriptor::into_single_descriptors`) at `index`
    /// (`Descriptor::at_derivation_index`), parses the PSBT `psbt`
    /// (`Psbt::from_str`), updates its input `input` with that descriptor
    /// (`PsbtExt::update_input_with_descriptor`) and writes it back. Claims
    /// that the result is the named update.
    #[verifier::external_body]
    pub(crate) fn update_psbt_input(&self, psbt: &str, input: usize, account: AddrAccount, index: u32) -> (r: Option<String>)
        ensures
            match r {
                Some(p) => psbt_input_update(psbt@, input as nat, self@.0, branch_of(account), index) == Some(p@),
                None => psbt_input_update(psbt@, input as nat, self@.0, branch_of(account), index) is None,
            },
    {
        let singles = Descriptor::<DescriptorPublicKey>::from_str(&self.text).ok()?.into_single_descriptors().ok()?;
        let d = singles.get(match account { AddrAccount::Receive => 0, AddrAccount::Change => 1 })?;
        let definite = d.at_derivation_index(index).ok()?;
        let mut p = bitcoin::Psbt::from_str(psbt).ok()?;
        p.update_input_with_descriptor(input, &definite).ok()?;
        Some(p.to_string())
    }

    /// As `update_psbt_input`, for output `output` of the PSBT
    /// (`PsbtExt::update_output_with_descriptor`).
    #[verifier::external_body]
    pub(crate) fn update_psbt_output(&self, psbt: &str, output: usize, account: AddrAccount, index: u32) -> (r: Option<String>)
        ensures
            match r {
                Some(p) => psbt_output_update(psbt@, output as nat, self@.0, branch_of(account), index) == Some(p@),
                None => psbt_output_update(psbt@, output as nat, self@.0, branch_of(account), index) is None,
            },
    {
        let singles = Descriptor::<DescriptorPublicKey>::from_str(&self.text).ok()?.into_single_descriptors().ok()?;
        let d = singles.get(match account { AddrAccount::Receive => 0, AddrAccount::Change => 1 })?;
        let definite = d.at_derivation_index(index).ok()?;
        let mut p = bitcoin::Psbt::from_str(psbt).ok()?;
        p.update_output_with_descriptor(output, &definite).ok()?;
        Some(p.to_string())
    }
}

/// Whether `text` is a valid descriptor.
pub fn is_descriptor_valid(text: &str) -> (r: bool)
    ensures
        r == descriptor_parses(text@),
{
    parse_descriptor(text)
}

} // verus!
