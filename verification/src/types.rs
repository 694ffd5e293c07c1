//! The values exchanged with the user interface: flags, statuses, and the
//! plain records describing coins, addresses, pools and transactions.
use vstd::prelude::*;

verus! {

/// A template for a transaction to build.
#[derive(Debug)]
pub struct TransactionTemplate {
    pub inputs: Vec<RustCoin>,
    pub outputs: Vec<Output>,
    /// fee in sats (not sats/vb)
    pub fee: u64,
}

/// An output of a transaction template.
#[derive(Debug)]
pub struct Output {
    pub address: String,
    /// amount in sats
    pub amount: u64,
    pub label: String,
    /// when set, `amount` is not taken into account: the output takes what is left
    pub max: bool,
}

/// The verbosity of the logger.
#[derive(Debug, Clone, Copy, PartialEq, Eq, Structural)]
pub enum LogLevel {
    Off,
    Error,
    Warn,
    Info,
    Debug,
    Trace,
}

/// The events reported to the user interface.
#[derive(Debug, Clone, Copy, PartialEq, Eq, Structural)]
pub enum SignalFlag {
    TxListenerStarted,
    TxListenerStopped,
    TxListenerError,
    PoolListenerStarted,
    PoolUpdate,
    PoolListenerStopped,
    PoolListenerError,
    AddressTipChanged,
    CoinUpdate,
    AccountError,
    Stopped,
    Error,
}

/// The bitcoin networks the wallet runs on.
#[derive(Debug, Clone, Copy, PartialEq, Eq, Structural)]
pub enum Network {
    Regtest,
    Signet,
    Testnet,
    Bitcoin,
}

/// The status of a coin.
#[derive(Debug, Clone, Copy, PartialEq, Eq, Structural, PartialOrd, Ord, Hash)]
pub enum CoinStatus {
    Unconfirmed,
    Confirmed,
    BeingSpend,
    Spent,
}

/// The status of a coinjoin pool.
#[derive(Debug, Clone, Copy, PartialEq, Eq, Structural)]
pub enum PoolStatus {
    Available,
    Processing,
    Joined,
    Closed,
    Error,
}

/// The branch of the wallet an address belongs to.
#[derive(Debug, Clone, Copy, PartialEq, Eq, Structural, PartialOrd, Ord, Hash)]
pub enum AddrAccount {
    Receive,
    Change,
}

/// Whether an address has received coins.
#[derive(Debug, Clone, Copy, PartialEq, Eq, Structural, PartialOrd, Ord, Hash)]
pub enum AddressStatus {
    NotUsed,
    Used,
    Reused,
    Unknown,
}

/// The coins of an account with their confirmed and unconfirmed totals.
#[derive(Debug)]
pub struct CoinState {
    pub coins: Vec<RustCoin>,
    pub confirmed_coins: usize,
    pub confirmed_balance: u64,
    pub unconfirmed_coins: usize,
    pub unconfirmed_balance: u64,
}

/// A coin as shown to the user.
#[derive(Debug)]
pub struct RustCoin {
    pub value: u64,
    pub height: u64,
    pub confirmed: bool,
    pub status: CoinStatus,
    pub outpoint: String,
    pub address: RustAddress,
    pub label: String,
}

/// An address as shown to the user.
#[derive(Debug)]
pub struct RustAddress {
    pub address: String,
    pub status: AddressStatus,
    pub account: AddrAccount,
    pub index: u32,
}

/// The abstract value of a pool description.
pub struct RustPoolModel {
    pub denomination: u64,
    pub total_peers: usize,
    pub current_peers: usize,
    pub relay: Seq<char>,
    pub fees: u32,
    pub id: Seq<char>,
    pub status: PoolStatus,
    pub timeout: u64,
}

/// A coinjoin pool as shown to the user.
#[derive(Debug)]
pub struct RustPool {
    pub denomination: u64,
    pub total_peers: usize,
    pub current_peers: usize,
    pub relay: String,
    pub fees: u32,
    pub id: String,
    pub status: PoolStatus,
    pub timeout: u64,
}

impl View for RustPool {
    type V = RustPoolModel;

    open spec fn view(&self) -> RustPoolModel {
        RustPoolModel {
            denomination: self.denomination,
            total_peers: self.total_peers,
            current_peers: self.current_peers,
            relay: self.relay@,
            fees: self.fees,
            id: self.id@,
            status: self.status,
            timeout: self.timeout,
        }
    }
}

impl RustPool {
    /// A copy with the same fields.
    pub fn duplicate(&self) -> (r: RustPool)
        ensures
            r@ == self@,
    {
        RustPool {
            denomination: self.denomination,
            total_peers: self.total_peers,
            current_peers: self.current_peers,
            relay: self.relay.clone(),
            fees: self.fees,
            id: self.id.clone(),
            status: self.status,
            timeout: self.timeout,
        }
    }
}

/// Copies a list of pools.
pub fn duplicate_pools(pools: &Vec<RustPool>) -> (r: Vec<RustPool>)
    ensures
        r@.map_values(|p: RustPool| p@) == pools@.map_values(|p: RustPool| p@),
{
    let mut r: Vec<RustPool> = Vec::new();
    let n = pools.len();
    for i in 0..n
        invariant
            n == pools@.len(),
            r@.len() == i,
            forall|j: int| 0 <= j < i ==> (#[trigger] r@[j])@ == pools@[j]@,
    {
        r.push(pools[i].duplicate());
    }
    assert(r@.map_values(|p: RustPool| p@) =~= pools@.map_values(|p: RustPool| p@));
    r
}

/// The index of an address branch in a derivation path: receive is 0, and
/// change is 2.
pub open spec fn account_index(account: AddrAccount) -> u32 {
    match account {
        AddrAccount::Receive => 0,
        AddrAccount::Change => 2,
    }
}

impl AddrAccount {
    /// The index of the branch in a derivation path.
    pub fn to_u32(self) -> (r: u32)
        ensures
            r == account_index(self),
    {
        match self {
            AddrAccount::Receive => 0,
            AddrAccount::Change => 2,
        }
    }

    /// The branch numbered `value`: 0 is receive, 1 is change.
    pub fn from_u32(value: u32) -> (r: AddrAccount)
        requires
            value <= 1,
        ensures
            r == (if value == 0 { AddrAccount::Receive } else { AddrAccount::Change }),
    {
        if value == 0 {
            AddrAccount::Receive
        } else {
            AddrAccount::Change
        }
    }
}

impl From<AddrAccount> for u32 {
    fn from(value: AddrAccount) -> (r: u32) {
        value.to_u32()
    }
}

impl vstd::std_specs::convert::FromSpecImpl<AddrAccount> for u32 {
    open spec fn obeys_from_spec() -> bool {
        true
    }

    open spec fn from_spec(v: AddrAccount) -> u32 {
        account_index(v)
    }
}

impl Network {
    /// A boxed copy.
    pub fn boxed(&self) -> (r: Box<Network>)
        ensures
            *r == *self,
    {
        Box::new(*self)
    }
}

/// The text shown for a signal flag. `Stopped` and `Error` have no text of
/// their own and show as "unexpected SignalFlag".
pub open spec fn signal_flag_text(signal: SignalFlag) -> Seq<char> {
    match signal {
        SignalFlag::TxListenerStarted => "TxListenerStarted"@,
        SignalFlag::TxListenerStopped => "TxListenerStopped"@,
        SignalFlag::TxListenerError => "TxListenerError"@,
        SignalFlag::PoolListenerStarted => "PoolListenerStarted"@,
        SignalFlag::PoolListenerStopped => "PoolListenerStopped"@,
        SignalFlag::PoolListenerError => "PoolListenerError"@,
        SignalFlag::AddressTipChanged => "AddressTipChanged"@,
        SignalFlag::CoinUpdate => "CoinUpdate"@,
        SignalFlag::AccountError => "AccountError"@,
        SignalFlag::PoolUpdate => "PoolUpdate"@,
        _ => "unexpected SignalFlag"@,
    }
}

/// The text shown for a signal flag.
pub fn signal_flag_to_string(signal: SignalFlag) -> (r: String)
    ensures
        r@ == signal_flag_text(signal),
{
    let s = match signal {
        SignalFlag::TxListenerStarted => "TxListenerStarted",
        SignalFlag::TxListenerStopped => "TxListenerStopped",
        SignalFlag::TxListenerError => "TxListenerError",
        SignalFlag::PoolListenerStarted => "PoolListenerStarted",
        SignalFlag::PoolListenerStopped => "PoolListenerStopped",
        SignalFlag::PoolListenerError => "PoolListenerError",
        SignalFlag::AddressTipChanged => "AddressTipChanged",
        SignalFlag::CoinUpdate => "CoinUpdate",
        SignalFlag::AccountError => "AccountError",
        SignalFlag::PoolUpdate => "PoolUpdate",
        _ => "unexpected SignalFlag",
    };
    s.to_string()
}

/// The name of a pool status.
pub open spec fn pool_status_text(status: PoolStatus) -> Seq<char> {
    match status {
        PoolStatus::Available => "Available"@,
        PoolStatus::Processing => "Processing"@,
        PoolStatus::Joined => "Joined"@,
        PoolStatus::Closed => "Closed"@,
        PoolStatus::Error => "Error"@,
    }
}

/// The name of a pool status.
pub fn pool_status_to_string(status: PoolStatus) -> (r: String)
    ensures
        r@ == pool_status_text(status),
{
    let s = match status {
        PoolStatus::Available => "Available",
        PoolStatus::Processing => "Processing",
        PoolStatus::Joined => "Joined",
        PoolStatus::Closed => "Closed",
        PoolStatus::Error => "Error",
    };
    s.to_string()
}

/// The receive and change indexes up to which the wallet watches addresses.
#[derive(Debug, Clone, Copy, PartialEq, Eq, Structural)]
pub struct AddressTip {
    pub recv: u32,
    pub change: u32,
}

/// The last generated receive and change indexes of an account.
#[derive(Debug, Clone, Copy, PartialEq, Eq, Structural)]
pub struct Tip {
    pub receive: u32,
    pub change: u32,
}

impl Tip {
    /// Both indexes at zero.
    pub fn new() -> (r: Tip)
        ensures
            r == (Tip { receive: 0, change: 0 }),
    {
        Tip { receive: 0, change: 0 }
    }
}

} // verus!
