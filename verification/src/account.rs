//! The decisions of an account: estimating a transaction's size, settling
//! its fee and change, building the plan of a transaction from a template,
//! and what to do with the settings and notifications it receives.
use vstd::prelude::*;
use std::str::FromStr;
use miniscript::bitcoin;
use crate::chain::{OutPoint, Script, outpoint_parse, parse_outpoint, txid_bytes};
use crate::coin_store::{CoinEntry, CoinModel, CoinStore, coin_at, coin_models};
use crate::address_store::{AddressEntryModel, StoreEvent, entry_for, has_script};
use crate::derivator::{Derivator, satisfaction_weight};
use crate::signal::{Error, error_text, JoinstrNotif, Notification, Poll, TxListenerNotif, notification_signal, SignalModel};
use crate::types::{AddrAccount, AddressStatus, AddressTip, Network, Output, RustAddress, RustCoin};
use crate::results::{PoolsResult, ResultModel, pool_models};
use crate::pool_store::{PoolEntry, PoolStore, PoolEntryModel, has_pool, open_pool, showable, shown_where, pools_ordered};
use crate::config::{Config, parse_decimal, parse_unsigned};
use crate::derivator::{DerivedAddress, derived_address};

verus! {

/// Non-witness data counts this many times in the weight.
pub const WITNESS_SCALE_FACTOR: u64 = 4;

/// The smallest amount an output may carry.
pub const DUST_AMOUNT: u64 = 5_000;

/// The most weight that satisfying one input of the account's descriptor
/// takes.
pub fn input_satisfaction_size(derivator: &Derivator) -> (r: Result<u64, Error>)
    ensures
        match r {
            Ok(w) => satisfaction_weight(derivator@.0) == Some(w as nat),
            Err(e) => e == Error::Satisfaction && satisfaction_weight(derivator@.0) is None,
        },
{
    match derivator.max_satisfaction_weight() {
        Some(w) => Ok(w),
        None => Err(Error::Satisfaction),
    }
}

/// The weight of a transaction once its inputs are satisfied: its weight
/// unsigned, the satisfaction of each input, and the segwit marker and
/// flag when no input has a witness yet.
pub open spec fn satisfied_weight(base: nat, sat: nat, inputs: nat, no_witness: bool) -> nat {
    base + sat * inputs + (if inputs > 0 && no_witness { 2nat } else { 0nat })
}

/// A weight in virtual bytes, rounded up.
pub open spec fn vbytes(weight: nat) -> nat {
    (weight + 3) / 4
}

/// The estimate of `tx_estimated_weight`, from the satisfaction weight of
/// an input.
pub open spec fn estimate_spec(sat: Option<nat>, base_weight: u64, num_inputs: u64, no_witness: bool) -> Result<u64, Error> {
    match sat {
        None => Err(Error::Satisfaction),
        Some(s) => if num_inputs == 0 {
            Err(Error::Satisfaction)
        } else if satisfied_weight(base_weight as nat, s, num_inputs as nat, no_witness) > u64::MAX {
            Err(Error::Satisfaction)
        } else {
            Ok(satisfied_weight(base_weight as nat, s, num_inputs as nat, no_witness) as u64)
        },
    }
}

/// Estimates, in weight units, the largest weight of a transaction of weight
/// `base_weight` unsigned with `num_inputs` inputs of the account's
/// descriptor, once satisfied; `no_witness` says that none of its inputs
/// has a witness yet. Fails with `Satisfaction` when the satisfaction of an
/// input is unknown, when there is no input, and when the weight overflows.
pub fn tx_estimated_weight(derivator: &Derivator, base_weight: u64, num_inputs: u64, no_witness: bool) -> (r: Result<u64, Error>)
    ensures
        r == estimate_spec(satisfaction_weight(derivator@.0), base_weight, num_inputs, no_witness),
{
    let sat = match input_satisfaction_size(derivator) {
        Ok(s) => s,
        Err(e) => return Err(e),
    };
    if num_inputs == 0 {
        return Err(Error::Satisfaction);
    }
    let ghost total = satisfied_weight(base_weight as nat, sat as nat, num_inputs as nat, no_witness);
    let inputs_weight = match sat.checked_mul(num_inputs) {
        Some(w) => w,
        None => {
            assert(sat * num_inputs <= total) by (nonlinear_arith)
                requires total == base_weight + sat * num_inputs + (if no_witness { 2int } else { 0int });
            return Err(Error::Satisfaction);
        },
    };
    let marker: u64 = if no_witness { 2 } else { 0 };
    let size = match base_weight.checked_add(inputs_weight) {
        Some(w) => match w.checked_add(marker) {
            Some(w) => w,
            None => return Err(Error::Satisfaction),
        },
        None => return Err(Error::Satisfaction),
    };
    Ok(size)
}

/// A weight in virtual bytes, rounded up.
pub fn vsize(weight: u64) -> (r: u64)
    ensures
        r == vbytes(weight as nat),
{
    let q = weight / WITNESS_SCALE_FACTOR;
    if weight % WITNESS_SCALE_FACTOR == 0 {
        q
    } else {
        q + 1
    }
}

/// The placeholder script of a change output, until the real change
/// address is known: eight zero bytes.
pub open spec fn dummy_script() -> Seq<u8> {
    seq![0u8, 0u8, 0u8, 0u8, 0u8, 0u8, 0u8, 0u8]
}

/// The placeholder script of a change output.
pub fn dummy_spk() -> (r: Script)
    ensures
        r@ == dummy_script(),
{
    let bytes: Vec<u8> = vec![0u8, 0u8, 0u8, 0u8, 0u8, 0u8, 0u8, 0u8];
    assert(bytes@ =~= dummy_script());
    Script::from_bytes(bytes)
}

/// The position of the first output paying the placeholder script, if any.
pub fn change_index(outputs: &Vec<Script>) -> (r: Option<usize>)
    ensures
        match r {
            Some(i) => i < outputs@.len() && outputs@[i as int]@ == dummy_script()
                && forall|j: int| 0 <= j < i ==> (#[trigger] outputs@[j])@ != dummy_script(),
            None => forall|j: int| 0 <= j < outputs@.len() ==> (#[trigger] outputs@[j])@ != dummy_script(),
        },
{
    let dummy = dummy_spk();
    let n = outputs.len();
    for i in 0..n
        invariant
            n == outputs@.len(),
            dummy@ == dummy_script(),
            forall|j: int| 0 <= j < i ==> (#[trigger] outputs@[j])@ != dummy_script(),
    {
        if outputs[i].same(&dummy) {
            return Some(i);
        }
    }
    None
}

/// How the fee is asked for: an amount, or a rate already applied to the
/// estimated weight of the transaction without and with a change output,
/// in virtual bytes.
#[derive(Debug, Clone, Copy, PartialEq, Eq, Structural)]
pub enum FeeSpec {
    Amount(u64),
    Rate { without_change: u64, with_change: u64 },
}

/// The fee of a transaction, whether it has a change output, and what is
/// left for the change or the output that takes the rest.
#[derive(Debug, Clone, Copy, PartialEq, Eq, Structural)]
pub struct Settlement {
    pub fees: u64,
    pub change: bool,
    pub leftover: u64,
}

/// The message when the rest is too small for an output that takes it.
pub open spec fn msg_max_reserve() -> Seq<char> {
    "Not enough reserve to fill maxed output!"@
}

/// The message when the fee cannot be paid.
pub open spec fn msg_fees() -> Seq<char> {
    "Not enough reserve to pay fees!"@
}

/// The message when what is left is dust.
pub open spec fn msg_dust() -> Seq<char> {
    "Maxed output amount is lower than the dust limit"@
}

/// The message when the size of the transaction cannot be estimated.
pub open spec fn estimate_failure(e: Error) -> Seq<char> {
    "Failed to estimate tx weight: "@ + error_text(e)
}

/// The last checks once the fee and the change are known: the fee must be
/// paid; an output taking the rest must get at least the dust limit; with
/// neither a change output nor an output taking the rest, the whole reserve
/// goes to the fee.
pub open spec fn finish_settlement(reserve: u64, fees: u64, change: bool, maxed: bool) -> Result<Settlement, Seq<char>> {
    if fees > reserve {
        Err(msg_fees())
    } else if maxed && reserve - fees < DUST_AMOUNT {
        Err(msg_dust())
    } else if !change && !maxed {
        Ok(Settlement { fees: reserve, change: false, leftover: 0 })
    } else {
        Ok(Settlement { fees, change, leftover: (reserve - fees) as u64 })
    }
}

/// How the fee and the change of a transaction are settled from `reserve`,
/// what the inputs bring beyond the outputs. With an output taking the
/// rest, the reserve must not be dust. A change output is wanted when no
/// output takes the rest and the reserve is above dust; it is dropped when
/// the fee with it cannot be paid (asked by rate), when the reserve is below
/// the size of the transaction with it (asked by amount), or when what it
/// would carry is dust. Without a change output, what an output taking the
/// rest does not get goes to the fee; sizes are weights, and an amount fee
/// pays at least one sat per virtual byte of the transaction with change.
pub open spec fn settle_spec(
    reserve: u64,
    maxed: bool,
    fee: FeeSpec,
    est_without: Result<u64, Error>,
    est_with: Result<u64, Error>,
) -> Result<Settlement, Seq<char>> {
    let fee_sats: u64 = match fee {
        FeeSpec::Amount(a) => a,
        FeeSpec::Rate { .. } => 0,
    };
    if maxed && reserve < DUST_AMOUNT {
        Err(msg_max_reserve())
    } else if fee_sats > reserve {
        Err(msg_fees())
    } else if est_without is Err {
        Err(estimate_failure(est_without->Err_0))
    } else if fee matches FeeSpec::Rate { without_change, .. } && without_change > reserve {
        Err(msg_fees())
    } else {
        let fees_without: u64 = match fee {
            FeeSpec::Amount(a) => a,
            FeeSpec::Rate { without_change, .. } => without_change,
        };
        if !(!maxed && reserve > DUST_AMOUNT) {
            finish_settlement(reserve, fees_without, false, maxed)
        } else if est_with is Err {
            Err(estimate_failure(est_with->Err_0))
        } else {
            let w = est_with->Ok_0;
            let (fees1, change1) = match fee {
                FeeSpec::Rate { with_change, .. } => if with_change > reserve {
                    (fees_without, false)
                } else {
                    (with_change, true)
                },
                FeeSpec::Amount(a) => (a, !(reserve < vbytes(w as nat))),
            };
            if change1 && reserve - fees1 < DUST_AMOUNT {
                finish_settlement(reserve, reserve, false, maxed)
            } else {
                finish_settlement(reserve, fees1, change1, maxed)
            }
        }
    }
}

/// The message for a failed estimate.
fn estimate_message(e: &Error) -> (r: String)
    ensures
        r@ == estimate_failure(*e),
{
    let mut m = "Failed to estimate tx weight: ".to_string();
    let t = e.text();
    m.append(t.as_str());
    m
}

/// The last checks once the fee and the change are known.
fn finish(reserve: u64, fees: u64, change: bool, maxed: bool) -> (r: Result<Settlement, String>)
    ensures
        match r {
            Ok(s) => finish_settlement(reserve, fees, change, maxed) == Ok::<Settlement, Seq<char>>(s),
            Err(m) => finish_settlement(reserve, fees, change, maxed) == Err::<Settlement, Seq<char>>(m@),
        },
{
    if fees > reserve {
        return Err("Not enough reserve to pay fees!".to_string());
    }
    if maxed && reserve - fees < DUST_AMOUNT {
        return Err("Maxed output amount is lower than the dust limit".to_string());
    }
    if !change && !maxed {
        return Ok(Settlement { fees: reserve, change: false, leftover: 0 });
    }
    Ok(Settlement { fees, change, leftover: reserve - fees })
}

/// Settles the fee and the change of a transaction; see `settle_spec`.
pub fn settle_fees(
    reserve: u64,
    maxed: bool,
    fee: FeeSpec,
    est_without: &Result<u64, Error>,
    est_with: &Result<u64, Error>,
) -> (r: Result<Settlement, String>)
    ensures
        match r {
            Ok(s) => settle_spec(reserve, maxed, fee, *est_without, *est_with) == Ok::<Settlement, Seq<char>>(s),
            Err(m) => settle_spec(reserve, maxed, fee, *est_without, *est_with) == Err::<Settlement, Seq<char>>(m@),
        },
{
    let fee_sats: u64 = match fee {
        FeeSpec::Amount(a) => a,
        FeeSpec::Rate { .. } => 0,
    };
    if maxed && reserve < DUST_AMOUNT {
        return Err("Not enough reserve to fill maxed output!".to_string());
    }
    if fee_sats > reserve {
        return Err("Not enough reserve to pay fees!".to_string());
    }
    match est_without {
        Err(e) => return Err(estimate_message(e)),
        Ok(_) => {},
    }
    let fees_without = match fee {
        FeeSpec::Amount(a) => a,
        FeeSpec::Rate { without_change, .. } => {
            if without_change > reserve {
                return Err("Not enough reserve to pay fees!".to_string());
            }
            without_change
        },
    };
    if !(!maxed && reserve > DUST_AMOUNT) {
        return finish(reserve, fees_without, false, maxed);
    }
    let w = match est_with {
        Err(e) => return Err(estimate_message(e)),
        Ok(w) => *w,
    };
    let (fees1, change1) = match fee {
        FeeSpec::Rate { with_change, .. } => if with_change > reserve {
            (fees_without, false)
        } else {
            (with_change, true)
        },
        FeeSpec::Amount(a) => (a, !(reserve < vsize(w))),
    };
    if change1 && reserve - fees1 < DUST_AMOUNT {
        finish(reserve, reserve, false, maxed)
    } else {
        finish(reserve, fees1, change1, maxed)
    }
}

/// What reading an output's address gave: not an address, an address of
/// another network, or the script it pays.
#[derive(Debug)]
pub enum AddressCheck {
    Unparsable,
    WrongNetwork,
    Valid(Script),
}

/// The abstract value of an address check.
pub enum AddressCheckModel {
    Unparsable,
    WrongNetwork,
    Valid(Seq<u8>),
}

impl View for AddressCheck {
    type V = AddressCheckModel;

    open spec fn view(&self) -> AddressCheckModel {
        match self {
            AddressCheck::Unparsable => AddressCheckModel::Unparsable,
            AddressCheck::WrongNetwork => AddressCheckModel::WrongNetwork,
            AddressCheck::Valid(s) => AddressCheckModel::Valid(s@),
        }
    }
}

/// What reading `text` as an address for `network` gives: not an address,
/// an address of another network, or the script it pays.
pub uninterp spec fn address_check(text: Seq<char>, network: Network) -> AddressCheckModel;

/// Reads `address` (`Address::<NetworkUnchecked>::from_str`), checks it
/// against `network` (`Address::is_valid_for_network`) and takes the script
/// it pays (`Address::script_pubkey`). Claims that the result is the named
/// check of the text and network.
#[verifier::external_body]
fn check_address(address: &str, network: Network) -> (r: AddressCheck)
    ensures
        r@ == address_check(address@, network),
{
    let net = match network {
        Network::Regtest => bitcoin::Network::Regtest,
        Network::Signet => bitcoin::Network::Signet,
        Network::Testnet => bitcoin::Network::Testnet,
        Network::Bitcoin => bitcoin::Network::Bitcoin,
    };
    match bitcoin::Address::<bitcoin::address::NetworkUnchecked>::from_str(address) {
        Err(_) => AddressCheck::Unparsable,
        Ok(a) => match a.is_valid_for_network(net) {
            false => AddressCheck::WrongNetwork,
            true => AddressCheck::Valid(Script::from_bytes(a.assume_checked().script_pubkey().to_bytes())),
        },
    }
}

/// Reads the address of each output and checks it against `network`.
pub fn check_addresses(outputs: &Vec<Output>, network: Network) -> (r: Vec<AddressCheck>)
    ensures
        r@.len() == outputs@.len(),
        forall|i: int| 0 <= i < outputs@.len() ==> (#[trigger] r@[i])@ == address_check(outputs@[i].address@, network),
{
    let mut r: Vec<AddressCheck> = Vec::new();
    let n = outputs.len();
    for i in 0..n
        invariant
            n == outputs@.len(),
            r@.len() == i,
            forall|j: int| 0 <= j < i ==> (#[trigger] r@[j])@ == address_check(outputs@[j].address@, network),
    {
        r.push(check_address(outputs[i].address.as_str(), network));
    }
    r
}

/// Reads the outpoint of each input, `None` for one that does not read.
pub fn parse_outpoints(inputs: &Vec<RustCoin>) -> (r: Vec<Option<OutPoint>>)
    ensures
        r@.len() == inputs@.len(),
        forall|i: int| 0 <= i < inputs@.len() ==> match #[trigger] r@[i] {
            Some(op) => outpoint_parse(inputs@[i].outpoint@) == Some((txid_bytes(op.txid), op.vout)),
            None => outpoint_parse(inputs@[i].outpoint@) is None,
        },
{
    let mut r: Vec<Option<OutPoint>> = Vec::new();
    let n = inputs.len();
    for i in 0..n
        invariant
            n == inputs@.len(),
            r@.len() == i,
            forall|j: int| 0 <= j < i ==> match #[trigger] r@[j] {
                Some(op) => outpoint_parse(inputs@[j].outpoint@) == Some((txid_bytes(op.txid), op.vout)),
                None => outpoint_parse(inputs@[j].outpoint@) is None,
            },
    {
        r.push(parse_outpoint(inputs[i].outpoint.as_str()));
    }
    r
}

/// The amount and the max flag of each requested output.
pub open spec fn requests(outputs: Seq<Output>) -> Seq<(u64, bool)> {
    outputs.map_values(|o: Output| (o.amount, o.max))
}

/// The error in how the fee is asked for, if any: exactly one of an amount
/// and a rate, a rate of at least 1 sat/vb.
pub open spec fn fee_fields_error(fee_sats: u64, rate_set: bool, rate_below_one: bool) -> Option<Seq<char>> {
    if fee_sats > 0 && rate_set {
        Some("Only one of fee_sats or fee_sats_vb must be filled!"@)
    } else if fee_sats == 0 && !rate_set {
        Some("One of fee_sats or fee_sats_vb must be filled!"@)
    } else if fee_sats == 0 && rate_below_one {
        Some("Minimum allowed fee rate is 1 sat/vb!"@)
    } else {
        None
    }
}

/// The number of outputs that take the rest.
pub open spec fn max_count(outs: Seq<(u64, bool)>) -> nat
    decreases outs.len(),
{
    if outs.len() == 0 {
        0
    } else {
        max_count(outs.drop_last()) + (if outs.last().1 { 1nat } else { 0nat })
    }
}

/// The sum of the amounts of the outputs that do not take the rest.
pub open spec fn requested_total(outs: Seq<(u64, bool)>) -> nat
    decreases outs.len(),
{
    if outs.len() == 0 {
        0
    } else {
        requested_total(outs.drop_last()) + (if outs.last().1 { 0nat } else { outs.last().0 as nat })
    }
}

/// The first error in reading the addresses, in output order.
pub open spec fn address_error(checks: Seq<AddressCheckModel>) -> Option<Seq<char>>
    decreases checks.len(),
{
    if checks.len() == 0 {
        None
    } else {
        match checks[0] {
            AddressCheckModel::Unparsable => Some("Fail to parse address"@),
            AddressCheckModel::WrongNetwork => Some("Provided address is not valid for the current network"@),
            AddressCheckModel::Valid(_) => address_error(checks.drop_first()),
        }
    }
}

/// The sum of the amounts of the coins at the outpoints, counting nothing
/// for an outpoint without a coin.
pub open spec fn found_total(coins: Seq<CoinModel>, ops: Seq<Option<OutPoint>>) -> nat
    decreases ops.len(),
{
    if ops.len() == 0 {
        0
    } else {
        found_total(coins, ops.drop_last()) + (match ops.last() {
            Some(op) => match coin_at(coins, op) {
                Some(c) => c.value as nat,
                None => 0nat,
            },
            None => 0nat,
        })
    }
}

/// The fee as asked: an amount when one is given, else the rate applied to
/// the estimates.
pub open spec fn fee_of(fee_sats: u64, rate_fees: (u64, u64)) -> FeeSpec {
    if fee_sats > 0 {
        FeeSpec::Amount(fee_sats)
    } else {
        FeeSpec::Rate { without_change: rate_fees.0, with_change: rate_fees.1 }
    }
}

/// The message when the outputs ask more than the inputs bring.
pub open spec fn msg_short() -> Seq<char> {
    "Inputs amount is lower than outputs amount"@
}

/// The outcome of planning a transaction, checks in order: the fee fields,
/// some output, some input, at most one output taking the rest, every
/// outpoint read, every address read and of the network, a coin at every
/// outpoint, inputs bringing at least what the outputs ask; then the fee
/// and change settlement.
pub open spec fn plan_spec(
    coins: Seq<CoinModel>,
    fee_sats: u64,
    rate_set: bool,
    rate_below_one: bool,
    outs: Seq<(u64, bool)>,
    checks: Seq<AddressCheckModel>,
    ops: Seq<Option<OutPoint>>,
    rate_fees: (u64, u64),
    est_without: Result<u64, Error>,
    est_with: Result<u64, Error>,
) -> Result<Settlement, Seq<char>> {
    if fee_fields_error(fee_sats, rate_set, rate_below_one) is Some {
        Err(fee_fields_error(fee_sats, rate_set, rate_below_one)->Some_0)
    } else if outs.len() == 0 {
        Err("No outputs!"@)
    } else if ops.len() == 0 {
        Err("No inputs!"@)
    } else if max_count(outs) > 1 {
        Err("A single output can have the MAX field selected"@)
    } else if exists|i: int| 0 <= i < ops.len() && (#[trigger] ops[i]) is None {
        Err("Fail to parse Outpoint"@)
    } else if address_error(checks) is Some {
        Err(address_error(checks)->Some_0)
    } else if exists|i: int| 0 <= i < ops.len() && coin_at(coins, (#[trigger] ops[i])->Some_0) is None {
        Err("Provided outpoint do not match an available coin"@)
    } else if found_total(coins, ops) < requested_total(outs) {
        Err(msg_short())
    } else {
        settle_spec(
            (found_total(coins, ops) - requested_total(outs)) as u64,
            max_count(outs) == 1,
            fee_of(fee_sats, rate_fees),
            est_without,
            est_with,
        )
    }
}

/// Whether planning gets as far as adding up the amounts: the fee fields,
/// outputs, inputs, outputs taking the rest, outpoints and addresses pass
/// their checks.
pub open spec fn checks_pass(
    fee_sats: u64,
    rate_set: bool,
    rate_below_one: bool,
    outs: Seq<(u64, bool)>,
    checks: Seq<AddressCheckModel>,
    ops: Seq<Option<OutPoint>>,
) -> bool {
    &&& fee_fields_error(fee_sats, rate_set, rate_below_one) is None
    &&& outs.len() > 0
    &&& ops.len() > 0
    &&& max_count(outs) <= 1
    &&& forall|i: int| 0 <= i < ops.len() ==> (#[trigger] ops[i]) is Some
    &&& address_error(checks) is None
}

/// Every outpoint has a coin in `coins`.
pub open spec fn all_found(coins: Seq<CoinModel>, ops: Seq<Option<OutPoint>>) -> bool {
    forall|i: int| 0 <= i < ops.len() ==> coin_at(coins, (#[trigger] ops[i])->Some_0) is Some
}

/// The derivation of the watched address paying `script`, if any.
pub open spec fn deriv_of(entries: Seq<AddressEntryModel>, script: Seq<u8>) -> Option<(AddrAccount, u32)> {
    if has_script(entries, script) {
        Some((entry_for(entries, script).account, entry_for(entries, script).index))
    } else {
        None
    }
}

/// The outputs of a planned transaction before the derivations: each
/// request with its script and amount, the one that takes the rest getting
/// what is left after the fee; then the change output, if any, carrying
/// what is left.
pub open spec fn planned_outputs(outs: Seq<(u64, bool)>, checks: Seq<AddressCheckModel>, s: Settlement) -> Seq<(u64, Seq<u8>)> {
    let base = Seq::new(outs.len(), |i: int| (if outs[i].1 { s.leftover } else { outs[i].0 }, checks[i]->Valid_0));
    if s.change {
        base.push((s.leftover, dummy_script()))
    } else {
        base
    }
}

/// An output of a planned transaction: its amount, its script, and the
/// derivation of its address when the wallet watches it.
#[derive(Debug)]
pub struct PlannedOutput {
    pub value: u64,
    pub script: Script,
    pub deriv: Option<(AddrAccount, u32)>,
}

impl View for PlannedOutput {
    type V = (u64, Seq<u8>, Option<(AddrAccount, u32)>);

    open spec fn view(&self) -> (u64, Seq<u8>, Option<(AddrAccount, u32)>) {
        (self.value, self.script@, self.deriv)
    }
}

/// A planned transaction: the coins it spends, its outputs, and whether the
/// last output is the change.
#[derive(Debug)]
pub struct TxPlan {
    pub inputs: Vec<CoinEntry>,
    pub outputs: Vec<PlannedOutput>,
    pub change: bool,
}

/// The first position of `s` holding nothing, if any.
fn first_none(s: &Vec<Option<OutPoint>>) -> (r: bool)
    ensures
        r == exists|i: int| 0 <= i < s@.len() && (#[trigger] s@[i]) is None,
{
    let n = s.len();
    for i in 0..n
        invariant
            n == s@.len(),
            forall|j: int| 0 <= j < i ==> (#[trigger] s@[j]) is Some,
    {
        if s[i].is_none() {
            return true;
        }
    }
    false
}

/// The first error in reading the addresses.
fn first_address_error(checks: &Vec<AddressCheck>) -> (r: Option<String>)
    ensures
        match r {
            Some(m) => address_error(checks@.map_values(|c: AddressCheck| c@)) == Some(m@),
            None => address_error(checks@.map_values(|c: AddressCheck| c@)) is None,
        },
{
    let ghost cv = checks@.map_values(|c: AddressCheck| c@);
    let n = checks.len();
    assert(cv.skip(0) =~= cv);
    for i in 0..n
        invariant
            n == cv.len(),
            cv == checks@.map_values(|c: AddressCheck| c@),
            address_error(cv) == address_error(cv.skip(i as int)),
    {
        let ghost rest = cv.skip(i as int);
        assert(rest[0] == checks@[i as int]@);
        match &checks[i] {
            AddressCheck::Unparsable => return Some("Fail to parse address".to_string()),
            AddressCheck::WrongNetwork => return Some("Provided address is not valid for the current network".to_string()),
            AddressCheck::Valid(_) => {},
        }
        assert(rest.drop_first() =~= cv.skip(i + 1));
    }
    assert(cv.skip(n as int) =~= Seq::<AddressCheckModel>::empty());
    None
}

/// Plans a transaction from a template, read beforehand: the fee amount
/// (`fee_sats`, zero when a rate is asked), whether a rate is set and below
/// 1 sat/vb, the outputs with the check of each address, the outpoint of
/// each input (`None` when it did not read), the fees the rate gives
/// without and with a change output, and the size estimates of the
/// transaction without and with it. See `plan_spec` for the outcome. The
/// coins spent are those of the store at the outpoints, in order; the
/// outputs are as `planned_outputs` says, each with the derivation of its
/// address when the wallet watches it.
pub fn process_transaction(
    store: &CoinStore,
    fee_sats: u64,
    rate_set: bool,
    rate_below_one: bool,
    outputs: &Vec<Output>,
    checks: &Vec<AddressCheck>,
    outpoints: &Vec<Option<OutPoint>>,
    rate_fees: (u64, u64),
    est_without: &Result<u64, Error>,
    est_with: &Result<u64, Error>,
) -> (r: Result<TxPlan, String>)
    requires
        store.wf(),
        checks@.len() == outputs@.len(),
        checks_pass(fee_sats, rate_set, rate_below_one, requests(outputs@),
            checks@.map_values(|c: AddressCheck| c@), outpoints@)
            ==> requested_total(requests(outputs@)) <= u64::MAX,
        checks_pass(fee_sats, rate_set, rate_below_one, requests(outputs@),
            checks@.map_values(|c: AddressCheck| c@), outpoints@) && all_found(store.coins_spec(), outpoints@)
            ==> found_total(store.coins_spec(), outpoints@) <= u64::MAX,
    ensures
        ({
            let outs = requests(outputs@);
            let cm = checks@.map_values(|c: AddressCheck| c@);
            let spec = plan_spec(store.coins_spec(), fee_sats, rate_set, rate_below_one, outs, cm, outpoints@,
                rate_fees, *est_without, *est_with);
            match r {
                Err(m) => spec == Err::<Settlement, Seq<char>>(m@),
                Ok(p) => spec is Ok && p.change == spec->Ok_0.change
                    && coin_models(p.inputs@) == outpoints@.map_values(|o: Option<OutPoint>|
                        coin_at(store.coins_spec(), o->Some_0)->Some_0)
                    && p.outputs@.map_values(|o: PlannedOutput| o@) == planned_outputs(outs, cm, spec->Ok_0).map_values(
                        |o: (u64, Seq<u8>)| (o.0, o.1, deriv_of(store.addrs().entries(), o.1))),
            }
        }),
{
    let ghost outs = requests(outputs@);
    let ghost cm = checks@.map_values(|c: AddressCheck| c@);
    let ghost coins = store.coins_spec();
    if fee_sats > 0 && rate_set {
        return Err("Only one of fee_sats or fee_sats_vb must be filled!".to_string());
    } else if fee_sats == 0 && !rate_set {
        return Err("One of fee_sats or fee_sats_vb must be filled!".to_string());
    } else if fee_sats == 0 && rate_below_one {
        return Err("Minimum allowed fee rate is 1 sat/vb!".to_string());
    }
    if outputs.len() == 0 {
        return Err("No outputs!".to_string());
    } else if outpoints.len() == 0 {
        return Err("No inputs!".to_string());
    }
    // count the outputs taking the rest
    let n = outputs.len();
    let mut maxed: u64 = 0;
    for i in 0..n
        invariant
            n == outputs@.len(),
            outs == requests(outputs@),
            maxed == max_count(outs.take(i as int)),
            maxed <= 1,
            fee_fields_error(fee_sats, rate_set, rate_below_one) is None,
            n > 0,
            outpoints@.len() > 0,
    {
        assert(outs.take(i + 1).drop_last() =~= outs.take(i as int));
        assert(outs.take(i + 1).last() == (outputs@[i as int].amount, outputs@[i as int].max));
        if outputs[i].max {
            if maxed > 0 {
                assert(max_count(outs.take(i + 1)) == maxed + 1);
                proof { lemma_max_prefix(outs, i + 1); }
                return Err("A single output can have the MAX field selected".to_string());
            }
            maxed = maxed + 1;
        }
    }
    assert(outs.take(n as int) =~= outs);
    if first_none(outpoints) {
        return Err("Fail to parse Outpoint".to_string());
    }
    match first_address_error(checks) {
        Some(m) => return Err(m),
        None => {},
    }
    assert(checks_pass(fee_sats, rate_set, rate_below_one, outs, cm, outpoints@));
    // sum the outputs that do not take the rest
    let mut requested: u64 = 0;
    for i in 0..n
        invariant
            n == outputs@.len(),
            outs == requests(outputs@),
            requested == requested_total(outs.take(i as int)),
            requested_total(outs) <= u64::MAX,
    {
        assert(outs.take(i + 1).drop_last() =~= outs.take(i as int));
        assert(outs.take(i + 1).last() == (outputs@[i as int].amount, outputs@[i as int].max));
        proof { lemma_requested_prefix(outs, i + 1); }
        if !outputs[i].max {
            requested = requested + outputs[i].amount;
        }
    }
    assert(outs.take(n as int) =~= outs);
    // find the coins spent
    let m = outpoints.len();
    let mut inputs: Vec<CoinEntry> = Vec::new();
    for i in 0..m
        invariant
            m == outpoints@.len(),
            coins == store.coins_spec(),
            outs == requests(outputs@),
            cm == checks@.map_values(|c: AddressCheck| c@),
            fee_fields_error(fee_sats, rate_set, rate_below_one) is None,
            outs.len() > 0,
            m > 0,
            maxed == max_count(outs),
            maxed <= 1,
            requested == requested_total(outs),
            address_error(cm) is None,
            forall|j: int| 0 <= j < m ==> (#[trigger] outpoints@[j]) is Some,
            checks_pass(fee_sats, rate_set, rate_below_one, outs, cm, outpoints@),
            inputs@.len() == i,
            forall|j: int| 0 <= j < i ==> coin_at(coins, outpoints@[j]->Some_0) == Some((#[trigger] inputs@[j])@),
    {
        let op = match &outpoints[i] {
            Some(op) => op,
            None => {
                proof { assert(false); }
                return Err("Fail to parse Outpoint".to_string());
            },
        };
        match store.get(op) {
            Some(coin) => {
                inputs.push(coin);
            },
            None => {
                assert(coin_at(coins, outpoints@[i as int]->Some_0) is None);
                assert(!(exists|j: int| 0 <= j < outpoints@.len() && (#[trigger] outpoints@[j]) is None));
                return Err("Provided outpoint do not match an available coin".to_string());
            },
        }
    }
    assert(outpoints@.take(m as int) =~= outpoints@);
    assert forall|j: int| 0 <= j < m implies coin_at(coins, (#[trigger] outpoints@[j])->Some_0) is Some by {
        assert(coin_at(coins, outpoints@[j]->Some_0) == Some(inputs@[j]@));
    }
    assert(coin_models(inputs@) =~= outpoints@.map_values(|o: Option<OutPoint>| coin_at(coins, o->Some_0)->Some_0));
    assert(all_found(coins, outpoints@));
    // sum the coins spent
    let mut found: u64 = 0;
    for i in 0..m
        invariant
            m == outpoints@.len(),
            inputs@.len() == m,
            forall|j: int| 0 <= j < m ==> coin_at(coins, outpoints@[j]->Some_0) == Some((#[trigger] inputs@[j])@),
            forall|j: int| 0 <= j < m ==> (#[trigger] outpoints@[j]) is Some,
            found_total(coins, outpoints@) <= u64::MAX,
            found == found_total(coins, outpoints@.take(i as int)),
    {
        assert(outpoints@.take(i + 1).drop_last() =~= outpoints@.take(i as int));
        assert(outpoints@.take(i + 1).last() == outpoints@[i as int]);
        assert(coin_at(coins, outpoints@[i as int]->Some_0) == Some(inputs@[i as int]@));
        proof { lemma_found_prefix(coins, outpoints@, i + 1); }
        found = found + inputs[i].amount_sat();
    }
    assert(outpoints@.take(m as int) =~= outpoints@);
    if found < requested {
        return Err("Inputs amount is lower than outputs amount".to_string());
    }
    let reserve = found - requested;
    let fee = if fee_sats > 0 {
        FeeSpec::Amount(fee_sats)
    } else {
        FeeSpec::Rate { without_change: rate_fees.0, with_change: rate_fees.1 }
    };
    let settlement = match settle_fees(reserve, maxed == 1, fee, est_without, est_with) {
        Ok(s) => s,
        Err(m) => return Err(m),
    };
    // the outputs, then the change
    let ghost base = Seq::new(outs.len(), |i: int| (if outs[i].1 { settlement.leftover } else { outs[i].0 }, cm[i]->Valid_0));
    let ghost planned = planned_outputs(outs, cm, settlement);
    let dummy = dummy_spk();
    let mut planned_out: Vec<PlannedOutput> = Vec::new();
    for i in 0..n
        invariant
            n == outputs@.len(),
            n == checks@.len(),
            outs == requests(outputs@),
            cm == checks@.map_values(|c: AddressCheck| c@),
            address_error(cm) is None,
            base == Seq::new(outs.len(), |i: int| (if outs[i].1 { settlement.leftover } else { outs[i].0 }, cm[i]->Valid_0)),
            dummy@ == dummy_script(),
            store.wf(),
            planned_out@.len() == i,
            forall|j: int| 0 <= j < i ==> (#[trigger] planned_out@[j])@
                == (base[j].0, base[j].1, deriv_of(store.addrs().entries(), base[j].1)),
    {
        let script = match &checks[i] {
            AddressCheck::Valid(s) => s.duplicate(),
            _ => {
                proof { lemma_address_valid(cm, i as int); }
                Script::from_bytes(Vec::new())
            },
        };
        proof { lemma_address_valid(cm, i as int); }
        assert(cm[i as int] == checks@[i as int]@);
        let value = if outputs[i].max { settlement.leftover } else { outputs[i].amount };
        let deriv = match store.address_info(&script) {
            Some(e) => Some((e.account, e.index)),
            None => None,
        };
        planned_out.push(PlannedOutput { value, script, deriv });
    }
    if settlement.change {
        let deriv = match store.address_info(&dummy) {
            Some(e) => Some((e.account, e.index)),
            None => None,
        };
        planned_out.push(PlannedOutput { value: settlement.leftover, script: dummy, deriv });
    }
    proof {
        let pv = planned_out@.map_values(|o: PlannedOutput| o@);
        let want = planned.map_values(|o: (u64, Seq<u8>)| (o.0, o.1, deriv_of(store.addrs().entries(), o.1)));
        assert(pv.len() == want.len());
        assert forall|j: int| 0 <= j < pv.len() implies pv[j] == want[j] by {
            if j < n {
                assert(pv[j] == planned_out@[j]@);
            }
        }
        assert(pv =~= want);
    }
    Ok(TxPlan { inputs, outputs: planned_out, change: settlement.change })
}

/// Whether the amounts of a plan fit in 64 bits wherever planning adds
/// them up (see `process_transaction`): the outputs not taking the rest
/// once the checks pass, and the coins spent once, moreover, every
/// outpoint has a coin.
pub fn plan_sums_fit(
    store: &CoinStore,
    fee_sats: u64,
    rate_set: bool,
    rate_below_one: bool,
    outputs: &Vec<Output>,
    checks: &Vec<AddressCheck>,
    outpoints: &Vec<Option<OutPoint>>,
) -> (r: bool)
    requires
        store.wf(),
        checks@.len() == outputs@.len(),
    ensures
        r == ({
            let outs = requests(outputs@);
            let cm = checks@.map_values(|c: AddressCheck| c@);
            &&& checks_pass(fee_sats, rate_set, rate_below_one, outs, cm, outpoints@)
                ==> requested_total(outs) <= u64::MAX
            &&& checks_pass(fee_sats, rate_set, rate_below_one, outs, cm, outpoints@) && all_found(store.coins_spec(), outpoints@)
                ==> found_total(store.coins_spec(), outpoints@) <= u64::MAX
        }),
{
    let ghost outs = requests(outputs@);
    let ghost cm = checks@.map_values(|c: AddressCheck| c@);
    let ghost coins = store.coins_spec();
    let fee_ok = !(fee_sats > 0 && rate_set) && !(fee_sats == 0 && !rate_set) && !(fee_sats == 0 && rate_below_one);
    if !fee_ok || outputs.len() == 0 || outpoints.len() == 0 {
        return true;
    }
    let n = outputs.len();
    let mut maxed: u64 = 0;
    for i in 0..n
        invariant
            n == outputs@.len(),
            outs == requests(outputs@),
            maxed == max_count(outs.take(i as int)),
            maxed <= 1,
    {
        assert(outs.take(i + 1).drop_last() =~= outs.take(i as int));
        assert(outs.take(i + 1).last() == (outputs@[i as int].amount, outputs@[i as int].max));
        if outputs[i].max {
            if maxed > 0 {
                proof { lemma_max_prefix(outs, i + 1); }
                return true;
            }
            maxed = maxed + 1;
        }
    }
    assert(outs.take(n as int) =~= outs);
    if first_none(outpoints) {
        return true;
    }
    match first_address_error(checks) {
        Some(_) => return true,
        None => {},
    }
    assert(checks_pass(fee_sats, rate_set, rate_below_one, outs, cm, outpoints@));
    let mut requested: u64 = 0;
    for i in 0..n
        invariant
            n == outputs@.len(),
            outs == requests(outputs@),
            requested == requested_total(outs.take(i as int)),
            cm == checks@.map_values(|c: AddressCheck| c@),
            checks_pass(fee_sats, rate_set, rate_below_one, outs, cm, outpoints@),
    {
        assert(outs.take(i + 1).drop_last() =~= outs.take(i as int));
        assert(outs.take(i + 1).last() == (outputs@[i as int].amount, outputs@[i as int].max));
        proof { lemma_requested_prefix(outs, i + 1); }
        if !outputs[i].max {
            match requested.checked_add(outputs[i].amount) {
                Some(t) => requested = t,
                None => return false,
            }
        }
    }
    assert(outs.take(n as int) =~= outs);
    let m = outpoints.len();
    let mut found: u64 = 0;
    let mut overflow = false;
    for i in 0..m
        invariant
            m == outpoints@.len(),
            coins == store.coins_spec(),
            store.wf(),
            forall|j: int| 0 <= j < m ==> (#[trigger] outpoints@[j]) is Some,
            !overflow ==> found == found_total(coins, outpoints@.take(i as int)),
            overflow ==> found_total(coins, outpoints@.take(i as int)) > u64::MAX,
            forall|j: int| 0 <= j < i ==> coin_at(coins, (#[trigger] outpoints@[j])->Some_0) is Some,
            outs == requests(outputs@),
            cm == checks@.map_values(|c: AddressCheck| c@),
            checks_pass(fee_sats, rate_set, rate_below_one, outs, cm, outpoints@),
            requested_total(outs) <= u64::MAX,
    {
        assert(outpoints@.take(i + 1).drop_last() =~= outpoints@.take(i as int));
        assert(outpoints@.take(i + 1).last() == outpoints@[i as int]);
        let op = match &outpoints[i] {
            Some(op) => op,
            None => return true,
        };
        assert(outpoints@[i as int] == Some(*op));
        match store.get(op) {
            Some(coin) => {
                assert(found_total(coins, outpoints@.take(i + 1))
                    == found_total(coins, outpoints@.take(i as int)) + coin@.value);
                if !overflow {
                    match found.checked_add(coin.amount_sat()) {
                        Some(t) => found = t,
                        None => overflow = true,
                    }
                }
            },
            None => return true,
        }
    }
    assert(outpoints@.take(m as int) =~= outpoints@);
    !overflow
}

/// Every check of a list without an address error is valid.
proof fn lemma_address_valid(checks: Seq<AddressCheckModel>, i: int)
    requires
        address_error(checks) is None,
        0 <= i < checks.len(),
    ensures
        checks[i] is Valid,
    decreases checks.len(),
{
    if i > 0 {
        lemma_address_valid(checks.drop_first(), i - 1);
    }
}

/// A prefix asks at most what the whole list asks.
proof fn lemma_requested_prefix(outs: Seq<(u64, bool)>, k: int)
    requires
        0 <= k <= outs.len(),
    ensures
        requested_total(outs.take(k)) <= requested_total(outs),
    decreases outs.len() - k,
{
    if k < outs.len() {
        lemma_requested_prefix(outs, k + 1);
        assert(outs.take(k + 1).drop_last() =~= outs.take(k));
    } else {
        assert(outs.take(k) =~= outs);
    }
}

/// A prefix has at most the outputs taking the rest that the whole list has.
proof fn lemma_max_prefix(outs: Seq<(u64, bool)>, k: int)
    requires
        0 <= k <= outs.len(),
    ensures
        max_count(outs.take(k)) <= max_count(outs),
    decreases outs.len() - k,
{
    if k < outs.len() {
        lemma_max_prefix(outs, k + 1);
        assert(outs.take(k + 1).drop_last() =~= outs.take(k));
    } else {
        assert(outs.take(k) =~= outs);
    }
}

/// A prefix of the outpoints brings at most what all of them bring.
proof fn lemma_found_prefix(coins: Seq<CoinModel>, ops: Seq<Option<OutPoint>>, k: int)
    requires
        0 <= k <= ops.len(),
    ensures
        found_total(coins, ops.take(k)) <= found_total(coins, ops),
    decreases ops.len() - k,
{
    if k < ops.len() {
        lemma_found_prefix(coins, ops, k + 1);
        assert(ops.take(k + 1).drop_last() =~= ops.take(k));
    } else {
        assert(ops.take(k) =~= ops);
    }
}

/// What polling the notification channel gave.
#[derive(Debug)]
pub enum Received {
    Notification(Notification),
    Empty,
    Disconnected,
}

/// Whether each listener runs.
#[derive(Debug, Clone, Copy, PartialEq, Eq, Structural)]
pub struct Listeners {
    pub electrum: bool,
    pub nostr: bool,
}

/// The listeners once `n` is heard: a listener that reports it stopped no
/// longer runs.
pub open spec fn listeners_after(l: Listeners, n: Notification) -> Listeners {
    match n {
        Notification::Electrum(TxListenerNotif::Stopped) => Listeners { electrum: false, ..l },
        Notification::Joinstr(JoinstrNotif::Stopped) => Listeners { nostr: false, ..l },
        _ => l,
    }
}

/// Takes in what polling the channel gave: a notification becomes its
/// signal, and a listener reporting it stopped no longer runs; nothing gives
/// an empty poll; a closed channel gives the error "Disconnected".
pub fn try_recv(received: Received, listeners: &mut Listeners) -> (r: Box<Poll>)
    requires
        !(received matches Received::Notification(Notification::Joinstr(JoinstrNotif::Stop))),
    ensures
        match received {
            Received::Notification(n) => r.model() == (ResultModel::<SignalModel> {
                value: Some(notification_signal(n)),
                error: None,
            }) && *final(listeners) == listeners_after(*old(listeners), n),
            Received::Empty => r.model() == (ResultModel::<SignalModel> { value: None, error: None })
                && *final(listeners) == *old(listeners),
            Received::Disconnected => r.model() == (ResultModel::<SignalModel> {
                value: None,
                error: Some("Disconnected"@),
            }) && *final(listeners) == *old(listeners),
        },
{
    match received {
        Received::Notification(n) => {
            match &n {
                Notification::Electrum(TxListenerNotif::Stopped) => {
                    listeners.electrum = false;
                },
                Notification::Joinstr(JoinstrNotif::Stopped) => {
                    listeners.nostr = false;
                },
                _ => {},
            }
            Box::new(Poll::ok(n.to_signal()))
        },
        Received::Empty => Box::new(Poll::new()),
        Received::Disconnected => Box::new(Poll::err("Disconnected")),
    }
}

/// What stopping the account does.
#[derive(Debug, Clone, Copy, PartialEq, Eq, Structural)]
pub enum StopAction {
    /// Nothing runs: report that the account stopped.
    NotifyStopped,
    /// Tell the running listeners to stop, and report once they have.
    StopListeners { electrum: bool, nostr: bool },
}

/// What stopping the account does, given the running listeners.
pub fn stop_action(listeners: Listeners) -> (r: StopAction)
    ensures
        r == (if !listeners.electrum && !listeners.nostr {
            StopAction::NotifyStopped
        } else {
            StopAction::StopListeners { electrum: listeners.electrum, nostr: listeners.nostr }
        }),
{
    if !listeners.electrum && !listeners.nostr {
        StopAction::NotifyStopped
    } else {
        StopAction::StopListeners { electrum: listeners.electrum, nostr: listeners.nostr }
    }
}

/// What a change of settings gave.
#[derive(Debug)]
pub enum SettingOutcome {
    /// The settings changed; they are to be saved.
    Saved,
    /// The value was refused; the notification is to be sent.
    Rejected(Notification),
    /// Nothing was asked.
    Ignored,
}

/// Sets the electrum server when the port reads as a port; otherwise
/// leaves the settings and rejects the change.
pub fn set_electrum(config: &mut Config, url: String, port: String) -> (r: SettingOutcome)
    ensures
        match parse_unsigned(port@, 0xFFFF) {
            Some(p) => r is Saved && *final(config) == (Config {
                electrum_url: Some(url),
                electrum_port: Some(p as u16),
                ..*old(config)
            }),
            None => r matches SettingOutcome::Rejected(Notification::InvalidElectrumConfig)
                && *final(config) == *old(config),
        },
{
    match parse_decimal(port.as_str(), 0xFFFF) {
        Some(p) => {
            config.electrum_url = Some(url);
            config.electrum_port = Some(p as u16);
            SettingOutcome::Saved
        },
        None => SettingOutcome::Rejected(Notification::InvalidElectrumConfig),
    }
}

/// Sets the relay when `back` reads as a 64-bit number; otherwise leaves
/// the settings, and rejects the change unless both texts are empty.
pub fn set_nostr(config: &mut Config, url: String, back: String) -> (r: SettingOutcome)
    ensures
        match parse_unsigned(back@, 0xFFFF_FFFF_FFFF_FFFF) {
            Some(b) => r is Saved && *final(config) == (Config {
                nostr_relay: Some(url),
                nostr_back: Some(b as u64),
                ..*old(config)
            }),
            None => *final(config) == *old(config) && if url@.len() == 0 && back@.len() == 0 {
                r is Ignored
            } else {
                r matches SettingOutcome::Rejected(Notification::InvalidNostrConfig)
            },
        },
{
    match parse_decimal(back.as_str(), 0xFFFF_FFFF_FFFF_FFFF) {
        Some(b) => {
            config.nostr_relay = Some(url);
            config.nostr_back = Some(b);
            SettingOutcome::Saved
        },
        None => {
            if url.as_str().unicode_len() == 0 && back.as_str().unicode_len() == 0 {
                SettingOutcome::Ignored
            } else {
                SettingOutcome::Rejected(Notification::InvalidNostrConfig)
            }
        },
    }
}

/// Sets the look ahead when the text reads as a 32-bit number; otherwise
/// leaves the settings and rejects the change, with the notification of an
/// invalid relay setting.
pub fn set_look_ahead(config: &mut Config, look_ahead: String) -> (r: SettingOutcome)
    ensures
        match parse_unsigned(look_ahead@, 0xFFFF_FFFF) {
            Some(v) => r is Saved && *final(config) == (Config { look_ahead: v as u32, ..*old(config) }),
            None => r matches SettingOutcome::Rejected(Notification::InvalidNostrConfig)
                && *final(config) == *old(config),
        },
{
    match parse_decimal(look_ahead.as_str(), 0xFFFF_FFFF) {
        Some(v) => {
            config.look_ahead = v as u32;
            SettingOutcome::Saved
        },
        None => SettingOutcome::Rejected(Notification::InvalidNostrConfig),
    }
}

/// Generates the next receive address and shows it: unused, on the receive
/// branch, at the new receive tip. `None` when the descriptor gives no
/// address there.
pub fn new_addr(store: &mut CoinStore) -> (r: Option<RustAddress>)
    requires
        old(store).wf(),
        old(store).addrs().recv_tip_spec() + 1 < 0x8000_0000,
    ensures
        final(store).wf(),
        final(store).addrs().recv_tip_spec() == old(store).addrs().recv_tip_spec() + 1,
        match r {
            Some(a) => derived_address(final(store).addrs().derivation().0, final(store).addrs().derivation().1, 0,
                final(store).addrs().recv_tip_spec()) matches Some(d) && a.address@ == d.0
                && a.status == AddressStatus::NotUsed && a.account == AddrAccount::Receive
                && a.index == final(store).addrs().recv_tip_spec(),
            None => derived_address(final(store).addrs().derivation().0, final(store).addrs().derivation().1, 0,
                final(store).addrs().recv_tip_spec()) is None,
        },
{
    let a = store.new_recv_addr();
    let index = store.recv_tip();
    match a {
        Some(a) => Some(RustAddress {
            address: a.address,
            status: AddressStatus::NotUsed,
            account: AddrAccount::Receive,
            index,
        }),
        None => None,
    }
}

/// The pools that can still be joined, from the relay `relay`.
pub fn pools(store: &PoolStore, relay: &String) -> (r: Box<PoolsResult>)
    requires
        forall|i: int| 0 <= i < store@.len() && open_pool(#[trigger] store@[i]) ==> showable(store@[i]),
    ensures
        r.model() == (ResultModel::<Seq<crate::types::RustPoolModel>> {
            value: Some(shown_where(store@, |e: PoolEntryModel| open_pool(e))),
            error: None,
        }),
        r.relay_spec() == relay@,
{
    let list = store.available_pools();
    assert(pool_models(list@) == shown_where(store@, |e: PoolEntryModel| open_pool(e)));
    Box::new(PoolsResult::ok(list).with_relay(relay.clone()))
}

/// What creating or joining a pool needs: the coin to mix, the address to
/// receive on, the relay, and the electrum server.
#[derive(Debug)]
pub struct PoolRequest {
    pub coin: CoinEntry,
    pub address: Option<DerivedAddress>,
    pub relay: String,
    pub electrum: (String, u16),
}

/// The electrum server of the settings, when both its address and port
/// are set.
fn electrum_of(config: &Config) -> (r: Option<(String, u16)>)
    ensures
        match r {
            Some(e) => config.electrum_url == Some(e.0) && config.electrum_port == Some(e.1),
            None => config.electrum_url is None || config.electrum_port is None,
        },
{
    match (&config.electrum_url, config.electrum_port) {
        (Some(u), Some(p)) => Some((u.clone(), p)),
        _ => None,
    }
}

/// Gathers what creating a pool with the coin at `outpoint` needs, checking
/// in this order: the outpoint must read (`InvalidOutPoint`), a coin must
/// be there (`CoinMissing`); then a receive address is generated; then the
/// relay (`RelayMissing`) and the electrum server (`WrongElectrumConfig`)
/// must be set.
pub fn prepare_create_pool(store: &mut CoinStore, config: &Config, outpoint: Option<OutPoint>) -> (r: Result<PoolRequest, Error>)
    requires
        old(store).wf(),
        old(store).addrs().recv_tip_spec() + 1 < 0x8000_0000,
    ensures
        final(store).wf(),
        match outpoint {
            None => r == Err::<PoolRequest, Error>(Error::InvalidOutPoint) && *final(store) == *old(store),
            Some(op) => if coin_at(old(store).coins_spec(), op) is None {
                r == Err::<PoolRequest, Error>(Error::CoinMissing) && *final(store) == *old(store)
            } else {
                &&& final(store).addrs().recv_tip_spec() == old(store).addrs().recv_tip_spec() + 1
                &&& final(store).coins_spec() == old(store).coins_spec()
                &&& match r {
                    Ok(q) => Some(q.coin@) == coin_at(old(store).coins_spec(), op)
                        && config.nostr_relay == Some(q.relay)
                        && config.electrum_url == Some(q.electrum.0) && config.electrum_port == Some(q.electrum.1)
                        && match q.address {
                            Some(a) => derived_address(final(store).addrs().derivation().0,
                                final(store).addrs().derivation().1, 0, final(store).addrs().recv_tip_spec())
                                == Some((a.address@, a.script@)),
                            None => derived_address(final(store).addrs().derivation().0,
                                final(store).addrs().derivation().1, 0, final(store).addrs().recv_tip_spec()) is None,
                        },
                    Err(e) => (config.nostr_relay is None && e == Error::RelayMissing)
                        || (config.nostr_relay is Some && e == Error::WrongElectrumConfig
                            && (config.electrum_url is None || config.electrum_port is None)),
                }
            },
        },
{
    let op = match outpoint {
        Some(op) => op,
        None => return Err(Error::InvalidOutPoint),
    };
    let coin = match store.get(&op) {
        Some(c) => c,
        None => return Err(Error::CoinMissing),
    };
    let address = store.new_recv_addr();
    let relay = match &config.nostr_relay {
        Some(r) => r.clone(),
        None => return Err(Error::RelayMissing),
    };
    let electrum = match electrum_of(config) {
        Some(e) => e,
        None => return Err(Error::WrongElectrumConfig),
    };
    Ok(PoolRequest { coin, address, relay, electrum })
}

/// Gathers what joining the pool `pool_id` with the coin at `outpoint`
/// needs, checking in this order: the outpoint must read
/// (`InvalidOutPoint`), a coin must be there (`CoinMissing`), the relay
/// (`RelayMissing`) and the electrum server (`WrongElectrumConfig`) must be
/// set; then a receive address is generated; then the pool must be known
/// (`PoolMissing`).
pub fn prepare_join_pool(
    store: &mut CoinStore,
    pools: &PoolStore,
    config: &Config,
    outpoint: Option<OutPoint>,
    pool_id: &str,
) -> (r: Result<(PoolRequest, PoolEntry), Error>)
    requires
        old(store).wf(),
        old(store).addrs().recv_tip_spec() + 1 < 0x8000_0000,
        pools_ordered(pools@),
    ensures
        final(store).wf(),
        match r {
            Ok((q, p)) => outpoint matches Some(op) && Some(q.coin@) == coin_at(old(store).coins_spec(), op)
                && config.nostr_relay == Some(q.relay)
                && config.electrum_url == Some(q.electrum.0) && config.electrum_port == Some(q.electrum.1)
                && has_pool(pools@, pool_id@)
                && p@ == pools@[choose|i: int| 0 <= i < pools@.len() && pools@[i].pool.id == pool_id@]
                && final(store).addrs().recv_tip_spec() == old(store).addrs().recv_tip_spec() + 1,
            Err(e) => match outpoint {
                None => e == Error::InvalidOutPoint && *final(store) == *old(store),
                Some(op) => if coin_at(old(store).coins_spec(), op) is None {
                    e == Error::CoinMissing && *final(store) == *old(store)
                } else if config.nostr_relay is None {
                    e == Error::RelayMissing && *final(store) == *old(store)
                } else if config.electrum_url is None || config.electrum_port is None {
                    e == Error::WrongElectrumConfig && *final(store) == *old(store)
                } else {
                    e == Error::PoolMissing && !has_pool(pools@, pool_id@)
                        && final(store).addrs().recv_tip_spec() == old(store).addrs().recv_tip_spec() + 1
                },
            },
        },
{
    let op = match outpoint {
        Some(op) => op,
        None => return Err(Error::InvalidOutPoint),
    };
    let coin = match store.get(&op) {
        Some(c) => c,
        None => return Err(Error::CoinMissing),
    };
    let relay = match &config.nostr_relay {
        Some(r) => r.clone(),
        None => return Err(Error::RelayMissing),
    };
    let electrum = match electrum_of(config) {
        Some(e) => e,
        None => return Err(Error::WrongElectrumConfig),
    };
    let address = store.new_recv_addr();
    let pool = match pools.get(pool_id) {
        Some(p) => p,
        None => return Err(Error::PoolMissing),
    };
    Ok((PoolRequest { coin, address, relay, electrum }, pool))
}

/// A settled transaction spends its whole reserve, on the fee and on what
/// is left; what is left for a change output or an output taking the rest
/// is never dust, and with neither the whole reserve is the fee; there is a
/// change output only when no output takes the rest.
pub proof fn law_settlement_balances(
    reserve: u64,
    maxed: bool,
    fee: FeeSpec,
    est_without: Result<u64, Error>,
    est_with: Result<u64, Error>,
    s: Settlement,
)
    requires
        settle_spec(reserve, maxed, fee, est_without, est_with) == Ok::<Settlement, Seq<char>>(s),
    ensures
        s.fees + s.leftover == reserve,
        s.change || maxed ==> s.leftover >= DUST_AMOUNT,
        !s.change && !maxed ==> s.leftover == 0 && s.fees == reserve,
        s.change ==> !maxed,
{
}

/// With a rate asked and no output taking the rest, a reserve above dust
/// that pays the fee without a change output but not the fee with one
/// settles without change, the whole reserve going to the fee.
pub proof fn law_rate_too_high_for_change(
    reserve: u64,
    without_change: u64,
    with_change: u64,
    est_without: Result<u64, Error>,
    est_with: Result<u64, Error>,
)
    requires
        reserve > DUST_AMOUNT,
        without_change <= reserve,
        with_change > reserve,
        est_without is Ok,
        est_with is Ok,
    ensures
        settle_spec(reserve, false, FeeSpec::Rate { without_change, with_change }, est_without, est_with)
            == Ok::<Settlement, Seq<char>>(Settlement { fees: reserve, change: false, leftover: 0 }),
{
}

/// With a rate asked and no output taking the rest, a reserve that pays
/// the fee with a change output and leaves at least the dust limit for it
/// settles with change: the fee with change is paid and the rest is the
/// change.
pub proof fn law_rate_with_change(
    reserve: u64,
    without_change: u64,
    with_change: u64,
    est_without: Result<u64, Error>,
    est_with: Result<u64, Error>,
)
    requires
        reserve > DUST_AMOUNT,
        without_change <= reserve,
        with_change + DUST_AMOUNT <= reserve,
        est_without is Ok,
        est_with is Ok,
    ensures
        settle_spec(reserve, false, FeeSpec::Rate { without_change, with_change }, est_without, est_with)
            == Ok::<Settlement, Seq<char>>(Settlement { fees: with_change, change: true, leftover: (reserve - with_change) as u64 }),
{
}

/// How many of the first `n` outputs pay the placeholder.
pub open spec fn placeholders_before(outs: Seq<PlannedOutput>, n: int) -> nat
    decreases n,
{
    if n <= 0 {
        0
    } else {
        placeholders_before(outs, n - 1) + if outs[n - 1]@.1 == dummy_script() { 1nat } else { 0nat }
    }
}

/// The script of the change address of the derivation `d` at `index`, or
/// the placeholder where the descriptor gives no address there.
pub open spec fn change_script(d: (Seq<char>, Network), index: u32) -> Seq<u8> {
    match derived_address(d.0, d.1, 1, index) {
        Some(a) => a.1,
        None => dummy_script(),
    }
}

/// The tip report of a store watching with `watching`, at receive tip
/// `recv_tip` and change tip `change_tip`, looking `look_ahead` beyond.
pub open spec fn tip_report(watching: bool, recv_tip: u32, change_tip: int, look_ahead: u32) -> StoreEvent {
    StoreEvent::AddressTipChanged(
        if watching {
            Some(AddressTip { recv: (recv_tip + look_ahead + 1) as u32, change: (change_tip + look_ahead + 1) as u32 })
        } else {
            None
        },
    )
}

/// Gives each output paying the placeholder a freshly generated change
/// address, in output order: the k-th such output (from 0) gets the change
/// address at the change tip plus k + 1, and the change tip rises by the
/// number of such outputs; when the descriptor gives no address the output
/// keeps the placeholder. The other outputs are unchanged, and so are the
/// amounts and the derivations. Each new address reports the tips, the
/// change tip raised by one.
pub fn take_change_addresses(store: &mut CoinStore, outputs: &mut Vec<PlannedOutput>)
    requires
        old(store).wf(),
        old(store).addrs().change_tip_spec() + old(outputs)@.len() < 0x8000_0000,
    ensures
        final(store).wf(),
        final(outputs)@.len() == old(outputs)@.len(),
        forall|i: int| 0 <= i < old(outputs)@.len() && (#[trigger] old(outputs)@[i])@.1 != dummy_script()
            ==> final(outputs)@[i]@ == old(outputs)@[i]@,
        forall|i: int| 0 <= i < old(outputs)@.len() && (#[trigger] old(outputs)@[i])@.1 == dummy_script()
            ==> final(outputs)@[i]@.1 == change_script(old(store).addrs().derivation(),
                (old(store).addrs().change_tip_spec() + placeholders_before(old(outputs)@, i) + 1) as u32),
        forall|i: int| 0 <= i < old(outputs)@.len() ==> (#[trigger] final(outputs)@[i]).value == old(outputs)@[i].value
            && final(outputs)@[i].deriv == old(outputs)@[i].deriv,
        final(store).addrs().change_tip_spec() == old(store).addrs().change_tip_spec()
            + placeholders_before(old(outputs)@, old(outputs)@.len() as int),
        final(store).addrs().recv_tip_spec() == old(store).addrs().recv_tip_spec(),
        final(store).addrs().derivation() == old(store).addrs().derivation(),
        final(store).addrs().events_spec().len() == old(store).addrs().events_spec().len()
            + placeholders_before(old(outputs)@, old(outputs)@.len() as int),
        forall|k: int| 0 <= k < old(store).addrs().events_spec().len()
            ==> #[trigger] final(store).addrs().events_spec()[k] == old(store).addrs().events_spec()[k],
        forall|k: int| 0 <= k < placeholders_before(old(outputs)@, old(outputs)@.len() as int)
            ==> #[trigger] final(store).addrs().events_spec()[old(store).addrs().events_spec().len() + k]
                == tip_report(old(store).addrs().watching_spec(), old(store).addrs().recv_tip_spec(),
                    old(store).addrs().change_tip_spec() + k + 1, old(store).addrs().look_ahead_spec()),
        final(store).addrs().look_ahead_spec() == old(store).addrs().look_ahead_spec(),
        final(store).addrs().watching_spec() == old(store).addrs().watching_spec(),
        final(store).coins_spec() == old(store).coins_spec(),
        final(store).txs() == old(store).txs(),
        final(store).histories() == old(store).histories(),
        final(store).pending() == old(store).pending(),
{
    let dummy = dummy_spk();
    let n = outputs.len();
    let ghost start = outputs@;
    let ghost tip0 = store.addrs().change_tip_spec();
    let ghost ev0 = store.addrs().events_spec();
    let ghost d = store.addrs().derivation();
    for i in 0..n
        invariant
            n == start.len(),
            outputs@.len() == n,
            dummy@ == dummy_script(),
            store.wf(),
            tip0 == old(store).addrs().change_tip_spec(),
            ev0 == old(store).addrs().events_spec(),
            d == old(store).addrs().derivation(),
            placeholders_before(start, i as int) <= i,
            tip0 + n < 0x8000_0000,
            store.addrs().change_tip_spec() == tip0 + placeholders_before(start, i as int),
            store.addrs().recv_tip_spec() == old(store).addrs().recv_tip_spec(),
            store.addrs().derivation() == d,
            store.addrs().events_spec().len() == ev0.len() + placeholders_before(start, i as int),
            forall|k: int| 0 <= k < ev0.len() ==> #[trigger] store.addrs().events_spec()[k] == ev0[k],
            forall|k: int| 0 <= k < placeholders_before(start, i as int)
                ==> #[trigger] store.addrs().events_spec()[ev0.len() + k]
                    == tip_report(old(store).addrs().watching_spec(), old(store).addrs().recv_tip_spec(),
                        tip0 + k + 1, old(store).addrs().look_ahead_spec()),
            store.addrs().look_ahead_spec() == old(store).addrs().look_ahead_spec(),
            store.addrs().watching_spec() == old(store).addrs().watching_spec(),
            store.coins_spec() == old(store).coins_spec(),
            store.txs() == old(store).txs(),
            store.histories() == old(store).histories(),
            store.pending() == old(store).pending(),
            forall|j: int| i <= j < n ==> #[trigger] outputs@[j] == start[j],
            forall|j: int| 0 <= j < i && (#[trigger] start[j])@.1 != dummy_script() ==> outputs@[j]@ == start[j]@,
            forall|j: int| 0 <= j < i && (#[trigger] start[j])@.1 == dummy_script()
                ==> outputs@[j]@.1 == change_script(d, (tip0 + placeholders_before(start, j) + 1) as u32),
            forall|j: int| 0 <= j < i ==> (#[trigger] outputs@[j]).value == start[j].value
                && outputs@[j].deriv == start[j].deriv,
    {
        assert(placeholders_before(start, i + 1) == placeholders_before(start, i as int)
            + if start[i as int]@.1 == dummy_script() { 1nat } else { 0nat });
        if outputs[i].script.same(&dummy) {
            let ghost ev = store.addrs().events_spec();
            match store.new_change_addr() {
                Some(a) => {
                    let ghost before = outputs@;
                    let mut o = outputs.remove(i);
                    o.script = a.script;
                    outputs.insert(i, o);
                    assert forall|j: int| 0 <= j < n && j != i implies #[trigger] outputs@[j] == before[j] by {}
                },
                None => {},
            }
            assert forall|k: int| 0 <= k < ev0.len() implies #[trigger] store.addrs().events_spec()[k] == ev0[k] by {
                assert(store.addrs().events_spec()[k] == ev[k]);
            }
            let ghost c = placeholders_before(start, i as int);
            assert forall|k: int| 0 <= k < c + 1
                implies #[trigger] store.addrs().events_spec()[ev0.len() + k]
                    == tip_report(old(store).addrs().watching_spec(), old(store).addrs().recv_tip_spec(),
                        tip0 + k + 1, old(store).addrs().look_ahead_spec()) by {
                if k < c {
                    assert(store.addrs().events_spec()[ev0.len() + k] == ev[ev0.len() + k]);
                }
            }
        }
    }
}

} // verus!
