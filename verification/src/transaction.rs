//! The unsigned transaction of a plan: its weight before signing, the size
//! estimates that the fee is computed from, and the PSBT that carries it to
//! a signer.
use vstd::prelude::*;
use miniscript::bitcoin;
use miniscript::bitcoin::{Amount, Psbt, ScriptBuf, Sequence, TxIn, TxOut};
use crate::chain::{OutPoint, Script, TxOutput};
use crate::results::{PsbtResult, ResultModel};
use crate::account::{PlannedOutput, TxPlan};
use crate::coin_store::{CoinModel, coin_models};
use crate::types::AddrAccount;
use crate::derivator::branch_of;
use std::str::FromStr;
use crate::derivator::{Derivator, satisfaction_weight};
use crate::signal::{Error, error_text};
use crate::types::Output;
use crate::account::{AddressCheck, AddressCheckModel, dummy_script, dummy_spk, estimate_spec, tx_estimated_weight};

verus! {

/// The number of bytes of the compact size encoding of `n`.
pub open spec fn varint_size(n: nat) -> nat {
    if n <= 0xFC {
        1
    } else if n <= 0xFFFF {
        3
    } else if n <= 0xFFFF_FFFF {
        5
    } else {
        9
    }
}

/// The bytes of outputs whose scripts have the lengths `lens`: for each,
/// the amount, the length of its script and the script.
pub open spec fn outputs_size(lens: Seq<nat>) -> nat
    decreases lens.len(),
{
    if lens.len() == 0 {
        0
    } else {
        outputs_size(lens.drop_last()) + 8 + varint_size(lens.last()) + lens.last()
    }
}

/// The weight of a transaction with `n_inputs` inputs without script or
/// witness and outputs whose scripts have the lengths `lens`: four times
/// its size (version, input count, 41 bytes per input, output count,
/// outputs, lock time), and the segwit marker and flag when it has no input.
pub open spec fn unsigned_weight_spec(n_inputs: nat, lens: Seq<nat>) -> nat {
    let size = 8 + varint_size(n_inputs) + 41 * n_inputs + varint_size(lens.len()) + outputs_size(lens);
    4 * size + (if n_inputs == 0 { 2nat } else { 0nat })
}

/// The lengths of the output scripts.
pub open spec fn script_lengths(outputs: Seq<TxOutput>) -> Seq<nat> {
    outputs.map_values(|o: TxOutput| o.script@.len())
}

/// The version of the transactions the wallet makes.
pub const TX_VERSION: i32 = 2;

/// The lock time of the transactions the wallet makes: none.
pub const TX_LOCK_TIME: u32 = 0;

/// The weight (`Transaction::weight`, read with `Weight::to_wu`) of the
/// transaction of version `version` and consensus lock time `lock_time`
/// that has `n_inputs` default inputs (no script, no witness) and pays
/// `outputs`. Claims the weight that the crate's `base_size` and
/// `total_size` give for it, where version and lock time take four bytes
/// each whatever their values.
#[verifier::external_body]
fn unsigned_weight(version: i32, lock_time: u32, n_inputs: usize, outputs: &Vec<TxOutput>) -> (r: u64)
    requires
        unsigned_weight_spec(n_inputs as nat, script_lengths(outputs@)) <= u64::MAX,
    ensures
        r == unsigned_weight_spec(n_inputs as nat, script_lengths(outputs@)),
{
    let tx = bitcoin::Transaction {
        version: bitcoin::transaction::Version(version),
        lock_time: bitcoin::absolute::LockTime::from_consensus(lock_time),
        input: vec![TxIn::default(); n_inputs],
        output: outputs
            .iter()
            .map(|o| TxOut {
                value: Amount::from_sat(o.value),
                script_pubkey: ScriptBuf::from_bytes(o.script.bytes.clone()),
            })
            .collect(),
    };
    tx.weight().to_wu()
}

/// The sum of the lengths.
pub open spec fn total_length(lens: Seq<nat>) -> nat
    decreases lens.len(),
{
    if lens.len() == 0 {
        0
    } else {
        total_length(lens.drop_last()) + lens.last()
    }
}

/// Outputs take at most 17 bytes each beyond their scripts.
proof fn lemma_outputs_size(lens: Seq<nat>)
    ensures
        outputs_size(lens) <= 17 * lens.len() + total_length(lens),
    decreases lens.len(),
{
    if lens.len() > 0 {
        lemma_outputs_size(lens.drop_last());
    }
}

/// A transaction of at most 2^32 inputs and outputs and at most 2^49 script
/// bytes has a weight below 2^52.
proof fn lemma_weight_bound(n_inputs: nat, lens: Seq<nat>)
    requires
        n_inputs <= 0x1_0000_0000,
        lens.len() <= 0x1_0000_0000,
        total_length(lens) <= 0x2_0000_0000_0000,
    ensures
        unsigned_weight_spec(n_inputs, lens) <= 0x10_0000_0000_0000,
{
    lemma_outputs_size(lens);
}

/// The length of the script an address check gives, none for an address
/// that did not read.
pub open spec fn checked_length(c: AddressCheckModel) -> nat {
    match c {
        AddressCheckModel::Valid(s) => s.len(),
        _ => 0,
    }
}

/// The lengths of the scripts of the checked addresses.
pub open spec fn checked_lengths(checks: Seq<AddressCheckModel>) -> Seq<nat> {
    checks.map_values(|c: AddressCheckModel| checked_length(c))
}

/// The size estimates, without and with a change output, of a transaction
/// spending `n_inputs` coins of the account and paying the outputs whose
/// script lengths are `lens`; the change output pays the placeholder script.
pub open spec fn estimates_spec(sat: Option<nat>, n_inputs: nat, lens: Seq<nat>) -> (Result<u64, Error>, Result<u64, Error>) {
    (
        estimate_spec(sat, unsigned_weight_spec(n_inputs, lens) as u64, n_inputs as u64, true),
        estimate_spec(sat, unsigned_weight_spec(n_inputs, lens.push(dummy_script().len())) as u64, n_inputs as u64, true),
    )
}

/// Estimates, in weight units, the weight of the transaction of a template
/// once signed, without and with a change output: the unsigned transaction
/// spends `n_inputs` coins of the account and pays each output its amount
/// (nothing for one that takes the rest) at the script of its address.
pub fn size_estimates(
    derivator: &Derivator,
    n_inputs: usize,
    outputs: &Vec<Output>,
    checks: &Vec<AddressCheck>,
) -> (r: (Result<u64, Error>, Result<u64, Error>))
    requires
        checks@.len() == outputs@.len(),
        n_inputs <= 0xFFFF_FFFF,
        outputs@.len() <= 0xFFFF_FFFF,
        total_length(checked_lengths(checks@.map_values(|c: AddressCheck| c@))) <= 0xFFFF_FFFF_FFFF,
    ensures
        r == estimates_spec(satisfaction_weight(derivator@.0), n_inputs as nat,
            checked_lengths(checks@.map_values(|c: AddressCheck| c@))),
{
    let ghost cm = checks@.map_values(|c: AddressCheck| c@);
    let ghost lens = checked_lengths(cm);
    let n = outputs.len();
    let mut outs: Vec<TxOutput> = Vec::new();
    for i in 0..n
        invariant
            n == outputs@.len(),
            n == checks@.len(),
            cm == checks@.map_values(|c: AddressCheck| c@),
            lens == checked_lengths(cm),
            outs@.len() == i,
            script_lengths(outs@) == lens.take(i as int),
    {
        let script = match &checks[i] {
            AddressCheck::Valid(s) => s.duplicate(),
            _ => Script::from_bytes(Vec::new()),
        };
        assert(cm[i as int] == checks@[i as int]@);
        let value = if outputs[i].max { 0 } else { outputs[i].amount };
        outs.push(TxOutput { value, script });
        assert(script_lengths(outs@) =~= lens.take(i + 1));
    }
    assert(lens.take(n as int) =~= lens);
    let ghost with_change = lens.push(dummy_script().len());
    proof {
        assert(with_change.drop_last() =~= lens);
        assert(dummy_script().len() == 8);
        assert(total_length(lens) <= 0xFFFF_FFFF_FFFF);
        assert(total_length(with_change) == total_length(lens) + 8);
        assert(with_change.len() == lens.len() + 1);
        lemma_weight_bound(n_inputs as nat, lens);
        lemma_weight_bound(n_inputs as nat, with_change);
    }
    let w0 = unsigned_weight(TX_VERSION, TX_LOCK_TIME, n_inputs, &outs);
    outs.push(TxOutput { value: 0, script: dummy_spk() });
    assert(script_lengths(outs@) =~= with_change);
    let w1 = unsigned_weight(TX_VERSION, TX_LOCK_TIME, n_inputs, &outs);
    let e0 = tx_estimated_weight(derivator, w0, n_inputs as u64, true);
    let e1 = tx_estimated_weight(derivator, w1, n_inputs as u64, true);
    (e0, e1)
}

/// What simulating a transaction tells: whether it can be spent, whether it
/// has a change output, its estimated weight in weight units, or the error
/// met.
#[derive(Debug)]
pub struct TransactionSimulation {
    pub spendable: bool,
    pub has_change: bool,
    pub estimated_weight: u64,
    pub error: String,
}

/// The lengths of the scripts of planned outputs.
pub open spec fn planned_lengths(outputs: Seq<PlannedOutput>) -> Seq<nat> {
    outputs.map_values(|o: PlannedOutput| o.script@.len())
}

/// The outcome of simulating a planned transaction: the planning error, or
/// the estimated weight of the unsigned transaction of the plan once signed,
/// or the error of the estimate, as its text.
pub open spec fn simulation_spec(sat: Option<nat>, plan: Result<(nat, Seq<nat>, bool), Seq<char>>) -> (bool, bool, u64, Seq<char>) {
    match plan {
        Err(e) => (false, false, 0, e),
        Ok((n, lens, change)) => match estimate_spec(sat, unsigned_weight_spec(n, lens) as u64, n as u64, true) {
            Ok(w) => (true, change, w, Seq::empty()),
            Err(e) => (false, false, 0, error_text(e)),
        },
    }
}

/// Simulates the planned transaction `plan` (what planning a template
/// gave): see `simulation_spec`.
pub fn simulate_plan(derivator: &Derivator, plan: &Result<TxPlan, String>) -> (r: TransactionSimulation)
    requires
        plan matches Ok(p) ==> {
            &&& p.inputs@.len() <= 0xFFFF_FFFF
            &&& p.outputs@.len() <= 0xFFFF_FFFF
            &&& total_length(planned_lengths(p.outputs@)) <= 0x2_0000_0000_0000
        },
    ensures
        (r.spendable, r.has_change, r.estimated_weight, r.error@) == simulation_spec(
            satisfaction_weight(derivator@.0),
            match plan {
                Ok(p) => Ok((p.inputs@.len(), planned_lengths(p.outputs@), p.change)),
                Err(e) => Err(e@),
            },
        ),
{
    let p = match plan {
        Ok(p) => p,
        Err(e) => return TransactionSimulation { spendable: false, has_change: false, estimated_weight: 0, error: e.clone() },
    };
    let ghost lens = planned_lengths(p.outputs@);
    let n = p.outputs.len();
    let mut outs: Vec<TxOutput> = Vec::new();
    for i in 0..n
        invariant
            n == p.outputs@.len(),
            lens == planned_lengths(p.outputs@),
            outs@.len() == i,
            script_lengths(outs@) == lens.take(i as int),
    {
        let ghost prev = outs@;
        let script = p.outputs[i].script.duplicate();
        assert(script@.len() == lens[i as int]);
        outs.push(TxOutput { value: p.outputs[i].value, script });
        assert(outs@ == prev.push(outs@[i as int]));
        assert(script_lengths(outs@) =~= script_lengths(prev).push(lens[i as int]));
        assert(script_lengths(outs@) =~= lens.take(i + 1));
    }
    assert(lens.take(n as int) =~= lens);
    proof { lemma_weight_bound(p.inputs@.len(), lens); }
    let inputs = p.inputs.len();
    let weight = unsigned_weight(TX_VERSION, TX_LOCK_TIME, inputs, &outs);
    match tx_estimated_weight(derivator, weight, inputs as u64, true) {
        Ok(w) => TransactionSimulation { spendable: true, has_change: p.change, estimated_weight: w, error: String::new() },
        Err(e) => TransactionSimulation { spendable: false, has_change: false, estimated_weight: 0, error: e.text() },
    }
}

/// The base64 text of the PSBT (`Psbt::from_unsigned_tx`) of the
/// transaction of version `version` and consensus lock time `lock_time`
/// that spends `inputs` (outpoint and
/// sequence, no script, no witness) and pays `outputs` (amount and script),
/// or `None` when no PSBT is made of it.
pub uninterp spec fn unsigned_psbt_text(version: i32, lock_time: u32, inputs: Seq<(OutPoint, u32)>, outputs: Seq<(u64, Seq<u8>)>) -> Option<Seq<char>>;

/// The PSBT `psbt` once input `index` is updated with the descriptor of
/// `desc` on branch `branch` at `addr_index`, or `None` when the update is
/// refused.
pub uninterp spec fn psbt_input_update(psbt: Seq<char>, index: nat, desc: Seq<char>, branch: nat, addr_index: u32) -> Option<Seq<char>>;

/// The PSBT `psbt` once output `index` is updated with the descriptor of
/// `desc` on branch `branch` at `addr_index`, or `None` when the update is
/// refused.
pub uninterp spec fn psbt_output_update(psbt: Seq<char>, index: nat, desc: Seq<char>, branch: nat, addr_index: u32) -> Option<Seq<char>>;

/// The PSBT `psbt` once input `index` has the sighash type of raw flag
/// `sighash`, or `None` when it has no such input.
pub uninterp spec fn psbt_with_sighash(psbt: Seq<char>, index: nat, sighash: u32) -> Option<Seq<char>>;

/// The PSBT `psbt` once input `index` spends the output of `value` at
/// `script`, or `None` when it has no such input.
pub uninterp spec fn psbt_with_witness_utxo(psbt: Seq<char>, index: nat, value: u64, script: Seq<u8>) -> Option<Seq<char>>;

/// Builds the transaction of version `version` and consensus lock time
/// `lock_time` that spends `inputs` (outpoint and sequence, no script, no
/// witness) and pays `outputs`, makes
/// its PSBT (`Psbt::from_unsigned_tx`) and writes it in base64 (`Display`).
/// Claims that the result is the named one.
#[verifier::external_body]
fn unsigned_psbt(version: i32, lock_time: u32, inputs: &Vec<(OutPoint, u32)>, outputs: &Vec<TxOutput>) -> (r: Option<String>)
    ensures
        match r {
            Some(t) => unsigned_psbt_text(version, lock_time, inputs@, outputs@.map_values(|o: TxOutput| o@)) == Some(t@),
            None => unsigned_psbt_text(version, lock_time, inputs@, outputs@.map_values(|o: TxOutput| o@)) is None,
        },
{
    let input = inputs.iter().map(|(op, sequence)| TxIn {
        previous_output: bitcoin::OutPoint { txid: <bitcoin::Txid as bitcoin::hashes::Hash>::from_slice(&op.txid.to_bytes()).unwrap(), vout: op.vout },
        sequence: Sequence(*sequence),
        ..Default::default()
    }).collect();
    let output = outputs.iter().map(|o| TxOut {
        value: Amount::from_sat(o.value),
        script_pubkey: ScriptBuf::from_bytes(o.script.bytes.clone()),
    }).collect();
    let lock_time = bitcoin::absolute::LockTime::from_consensus(lock_time);
    let tx = bitcoin::Transaction { version: bitcoin::transaction::Version(version), lock_time, input, output };
    Psbt::from_unsigned_tx(tx).ok().map(|p| p.to_string())
}

/// Parses the PSBT (`Psbt::from_str`), sets the sighash type of input
/// `index` to the raw flag `sighash` (`PsbtSighashType::from_u32`) and writes
/// it back. Claims that the result is the named PSBT.
#[verifier::external_body]
fn set_sighash(psbt: &str, index: usize, sighash: u32) -> (r: Option<String>)
    ensures
        match r {
            Some(p) => psbt_with_sighash(psbt@, index as nat, sighash) == Some(p@),
            None => psbt_with_sighash(psbt@, index as nat, sighash) is None,
        },
{
    let mut p = Psbt::from_str(psbt).ok()?;
    p.inputs.get_mut(index)?.sighash_type = Some(bitcoin::psbt::PsbtSighashType::from_u32(sighash));
    Some(p.to_string())
}

/// Parses the PSBT (`Psbt::from_str`), sets the output that input `index`
/// spends (its witness utxo) to `value` at `script` and writes it back.
/// Claims that the result is the named PSBT.
#[verifier::external_body]
fn set_witness_utxo(psbt: &str, index: usize, value: u64, script: &Script) -> (r: Option<String>)
    ensures
        match r {
            Some(p) => psbt_with_witness_utxo(psbt@, index as nat, value, script@) == Some(p@),
            None => psbt_with_witness_utxo(psbt@, index as nat, value, script@) is None,
        },
{
    let mut p = Psbt::from_str(psbt).ok()?;
    let script_pubkey = ScriptBuf::from_bytes(script.bytes.clone());
    p.inputs.get_mut(index)?.witness_utxo = Some(TxOut { value: Amount::from_sat(value), script_pubkey });
    Some(p.to_string())
}

/// The raw flag of the only sighash type the wallet signs with: all inputs
/// and outputs.
pub const SIGHASH_ALL: u32 = 1;

/// The message when no PSBT is made of the unsigned transaction.
pub open spec fn msg_unsigned_psbt() -> Seq<char> {
    "Fail to generate PSBT from unsigned transaction"@
}

/// The message when an input cannot be updated with the descriptor.
pub open spec fn msg_input_update() -> Seq<char> {
    "Fail to update PSBT input with descriptor"@
}

/// The message when an output cannot be updated with the descriptor.
pub open spec fn msg_output_update() -> Seq<char> {
    "Fail to update PSBT output with descriptor"@
}

/// The PSBT once its inputs, spending the coins `coins` in order, are
/// filled: each is updated with the descriptor `desc` at the derivation of
/// its coin, then given the sighash type `SIGHASH_ALL` and the output it
/// spends; the first refused update fails.
pub open spec fn fill_inputs(psbt: Seq<char>, coins: Seq<CoinModel>, desc: Seq<char>) -> Result<Seq<char>, Seq<char>>
    decreases coins.len(),
{
    if coins.len() == 0 {
        Ok(psbt)
    } else {
        match fill_inputs(psbt, coins.drop_last(), desc) {
            Err(e) => Err(e),
            Ok(p) => {
                let i = (coins.len() - 1) as nat;
                let c = coins.last();
                match psbt_input_update(p, i, desc, branch_of(c.account), c.index) {
                    None => Err(msg_input_update()),
                    Some(p1) => {
                        let p2 = match psbt_with_sighash(p1, i, SIGHASH_ALL) {
                            Some(x) => x,
                            None => p1,
                        };
                        match psbt_with_witness_utxo(p2, i, c.value, c.script) {
                            Some(x) => Ok(x),
                            None => Ok(p2),
                        }
                    },
                }
            },
        }
    }
}

/// The PSBT once its outputs are filled: each output to an address of the
/// wallet is updated with the descriptor `desc` at its derivation; the first
/// refused update fails.
pub open spec fn fill_outputs(psbt: Seq<char>, outputs: Seq<(u64, Seq<u8>, Option<(AddrAccount, u32)>)>, desc: Seq<char>)
    -> Result<Seq<char>, Seq<char>>
    decreases outputs.len(),
{
    if outputs.len() == 0 {
        Ok(psbt)
    } else {
        match fill_outputs(psbt, outputs.drop_last(), desc) {
            Err(e) => Err(e),
            Ok(p) => match outputs.last().2 {
                None => Ok(p),
                Some((account, index)) => match psbt_output_update(p, (outputs.len() - 1) as nat, desc, branch_of(account), index) {
                    None => Err(msg_output_update()),
                    Some(p1) => Ok(p1),
                },
            },
        }
    }
}

/// The PSBT of a planned transaction, or the message of the first step
/// that failed.
pub open spec fn psbt_spec(coins: Seq<CoinModel>, outputs: Seq<(u64, Seq<u8>, Option<(AddrAccount, u32)>)>, desc: Seq<char>)
    -> Result<Seq<char>, Seq<char>>
{
    match unsigned_psbt_text(
        TX_VERSION,
        TX_LOCK_TIME,
        coins.map_values(|c: CoinModel| (c.outpoint, c.sequence)),
        outputs.map_values(|o: (u64, Seq<u8>, Option<(AddrAccount, u32)>)| (o.0, o.1)),
    ) {
        None => Err(msg_unsigned_psbt()),
        Some(unsigned) => match fill_inputs(unsigned, coins, desc) {
            Err(e) => Err(e),
            Ok(p) => fill_outputs(p, outputs, desc),
        },
    }
}

/// Makes the PSBT of a planned transaction, in base64: see `psbt_spec`.
pub fn prepare_psbt(plan: &TxPlan, derivator: &Derivator) -> (r: Box<PsbtResult>)
    ensures
        r.model() == match psbt_spec(coin_models(plan.inputs@), plan.outputs@.map_values(|o: PlannedOutput| o@), derivator@.0) {
            Ok(p) => ResultModel::<Seq<char>> { value: Some(p), error: None },
            Err(e) => ResultModel::<Seq<char>> { value: None, error: Some(e) },
        },
{
    let ghost coins = coin_models(plan.inputs@);
    let ghost outs = plan.outputs@.map_values(|o: PlannedOutput| o@);
    let ghost desc = derivator@.0;
    let n = plan.inputs.len();
    let mut inputs: Vec<(OutPoint, u32)> = Vec::new();
    for i in 0..n
        invariant
            n == plan.inputs@.len(),
            coins == coin_models(plan.inputs@),
            inputs@ == coins.take(i as int).map_values(|c: CoinModel| (c.outpoint, c.sequence)),
    {
        let coin = &plan.inputs[i];
        inputs.push((*coin.outpoint(), coin.sequence()));
        assert(coins.take(i + 1) =~= coins.take(i as int).push(plan.inputs@[i as int]@));
        assert(inputs@ =~= coins.take(i + 1).map_values(|c: CoinModel| (c.outpoint, c.sequence)));
    }
    assert(coins.take(n as int) =~= coins);
    let m = plan.outputs.len();
    let mut outputs: Vec<TxOutput> = Vec::new();
    for i in 0..m
        invariant
            m == plan.outputs@.len(),
            outs == plan.outputs@.map_values(|o: PlannedOutput| o@),
            outputs@.map_values(|o: TxOutput| o@)
                == outs.take(i as int).map_values(|o: (u64, Seq<u8>, Option<(AddrAccount, u32)>)| (o.0, o.1)),
    {
        let o = &plan.outputs[i];
        let ghost prev = outputs@;
        let t = TxOutput { value: o.value, script: o.script.duplicate() };
        outputs.push(t);
        assert(outputs@ =~= prev.push(t));
        assert(outputs@.map_values(|o: TxOutput| o@) =~= prev.map_values(|o: TxOutput| o@).push(t@));
        assert(outs.take(i + 1) =~= outs.take(i as int).push(o@));
        assert(outputs@.map_values(|o: TxOutput| o@)
            =~= outs.take(i + 1).map_values(|o: (u64, Seq<u8>, Option<(AddrAccount, u32)>)| (o.0, o.1)));
    }
    assert(outs.take(m as int) =~= outs);
    let mut psbt = match unsigned_psbt(TX_VERSION, TX_LOCK_TIME, &inputs, &outputs) {
        Some(p) => p,
        None => return Box::new(PsbtResult::err("Fail to generate PSBT from unsigned transaction")),
    };
    let ghost unsigned = psbt@;
    let ghost named_inputs = coins.map_values(|c: CoinModel| (c.outpoint, c.sequence));
    let ghost named_outputs = outs.map_values(|o: (u64, Seq<u8>, Option<(AddrAccount, u32)>)| (o.0, o.1));
    assert(inputs@ =~= named_inputs);
    assert(outputs@.map_values(|o: TxOutput| o@) =~= named_outputs);
    assert(coins.take(0) =~= Seq::<CoinModel>::empty());
    for i in 0..n
        invariant
            n == plan.inputs@.len(),
            coins == coin_models(plan.inputs@),
            desc == derivator@.0,
            outs == plan.outputs@.map_values(|o: PlannedOutput| o@),
            unsigned_psbt_text(TX_VERSION, TX_LOCK_TIME, named_inputs, named_outputs) == Some(unsigned),
            named_inputs == coins.map_values(|c: CoinModel| (c.outpoint, c.sequence)),
            named_outputs == outs.map_values(|o: (u64, Seq<u8>, Option<(AddrAccount, u32)>)| (o.0, o.1)),
            fill_inputs(unsigned, coins.take(i as int), desc) == Ok::<Seq<char>, Seq<char>>(psbt@),
    {
        let coin = &plan.inputs[i];
        assert(coins.take(i + 1).drop_last() =~= coins.take(i as int));
        assert(coins.take(i + 1).last() == coin@);
        let (account, index) = coin.deriv();
        let p1 = match derivator.update_psbt_input(psbt.as_str(), i, account, index) {
            Some(p) => p,
            None => {
                proof { lemma_fill_inputs_stick(unsigned, coins, desc, i + 1); }
                return Box::new(PsbtResult::err("Fail to update PSBT input with descriptor"));
            },
        };
        let p2 = match set_sighash(p1.as_str(), i, SIGHASH_ALL) {
            Some(p) => p,
            None => p1,
        };
        psbt = match set_witness_utxo(p2.as_str(), i, coin.amount_sat(), &coin.spk()) {
            Some(p) => p,
            None => p2,
        };
    }
    assert(coins.take(n as int) =~= coins);
    let ghost filled = psbt@;
    assert(outs.take(0) =~= Seq::<(u64, Seq<u8>, Option<(AddrAccount, u32)>)>::empty());
    for i in 0..m
        invariant
            m == plan.outputs@.len(),
            outs == plan.outputs@.map_values(|o: PlannedOutput| o@),
            desc == derivator@.0,
            coins == coin_models(plan.inputs@),
            unsigned_psbt_text(TX_VERSION, TX_LOCK_TIME, named_inputs, named_outputs) == Some(unsigned),
            named_inputs == coins.map_values(|c: CoinModel| (c.outpoint, c.sequence)),
            named_outputs == outs.map_values(|o: (u64, Seq<u8>, Option<(AddrAccount, u32)>)| (o.0, o.1)),
            fill_inputs(unsigned, coins, desc) == Ok::<Seq<char>, Seq<char>>(filled),
            fill_outputs(filled, outs.take(i as int), desc) == Ok::<Seq<char>, Seq<char>>(psbt@),
    {
        assert(outs.take(i + 1).drop_last() =~= outs.take(i as int));
        assert(outs.take(i + 1).last() == plan.outputs@[i as int]@);
        match plan.outputs[i].deriv {
            Some((account, index)) => {
                match derivator.update_psbt_output(psbt.as_str(), i, account, index) {
                    Some(p) => {
                        psbt = p;
                    },
                    None => {
                        proof { lemma_fill_outputs_stick(filled, outs, desc, i + 1); }
                        return Box::new(PsbtResult::err("Fail to update PSBT output with descriptor"));
                    },
                }
            },
            None => {},
        }
    }
    assert(outs.take(m as int) =~= outs);
    Box::new(PsbtResult::ok(psbt))
}

/// Once filling the inputs has failed, more inputs do not change that.
proof fn lemma_fill_inputs_stick(psbt: Seq<char>, coins: Seq<CoinModel>, desc: Seq<char>, k: int)
    requires
        0 <= k <= coins.len(),
        fill_inputs(psbt, coins.take(k), desc) is Err,
    ensures
        fill_inputs(psbt, coins, desc) == fill_inputs(psbt, coins.take(k), desc),
    decreases coins.len() - k,
{
    if k < coins.len() {
        assert(coins.take(k + 1).drop_last() =~= coins.take(k));
        lemma_fill_inputs_stick(psbt, coins, desc, k + 1);
    } else {
        assert(coins.take(k) =~= coins);
    }
}

/// Once filling the outputs has failed, more outputs do not change that.
proof fn lemma_fill_outputs_stick(psbt: Seq<char>, outs: Seq<(u64, Seq<u8>, Option<(AddrAccount, u32)>)>, desc: Seq<char>, k: int)
    requires
        0 <= k <= outs.len(),
        fill_outputs(psbt, outs.take(k), desc) is Err,
    ensures
        fill_outputs(psbt, outs, desc) == fill_outputs(psbt, outs.take(k), desc),
    decreases outs.len() - k,
{
    if k < outs.len() {
        assert(outs.take(k + 1).drop_last() =~= outs.take(k));
        lemma_fill_outputs_stick(psbt, outs, desc, k + 1);
    } else {
        assert(outs.take(k) =~= outs);
    }
}

} // verus!
