use vstd::prelude::*;

pub mod types;
pub mod chain;
pub mod txid_map;
pub mod coin_store;
pub mod tx_store;
pub mod derivator;
pub mod address_store;
pub mod results;
pub mod signal;
pub mod label_store;
pub mod pool_store;
pub mod config;
pub mod mnemonic;
pub mod account;
pub mod listener;
pub mod signer;
pub mod transaction;

verus! {

} // verus!
