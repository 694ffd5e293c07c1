# cpp_joinstr

The wallet core of a bitcoin coinjoin client: a watch-only account over a
multipath descriptor, its coins, transactions, labels and coinjoin pools, the
planning of transactions, and a hot signer. The library under `src/` is
written in Verus; each public function carries a contract that Verus proves.

## Layout

- `src/chain.rs`: transaction ids, outpoints, scripts and transactions as
  plain values; reading and writing outpoints.
- `src/txid_map.rs`, `src/tx_store.rs`: the stored transactions, by id.
- `src/derivator.rs`: the checks on a descriptor and the addresses it derives.
- `src/address_store.rs`: the watched addresses, their tips and statuses.
- `src/coin_store.rs`: script histories, pending updates and the coins derived
  from the stored transactions.
- `src/listener.rs`: what the transaction listener subscribes to and asks.
- `src/account.rs`: fee and change settlement, transaction planning, the
  account's settings and notifications.
- `src/transaction.rs`: size estimates, simulation and the PSBT of a plan.
- `src/signer.rs`: the hot signer and the signing manager.
- `src/label_store.rs`, `src/pool_store.rs`, `src/config.rs`,
  `src/mnemonic.rs`, `src/signal.rs`, `src/results.rs`, `src/types.rs`: labels,
  pools, settings, mnemonics and the values handed to the user interface.

Calls into `miniscript`, `bitcoin` and `bip39` stand behind small trusted
functions whose contracts name what they return.

`app/` holds what runs around the library: files, channels, threads and the
listener loops. `tests/` exercises the library with the real outside crates.
