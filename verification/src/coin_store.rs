//! The coin store: the history of each watched script, the updates that are
//! waiting for transactions, and the coins derived from the transaction store.
use vstd::prelude::*;
use crate::chain::{OutPoint, Script, Transaction, TxModel, Txid, outpoint_lt, txid_lt, outpoint_display, outpoint_parse, txid_bytes};
use crate::txid_map::{
    TxidMap, pairs_to_map, lemma_seq_map_take, lemma_seq_map_full, sorted_keys, seq_map,
    lemma_seq_map_index, key_index,
};
use crate::tx_store::{TxEntry, TxEntryModel, TxStore, update_ids_match, insert_updates_spec, insert_tx_triples};
use crate::derivator::{Derivator, DerivedAddress, derived_address};
use crate::address_store::{
    AddressEntry, AddressEntryModel, AddressStore, StoreEvent, entry_for, has_script, scripts_unique, covers,
    coin_received, lemma_prefix_entry, lemma_entry_for,
};
use crate::types::{AddrAccount, AddressStatus, AddressTip, CoinStatus};

verus! {

/// The heights of the transactions of a script: `None` while unconfirmed.
pub type Heights = Map<Txid, Option<u64>>;

/// The ids that `new` holds and `prev` does not, with their new heights.
pub open spec fn diff_added(prev: Heights, new: Heights) -> Heights {
    Map::new(|k: Txid| new.contains_key(k) && !prev.contains_key(k), |k: Txid| new[k])
}

/// The ids that both hold with another height, with their new heights.
pub open spec fn diff_changed(prev: Heights, new: Heights) -> Heights {
    Map::new(
        |k: Txid| new.contains_key(k) && prev.contains_key(k) && new[k] != prev[k],
        |k: Txid| new[k],
    )
}

/// The ids that `prev` holds and `new` does not, with their old heights.
pub open spec fn diff_removed(prev: Heights, new: Heights) -> Heights {
    Map::new(|k: Txid| prev.contains_key(k) && !new.contains_key(k), |k: Txid| prev[k])
}

/// Applying a diff to a state: drop what was removed, then set what was
/// added or changed.
pub open spec fn apply_diff(prev: Heights, added: Heights, changed: Heights, removed: Heights) -> Heights {
    prev.remove_keys(removed.dom()).union_prefer_right(added).union_prefer_right(changed)
}

/// Applying the diff between two states to the first gives the second.
pub proof fn lemma_apply_diff(prev: Heights, new: Heights)
    ensures
        apply_diff(prev, diff_added(prev, new), diff_changed(prev, new), diff_removed(prev, new))
            == new,
{
    let r = apply_diff(prev, diff_added(prev, new), diff_changed(prev, new), diff_removed(prev, new));
    assert(r =~= new);
}

/// A state compared with itself has no difference.
pub proof fn lemma_diff_self(m: Heights)
    ensures
        diff_added(m, m) == Map::<Txid, Option<u64>>::empty(),
        diff_changed(m, m) == Map::<Txid, Option<u64>>::empty(),
        diff_removed(m, m) == Map::<Txid, Option<u64>>::empty(),
{
    assert(diff_added(m, m) =~= Map::<Txid, Option<u64>>::empty());
    assert(diff_changed(m, m) =~= Map::<Txid, Option<u64>>::empty());
    assert(diff_removed(m, m) =~= Map::<Txid, Option<u64>>::empty());
}

/// What changed in the history of a script between two states.
#[derive(Debug)]
pub struct HistoryDiff {
    pub added: TxidMap<Option<u64>>,
    pub changed: TxidMap<Option<u64>>,
    pub removed: TxidMap<Option<u64>>,
}

impl HistoryDiff {
    /// A diff with nothing in it.
    pub fn new() -> (r: HistoryDiff)
        ensures
            r.wf(),
            r.added@ == Map::<Txid, Option<u64>>::empty(),
            r.changed@ == Map::<Txid, Option<u64>>::empty(),
            r.removed@ == Map::<Txid, Option<u64>>::empty(),
    {
        HistoryDiff { added: TxidMap::new(), changed: TxidMap::new(), removed: TxidMap::new() }
    }

    /// Its three maps are well formed.
    pub open spec fn wf(&self) -> bool {
        self.added.wf() && self.changed.wf() && self.removed.wf()
    }
}

/// The successive states of the transaction history of one script.
#[derive(Debug)]
pub struct SpkHistory {
    history: Vec<TxidMap<Option<u64>>>,
}

impl View for SpkHistory {
    type V = Seq<Heights>;

    closed spec fn view(&self) -> Seq<Heights> {
        self.history@.map_values(|m: TxidMap<Option<u64>>| m@)
    }
}

impl SpkHistory {
    /// There is at least one state, and each state is well formed.
    pub closed spec fn wf(&self) -> bool {
        &&& self.history@.len() > 0
        &&& forall|i: int| 0 <= i < self.history@.len() ==> (#[trigger] self.history@[i]).wf()
    }

    /// A history with one empty state.
    pub fn new() -> (r: SpkHistory)
        ensures
            r.wf(),
            r@ == seq![Map::<Txid, Option<u64>>::empty()],
    {
        let mut history: Vec<TxidMap<Option<u64>>> = Vec::new();
        history.push(TxidMap::new());
        let r = SpkHistory { history };
        assert(r@ =~= seq![Map::<Txid, Option<u64>>::empty()]);
        r
    }

    /// Each state is a finite map.
    pub proof fn lemma_states_finite(&self)
        requires
            self.wf(),
        ensures
            forall|i: int| 0 <= i < self@.len() ==> (#[trigger] self@[i]).dom().finite(),
    {
        assert forall|i: int| 0 <= i < self@.len() implies (#[trigger] self@[i]).dom().finite() by {
            self.history@[i].lemma_len();
        }
    }

    /// Records the ids and heights now reported for the script and returns
    /// what changed since the last state. A later pair with an id already
    /// seen replaces the earlier one. The report is then the last state:
    /// when both the last state and the report are empty nothing is
    /// recorded, the last state being the empty report already; otherwise
    /// the report is added as the new last state.
    pub fn insert(&mut self, new: Vec<(Txid, Option<u64>)>) -> (diff: HistoryDiff)
        requires
            old(self).wf(),
        ensures
            final(self).wf(),
            diff.wf(),
            ({
                let prev = old(self)@.last();
                let nm = pairs_to_map(new@);
                if prev.len() == 0 && nm.len() == 0 {
                    &&& final(self)@ == old(self)@
                    &&& diff.added@ == Map::<Txid, Option<u64>>::empty()
                    &&& diff.changed@ == Map::<Txid, Option<u64>>::empty()
                    &&& diff.removed@ == Map::<Txid, Option<u64>>::empty()
                } else {
                    &&& final(self)@ == old(self)@.push(nm)
                    &&& diff.added@ == diff_added(prev, nm)
                    &&& diff.changed@ == diff_changed(prev, nm)
                    &&& diff.removed@ == diff_removed(prev, nm)
                }
            }),
            diff.added@ == diff_added(old(self)@.last(), pairs_to_map(new@)),
            diff.changed@ == diff_changed(old(self)@.last(), pairs_to_map(new@)),
            diff.removed@ == diff_removed(old(self)@.last(), pairs_to_map(new@)),
            final(self)@.last() == pairs_to_map(new@),
    {
        let ghost old_view = self@;
        let ghost old_hist = self.history@;
        // collect the report into a map
        let mut new_map: TxidMap<Option<u64>> = TxidMap::new();
        let n = new.len();
        for i in 0..n
            invariant
                n == new@.len(),
                new_map.wf(),
                new_map@ == pairs_to_map(new@.take(i as int)),
        {
            let e = new[i];
            new_map.insert(e.0, e.1);
            assert(new@.take(i + 1).drop_last() =~= new@.take(i as int));
        }
        assert(new@.take(n as int) =~= new@);
        let ghost nm = new_map@;

        let last_index = self.history.len() - 1;
        let previous = &self.history[last_index];
        let ghost prev = previous@;
        assert(prev == old_view.last());
        proof {
            previous.lemma_len();
            new_map.lemma_len();
        }
        if previous.len() == 0 {
            if new_map.len() == 0 {
                assert(prev =~= nm);
                assert(diff_added(prev, nm) =~= Map::<Txid, Option<u64>>::empty());
                assert(diff_changed(prev, nm) =~= Map::<Txid, Option<u64>>::empty());
                assert(diff_removed(prev, nm) =~= Map::<Txid, Option<u64>>::empty());
                return HistoryDiff::new();
            }
            let added = new_map.duplicate();
            let diff = HistoryDiff { added, changed: TxidMap::new(), removed: TxidMap::new() };
            assert(diff.added@ =~= diff_added(prev, nm));
            assert(diff.changed@ =~= diff_changed(prev, nm));
            assert(diff.removed@ =~= diff_removed(prev, nm));
            let ghost pushed = new_map;
            self.history.push(new_map);
            proof { self.lemma_push(old_hist, pushed); }
            return diff;
        }
        let mut diff = HistoryDiff::new();
        let ghost ns = new_map.seq();
        let nn = new_map.len();
        for i in 0..nn
            invariant
                nn == ns.len(),
                new_map.wf(),
                ns == new_map.seq(),
                previous.wf(),
                prev == previous@,
                diff.wf(),
                diff.added@ == diff_added(prev, crate::txid_map::seq_map(ns.take(i as int))),
                diff.changed@ == diff_changed(prev, crate::txid_map::seq_map(ns.take(i as int))),
                diff.removed@ == Map::<Txid, Option<u64>>::empty(),
        {
            proof {
                if i == 0 {
                    lemma_seq_map_full(ns);
                    assert(diff_added(prev, Map::<Txid, Option<u64>>::empty()) =~= Map::<Txid, Option<u64>>::empty());
                }
            }
            let e = new_map.entry_at(i);
            let txid = e.0;
            let height = e.1;
            proof { lemma_seq_map_take(ns, i as int); }
            let ghost before = crate::txid_map::seq_map(ns.take(i as int));
            let ghost after = crate::txid_map::seq_map(ns.take(i + 1));
            match previous.get(&txid) {
                None => {
                    diff.added.insert(txid, height);
                    assert(diff.added@ =~= diff_added(prev, after));
                    assert(diff.changed@ =~= diff_changed(prev, after));
                },
                Some(prev_height) => {
                    if height != *prev_height {
                        diff.changed.insert(txid, height);
                    }
                    assert(diff.added@ =~= diff_added(prev, after));
                    assert(diff.changed@ =~= diff_changed(prev, after));
                },
            }
        }
        proof {
            lemma_seq_map_full(ns);
        }
        assert(diff.added@ == diff_added(prev, nm));
        assert(diff.changed@ == diff_changed(prev, nm));
        let ghost ps = previous.seq();
        let pn = previous.len();
        for i in 0..pn
            invariant
                pn == ps.len(),
                previous.wf(),
                ps == previous.seq(),
                prev == previous@,
                new_map.wf(),
                nm == new_map@,
                diff.wf(),
                diff.added@ == diff_added(prev, nm),
                diff.changed@ == diff_changed(prev, nm),
                diff.removed@ == diff_removed(crate::txid_map::seq_map(ps.take(i as int)), nm),
        {
            proof {
                if i == 0 {
                    lemma_seq_map_full(ps);
                    assert(diff_removed(Map::<Txid, Option<u64>>::empty(), nm) =~= Map::<Txid, Option<u64>>::empty());
                }
            }
            let e = previous.entry_at(i);
            let txid = e.0;
            let height = e.1;
            proof { lemma_seq_map_take(ps, i as int); }
            let ghost after = crate::txid_map::seq_map(ps.take(i + 1));
            if !new_map.contains(&txid) {
                diff.removed.insert(txid, height);
            }
            assert(diff.removed@ =~= diff_removed(after, nm));
        }
        proof {
            lemma_seq_map_full(ps);
        }
        let ghost pushed = new_map;
        self.history.push(new_map);
        proof { self.lemma_push(old_hist, pushed); }
        diff
    }

    proof fn lemma_push(&self, old_hist: Seq<TxidMap<Option<u64>>>, pushed: TxidMap<Option<u64>>)
        requires
            self.history@ == old_hist.push(pushed),
            forall|i: int| 0 <= i < old_hist.len() ==> (#[trigger] old_hist[i]).wf(),
            pushed.wf(),
        ensures
            self.wf(),
            self@ == old_hist.map_values(|m: TxidMap<Option<u64>>| m@).push(pushed@),
    {
        assert forall|i: int| 0 <= i < self.history@.len() implies (#[trigger] self.history@[i]).wf() by {
            if i < old_hist.len() {
                assert(self.history@[i] == old_hist[i]);
            }
        }
        assert(self@ =~= old_hist.map_values(|m: TxidMap<Option<u64>>| m@).push(pushed@));
    }
}

/// The transactions that a history change brought: each id with its
/// height, and the transaction once it has been fetched.
#[derive(Debug)]
pub struct Update {
    pub spk: Script,
    pub txs: Vec<(Txid, Option<Transaction>, Option<u64>)>,
}

/// The abstract value of an update's transaction list.
pub open spec fn update_txs_model(s: Seq<(Txid, Option<Transaction>, Option<u64>)>) -> Seq<(Txid, Option<TxModel>, Option<u64>)> {
    s.map_values(|e: (Txid, Option<Transaction>, Option<u64>)|
        (e.0, match e.1 { Some(t) => Some(t@), None => None }, e.2))
}

/// The ids whose transaction is still missing, in list order.
pub open spec fn missing_ids(s: Seq<(Txid, Option<TxModel>, Option<u64>)>) -> Seq<Txid>
    decreases s.len(),
{
    if s.len() == 0 {
        Seq::empty()
    } else {
        missing_ids(s.drop_last()) + (if s.last().1 is None { seq![s.last().0] } else { Seq::empty() })
    }
}

impl Update {
    /// The script the update is about.
    pub open spec fn spk_view(&self) -> Seq<u8> {
        self.spk@
    }

    /// The abstract list of transactions.
    pub open spec fn txs_view(&self) -> Seq<(Txid, Option<TxModel>, Option<u64>)> {
        update_txs_model(self.txs@)
    }

    /// Every transaction of the update has been fetched.
    pub open spec fn complete(&self) -> bool {
        forall|i: int| 0 <= i < self.txs@.len() ==> (#[trigger] self.txs@[i]).1 is Some
    }

    /// The update for the ids that `diff` added, in increasing id order,
    /// none of them fetched yet.
    pub fn from_diff(spk: Script, diff: HistoryDiff) -> (r: Update)
        requires
            diff.wf(),
        ensures
            r.spk_view() == spk@,
            r.txs@.len() == diff.added.seq().len(),
            forall|i: int| 0 <= i < r.txs@.len() ==> {
                &&& (#[trigger] r.txs@[i]).0 == diff.added.seq()[i].0
                &&& r.txs@[i].1 is None
                &&& r.txs@[i].2 == diff.added.seq()[i].1
            },
    {
        let mut txs: Vec<(Txid, Option<Transaction>, Option<u64>)> = Vec::new();
        let n = diff.added.len();
        for i in 0..n
            invariant
                n == diff.added.seq().len(),
                diff.wf(),
                txs@.len() == i,
                forall|j: int| 0 <= j < i ==> {
                    &&& (#[trigger] txs@[j]).0 == diff.added.seq()[j].0
                    &&& txs@[j].1 is None
                    &&& txs@[j].2 == diff.added.seq()[j].1
                },
        {
            let e = diff.added.entry_at(i);
            txs.push((e.0, None, e.1));
        }
        Update { spk, txs }
    }

    /// Whether every transaction has been fetched.
    pub fn is_complete(&self) -> (r: bool)
        ensures
            r == self.complete(),
    {
        let n = self.txs.len();
        for i in 0..n
            invariant
                n == self.txs@.len(),
                forall|j: int| 0 <= j < i ==> (#[trigger] self.txs@[j]).1 is Some,
        {
            if self.txs[i].1.is_none() {
                return false;
            }
        }
        true
    }

    /// The ids whose transaction is missing, in list order.
    pub fn missing(&self) -> (r: Vec<Txid>)
        ensures
            r@ == missing_ids(self.txs_view()),
    {
        let mut r: Vec<Txid> = Vec::new();
        let n = self.txs.len();
        let ghost tv = self.txs_view();
        for i in 0..n
            invariant
                n == self.txs@.len(),
                tv == self.txs_view(),
                r@ == missing_ids(tv.take(i as int)),
        {
            assert(tv.take(i + 1).drop_last() =~= tv.take(i as int));
            if self.txs[i].1.is_none() {
                r.push(self.txs[i].0);
            }
            assert(r@ =~= missing_ids(tv.take(i + 1)));
        }
        assert(tv.take(n as int) =~= tv);
        r
    }
}

} // verus!

verus! {

/// The abstract value of a coin.
pub struct CoinModel {
    pub height: Option<u64>,
    pub status: CoinStatus,
    pub outpoint: OutPoint,
    pub value: u64,
    pub script: Seq<u8>,
    pub sequence: u32,
    pub account: AddrAccount,
    pub index: u32,
    pub address: Seq<char>,
}

/// A coin of the wallet: an output paying one of its addresses.
#[derive(Debug)]
pub struct CoinEntry {
    height: Option<u64>,
    status: CoinStatus,
    outpoint: OutPoint,
    value: u64,
    script: Script,
    sequence: u32,
    account: AddrAccount,
    index: u32,
    address: String,
}

impl View for CoinEntry {
    type V = CoinModel;

    closed spec fn view(&self) -> CoinModel {
        CoinModel {
            height: self.height,
            status: self.status,
            outpoint: self.outpoint,
            value: self.value,
            script: self.script@,
            sequence: self.sequence,
            account: self.account,
            index: self.index,
            address: self.address@,
        }
    }
}

/// The name of a coin status.
pub open spec fn coin_status_text(status: CoinStatus) -> Seq<char> {
    match status {
        CoinStatus::Unconfirmed => "Unconfirmed"@,
        CoinStatus::Confirmed => "Confirmed"@,
        CoinStatus::BeingSpend => "BeingSpend"@,
        CoinStatus::Spent => "Spent"@,
    }
}

impl CoinEntry {
    /// A coin with the given fields.
    pub fn new(
        height: Option<u64>,
        status: CoinStatus,
        outpoint: OutPoint,
        value: u64,
        script: Script,
        sequence: u32,
        account: AddrAccount,
        index: u32,
        address: String,
    ) -> (r: CoinEntry)
        ensures
            r@ == (CoinModel { height, status, outpoint, value, script: script@, sequence, account, index, address: address@ }),
    {
        CoinEntry { height, status, outpoint, value, script, sequence, account, index, address }
    }

    /// The confirmation height, `None` while unconfirmed.
    pub fn height(&self) -> (r: Option<u64>)
        ensures
            r == self@.height,
    {
        self.height
    }

    /// The status.
    pub fn status(&self) -> (r: CoinStatus)
        ensures
            r == self@.status,
    {
        self.status
    }

    /// The name of the status.
    pub fn status_str(&self) -> (r: String)
        ensures
            r@ == coin_status_text(self@.status),
    {
        let s = match self.status {
            CoinStatus::Unconfirmed => "Unconfirmed",
            CoinStatus::Confirmed => "Confirmed",
            CoinStatus::BeingSpend => "BeingSpend",
            CoinStatus::Spent => "Spent",
        };
        s.to_string()
    }

    /// The amount in satoshis.
    pub fn amount_sat(&self) -> (r: u64)
        ensures
            r == self@.value,
    {
        self.value
    }

    /// The outpoint.
    pub fn outpoint(&self) -> (r: &OutPoint)
        ensures
            *r == self@.outpoint,
    {
        &self.outpoint
    }

    /// The text of the outpoint, `txid:vout`.
    pub fn outpoint_str(&self) -> (r: String)
        ensures
            r@ == outpoint_display(txid_bytes(self@.outpoint.txid), self@.outpoint.vout),
            outpoint_parse(r@) == Some((txid_bytes(self@.outpoint.txid), self@.outpoint.vout)),
    {
        self.outpoint.text()
    }

    /// The address text.
    pub fn address(&self) -> (r: String)
        ensures
            r@ == self@.address,
    {
        self.address.clone()
    }

    /// The output script.
    pub fn spk(&self) -> (r: Script)
        ensures
            r@ == self@.script,
    {
        self.script.duplicate()
    }

    /// The branch and index of the address.
    pub fn deriv(&self) -> (r: (AddrAccount, u32))
        ensures
            r == (self@.account, self@.index),
    {
        (self.account, self.index)
    }

    /// The sequence number registered for spending.
    pub fn sequence(&self) -> (r: u32)
        ensures
            r == self@.sequence,
    {
        self.sequence
    }

    /// A copy with the same fields.
    pub fn duplicate(&self) -> (r: CoinEntry)
        ensures
            r@ == self@,
    {
        CoinEntry {
            height: self.height,
            status: self.status,
            outpoint: self.outpoint,
            value: self.value,
            script: self.script.duplicate(),
            sequence: self.sequence,
            account: self.account,
            index: self.index,
            address: self.address.clone(),
        }
    }

    /// A boxed copy.
    pub fn boxed(&self) -> (r: Box<CoinEntry>)
        ensures
            r@ == self@,
    {
        Box::new(self.duplicate())
    }

    fn set_status(&mut self, status: CoinStatus)
        ensures
            final(self)@ == (CoinModel { status, ..old(self)@ }),
    {
        self.status = status;
    }
}

/// The status of a coin before spends are looked at.
pub open spec fn base_status(height: Option<u64>) -> CoinStatus {
    if height is Some { CoinStatus::Confirmed } else { CoinStatus::Unconfirmed }
}

/// Some stored transaction spends `op`.
pub open spec fn spent(txs: Map<Txid, TxEntryModel>, op: OutPoint) -> bool {
    exists|k: Txid, j: int| #![trigger txs[k].tx.inputs[j]]
        txs.contains_key(k) && 0 <= j < txs[k].tx.inputs.len() && txs[k].tx.inputs[j] == op
}

/// `c` is the coin of output `c.outpoint.vout` of the stored transaction
/// `e`, paying the watched address of its script; its status aside.
pub open spec fn coin_from(c: CoinModel, e: TxEntryModel, addrs: Seq<AddressEntryModel>) -> bool {
    let a = entry_for(addrs, c.script);
    &&& c.outpoint.txid == e.tx.txid
    &&& c.outpoint.vout < e.tx.outputs.len()
    &&& c.value == e.tx.outputs[c.outpoint.vout as int].0
    &&& c.script == e.tx.outputs[c.outpoint.vout as int].1
    &&& c.height == e.height
    &&& has_script(addrs, c.script)
    &&& c.address == a.address
    &&& c.account == a.account
    &&& c.index == a.index
    &&& c.sequence == 0xFFFF_FFFFu32
}

/// The outpoints of `s` strictly increase.
pub open spec fn sorted_outpoints(s: Seq<CoinModel>) -> bool {
    forall|a: int, b: int| 0 <= a < b < s.len() ==> outpoint_lt(s[a].outpoint, s[b].outpoint)
}

/// The coins that the stored transactions `txs` give to the addresses
/// `addrs`: in outpoint order, one for each output paying a watched
/// script, spent when a stored transaction spends it, else confirmed or
/// unconfirmed after its height.
pub open spec fn generated_coins(coins: Seq<CoinModel>, txs: Map<Txid, TxEntryModel>, addrs: Seq<AddressEntryModel>) -> bool {
    &&& sorted_outpoints(coins)
    &&& forall|q: int| 0 <= q < coins.len() ==> {
        let c = #[trigger] coins[q];
        &&& txs.contains_key(c.outpoint.txid)
        &&& coin_from(c, txs[c.outpoint.txid], addrs)
        &&& c.status == (if spent(txs, c.outpoint) { CoinStatus::Spent } else { base_status(c.height) })
    }
    &&& forall|k: Txid, v: int| #![trigger txs[k].tx.outputs[v]]
        txs.contains_key(k) && 0 <= v < txs[k].tx.outputs.len() && has_script(addrs, txs[k].tx.outputs[v].1)
        ==> exists|q: int| 0 <= q < coins.len() && (#[trigger] coins[q]).outpoint == (OutPoint { txid: k, vout: v as u32 })
}

/// The number of coins of `s` paying `script`.
pub open spec fn count_script(s: Seq<CoinModel>, script: Seq<u8>) -> nat
    decreases s.len(),
{
    if s.len() == 0 {
        0
    } else {
        count_script(s.drop_last(), script) + (if s.last().script == script { 1nat } else { 0nat })
    }
}

/// The status an address takes from the coins: not used by none, used by
/// one coin, reused by more.
pub open spec fn status_from_coins(n: nat) -> AddressStatus {
    if n == 0 {
        AddressStatus::NotUsed
    } else if n == 1 {
        AddressStatus::Used
    } else {
        AddressStatus::Reused
    }
}

/// The stored transactions, as abstract values.
pub open spec fn tx_models(txs: TxidMap<TxEntry>) -> Map<Txid, TxEntryModel> {
    txs@.map_values(|e: TxEntry| e@)
}

/// Each stored transaction sits under its own id.
pub open spec fn keyed_by_txid(txs: TxidMap<TxEntry>) -> bool {
    forall|k: Txid| #[trigger] txs@.contains_key(k) ==> txs@[k]@.tx.txid == k
}

/// Each stored transaction has at most 2^32 outputs, so that output
/// positions fit in 32 bits.
pub open spec fn outputs_fit(txs: Map<Txid, TxEntryModel>) -> bool {
    forall|k: Txid| #[trigger] txs.contains_key(k) ==> txs[k].tx.outputs.len() <= 0x1_0000_0000
}

/// The coin of output `vout` of `e`, paying the watched entry `a`.
pub open spec fn coin_model_of(e: TxEntryModel, vout: u32, a: AddressEntryModel) -> CoinModel {
    CoinModel {
        height: e.height,
        status: base_status(e.height),
        outpoint: OutPoint { txid: e.tx.txid, vout },
        value: e.tx.outputs[vout as int].0,
        script: e.tx.outputs[vout as int].1,
        sequence: 0xFFFF_FFFFu32,
        account: a.account,
        index: a.index,
        address: a.address,
    }
}

/// `c` is a coin of the stored transactions `t` for the addresses `a`,
/// with the status its height gives.
pub open spec fn coin_ok(c: CoinModel, t: Map<Txid, TxEntryModel>, a: Seq<AddressEntryModel>) -> bool {
    &&& t.contains_key(c.outpoint.txid)
    &&& coin_from(c, t[c.outpoint.txid], a)
    &&& c.status == base_status(c.height)
}

/// Appends `coin` to a list of coins whose outpoints all come before it.
fn push_coin(r: &mut Vec<CoinEntry>, coin: CoinEntry)
    requires
        sorted_outpoints(old(r)@.map_values(|c: CoinEntry| c@)),
        forall|q: int| 0 <= q < old(r)@.len() ==> outpoint_lt((#[trigger] old(r)@[q])@.outpoint, coin@.outpoint),
    ensures
        final(r)@ == old(r)@.push(coin),
        sorted_outpoints(final(r)@.map_values(|c: CoinEntry| c@)),
{
    let ghost rv = r@.map_values(|c: CoinEntry| c@);
    let ghost cm = coin@;
    r.push(coin);
    let ghost rv2 = r@.map_values(|c: CoinEntry| c@);
    assert(rv2 =~= rv.push(cm));
    assert forall|x: int, y: int| 0 <= x < y < rv2.len() implies outpoint_lt(rv2[x].outpoint, rv2[y].outpoint) by {
        if y == rv.len() {
            assert(rv2[x] == rv[x]);
            assert(rv[x] == old(r)@[x]@);
        } else {
            assert(rv2[x] == rv[x] && rv2[y] == rv[y]);
        }
    }
}

/// Appends the coins of one stored transaction: one for each output paying
/// a watched script, in output order.
fn coins_of_tx(
    r: &mut Vec<CoinEntry>,
    txid: Txid,
    entry: &TxEntry,
    Ghost(t): Ghost<Map<Txid, TxEntryModel>>,
    addrs: &AddressStore,
)
    requires
        t.contains_key(txid),
        t[txid] == entry@,
        entry@.tx.txid == txid,
        entry@.tx.outputs.len() <= 0x1_0000_0000,
        addrs.wf(),
        sorted_outpoints(old(r)@.map_values(|c: CoinEntry| c@)),
        forall|q: int| 0 <= q < old(r)@.len() ==> coin_ok((#[trigger] old(r)@[q])@, t, addrs.entries()),
        forall|q: int| 0 <= q < old(r)@.len() ==> txid_lt((#[trigger] old(r)@[q])@.outpoint.txid, txid),
    ensures
        old(r)@.len() <= final(r)@.len(),
        forall|q: int| 0 <= q < old(r)@.len() ==> #[trigger] final(r)@[q] == old(r)@[q],
        forall|q: int| old(r)@.len() <= q < final(r)@.len() ==> (#[trigger] final(r)@[q])@.outpoint.txid == txid,
        sorted_outpoints(final(r)@.map_values(|c: CoinEntry| c@)),
        forall|q: int| 0 <= q < final(r)@.len() ==> coin_ok((#[trigger] final(r)@[q])@, t, addrs.entries()),
        forall|w: int| #![trigger t[txid].tx.outputs[w]]
            0 <= w < t[txid].tx.outputs.len() && has_script(addrs.entries(), t[txid].tx.outputs[w].1)
            ==> exists|q: int| 0 <= q < final(r)@.len() && (#[trigger] final(r)@[q])@.outpoint == (OutPoint { txid, vout: w as u32 }),
{
    let ghost a = addrs.entries();
    let ghost start = r@;
    let tx = entry.tx();
    let m = tx.outputs.len();
    assert(tx@.outputs.len() == tx.outputs@.len());
    for v in 0..m
        invariant
            t.contains_key(txid),
            t[txid] == entry@,
            entry@.tx == tx@,
            tx.txid == txid,
            m == tx.outputs@.len(),
            m <= 0x1_0000_0000,
            a == addrs.entries(),
            addrs.wf(),
            start.len() <= r@.len(),
            forall|q: int| 0 <= q < start.len() ==> #[trigger] r@[q] == start[q],
            forall|q: int| start.len() <= q < r@.len() ==> (#[trigger] r@[q])@.outpoint.txid == txid
                && r@[q]@.outpoint.vout < v,
            forall|q: int| 0 <= q < start.len() ==> txid_lt((#[trigger] start[q])@.outpoint.txid, txid),
            sorted_outpoints(r@.map_values(|c: CoinEntry| c@)),
            forall|q: int| 0 <= q < r@.len() ==> coin_ok((#[trigger] r@[q])@, t, a),
            forall|w: int| #![trigger t[txid].tx.outputs[w]]
                0 <= w < v && has_script(a, t[txid].tx.outputs[w].1)
                ==> exists|q: int| 0 <= q < r@.len() && (#[trigger] r@[q])@.outpoint == (OutPoint { txid, vout: w as u32 }),
    {
        let out = &tx.outputs[v];
        assert(tx@.outputs[v as int] == out@);
        match addrs.get_entry(&out.script) {
            Some(ae) => {
                let vout = v as u32;
                let height = entry.height();
                let coin = CoinEntry::new(
                    height,
                    if height.is_some() { CoinStatus::Confirmed } else { CoinStatus::Unconfirmed },
                    OutPoint { txid, vout },
                    out.value,
                    out.script.duplicate(),
                    0xFFFF_FFFFu32,
                    ae.account,
                    ae.index,
                    ae.address,
                );
                assert(coin_ok(coin@, t, a));
                assert forall|q: int| 0 <= q < r@.len() implies outpoint_lt((#[trigger] r@[q])@.outpoint, coin@.outpoint) by {
                    if q < start.len() {
                        assert(r@[q] == start[q]);
                    }
                }
                let ghost before = r@;
                push_coin(r, coin);
                assert(r@[r@.len() - 1]@.outpoint == (OutPoint { txid, vout: v as u32 }));
                assert forall|q: int| 0 <= q < start.len() implies #[trigger] r@[q] == start[q] by {
                    assert(r@[q] == before[q]);
                }
                assert forall|w: int| #![trigger t[txid].tx.outputs[w]]
                    0 <= w < v + 1 && has_script(a, t[txid].tx.outputs[w].1)
                    implies exists|q: int| 0 <= q < r@.len() && (#[trigger] r@[q])@.outpoint == (OutPoint { txid, vout: w as u32 }) by {
                    if w == v {
                        assert(r@[r@.len() - 1]@.outpoint == (OutPoint { txid, vout: w as u32 }));
                    } else {
                        let q = choose|q: int| 0 <= q < before.len() && (#[trigger] before[q])@.outpoint == (OutPoint { txid, vout: w as u32 });
                        assert(r@[q] == before[q]);
                    }
                }
            },
            None => {
                assert(t[txid].tx.outputs[v as int].1 == out.script@);
            },
        }
    }
}

/// Lists, in outpoint order, a coin for each output of a stored
/// transaction that pays a watched script, with the status its height
/// gives.
fn collect_coins(txs: &TxidMap<TxEntry>, addrs: &AddressStore) -> (r: Vec<CoinEntry>)
    requires
        txs.wf(),
        keyed_by_txid(*txs),
        outputs_fit(tx_models(*txs)),
        addrs.wf(),
    ensures
        sorted_outpoints(r@.map_values(|c: CoinEntry| c@)),
        forall|q: int| 0 <= q < r@.len() ==> coin_ok((#[trigger] r@[q])@, tx_models(*txs), addrs.entries()),
        forall|k: Txid, v: int| #![trigger tx_models(*txs)[k].tx.outputs[v]]
            tx_models(*txs).contains_key(k) && 0 <= v < tx_models(*txs)[k].tx.outputs.len()
            && has_script(addrs.entries(), tx_models(*txs)[k].tx.outputs[v].1)
            ==> exists|q: int| 0 <= q < r@.len() && (#[trigger] r@[q])@.outpoint == (OutPoint { txid: k, vout: v as u32 }),
{
    let ghost t = tx_models(*txs);
    let ghost ss = txs.seq();
    let ghost a = addrs.entries();
    let mut r: Vec<CoinEntry> = Vec::new();
    let n = txs.len();
    assert(sorted_outpoints(r@.map_values(|c: CoinEntry| c@)));
    for i in 0..n
        invariant
            n == ss.len(),
            ss == txs.seq(),
            t == tx_models(*txs),
            a == addrs.entries(),
            txs.wf(),
            keyed_by_txid(*txs),
            outputs_fit(t),
            addrs.wf(),
            sorted_outpoints(r@.map_values(|c: CoinEntry| c@)),
            forall|q: int| 0 <= q < r@.len() ==> coin_ok((#[trigger] r@[q])@, t, a),
            forall|q: int| 0 <= q < r@.len() ==> exists|p: int| 0 <= p < i && ss[p].0 == (#[trigger] r@[q])@.outpoint.txid,
            forall|p: int, v: int| #![trigger ss[p], t[ss[p].0].tx.outputs[v]]
                0 <= p < i && 0 <= v < t[ss[p].0].tx.outputs.len() && has_script(a, t[ss[p].0].tx.outputs[v].1)
                ==> exists|q: int| 0 <= q < r@.len() && (#[trigger] r@[q])@.outpoint == (OutPoint { txid: ss[p].0, vout: v as u32 }),
    {
        let entry = txs.entry_at(i);
        let txid = entry.0;
        proof {
            lemma_seq_map_index(ss, i as int);
            assert(t.contains_key(txid));
            assert(t[txid] == entry.1@);
            assert forall|q: int| 0 <= q < r@.len() implies txid_lt((#[trigger] r@[q])@.outpoint.txid, txid) by {
                let p = choose|p: int| 0 <= p < i && ss[p].0 == r@[q]@.outpoint.txid;
                assert(txid_lt(ss[p].0, ss[i as int].0));
            }
        }
        let ghost before = r@;
        coins_of_tx(&mut r, txid, &entry.1, Ghost(t), addrs);
        proof {
            assert forall|q: int| 0 <= q < r@.len() implies exists|p: int| 0 <= p < i + 1
                && ss[p].0 == (#[trigger] r@[q])@.outpoint.txid by {
                if q < before.len() {
                    assert(r@[q] == before[q]);
                    let p = choose|p: int| 0 <= p < i && ss[p].0 == before[q]@.outpoint.txid;
                } else {
                    assert(ss[i as int].0 == r@[q]@.outpoint.txid);
                }
            }
            assert forall|p: int, v: int| #![trigger ss[p], t[ss[p].0].tx.outputs[v]]
                0 <= p < i + 1 && 0 <= v < t[ss[p].0].tx.outputs.len() && has_script(a, t[ss[p].0].tx.outputs[v].1)
                implies exists|q: int| 0 <= q < r@.len() && (#[trigger] r@[q])@.outpoint == (OutPoint { txid: ss[p].0, vout: v as u32 }) by {
                if p == i {
                    assert(t[txid].tx.outputs[v] == t[ss[p].0].tx.outputs[v]);
                } else {
                    let q = choose|q: int| 0 <= q < before.len() && (#[trigger] before[q])@.outpoint == (OutPoint { txid: ss[p].0, vout: v as u32 });
                    assert(r@[q] == before[q]);
                }
            }
        }
    }
    proof {
        assert forall|k: Txid, v: int| #![trigger t[k].tx.outputs[v]]
            t.contains_key(k) && 0 <= v < t[k].tx.outputs.len() && has_script(a, t[k].tx.outputs[v].1)
            implies exists|q: int| 0 <= q < r@.len() && (#[trigger] r@[q])@.outpoint == (OutPoint { txid: k, vout: v as u32 }) by {
            let p = txs.lemma_key_at(k);
            assert(ss[p].0 == k);
            assert(t[ss[p].0].tx.outputs[v] == t[k].tx.outputs[v]);
        }
    }
    r
}

} // verus!

verus! {

/// Whether a stored transaction spends `op`.
fn is_spent(txs: &TxidMap<TxEntry>, op: &OutPoint) -> (r: bool)
    requires
        txs.wf(),
    ensures
        r == spent(tx_models(*txs), *op),
{
    let ghost t = tx_models(*txs);
    let ghost ss = txs.seq();
    let n = txs.len();
    for i in 0..n
        invariant
            n == ss.len(),
            ss == txs.seq(),
            t == tx_models(*txs),
            txs.wf(),
            forall|p: int, j: int| #![trigger ss[p].1@.tx.inputs[j]]
                0 <= p < i && 0 <= j < ss[p].1@.tx.inputs.len() ==> ss[p].1@.tx.inputs[j] != *op,
    {
        let entry = txs.entry_at(i);
        let tx = entry.1.tx();
        let m = tx.inputs.len();
        for j in 0..m
            invariant
                n == ss.len(),
                ss == txs.seq(),
                t == tx_models(*txs),
                txs.wf(),
                0 <= i < n,
                *entry == ss[i as int],
                txs@.contains_key(entry.0),
                txs@[entry.0] == entry.1,
                tx@ == entry.1@.tx,
                m == tx.inputs@.len(),
                forall|jj: int| 0 <= jj < j ==> tx.inputs@[jj] != *op,
                forall|p: int, jj: int| #![trigger ss[p].1@.tx.inputs[jj]]
                    0 <= p < i && 0 <= jj < ss[p].1@.tx.inputs.len() ==> ss[p].1@.tx.inputs[jj] != *op,
        {
            if tx.inputs[j].same(op) {
                proof {
                    assert(t.contains_key(entry.0));
                    assert(t[entry.0] == entry.1@);
                    assert(t[entry.0].tx.inputs[j as int] == *op);
                }
                return true;
            }
        }
    }
    proof {
        assert forall|k: Txid, j: int| #![trigger t[k].tx.inputs[j]]
            t.contains_key(k) && 0 <= j < t[k].tx.inputs.len() implies t[k].tx.inputs[j] != *op by {
            let p = txs.lemma_key_at(k);
            assert(ss[p].1@ == t[k]);
            assert(ss[p].1@.tx.inputs[j] == t[k].tx.inputs[j]);
        }
    }
    false
}

/// The abstract values of a list of coins.
pub open spec fn coin_models(coins: Seq<CoinEntry>) -> Seq<CoinModel> {
    coins.map_values(|c: CoinEntry| c@)
}

/// `c` with the status a spending transaction of `txs` gives it.
pub open spec fn with_spent(c: CoinModel, txs: Map<Txid, TxEntryModel>) -> CoinModel {
    if spent(txs, c.outpoint) { CoinModel { status: CoinStatus::Spent, ..c } } else { c }
}

/// Marks as spent each coin that a stored transaction spends.
fn mark_spent(coins: &mut Vec<CoinEntry>, txs: &TxidMap<TxEntry>)
    requires
        txs.wf(),
    ensures
        final(coins)@.len() == old(coins)@.len(),
        forall|q: int| 0 <= q < old(coins)@.len() ==>
            (#[trigger] final(coins)@[q])@ == with_spent(old(coins)@[q]@, tx_models(*txs)),
{
    let ghost start = coins@;
    let n = coins.len();
    for q in 0..n
        invariant
            txs.wf(),
            n == start.len(),
            coins@.len() == n,
            forall|p: int| 0 <= p < q ==> (#[trigger] coins@[p])@ == with_spent(start[p]@, tx_models(*txs)),
            forall|p: int| q <= p < n ==> #[trigger] coins@[p] == start[p],
    {
        if is_spent(txs, coins[q].outpoint()) {
            let ghost before = coins@;
            let mut c = coins.remove(q);
            c.set_status(CoinStatus::Spent);
            coins.insert(q, c);
            assert forall|p: int| 0 <= p < n && p != q implies #[trigger] coins@[p] == before[p] by {}
        }
    }
}

/// The number of coins paying `script`.
fn count_coins_with(coins: &Vec<CoinEntry>, script: &Script) -> (r: usize)
    ensures
        r == count_script(coin_models(coins@), script@),
{
    let ghost cv = coin_models(coins@);
    let n = coins.len();
    let mut r: usize = 0;
    for j in 0..n
        invariant
            n == coins@.len(),
            cv == coin_models(coins@),
            r == count_script(cv.take(j as int), script@),
            r <= j,
    {
        assert(cv.take(j + 1).drop_last() =~= cv.take(j as int));
        if coins[j].script.same(script) {
            r = r + 1;
        }
    }
    assert(cv.take(n as int) =~= cv);
    r
}

/// An address entry with the status its coins give it.
pub open spec fn status_after(e: AddressEntryModel, coins: Seq<CoinModel>) -> AddressEntryModel {
    AddressEntryModel { status: status_from_coins(count_script(coins, e.script)), ..e }
}

/// Sets each watched address to not used when no coin pays it, to used
/// when one does, to reused when several do.
fn update_statuses(addrs: &mut AddressStore, coins: &Vec<CoinEntry>)
    requires
        old(addrs).wf(),
    ensures
        final(addrs).wf(),
        final(addrs).entries().len() == old(addrs).entries().len(),
        forall|i: int| 0 <= i < old(addrs).entries().len() ==>
            #[trigger] final(addrs).entries()[i] == status_after(old(addrs).entries()[i], coin_models(coins@)),
        final(addrs).recv_tip_spec() == old(addrs).recv_tip_spec(),
        final(addrs).change_tip_spec() == old(addrs).change_tip_spec(),
        final(addrs).look_ahead_spec() == old(addrs).look_ahead_spec(),
        final(addrs).derivation() == old(addrs).derivation(),
        final(addrs).watching_spec() == old(addrs).watching_spec(),
        final(addrs).events_spec() == old(addrs).events_spec(),
{
    let ghost start = addrs.entries();
    let ghost cv = coin_models(coins@);
    let n = addrs.len();
    for i in 0..n
        invariant
            addrs.wf(),
            n == start.len(),
            cv == coin_models(coins@),
            addrs.entries().len() == n,
            forall|j: int| 0 <= j < i ==> #[trigger] addrs.entries()[j] == status_after(start[j], cv),
            forall|j: int| i <= j < n ==> #[trigger] addrs.entries()[j] == start[j],
            addrs.recv_tip_spec() == old(addrs).recv_tip_spec(),
            addrs.change_tip_spec() == old(addrs).change_tip_spec(),
            addrs.look_ahead_spec() == old(addrs).look_ahead_spec(),
            addrs.derivation() == old(addrs).derivation(),
            addrs.watching_spec() == old(addrs).watching_spec(),
            addrs.events_spec() == old(addrs).events_spec(),
    {
        let k = count_coins_with(coins, &addrs.entry_at(i).script);
        let ghost before = addrs.entries();
        if k == 0 {
            addrs.set_status_at(i, AddressStatus::NotUsed);
        } else if k == 1 {
            addrs.set_status_at(i, AddressStatus::Used);
        } else {
            addrs.set_status_at(i, AddressStatus::Reused);
        }
        assert(addrs.entries()[i as int] == status_after(start[i as int], cv));
    }
}

} // verus!

verus! {

/// The scripts of the histories are pairwise distinct and each history is
/// well formed.
pub open spec fn histories_wf(h: Seq<(Script, SpkHistory)>) -> bool {
    &&& forall|i: int, j: int| 0 <= i < h.len() && 0 <= j < h.len() && i != j ==> h[i].0@ != h[j].0@
    &&& forall|i: int| 0 <= i < h.len() ==> (#[trigger] h[i]).1.wf()
}

/// The history kept for each script.
pub open spec fn histories_map(h: Seq<(Script, SpkHistory)>) -> Map<Seq<u8>, Seq<Heights>> {
    Map::new(
        |s: Seq<u8>| exists|i: int| 0 <= i < h.len() && h[i].0@ == s,
        |s: Seq<u8>| h[choose|i: int| 0 <= i < h.len() && h[i].0@ == s].1@,
    )
}

/// Every fetched transaction has its listed id and at most 2^32 outputs.
pub open spec fn update_ok(u: Seq<(Txid, Option<TxModel>, Option<u64>)>) -> bool {
    &&& update_ids_match(u)
    &&& forall|i: int| 0 <= i < u.len() ==> ((#[trigger] u[i]).1 matches Some(t) ==> t.outputs.len() <= 0x1_0000_0000)
}

/// The wallet's coins and what they are derived from: the watched
/// addresses, the stored transactions, the history of each script and the
/// updates waiting for transactions.
#[derive(Debug)]
pub struct CoinStore {
    store: Vec<CoinEntry>,
    address_store: AddressStore,
    tx_store: TxStore,
    spk_history: Vec<(Script, SpkHistory)>,
    updates: Vec<Update>,
}

impl CoinStore {
    /// The coins, in outpoint order.
    pub closed spec fn coins_spec(&self) -> Seq<CoinModel> {
        coin_models(self.store@)
    }

    /// The address store.
    pub closed spec fn addrs(&self) -> AddressStore {
        self.address_store
    }

    /// The stored transactions.
    pub closed spec fn txs(&self) -> Map<Txid, TxEntryModel> {
        self.tx_store@
    }

    /// The history of each script heard of.
    pub closed spec fn histories(&self) -> Map<Seq<u8>, Seq<Heights>> {
        histories_map(self.spk_history@)
    }

    /// The updates waiting for transactions.
    pub closed spec fn pending(&self) -> Seq<Seq<(Txid, Option<TxModel>, Option<u64>)>> {
        self.updates@.map_values(|u: Update| u.txs_view())
    }

    /// The parts are well formed; stored and fetched transactions have
    /// their ids and at most 2^32 outputs.
    pub closed spec fn wf(&self) -> bool {
        &&& self.address_store.wf()
        &&& self.tx_store.wf()
        &&& outputs_fit(self.tx_store@)
        &&& histories_wf(self.spk_history@)
        &&& forall|i: int| 0 <= i < self.updates@.len() ==> update_ok((#[trigger] self.updates@[i]).txs_view())
    }

    /// A well-formed store watches each script once, so that the laws on
    /// generated coins apply to it.
    pub proof fn lemma_scripts_unique(&self)
        requires
            self.wf(),
        ensures
            scripts_unique(self.addrs().entries()),
            self.addrs().wf(),
    {
        self.address_store.lemma_wf();
    }

    /// A store with no coin, transaction or history, over a fresh address
    /// store generated up to `recv_tip` and `change_tip`, watching
    /// `look_ahead` addresses beyond.
    pub fn new(derivator: Derivator, recv_tip: u32, change_tip: u32, look_ahead: u32) -> (r: CoinStore)
        requires
            recv_tip < 0x8000_0000,
            change_tip < 0x8000_0000,
            look_ahead <= 0x4000_0000,
        ensures
            r.wf(),
            r.coins_spec() == Seq::<CoinModel>::empty(),
            r.txs() == Map::<Txid, TxEntryModel>::empty(),
            r.histories() == Map::<Seq<u8>, Seq<Heights>>::empty(),
            r.pending() == Seq::<Seq<(Txid, Option<TxModel>, Option<u64>)>>::empty(),
            r.addrs().entries() == Seq::<AddressEntryModel>::empty(),
            r.addrs().recv_tip_spec() == recv_tip,
            r.addrs().change_tip_spec() == change_tip,
            r.addrs().look_ahead_spec() == look_ahead,
            r.addrs().derivation() == derivator@,
            !r.addrs().watching_spec(),
            r.addrs().events_spec() == Seq::<StoreEvent>::empty(),
    {
        let address_store = AddressStore::new(derivator, recv_tip, change_tip, look_ahead);
        let tx_store = TxStore::new(Vec::new());
        let r = CoinStore {
            store: Vec::new(),
            address_store,
            tx_store,
            spk_history: Vec::new(),
            updates: Vec::new(),
        };
        assert(r.coins_spec() =~= Seq::<CoinModel>::empty());
        assert(r.txs() =~= Map::<Txid, TxEntryModel>::empty());
        assert(r.histories() =~= Map::<Seq<u8>, Seq<Heights>>::empty());
        assert(r.pending() =~= Seq::<Seq<(Txid, Option<TxModel>, Option<u64>)>>::empty());
        r
    }

    /// Takes `txs` as the stored transactions when each of them has at most
    /// 2^32 outputs, and answers whether it did; otherwise the store is
    /// left as it was. Coins, addresses, histories and pending updates are
    /// kept: a call of `generate` derives the coins of the new transactions.
    pub fn load_transactions(&mut self, txs: TxStore) -> (ok: bool)
        requires
            old(self).wf(),
            txs.wf(),
        ensures
            final(self).wf(),
            ok == outputs_fit(txs@),
            ok ==> final(self).txs() == txs@,
            !ok ==> final(self).txs() == old(self).txs(),
            final(self).coins_spec() == old(self).coins_spec(),
            final(self).addrs() == old(self).addrs(),
            final(self).histories() == old(self).histories(),
            final(self).pending() == old(self).pending(),
    {
        let inner = txs.inner();
        let ghost ss = inner.seq();
        let n = inner.len();
        let mut fit = true;
        for i in 0..n
            invariant
                n == ss.len(),
                ss == inner.seq(),
                inner.wf(),
                inner@.map_values(|e: TxEntry| e@) == txs@,
                fit <==> forall|p: int| 0 <= p < i ==> (#[trigger] ss[p]).1@.tx.outputs.len() <= 0x1_0000_0000,
        {
            let entry = inner.entry_at(i);
            let tx = entry.1.tx();
            let count = tx.outputs.len();
            assert(count == ss[i as int].1@.tx.outputs.len());
            if count as u64 > 0x1_0000_0000 {
                fit = false;
            }
            assert(fit <==> forall|p: int| 0 <= p < i + 1 ==> (#[trigger] ss[p]).1@.tx.outputs.len() <= 0x1_0000_0000);
        }
        proof {
            assert forall|k: Txid| fit && #[trigger] txs@.contains_key(k) implies txs@[k].tx.outputs.len() <= 0x1_0000_0000 by {
                let p = inner.lemma_key_at(k);
                assert(ss[p].1@ == txs@[k]);
            }
            if !fit {
                let p = choose|p: int| 0 <= p < n && !((#[trigger] ss[p]).1@.tx.outputs.len() <= 0x1_0000_0000);
                lemma_seq_map_index(ss, p);
                assert(inner@.contains_key(ss[p].0));
                assert(txs@.contains_key(ss[p].0));
            }
        }
        if fit {
            self.tx_store = txs;
        }
        fit
    }

    /// Regenerates the coins from the stored transactions: one coin for
    /// each output that pays a watched address, spent when a stored
    /// transaction spends it; then sets each address used or reused after
    /// its coins, and reports the new coins.
    pub fn generate(&mut self)
        requires
            old(self).wf(),
        ensures
            final(self).wf(),
            generated_coins(final(self).coins_spec(), old(self).txs(), old(self).addrs().entries()),
            final(self).addrs().entries().len() == old(self).addrs().entries().len(),
            forall|i: int| 0 <= i < old(self).addrs().entries().len() ==> #[trigger] final(self).addrs().entries()[i]
                == status_after(old(self).addrs().entries()[i], final(self).coins_spec()),
            final(self).addrs().events_spec() == old(self).addrs().events_spec().push(StoreEvent::CoinUpdate),
            final(self).addrs().recv_tip_spec() == old(self).addrs().recv_tip_spec(),
            final(self).addrs().change_tip_spec() == old(self).addrs().change_tip_spec(),
            final(self).addrs().look_ahead_spec() == old(self).addrs().look_ahead_spec(),
            final(self).addrs().derivation() == old(self).addrs().derivation(),
            final(self).addrs().watching_spec() == old(self).addrs().watching_spec(),
            final(self).txs() == old(self).txs(),
            final(self).histories() == old(self).histories(),
            final(self).pending() == old(self).pending(),
    {
        let ghost t = self.tx_store@;
        let ghost a = self.address_store.entries();
        let inner = self.tx_store.inner();
        assert(tx_models(*inner) == t);
        let mut coins = collect_coins(inner, &self.address_store);
        let ghost collected = coins@;
        mark_spent(&mut coins, inner);
        let ghost cv = coin_models(coins@);
        assert forall|q: int| 0 <= q < cv.len() implies cv[q] == with_spent(collected[q]@, t) by {
            assert(cv[q] == coins@[q]@);
        }
        assert(sorted_outpoints(cv)) by {
            assert forall|x: int, y: int| 0 <= x < y < cv.len() implies outpoint_lt(cv[x].outpoint, cv[y].outpoint) by {
                assert(coin_models(collected)[x] == collected[x]@);
                assert(coin_models(collected)[y] == collected[y]@);
            }
        }
        assert forall|q: int| 0 <= q < cv.len() implies {
            let c = #[trigger] cv[q];
            &&& t.contains_key(c.outpoint.txid)
            &&& coin_from(c, t[c.outpoint.txid], a)
            &&& c.status == (if spent(t, c.outpoint) { CoinStatus::Spent } else { base_status(c.height) })
        } by {
            assert(coin_ok(collected[q]@, t, a));
        }
        assert forall|k: Txid, v: int| #![trigger t[k].tx.outputs[v]]
            t.contains_key(k) && 0 <= v < t[k].tx.outputs.len() && has_script(a, t[k].tx.outputs[v].1)
            implies exists|q: int| 0 <= q < cv.len() && (#[trigger] cv[q]).outpoint == (OutPoint { txid: k, vout: v as u32 }) by {
            let q = choose|q: int| 0 <= q < collected.len() && (#[trigger] collected[q])@.outpoint == (OutPoint { txid: k, vout: v as u32 });
            assert(cv[q] == with_spent(collected[q]@, t));
        }
        update_statuses(&mut self.address_store, &coins);
        self.store = coins;
        self.address_store.push_event(StoreEvent::CoinUpdate);
    }
}

} // verus!

verus! {

/// The last recorded state of the history of `spk`; empty when none is
/// recorded.
pub open spec fn last_heights(h: Map<Seq<u8>, Seq<Heights>>, spk: Seq<u8>) -> Heights {
    if h.contains_key(spk) { h[spk].last() } else { Map::empty() }
}

/// The histories once the report `nm` for `spk` is recorded: a script not
/// heard of yet starts with one empty state; the report is pushed unless
/// both it and the last state are empty.
pub open spec fn next_history(h: Map<Seq<u8>, Seq<Heights>>, spk: Seq<u8>, nm: Heights) -> Map<Seq<u8>, Seq<Heights>> {
    let cur = if h.contains_key(spk) { h[spk] } else { seq![Map::<Txid, Option<u64>>::empty()] };
    if cur.last().len() == 0 && nm.len() == 0 {
        h.insert(spk, cur)
    } else {
        h.insert(spk, cur.push(nm))
    }
}

/// The stored transactions once a history change from `prev` to `nm` is
/// applied: the removed ones are dropped, the changed ones take their new
/// height.
pub open spec fn txs_after_diff(txs: Map<Txid, TxEntryModel>, prev: Heights, nm: Heights) -> Map<Txid, TxEntryModel> {
    Map::new(
        |k: Txid| txs.contains_key(k) && !diff_removed(prev, nm).contains_key(k),
        |k: Txid| if diff_changed(prev, nm).contains_key(k) { TxEntryModel { height: nm[k], ..txs[k] } } else { txs[k] },
    )
}

/// Every transaction whose height changes between `prev` and `nm` is
/// stored.
pub open spec fn changes_known(txs: Map<Txid, TxEntryModel>, prev: Heights, nm: Heights) -> bool {
    forall|k: Txid| #[trigger] diff_changed(prev, nm).contains_key(k) ==> txs.contains_key(k)
}

/// `u` lists, in increasing id order and none of them fetched, the ids of
/// `added` with their heights.
pub open spec fn fresh_update(u: Seq<(Txid, Option<TxModel>, Option<u64>)>, added: Heights) -> bool {
    &&& forall|i: int, j: int| 0 <= i < j < u.len() ==> txid_lt(u[i].0, u[j].0)
    &&& forall|i: int| 0 <= i < u.len() ==> (#[trigger] u[i]).1 is None
    &&& forall|i: int| 0 <= i < u.len() ==> added.contains_key((#[trigger] u[i]).0) && added[u[i].0] == u[i].2
    &&& forall|k: Txid| #[trigger] added.contains_key(k) ==> exists|i: int| 0 <= i < u.len() && (#[trigger] u[i]).0 == k
}

/// In well-formed histories, the entry at `i` is the history of its script.
pub proof fn lemma_histories_at(h: Seq<(Script, SpkHistory)>, i: int)
    requires
        histories_wf(h),
        0 <= i < h.len(),
    ensures
        histories_map(h).contains_key(h[i].0@),
        histories_map(h)[h[i].0@] == h[i].1@,
{
    let m = histories_map(h);
    assert(m.dom().contains(h[i].0@));
    let j = choose|j: int| 0 <= j < h.len() && h[j].0@ == h[i].0@;
    assert(j == i);
}

/// Replacing the history at `i` by one for the same script replaces it in
/// the map.
proof fn lemma_histories_update(h: Seq<(Script, SpkHistory)>, i: int, e: (Script, SpkHistory))
    requires
        histories_wf(h),
        0 <= i < h.len(),
        e.0@ == h[i].0@,
        e.1.wf(),
    ensures
        histories_wf(h.update(i, e)),
        histories_map(h.update(i, e)) == histories_map(h).insert(e.0@, e.1@),
{
    let h2 = h.update(i, e);
    assert forall|x: int| 0 <= x < h2.len() implies (#[trigger] h2[x]).1.wf() by {
        if x != i {
            assert(h2[x] == h[x]);
        }
    }
    assert forall|x: int, y: int| 0 <= x < h2.len() && 0 <= y < h2.len() && x != y implies h2[x].0@ != h2[y].0@ by {
        assert(h[x].0@ != h[y].0@);
    }
    let m = histories_map(h).insert(e.0@, e.1@);
    let m2 = histories_map(h2);
    assert forall|s: Seq<u8>| #[trigger] m2.contains_key(s) <==> m.contains_key(s) by {
        if m2.contains_key(s) {
            let j = choose|j: int| 0 <= j < h2.len() && h2[j].0@ == s;
            if j != i {
                assert(h[j].0@ == s);
            }
        }
        if m.contains_key(s) && s != e.0@ {
            let j = choose|j: int| 0 <= j < h.len() && h[j].0@ == s;
            assert(h2[j].0@ == s);
        }
        if s == e.0@ {
            assert(h2[i].0@ == s);
        }
    }
    assert forall|s: Seq<u8>| #[trigger] m2.contains_key(s) implies m2[s] == m[s] by {
        let j = choose|j: int| 0 <= j < h2.len() && h2[j].0@ == s;
        lemma_histories_at(h2, j);
        if j != i {
            assert(h2[j] == h[j]);
            lemma_histories_at(h, j);
        }
    }
    assert(m2 =~= m);
}

/// Appending the history of a new script adds it to the map.
proof fn lemma_histories_push(h: Seq<(Script, SpkHistory)>, e: (Script, SpkHistory))
    requires
        histories_wf(h),
        forall|i: int| 0 <= i < h.len() ==> (#[trigger] h[i]).0@ != e.0@,
        e.1.wf(),
    ensures
        histories_wf(h.push(e)),
        histories_map(h.push(e)) == histories_map(h).insert(e.0@, e.1@),
{
    let h2 = h.push(e);
    let n = h.len() as int;
    assert forall|x: int| 0 <= x < h2.len() implies (#[trigger] h2[x]).1.wf() by {
        if x < n {
            assert(h2[x] == h[x]);
        }
    }
    assert forall|x: int, y: int| 0 <= x < h2.len() && 0 <= y < h2.len() && x != y implies h2[x].0@ != h2[y].0@ by {
        if x < n && y < n {
            assert(h[x].0@ != h[y].0@);
        } else if x < n {
            assert(h2[x] == h[x]);
        } else {
            assert(h2[y] == h[y]);
        }
    }
    let m = histories_map(h).insert(e.0@, e.1@);
    let m2 = histories_map(h2);
    assert forall|s: Seq<u8>| #[trigger] m2.contains_key(s) <==> m.contains_key(s) by {
        if m2.contains_key(s) {
            let j = choose|j: int| 0 <= j < h2.len() && h2[j].0@ == s;
            if j < n {
                assert(h2[j] == h[j]);
            }
        }
        if m.contains_key(s) && s != e.0@ {
            let j = choose|j: int| 0 <= j < h.len() && h[j].0@ == s;
            assert(h2[j] == h[j]);
        }
        if s == e.0@ {
            assert(h2[n].0@ == s);
        }
    }
    assert forall|s: Seq<u8>| #[trigger] m2.contains_key(s) implies m2[s] == m[s] by {
        let j = choose|j: int| 0 <= j < h2.len() && h2[j].0@ == s;
        lemma_histories_at(h2, j);
        if j < n {
            assert(h2[j] == h[j]);
            lemma_histories_at(h, j);
        }
    }
    assert(m2 =~= m);
}

impl CoinStore {
    /// The position of the history of `spk`, if one is kept.
    fn find_history(&self, spk: &Script) -> (r: Option<usize>)
        ensures
            match r {
                Some(i) => i < self.spk_history@.len() && self.spk_history@[i as int].0@ == spk@,
                None => forall|i: int| 0 <= i < self.spk_history@.len() ==> (#[trigger] self.spk_history@[i]).0@ != spk@,
            },
    {
        let n = self.spk_history.len();
        for i in 0..n
            invariant
                n == self.spk_history@.len(),
                forall|j: int| 0 <= j < i ==> (#[trigger] self.spk_history@[j]).0@ != spk@,
        {
            if self.spk_history[i].0.same(spk) {
                return Some(i);
            }
        }
        None
    }

    /// Records the transactions now reported for `spk` and returns the
    /// update listing the ones it did not have. The transactions that left
    /// the history are dropped from the store, and those whose height
    /// changed take the new height.
    pub fn update_spk_history(&mut self, spk: Script, history: Vec<(Txid, Option<u64>)>) -> (u: Update)
        requires
            old(self).wf(),
            changes_known(old(self).txs(), last_heights(old(self).histories(), spk@), pairs_to_map(history@)),
        ensures
            final(self).wf(),
            final(self).histories() == next_history(old(self).histories(), spk@, pairs_to_map(history@)),
            final(self).txs() == txs_after_diff(old(self).txs(), last_heights(old(self).histories(), spk@),
                pairs_to_map(history@)),
            u.spk_view() == spk@,
            fresh_update(u.txs_view(), diff_added(last_heights(old(self).histories(), spk@), pairs_to_map(history@))),
            update_ok(u.txs_view()),
            final(self).coins_spec() == old(self).coins_spec(),
            final(self).addrs() == old(self).addrs(),
            final(self).pending() == old(self).pending(),
    {
        let ghost nm = pairs_to_map(history@);
        let ghost hs = old(self).histories();
        let ghost prev = last_heights(hs, spk@);
        let ghost t0 = self.tx_store@;
        let diff = match self.find_history(&spk) {
            Some(idx) => {
                proof { lemma_histories_at(self.spk_history@, idx as int); }
                let ghost h0 = self.spk_history@;
                let (s, mut h) = self.spk_history.remove(idx);
                let diff = h.insert(history);
                let ghost e = (s, h);
                self.spk_history.insert(idx, (s, h));
                proof {
                    assert(self.spk_history@ =~= h0.update(idx as int, e));
                    lemma_histories_update(h0, idx as int, e);
                }
                diff
            },
            None => {
                let mut h = SpkHistory::new();
                let diff = h.insert(history);
                let ghost h0 = self.spk_history@;
                self.spk_history.push((spk.duplicate(), h));
                proof {
                    lemma_histories_push(h0, self.spk_history@[h0.len() as int]);
                    assert(!hs.contains_key(spk@));
                }
                diff
            },
        };
        assert(self.histories() == next_history(hs, spk@, nm));
        let ghost hist1 = self.spk_history@;
        let ghost upd0 = self.updates@;
        let ghost store0 = self.store@;
        let ghost as0 = self.address_store;
        // drop what left the history
        let ghost rs = diff.removed.seq();
        let nr = diff.removed.len();
        for j in 0..nr
            invariant
                nr == rs.len(),
                rs == diff.removed.seq(),
                diff.wf(),
                self.tx_store.wf(),
                self.tx_store@ == t0.remove_keys(seq_map(rs.take(j as int)).dom()),
                self.spk_history@ == hist1,
                self.updates@ == upd0,
                self.store@ == store0,
                self.address_store == as0,
        {
            proof {
                if j == 0 {
                    lemma_seq_map_full(rs);
                    assert(t0.remove_keys(Set::empty()) =~= t0);
                }
                lemma_seq_map_take(rs, j as int);
            }
            let e = diff.removed.entry_at(j);
            self.tx_store.remove(&e.0);
            assert(self.tx_store@ =~= t0.remove_keys(seq_map(rs.take(j + 1)).dom()));
        }
        proof { lemma_seq_map_full(rs); }
        let ghost t1 = self.tx_store@;
        assert(t1 == t0.remove_keys(diff_removed(prev, nm).dom()));
        // set the new heights
        let ghost cs = diff.changed.seq();
        let nc = diff.changed.len();
        for j in 0..nc
            invariant
                nc == cs.len(),
                cs == diff.changed.seq(),
                diff.wf(),
                diff.changed@ == diff_changed(prev, nm),
                diff.removed@ == diff_removed(prev, nm),
                changes_known(t0, prev, nm),
                t1 == t0.remove_keys(diff_removed(prev, nm).dom()),
                self.spk_history@ == hist1,
                self.updates@ == upd0,
                self.store@ == store0,
                self.address_store == as0,
                self.tx_store.wf(),
                self.tx_store@ == Map::new(
                    |k: Txid| t1.contains_key(k),
                    |k: Txid| if seq_map(cs.take(j as int)).contains_key(k) {
                        TxEntryModel { height: nm[k], ..t1[k] }
                    } else {
                        t1[k]
                    },
                ),
        {
            proof {
                if j == 0 {
                    lemma_seq_map_full(cs);
                }
                lemma_seq_map_take(cs, j as int);
            }
            let e = diff.changed.entry_at(j);
            let k = e.0;
            assert(diff_changed(prev, nm).contains_key(k));
            assert(t1.contains_key(k));
            self.tx_store.update_height(&k, e.1);
            assert(self.tx_store@ =~= Map::new(
                |k: Txid| t1.contains_key(k),
                |k: Txid| if seq_map(cs.take(j + 1)).contains_key(k) {
                    TxEntryModel { height: nm[k], ..t1[k] }
                } else {
                    t1[k]
                },
            ));
        }
        proof { lemma_seq_map_full(cs); }
        assert(self.tx_store@ =~= txs_after_diff(t0, prev, nm));
        assert(outputs_fit(self.tx_store@)) by {
            assert forall|k: Txid| #[trigger] self.tx_store@.contains_key(k) implies self.tx_store@[k].tx.outputs.len() <= 0x1_0000_0000 by {
                assert(t0.contains_key(k));
            }
        }
        let ghost added = diff.added@;
        let ghost aseq = diff.added.seq();
        let u = Update::from_diff(spk, diff);
        proof {
            let uv = u.txs_view();
            assert forall|i: int| 0 <= i < uv.len() implies added.contains_key((#[trigger] uv[i]).0) && added[uv[i].0] == uv[i].2 by {
                lemma_seq_map_index(aseq, i);
            }
            assert forall|k: Txid| #[trigger] added.contains_key(k) implies exists|i: int| 0 <= i < uv.len() && (#[trigger] uv[i]).0 == k by {
                let i = key_index(aseq, k);
                lemma_seq_map_index(aseq, i);
                assert(uv[i].0 == k);
            }
            assert forall|i: int, j: int| 0 <= i < j < uv.len() implies txid_lt(uv[i].0, uv[j].0) by {
                assert(sorted_keys(aseq));
            }
            assert forall|i: int| 0 <= i < uv.len() implies (#[trigger] uv[i]).1 is None by {}
        }
        u
    }
}

} // verus!

verus! {

/// An update entry: a transaction id, the transaction once fetched, its
/// height.
pub type UpdateEntry = (Txid, Option<TxModel>, Option<u64>);

/// The first transaction of `ts` with the id `k`.
pub open spec fn first_with_id(ts: Seq<TxModel>, k: Txid) -> Option<TxModel>
    decreases ts.len(),
{
    if ts.len() == 0 {
        None
    } else {
        match first_with_id(ts.drop_last(), k) {
            Some(t) => Some(t),
            None => if ts.last().txid == k { Some(ts.last()) } else { None },
        }
    }
}

/// An entry still waiting takes the first transaction of `ts` with its id.
pub open spec fn fill_entry(e: UpdateEntry, ts: Seq<TxModel>) -> UpdateEntry {
    if e.1 is None {
        (e.0, first_with_id(ts, e.0), e.2)
    } else {
        e
    }
}

/// The update with each waiting entry filled from `ts`.
pub open spec fn fill_update(u: Seq<UpdateEntry>, ts: Seq<TxModel>) -> Seq<UpdateEntry> {
    u.map_values(|e: UpdateEntry| fill_entry(e, ts))
}

/// Every transaction of the update has been fetched.
pub open spec fn all_fetched(u: Seq<UpdateEntry>) -> bool {
    forall|i: int| 0 <= i < u.len() ==> (#[trigger] u[i]).1 is Some
}

/// The complete updates of `us`, in order.
pub open spec fn complete_of(us: Seq<Seq<UpdateEntry>>) -> Seq<Seq<UpdateEntry>>
    decreases us.len(),
{
    if us.len() == 0 {
        Seq::empty()
    } else if all_fetched(us.last()) {
        complete_of(us.drop_last()).push(us.last())
    } else {
        complete_of(us.drop_last())
    }
}

/// The updates of `us` still waiting for a transaction, in order.
pub open spec fn incomplete_of(us: Seq<Seq<UpdateEntry>>) -> Seq<Seq<UpdateEntry>>
    decreases us.len(),
{
    if us.len() == 0 {
        Seq::empty()
    } else if all_fetched(us.last()) {
        incomplete_of(us.drop_last())
    } else {
        incomplete_of(us.drop_last()).push(us.last())
    }
}

/// The abstract values of a list of transactions.
pub open spec fn tx_list(ts: Seq<Transaction>) -> Seq<TxModel> {
    ts.map_values(|t: Transaction| t@)
}

impl Update {
    /// An update is complete exactly when its abstract list is.
    pub proof fn lemma_complete(&self)
        ensures
            self.complete() <==> all_fetched(self.txs_view()),
    {
        let v = self.txs_view();
        if self.complete() {
            assert forall|i: int| 0 <= i < v.len() implies (#[trigger] v[i]).1 is Some by {
                assert(self.txs@[i].1 is Some);
            }
        }
        if all_fetched(v) {
            assert forall|i: int| 0 <= i < self.txs@.len() implies (#[trigger] self.txs@[i]).1 is Some by {
                assert(v[i].1 is Some);
            }
        }
    }
}

/// The first transaction of `txs` with the id `k`, copied.
fn find_first_tx(txs: &Vec<Transaction>, k: &Txid) -> (r: Option<Transaction>)
    ensures
        match r {
            Some(t) => first_with_id(tx_list(txs@), *k) == Some(t@),
            None => first_with_id(tx_list(txs@), *k) is None,
        },
{
    let ghost ts = tx_list(txs@);
    let n = txs.len();
    for j in 0..n
        invariant
            n == txs@.len(),
            ts == tx_list(txs@),
            first_with_id(ts.take(j as int), *k) is None,
    {
        assert(ts.take(j + 1).drop_last() =~= ts.take(j as int));
        if txs[j].txid.same(k) {
            assert(first_with_id(ts.take(j + 1), *k) == Some(txs@[j as int]@));
            proof { lemma_first_prefix(ts, j + 1, *k); }
            return Some(txs[j].duplicate());
        }
    }
    assert(ts.take(n as int) =~= ts);
    None
}

/// A match in a prefix is the first match of the whole list.
proof fn lemma_first_prefix(ts: Seq<TxModel>, j: int, k: Txid)
    requires
        0 <= j <= ts.len(),
        first_with_id(ts.take(j), k) is Some,
    ensures
        first_with_id(ts, k) == first_with_id(ts.take(j), k),
    decreases ts.len() - j,
{
    if j < ts.len() {
        assert(ts.take(j + 1).drop_last() =~= ts.take(j));
        lemma_first_prefix(ts, j + 1, k);
    } else {
        assert(ts.take(j) =~= ts);
    }
}

/// Fills each waiting entry of `u` with the first transaction of `txs`
/// that has its id.
fn fill_from(u: Update, txs: &Vec<Transaction>) -> (r: Update)
    requires
        update_ok(u.txs_view()),
        forall|i: int| 0 <= i < txs@.len() ==> (#[trigger] txs@[i]).outputs@.len() <= 0x1_0000_0000,
    ensures
        r.txs_view() == fill_update(u.txs_view(), tx_list(txs@)),
        r.spk_view() == u.spk_view(),
        update_ok(r.txs_view()),
{
    let ghost uv = u.txs_view();
    let ghost ts = tx_list(txs@);
    let Update { spk, txs: entries } = u;
    let mut entries = entries;
    let mut out: Vec<(Txid, Option<Transaction>, Option<u64>)> = Vec::new();
    let ghost total = entries@.len();
    assert(entries.len() == total);
    let mut k: usize = 0;
    while entries.len() > 0
        invariant
            k + entries@.len() == total,
            total == uv.len(),
            total <= usize::MAX,
            ts == tx_list(txs@),
            update_ok(uv),
            forall|i: int| 0 <= i < txs@.len() ==> (#[trigger] txs@[i]).outputs@.len() <= 0x1_0000_0000,
            forall|j: int| 0 <= j < entries@.len() ==> update_txs_model(entries@)[j] == uv[k + j],
            out@.len() == k,
            forall|j: int| 0 <= j < k ==> #[trigger] update_txs_model(out@)[j] == fill_entry(uv[j], ts),
        decreases entries@.len(),
    {
        assert(update_txs_model(entries@)[0] == uv[k as int]);
        let ghost before = entries@;
        let (txid, tx, height) = entries.remove(0);
        proof {
            assert forall|j: int| 0 <= j < entries@.len() implies update_txs_model(entries@)[j] == uv[k + 1 + j] by {
                assert(entries@[j] == before[j + 1]);
                assert(update_txs_model(before)[j + 1] == uv[k + 1 + j]);
            }
        }
        let filled = match tx {
            Some(t) => Some(t),
            None => find_first_tx(txs, &txid),
        };
        let ghost prev_out = out@;
        out.push((txid, filled, height));
        proof {
            assert forall|j: int| 0 <= j < k + 1 implies #[trigger] update_txs_model(out@)[j] == fill_entry(uv[j], ts) by {
                if j < k {
                    assert(out@[j] == prev_out[j]);
                    assert(update_txs_model(prev_out)[j] == fill_entry(uv[j], ts));
                }
            }
        }
        k = k + 1;
    }
    let r = Update { spk, txs: out };
    assert(r.txs_view() =~= fill_update(uv, ts));
    proof {
        let rv = r.txs_view();
        assert forall|i: int| 0 <= i < rv.len() implies ((#[trigger] rv[i]).1 matches Some(t) ==> t.txid == rv[i].0) by {
            if uv[i].1 is None {
                lemma_first_has_id(ts, uv[i].0);
            }
        }
        assert forall|i: int| 0 <= i < rv.len() implies ((#[trigger] rv[i]).1 matches Some(t) ==> t.outputs.len() <= 0x1_0000_0000) by {
            if uv[i].1 is None {
                lemma_first_has_id(ts, uv[i].0);
                if first_with_id(ts, uv[i].0) is Some {
                    let p = lemma_first_in(ts, uv[i].0);
                    assert(ts[p] == txs@[p]@);
                }
            }
        }
    }
    r
}

/// The first match carries the id searched for.
proof fn lemma_first_has_id(ts: Seq<TxModel>, k: Txid)
    ensures
        first_with_id(ts, k) matches Some(t) ==> t.txid == k,
    decreases ts.len(),
{
    if ts.len() > 0 {
        lemma_first_has_id(ts.drop_last(), k);
    }
}

/// The first match is an element of the list.
proof fn lemma_first_in(ts: Seq<TxModel>, k: Txid) -> (p: int)
    requires
        first_with_id(ts, k) is Some,
    ensures
        0 <= p < ts.len(),
        first_with_id(ts, k) == Some(ts[p]),
    decreases ts.len(),
{
    if first_with_id(ts.drop_last(), k) is Some {
        let p = lemma_first_in(ts.drop_last(), k);
        p
    } else {
        (ts.len() - 1) as int
    }
}

} // verus!

verus! {

/// The abstract lists of a list of updates.
pub open spec fn update_views(us: Seq<Update>) -> Seq<Seq<UpdateEntry>> {
    us.map_values(|u: Update| u.txs_view())
}

/// Storing the transactions of a complete update keeps every stored
/// transaction within 2^32 outputs.
proof fn lemma_triples_fit(m: Map<Txid, TxEntryModel>, u: Seq<UpdateEntry>)
    requires
        outputs_fit(m),
        all_fetched(u),
        update_ok(u),
    ensures
        outputs_fit(insert_tx_triples(m, u)),
    decreases u.len(),
{
    if u.len() > 0 {
        let d = u.drop_last();
        assert forall|i: int| 0 <= i < d.len() implies (#[trigger] d[i]).1 is Some by {
            assert(d[i] == u[i]);
        }
        assert forall|i: int| 0 <= i < d.len() implies ((#[trigger] d[i]).1 matches Some(t) ==> t.txid == d[i].0) by {
            assert(d[i] == u[i]);
        }
        assert forall|i: int| 0 <= i < d.len() implies ((#[trigger] d[i]).1 matches Some(t) ==> t.outputs.len() <= 0x1_0000_0000) by {
            assert(d[i] == u[i]);
        }
        lemma_triples_fit(m, d);
        assert(u[u.len() - 1].1 is Some);
    }
}

/// Stores the transactions of the complete updates, in order, and returns
/// the others, in order.
fn settle_updates(store: &mut TxStore, updates: Vec<Update>) -> (kept: Vec<Update>)
    requires
        old(store).wf(),
        outputs_fit(old(store)@),
        forall|i: int| 0 <= i < updates@.len() ==> update_ok((#[trigger] updates@[i]).txs_view()),
    ensures
        final(store).wf(),
        outputs_fit(final(store)@),
        final(store)@ == insert_updates_spec(old(store)@, complete_of(update_views(updates@))),
        update_views(kept@) == incomplete_of(update_views(updates@)),
        forall|i: int| 0 <= i < kept@.len() ==> update_ok((#[trigger] kept@[i]).txs_view()),
{
    let ghost us = update_views(updates@);
    let ghost t0 = store@;
    let mut updates = updates;
    let mut kept: Vec<Update> = Vec::new();
    let ghost total = updates@.len();
    assert(updates.len() == total);
    let mut k: usize = 0;
    assert(us.take(0) =~= Seq::<Seq<UpdateEntry>>::empty());
    assert(update_views(kept@) =~= Seq::<Seq<UpdateEntry>>::empty());
    while updates.len() > 0
        invariant
            k + updates@.len() == total,
            total <= usize::MAX,
            us.len() == total,
            forall|j: int| 0 <= j < updates@.len() ==> (#[trigger] updates@[j]).txs_view() == us[k + j],
            forall|j: int| 0 <= j < updates@.len() ==> update_ok((#[trigger] updates@[j]).txs_view()),
            store.wf(),
            outputs_fit(store@),
            store@ == insert_updates_spec(t0, complete_of(us.take(k as int))),
            update_views(kept@) == incomplete_of(us.take(k as int)),
            forall|i: int| 0 <= i < kept@.len() ==> update_ok((#[trigger] kept@[i]).txs_view()),
        decreases updates@.len(),
    {
        let ghost before = updates@;
        let u = updates.remove(0);
        assert forall|j: int| 0 <= j < updates@.len() implies (#[trigger] updates@[j]).txs_view() == us[k + 1 + j]
            && update_ok(updates@[j].txs_view()) by {
            assert(updates@[j] == before[j + 1]);
        }
        assert(u.txs_view() == us[k as int]);
        assert(us.take(k + 1).drop_last() =~= us.take(k as int));
        assert(us.take(k + 1).last() == us[k as int]);
        proof { u.lemma_complete(); }
        if u.is_complete() {
            let ghost uv = u.txs_view();
            let ghost s0 = store@;
            let mut one: Vec<Update> = Vec::new();
            one.push(u);
            store.insert_updates(one);
            proof {
                let one_v = seq![uv];
                assert(update_views(one@) =~= one_v);
                assert(one_v.drop_last() =~= Seq::<Seq<UpdateEntry>>::empty());
                assert(one_v.last() == uv);
                assert(insert_updates_spec(s0, one_v.drop_last()) == s0);
                assert(insert_updates_spec(s0, one_v) == insert_tx_triples(s0, uv));
                assert(store@ == insert_tx_triples(s0, uv));
                lemma_triples_fit(s0, uv);
                let c = complete_of(us.take(k as int));
                assert(complete_of(us.take(k + 1)) == c.push(uv));
                assert(c.push(uv).drop_last() =~= c);
            }
        } else {
            let ghost kv = update_views(kept@);
            kept.push(u);
            assert(update_views(kept@) =~= kv.push(us[k as int]));
        }
        k = k + 1;
    }
    assert(us.take(k as int) =~= us);
    kept
}

impl CoinStore {
    /// Takes in fetched transactions: each waiting entry takes the first
    /// of them with its id; the updates now complete are stored, in order,
    /// and the others wait on; then the coins are regenerated.
    pub fn handle_txs_response(&mut self, txs: Vec<Transaction>)
        requires
            old(self).wf(),
            forall|i: int| 0 <= i < txs@.len() ==> (#[trigger] txs@[i]).outputs@.len() <= 0x1_0000_0000,
        ensures
            final(self).wf(),
            final(self).txs() == insert_updates_spec(old(self).txs(),
                complete_of(old(self).pending().map_values(|u: Seq<UpdateEntry>| fill_update(u, tx_list(txs@))))),
            final(self).pending() == incomplete_of(
                old(self).pending().map_values(|u: Seq<UpdateEntry>| fill_update(u, tx_list(txs@)))),
            generated_coins(final(self).coins_spec(), final(self).txs(), old(self).addrs().entries()),
            final(self).addrs().entries().len() == old(self).addrs().entries().len(),
            forall|i: int| 0 <= i < old(self).addrs().entries().len() ==> #[trigger] final(self).addrs().entries()[i]
                == status_after(old(self).addrs().entries()[i], final(self).coins_spec()),
            final(self).addrs().events_spec() == old(self).addrs().events_spec().push(StoreEvent::CoinUpdate),
            final(self).addrs().recv_tip_spec() == old(self).addrs().recv_tip_spec(),
            final(self).addrs().change_tip_spec() == old(self).addrs().change_tip_spec(),
            final(self).addrs().look_ahead_spec() == old(self).addrs().look_ahead_spec(),
            final(self).addrs().derivation() == old(self).addrs().derivation(),
            final(self).addrs().watching_spec() == old(self).addrs().watching_spec(),
            final(self).histories() == old(self).histories(),
    {
        let ghost ts = tx_list(txs@);
        let ghost p0 = self.pending();
        let ghost filled_all = p0.map_values(|u: Seq<UpdateEntry>| fill_update(u, ts));
        let mut waiting: Vec<Update> = Vec::new();
        std::mem::swap(&mut waiting, &mut self.updates);
        assert(update_views(waiting@) == p0);
        let mut filled: Vec<Update> = Vec::new();
        let ghost total = waiting@.len();
        assert(waiting.len() == total);
        let mut k: usize = 0;
        while waiting.len() > 0
            invariant
                k + waiting@.len() == total,
                total <= usize::MAX,
                p0.len() == total,
                ts == tx_list(txs@),
                forall|i: int| 0 <= i < txs@.len() ==> (#[trigger] txs@[i]).outputs@.len() <= 0x1_0000_0000,
                forall|j: int| 0 <= j < waiting@.len() ==> (#[trigger] waiting@[j]).txs_view() == p0[k + j],
                forall|j: int| 0 <= j < waiting@.len() ==> update_ok((#[trigger] waiting@[j]).txs_view()),
                filled@.len() == k,
                forall|j: int| 0 <= j < k ==> (#[trigger] filled@[j]).txs_view() == fill_update(p0[j], ts),
                forall|j: int| 0 <= j < k ==> update_ok((#[trigger] filled@[j]).txs_view()),
            decreases waiting@.len(),
        {
            let ghost before = waiting@;
            let u = waiting.remove(0);
            assert forall|j: int| 0 <= j < waiting@.len() implies (#[trigger] waiting@[j]).txs_view() == p0[k + 1 + j]
                && update_ok(waiting@[j].txs_view()) by {
                assert(waiting@[j] == before[j + 1]);
            }
            let f = fill_from(u, &txs);
            filled.push(f);
            k = k + 1;
        }
        assert(update_views(filled@) =~= filled_all);
        let kept = settle_updates(&mut self.tx_store, filled);
        self.updates = kept;
        assert(self.pending() == update_views(self.updates@));
        self.generate();
    }
}

} // verus!

verus! {

/// The histories of the scripts and the stored transactions, as they evolve
/// under history reports.
pub struct HistState {
    pub hs: Map<Seq<u8>, Seq<Heights>>,
    pub txs: Map<Txid, TxEntryModel>,
}

/// The state once the report `it` for one script is recorded.
pub open spec fn hist_step(s: HistState, it: (Seq<u8>, Heights)) -> HistState {
    HistState {
        hs: next_history(s.hs, it.0, it.1),
        txs: txs_after_diff(s.txs, last_heights(s.hs, it.0), it.1),
    }
}

/// The state once the reports `items` are recorded in order.
pub open spec fn hist_run(s: HistState, items: Seq<(Seq<u8>, Heights)>) -> HistState
    decreases items.len(),
{
    if items.len() == 0 {
        s
    } else {
        hist_step(hist_run(s, items.drop_last()), items.last())
    }
}

/// Each report, recorded in its turn, changes the height only of stored
/// transactions.
pub open spec fn history_changes_known(s: HistState, items: Seq<(Seq<u8>, Heights)>) -> bool {
    forall|i: int| #![trigger items[i]] 0 <= i < items.len() ==> {
        let st = hist_run(s, items.take(i));
        changes_known(st.txs, last_heights(st.hs, items[i].0), items[i].1)
    }
}

/// The ids that the report `i` adds to the history of its script.
pub open spec fn added_at(s: HistState, items: Seq<(Seq<u8>, Heights)>, i: int) -> Heights {
    let st = hist_run(s, items.take(i));
    diff_added(last_heights(st.hs, items[i].0), items[i].1)
}

/// A history report as scripts and maps of heights.
pub open spec fn hist_items(h: Seq<(Script, Vec<(Txid, Option<u64>)>)>) -> Seq<(Seq<u8>, Heights)> {
    h.map_values(|e: (Script, Vec<(Txid, Option<u64>)>)| (e.0@, pairs_to_map(e.1@)))
}

/// The update with each entry already stored taking its stored
/// transaction.
pub open spec fn prefill(u: Seq<UpdateEntry>, txs: Map<Txid, TxEntryModel>) -> Seq<UpdateEntry> {
    u.map_values(|e: UpdateEntry| if txs.contains_key(e.0) { (e.0, Some(txs[e.0].tx), e.2) } else { e })
}

/// The missing ids of the updates, update after update.
pub open spec fn all_missing(us: Seq<Seq<UpdateEntry>>) -> Seq<Txid>
    decreases us.len(),
{
    if us.len() == 0 {
        Seq::empty()
    } else {
        all_missing(us.drop_last()) + missing_ids(us.last())
    }
}

/// The tips once a coin is seen on the address `e`.
pub open spec fn tips_step(t: (u32, u32), e: AddressEntryModel) -> (u32, u32) {
    match e.account {
        AddrAccount::Receive => (if e.index > t.0 { e.index } else { t.0 }, t.1),
        AddrAccount::Change => (t.0, if e.index > t.1 { e.index } else { t.1 }),
    }
}

/// The tips once coins are seen, in order, on the scripts `spks` watched by
/// `a`.
pub open spec fn tips_run(t: (u32, u32), a: Seq<AddressEntryModel>, spks: Seq<Seq<u8>>) -> (u32, u32)
    decreases spks.len(),
{
    if spks.len() == 0 {
        t
    } else {
        tips_step(tips_run(t, a, spks.drop_last()), entry_for(a, spks.last()))
    }
}

/// The tips never go down: recording coins on watched addresses leaves each
/// tip at least where it was, and at least at the index of each address a
/// coin was seen on, on its branch.
pub proof fn law_tips_never_decrease(t: (u32, u32), a: Seq<AddressEntryModel>, spks: Seq<Seq<u8>>)
    ensures
        tips_run(t, a, spks).0 >= t.0,
        tips_run(t, a, spks).1 >= t.1,
        forall|i: int| 0 <= i < spks.len() ==> {
            let e = entry_for(a, #[trigger] spks[i]);
            match e.account {
                AddrAccount::Receive => tips_run(t, a, spks).0 >= e.index,
                AddrAccount::Change => tips_run(t, a, spks).1 >= e.index,
            }
        },
    decreases spks.len(),
{
    if spks.len() > 0 {
        law_tips_never_decrease(t, a, spks.drop_last());
        assert forall|i: int| 0 <= i < spks.len() implies {
            let e = entry_for(a, #[trigger] spks[i]);
            match e.account {
                AddrAccount::Receive => tips_run(t, a, spks).0 >= e.index,
                AddrAccount::Change => tips_run(t, a, spks).1 >= e.index,
            }
        } by {
            if i < spks.len() - 1 {
                assert(spks[i] == spks.drop_last()[i]);
            }
        }
    }
}

/// The last state of `spk` once the reports of `items` before position `i`
/// are recorded over the histories `h0`.
pub open spec fn heights_before(h0: Map<Seq<u8>, Seq<Heights>>, items: Seq<(Seq<u8>, Heights)>, i: int, spk: Seq<u8>) -> Heights
    decreases i,
{
    if i <= 0 {
        last_heights(h0, spk)
    } else {
        let prev = heights_before(h0, items, i - 1, spk);
        if items[i - 1].0 == spk {
            if prev.len() == 0 && items[i - 1].1.len() == 0 {
                prev
            } else {
                items[i - 1].1
            }
        } else {
            prev
        }
    }
}

/// Whether the transaction `k` is still stored once the reports of `items`
/// before position `i` are recorded.
pub open spec fn stored_before(s0: HistState, items: Seq<(Seq<u8>, Heights)>, i: int, k: Txid) -> bool
    decreases i,
{
    if i <= 0 {
        s0.txs.contains_key(k)
    } else {
        stored_before(s0, items, i - 1, k)
            && !diff_removed(heights_before(s0.hs, items, i - 1, items[i - 1].0), items[i - 1].1).contains_key(k)
    }
}

/// Recording the reports before position `i` leaves each script at the
/// state `heights_before` says, and keeps the transactions `stored_before`
/// says.
proof fn lemma_hist_run_before(s0: HistState, items: Seq<(Seq<u8>, Heights)>, i: int)
    requires
        0 <= i <= items.len(),
    ensures
        forall|spk: Seq<u8>| last_heights(hist_run(s0, items.take(i)).hs, spk) == #[trigger] heights_before(s0.hs, items, i, spk),
        forall|k: Txid| #[trigger] hist_run(s0, items.take(i)).txs.contains_key(k) == stored_before(s0, items, i, k),
    decreases i,
{
    if i == 0 {
        assert(items.take(0) =~= Seq::<(Seq<u8>, Heights)>::empty());
    } else {
        lemma_hist_run_before(s0, items, i - 1);
        assert(items.take(i).drop_last() =~= items.take(i - 1));
        assert(items.take(i).last() == items[i - 1]);
        let st = hist_run(s0, items.take(i - 1));
        let it = items[i - 1];
        assert(hist_run(s0, items.take(i)) == hist_step(st, it));
        assert forall|spk: Seq<u8>| last_heights(hist_run(s0, items.take(i)).hs, spk) == #[trigger] heights_before(s0.hs, items, i, spk) by {
            let cur = if st.hs.contains_key(it.0) { st.hs[it.0] } else { seq![Map::<Txid, Option<u64>>::empty()] };
            assert(cur.last() == last_heights(st.hs, it.0));
            assert(last_heights(st.hs, spk) == heights_before(s0.hs, items, i - 1, spk));
            assert(last_heights(st.hs, it.0) == heights_before(s0.hs, items, i - 1, it.0));
        }
        assert forall|k: Txid| #[trigger] hist_run(s0, items.take(i)).txs.contains_key(k) == stored_before(s0, items, i, k) by {
            assert(st.txs.contains_key(k) == stored_before(s0, items, i - 1, k));
            assert(last_heights(st.hs, it.0) == heights_before(s0.hs, items, i - 1, it.0));
        }
    }
}

/// The map of the pairs of a report, a later pair replacing an earlier one.
fn report_map(v: &Vec<(Txid, Option<u64>)>) -> (r: TxidMap<Option<u64>>)
    ensures
        r.wf(),
        r@ == pairs_to_map(v@),
{
    let mut m: TxidMap<Option<u64>> = TxidMap::new();
    let n = v.len();
    for i in 0..n
        invariant
            n == v@.len(),
            m.wf(),
            m@ == pairs_to_map(v@.take(i as int)),
    {
        let e = v[i];
        m.insert(e.0, e.1);
        assert(v@.take(i + 1).drop_last() =~= v@.take(i as int));
    }
    assert(v@.take(n as int) =~= v@);
    m
}

/// Whether `k` is listed in `v`.
fn txid_listed(v: &Vec<Txid>, k: &Txid) -> (r: bool)
    ensures
        r == v@.contains(*k),
{
    let n = v.len();
    for i in 0..n
        invariant
            n == v@.len(),
            forall|j: int| 0 <= j < i ==> v@[j] != *k,
    {
        if v[i].same(k) {
            assert(v@[i as int] == *k);
            return true;
        }
    }
    false
}

/// Whether two heights are the same.
fn same_height(a: Option<u64>, b: Option<u64>) -> (r: bool)
    ensures
        r == (a == b),
{
    match (a, b) {
        (Some(x), Some(y)) => x == y,
        (None, None) => true,
        _ => false,
    }
}

/// Lists in `removed` the ids that `prev` holds and `nm` does not.
fn record_removed(prev: &TxidMap<Option<u64>>, nm: &TxidMap<Option<u64>>, removed: &mut Vec<Txid>)
    requires
        prev.wf(),
        nm.wf(),
    ensures
        forall|k: Txid| #[trigger] final(removed)@.contains(k) == (old(removed)@.contains(k) || diff_removed(prev@, nm@).contains_key(k)),
{
    let ghost start = removed@;
    let ghost ps = prev.seq();
    let n = prev.len();
    for q in 0..n
        invariant
            n == ps.len(),
            ps == prev.seq(),
            prev.wf(),
            nm.wf(),
            forall|k: Txid| #[trigger] removed@.contains(k) == (start.contains(k)
                || exists|j: int| 0 <= j < q && (#[trigger] ps[j]).0 == k && !nm@.contains_key(k)),
    {
        let e = prev.entry_at(q);
        let ghost before = removed@;
        if !nm.contains(&e.0) {
            removed.push(e.0);
            assert forall|k: Txid| #[trigger] removed@.contains(k) == (start.contains(k)
                || exists|j: int| 0 <= j < q + 1 && (#[trigger] ps[j]).0 == k && !nm@.contains_key(k)) by {
                if removed@.contains(k) && !before.contains(k) {
                    assert(k == e.0);
                    assert(ps[q as int].0 == k);
                }
                if exists|j: int| 0 <= j < q + 1 && (#[trigger] ps[j]).0 == k && !nm@.contains_key(k) {
                    let j = choose|j: int| 0 <= j < q + 1 && (#[trigger] ps[j]).0 == k && !nm@.contains_key(k);
                    if j == q {
                        assert(removed@[removed@.len() - 1] == k);
                    } else {
                        assert(before.contains(k));
                        let x = choose|x: int| 0 <= x < before.len() && before[x] == k;
                        assert(removed@[x] == k);
                    }
                }
                if before.contains(k) {
                    let x = choose|x: int| 0 <= x < before.len() && before[x] == k;
                    assert(removed@[x] == k);
                }
            }
        } else {
            assert forall|k: Txid| #[trigger] removed@.contains(k) == (start.contains(k)
                || exists|j: int| 0 <= j < q + 1 && (#[trigger] ps[j]).0 == k && !nm@.contains_key(k)) by {
                if exists|j: int| 0 <= j < q + 1 && (#[trigger] ps[j]).0 == k && !nm@.contains_key(k) {
                    let j = choose|j: int| 0 <= j < q + 1 && (#[trigger] ps[j]).0 == k && !nm@.contains_key(k);
                    assert(j != q);
                }
            }
        }
    }
    assert forall|k: Txid| #[trigger] removed@.contains(k) == (start.contains(k) || diff_removed(prev@, nm@).contains_key(k)) by {
        if prev@.contains_key(k) && !nm@.contains_key(k) {
            let j = prev.lemma_key_at(k);
            assert(ps[j].0 == k);
        }
        if exists|j: int| 0 <= j < n && (#[trigger] ps[j]).0 == k && !nm@.contains_key(k) {
            let j = choose|j: int| 0 <= j < n && (#[trigger] ps[j]).0 == k && !nm@.contains_key(k);
            lemma_seq_map_index(ps, j);
        }
    }
}

impl CoinStore {
    /// Whether each id whose height changes from `prev` to `nm` is stored
    /// and not in `removed`.
    fn changes_stored(&self, prev: &TxidMap<Option<u64>>, nm: &TxidMap<Option<u64>>, removed: &Vec<Txid>) -> (r: bool)
        requires
            self.wf(),
            prev.wf(),
            nm.wf(),
        ensures
            r == forall|k: Txid| #[trigger] diff_changed(prev@, nm@).contains_key(k)
                ==> (self.txs().contains_key(k) && !removed@.contains(k)),
    {
        let ghost ns = nm.seq();
        let inner = self.tx_store.inner();
        assert(inner@.map_values(|e: TxEntry| e@) == self.txs());
        let n = nm.len();
        for q in 0..n
            invariant
                n == ns.len(),
                ns == nm.seq(),
                nm.wf(),
                prev.wf(),
                inner.wf(),
                inner@.map_values(|e: TxEntry| e@) == self.txs(),
                forall|j: int| 0 <= j < q && #[trigger] diff_changed(prev@, nm@).contains_key(ns[j].0)
                    ==> (self.txs().contains_key(ns[j].0) && !removed@.contains(ns[j].0)),
        {
            let e = nm.entry_at(q);
            let changed = match prev.get(&e.0) {
                Some(ph) => !same_height(*ph, e.1),
                None => false,
            };
            assert(changed == diff_changed(prev@, nm@).contains_key(e.0));
            if changed {
                let known = inner.contains(&e.0);
                assert(known == self.txs().contains_key(e.0));
                if !known || txid_listed(removed, &e.0) {
                    return false;
                }
            }
        }
        assert forall|k: Txid| #[trigger] diff_changed(prev@, nm@).contains_key(k)
            implies (self.txs().contains_key(k) && !removed@.contains(k)) by {
            let j = nm.lemma_key_at(k);
            assert(ns[j].0 == k);
        }
        true
    }
}


/// The table holds, for each script heard of in a report, its state `tm`
/// gives: each state well formed, each script once.
spec fn table_ok(t: Seq<(Script, TxidMap<Option<u64>>)>, tm: Map<Seq<u8>, Heights>) -> bool {
    &&& forall|j: int| 0 <= j < t.len() ==> (#[trigger] t[j]).1.wf() && tm.contains_key(t[j].0@) && tm[t[j].0@] == t[j].1@
    &&& forall|a: int, b: int| 0 <= a < t.len() && 0 <= b < t.len() && a != b ==> (#[trigger] t[a]).0@ != (#[trigger] t[b]).0@
    &&& forall|spk: Seq<u8>| #[trigger] tm.contains_key(spk) ==> exists|j: int| 0 <= j < t.len() && (#[trigger] t[j]).0@ == spk
}

/// Sets the state of `spk` to `value` in the table.
fn table_set(
    table: &mut Vec<(Script, TxidMap<Option<u64>>)>,
    found: Option<usize>,
    spk: &Script,
    value: TxidMap<Option<u64>>,
    Ghost(tm): Ghost<Map<Seq<u8>, Heights>>,
)
    requires
        table_ok(old(table)@, tm),
        value.wf(),
        found matches Some(x) ==> x < old(table)@.len() && old(table)@[x as int].0@ == spk@,
        found is None ==> forall|x: int| 0 <= x < old(table)@.len() ==> (#[trigger] old(table)@[x]).0@ != spk@,
    ensures
        table_ok(final(table)@, tm.insert(spk@, value@)),
{
    let ghost t0 = table@;
    let ghost v = value@;
    let ghost tm2 = tm.insert(spk@, v);
    let key = spk.duplicate();
    match found {
        Some(j) => {
            table.set(j, (key, value));
            assert forall|x: int| 0 <= x < table@.len() implies (#[trigger] table@[x]).1.wf()
                && tm2.contains_key(table@[x].0@) && tm2[table@[x].0@] == table@[x].1@ by {
                if x != j {
                    assert(table@[x] == t0[x]);
                    assert(t0[x].0@ != t0[j as int].0@);
                }
            }
            assert forall|a: int, b: int| 0 <= a < table@.len() && 0 <= b < table@.len() && a != b
                implies (#[trigger] table@[a]).0@ != (#[trigger] table@[b]).0@ by {
                assert(table@[a].0@ == t0[a].0@ && table@[b].0@ == t0[b].0@);
            }
            assert forall|s2: Seq<u8>| #[trigger] tm2.contains_key(s2) implies exists|x: int| 0 <= x < table@.len() && (#[trigger] table@[x]).0@ == s2 by {
                if s2 == spk@ {
                    assert(table@[j as int].0@ == s2);
                } else {
                    let x = choose|x: int| 0 <= x < t0.len() && (#[trigger] t0[x]).0@ == s2;
                    assert(table@[x].0@ == t0[x].0@);
                }
            }
        },
        None => {
            table.push((key, value));
            assert forall|x: int| 0 <= x < table@.len() implies (#[trigger] table@[x]).1.wf()
                && tm2.contains_key(table@[x].0@) && tm2[table@[x].0@] == table@[x].1@ by {
                if x < t0.len() {
                    assert(table@[x] == t0[x]);
                }
            }
            assert forall|a: int, b: int| 0 <= a < table@.len() && 0 <= b < table@.len() && a != b
                implies (#[trigger] table@[a]).0@ != (#[trigger] table@[b]).0@ by {
                if a < t0.len() {
                    assert(table@[a] == t0[a]);
                }
                if b < t0.len() {
                    assert(table@[b] == t0[b]);
                }
            }
            assert forall|s2: Seq<u8>| #[trigger] tm2.contains_key(s2) implies exists|x: int| 0 <= x < table@.len() && (#[trigger] table@[x]).0@ == s2 by {
                if s2 == spk@ {
                    assert(table@[t0.len() as int].0@ == s2);
                } else {
                    let x = choose|x: int| 0 <= x < t0.len() && (#[trigger] t0[x]).0@ == s2;
                    assert(table@[x] == t0[x]);
                }
            }
        },
    }
}

/// One more report moves the states as `heights_before` says.
proof fn lemma_heights_step(h0: Map<Seq<u8>, Seq<Heights>>, items: Seq<(Seq<u8>, Heights)>, i: int, tm: Map<Seq<u8>, Heights>, value: Heights)
    requires
        0 <= i < items.len(),
        forall|spk: Seq<u8>| #[trigger] heights_before(h0, items, i, spk)
            == (if tm.contains_key(spk) { tm[spk] } else { last_heights(h0, spk) }),
        value == (if heights_before(h0, items, i, items[i].0).len() == 0 && items[i].1.len() == 0 {
            heights_before(h0, items, i, items[i].0)
        } else {
            items[i].1
        }),
    ensures
        forall|spk: Seq<u8>| #[trigger] heights_before(h0, items, i + 1, spk)
            == (if tm.insert(items[i].0, value).contains_key(spk) { tm.insert(items[i].0, value)[spk] } else { last_heights(h0, spk) }),
{
    assert forall|spk: Seq<u8>| #[trigger] heights_before(h0, items, i + 1, spk)
        == (if tm.insert(items[i].0, value).contains_key(spk) { tm.insert(items[i].0, value)[spk] } else { last_heights(h0, spk) }) by {
        assert(heights_before(h0, items, i, spk) == (if tm.contains_key(spk) { tm[spk] } else { last_heights(h0, spk) }));
    }
}

impl CoinStore {
    /// Whether recording the history report `hist` fits the store, as
    /// `handle_history_response` asks: every script is watched, and each
    /// report, in its turn, changes the height only of transactions still
    /// stored.
    pub fn history_report_fits(&self, hist: &Vec<(Script, Vec<(Txid, Option<u64>)>)>) -> (r: bool)
        requires
            self.wf(),
        ensures
            r == ((forall|i: int| 0 <= i < hist@.len() ==> has_script(self.addrs().entries(), (#[trigger] hist@[i]).0@))
                && history_changes_known(HistState { hs: self.histories(), txs: self.txs() }, hist_items(hist@))),
    {
        let ghost s0 = HistState { hs: self.histories(), txs: self.txs() };
        let ghost items = hist_items(hist@);
        let ghost entries = self.addrs().entries();
        let mut table: Vec<(Script, TxidMap<Option<u64>>)> = Vec::new();
        let ghost mut tm: Map<Seq<u8>, Heights> = Map::empty();
        let mut removed: Vec<Txid> = Vec::new();
        let n = hist.len();
        let mut i: usize = 0;
        while i < n
            invariant
                i <= n,
                n == hist@.len(),
                self.wf(),
                s0 == (HistState { hs: self.histories(), txs: self.txs() }),
                items == hist_items(hist@),
                entries == self.addrs().entries(),
                table_ok(table@, tm),
                forall|spk: Seq<u8>| #[trigger] heights_before(s0.hs, items, i as int, spk)
                    == (if tm.contains_key(spk) { tm[spk] } else { last_heights(s0.hs, spk) }),
                forall|k: Txid| #[trigger] stored_before(s0, items, i as int, k) == (s0.txs.contains_key(k) && !removed@.contains(k)),
                forall|j: int| 0 <= j < i ==> has_script(entries, (#[trigger] hist@[j]).0@),
                forall|j: int| #![trigger items[j]] 0 <= j < i ==> {
                    let st = hist_run(s0, items.take(j));
                    changes_known(st.txs, last_heights(st.hs, items[j].0), items[j].1)
                },
            decreases n - i,
        {
            let spk = &hist[i].0;
            assert(heights_before(s0.hs, items, i as int, spk@)
                == (if tm.contains_key(spk@) { tm[spk@] } else { last_heights(s0.hs, spk@) }));
            assert(items[i as int] == (spk@, pairs_to_map(hist@[i as int].1@)));
            if self.address_info(spk).is_none() {
                return false;
            }
            let nm = report_map(&hist[i].1);
            // the last state of the script before this report
            let mut found: Option<usize> = None;
            let t = table.len();
            for j in 0..t
                invariant
                    t == table@.len(),
                    found matches Some(x) ==> x < t && table@[x as int].0@ == spk@,
                    found is None ==> forall|x: int| 0 <= x < j ==> (#[trigger] table@[x]).0@ != spk@,
            {
                if found.is_none() && table[j].0.same(spk) {
                    found = Some(j);
                }
            }
            let prev = match found {
                Some(j) => table[j].1.duplicate(),
                None => {
                    assert(!tm.contains_key(spk@));
                    match self.last_history(spk) {
                        Some(m) => m.duplicate(),
                        None => {
                            let e: TxidMap<Option<u64>> = TxidMap::new();
                            e
                        },
                    }
                },
            };
            assert(heights_before(s0.hs, items, i as int, spk@)
                == (if tm.contains_key(spk@) { tm[spk@] } else { last_heights(s0.hs, spk@) }));
            assert(prev@ == heights_before(s0.hs, items, i as int, spk@));
            proof { lemma_hist_run_before(s0, items, i as int); }
            let ghost st = hist_run(s0, items.take(i as int));
            assert(last_heights(st.hs, items[i as int].0) == prev@);
            if !self.changes_stored(&prev, &nm, &removed) {
                proof {
                    let k = choose|k: Txid| #[trigger] diff_changed(prev@, nm@).contains_key(k)
                        && !(self.txs().contains_key(k) && !removed@.contains(k));
                    assert(st.txs.contains_key(k) == stored_before(s0, items, i as int, k));
                    assert(!changes_known(st.txs, last_heights(st.hs, items[i as int].0), items[i as int].1));
                }
                return false;
            }
            proof {
                assert forall|k: Txid| #[trigger] diff_changed(last_heights(st.hs, items[i as int].0), items[i as int].1).contains_key(k)
                    implies st.txs.contains_key(k) by {
                    assert(st.txs.contains_key(k) == stored_before(s0, items, i as int, k));
                }
            }
            let ghost removed_before = removed@;
            record_removed(&prev, &nm, &mut removed);
            proof {
                prev.lemma_len();
                nm.lemma_len();
            }
            let keep = prev.len() == 0 && nm.len() == 0;
            let value = if keep { prev } else { nm };
            let ghost vv = value@;
            proof {
                lemma_heights_step(s0.hs, items, i as int, tm, vv);
            }
            table_set(&mut table, found, spk, value, Ghost(tm));
            proof {
                tm = tm.insert(spk@, vv);
                assert forall|k: Txid| #[trigger] stored_before(s0, items, i + 1, k) == (s0.txs.contains_key(k) && !removed@.contains(k)) by {
                    assert(stored_before(s0, items, i as int, k) == (s0.txs.contains_key(k) && !removed_before.contains(k)));
                }
                assert forall|j: int| #![trigger items[j]] 0 <= j < i + 1 implies {
                    let st2 = hist_run(s0, items.take(j));
                    changes_known(st2.txs, last_heights(st2.hs, items[j].0), items[j].1)
                } by {
                    if j == i {
                        assert(st == hist_run(s0, items.take(j)));
                    }
                }
            }
            i = i + 1;
        }
        true
    }
}

/// The report of the tips `t`.
pub open spec fn tip_event_of(watching: bool, look_ahead: u32, t: (u32, u32)) -> StoreEvent {
    StoreEvent::AddressTipChanged(
        if watching {
            Some(AddressTip { recv: (t.0 + look_ahead + 1) as u32, change: (t.1 + look_ahead + 1) as u32 })
        } else {
            None
        },
    )
}

/// The reports sent while coins are seen, in order, on `spks`.
pub open spec fn tip_events_run(
    watching: bool,
    look_ahead: u32,
    t: (u32, u32),
    a: Seq<AddressEntryModel>,
    spks: Seq<Seq<u8>>,
) -> Seq<StoreEvent>
    decreases spks.len(),
{
    if spks.len() == 0 {
        Seq::empty()
    } else {
        tip_events_run(watching, look_ahead, t, a, spks.drop_last()).push(
            tip_event_of(watching, look_ahead, tips_run(t, a, spks)),
        )
    }
}

/// The scripts of a history report.
pub open spec fn hist_spks(h: Seq<(Script, Vec<(Txid, Option<u64>)>)>) -> Seq<Seq<u8>> {
    h.map_values(|e: (Script, Vec<(Txid, Option<u64>)>)| e.0@)
}

/// Fills each entry whose transaction is stored with a copy of it.
fn prefill_from(u: Update, store: &TxStore) -> (r: Update)
    requires
        store.wf(),
        outputs_fit(store@),
        update_ok(u.txs_view()),
    ensures
        r.txs_view() == prefill(u.txs_view(), store@),
        r.spk_view() == u.spk_view(),
        update_ok(r.txs_view()),
{
    let ghost uv = u.txs_view();
    let ghost t = store@;
    proof { store.lemma_keyed(); }
    let Update { spk, txs: entries } = u;
    let mut entries = entries;
    let mut out: Vec<(Txid, Option<Transaction>, Option<u64>)> = Vec::new();
    let ghost total = entries@.len();
    assert(entries.len() == total);
    let mut k: usize = 0;
    while entries.len() > 0
        invariant
            k + entries@.len() == total,
            total == uv.len(),
            total <= usize::MAX,
            store.wf(),
            t == store@,
            forall|j: int| 0 <= j < entries@.len() ==> update_txs_model(entries@)[j] == uv[k + j],
            out@.len() == k,
            forall|j: int| 0 <= j < k ==> #[trigger] update_txs_model(out@)[j] == prefill(uv, t)[j],
        decreases entries@.len(),
    {
        assert(update_txs_model(entries@)[0] == uv[k as int]);
        let ghost before = entries@;
        let (txid, tx, height) = entries.remove(0);
        proof {
            assert forall|j: int| 0 <= j < entries@.len() implies update_txs_model(entries@)[j] == uv[k + 1 + j] by {
                assert(entries@[j] == before[j + 1]);
                assert(update_txs_model(before)[j + 1] == uv[k + 1 + j]);
            }
        }
        let filled = match store.inner_get(&txid) {
            Some(t) => Some(t),
            None => tx,
        };
        let ghost prev_out = out@;
        out.push((txid, filled, height));
        proof {
            assert forall|j: int| 0 <= j < k + 1 implies #[trigger] update_txs_model(out@)[j] == prefill(uv, t)[j] by {
                if j < k {
                    assert(out@[j] == prev_out[j]);
                    assert(update_txs_model(prev_out)[j] == prefill(uv, t)[j]);
                }
            }
        }
        k = k + 1;
    }
    let r = Update { spk, txs: out };
    assert(r.txs_view() =~= prefill(uv, t));
    proof {
        let rv = r.txs_view();
        assert forall|i: int| 0 <= i < rv.len() implies ((#[trigger] rv[i]).1 matches Some(x) ==> x.txid == rv[i].0) by {
            assert(uv[i] == uv[i]);
        }
        assert forall|i: int| 0 <= i < rv.len() implies ((#[trigger] rv[i]).1 matches Some(x) ==> x.outputs.len() <= 0x1_0000_0000) by {
            assert(uv[i] == uv[i]);
        }
    }
    r
}

impl CoinStore {
    /// Starts reporting the watch tips to the transaction listener.
    pub fn init(&mut self)
        requires
            old(self).wf(),
        ensures
            final(self).wf(),
            final(self).addrs().watching_spec(),
            final(self).addrs().recv_tip_spec() == old(self).addrs().recv_tip_spec(),
            final(self).addrs().change_tip_spec() == old(self).addrs().change_tip_spec(),
            final(self).addrs().look_ahead_spec() == old(self).addrs().look_ahead_spec(),
            final(self).addrs().derivation() == old(self).addrs().derivation(),
            covers(final(self).addrs().entries(), final(self).addrs().derivation(), 0, final(self).addrs().recv_watch_spec()),
            covers(final(self).addrs().entries(), final(self).addrs().derivation(), 1, final(self).addrs().change_watch_spec()),
            final(self).addrs().entries().take(old(self).addrs().entries().len() as int) == old(self).addrs().entries(),
            final(self).addrs().events_spec() == old(self).addrs().events_spec().push(final(self).addrs().tip_event()),
            final(self).coins_spec() == old(self).coins_spec(),
            final(self).txs() == old(self).txs(),
            final(self).histories() == old(self).histories(),
            final(self).pending() == old(self).pending(),
    {
        self.address_store.init();
    }

    /// The receive watch tip.
    pub fn recv_watch_tip(&self) -> (r: u32)
        requires
            self.wf(),
        ensures
            r == self.addrs().recv_watch_spec(),
    {
        proof { self.address_store.lemma_wf(); }
        self.address_store.recv_watch_tip()
    }

    /// The change watch tip.
    pub fn change_watch_tip(&self) -> (r: u32)
        requires
            self.wf(),
        ensures
            r == self.addrs().change_watch_spec(),
    {
        proof { self.address_store.lemma_wf(); }
        self.address_store.change_watch_tip()
    }

    /// The last generated receive index.
    pub fn recv_tip(&self) -> (r: u32)
        ensures
            r == self.addrs().recv_tip_spec(),
    {
        self.address_store.recv_tip()
    }

    /// The last generated change index.
    pub fn change_tip(&self) -> (r: u32)
        ensures
            r == self.addrs().change_tip_spec(),
    {
        self.address_store.change_tip()
    }

    /// The address store.
    pub fn address_store(&self) -> (r: &AddressStore)
        ensures
            *r == self.addrs(),
    {
        &self.address_store
    }

    /// Hands the pending address store events over.
    pub fn take_events(&mut self) -> (r: Vec<StoreEvent>)
        requires
            old(self).wf(),
        ensures
            final(self).wf(),
            r@ == old(self).addrs().events_spec(),
            final(self).addrs().events_spec() == Seq::<StoreEvent>::empty(),
            final(self).addrs().entries() == old(self).addrs().entries(),
            final(self).addrs().recv_tip_spec() == old(self).addrs().recv_tip_spec(),
            final(self).addrs().change_tip_spec() == old(self).addrs().change_tip_spec(),
            final(self).addrs().look_ahead_spec() == old(self).addrs().look_ahead_spec(),
            final(self).addrs().derivation() == old(self).addrs().derivation(),
            final(self).addrs().watching_spec() == old(self).addrs().watching_spec(),
            final(self).coins_spec() == old(self).coins_spec(),
            final(self).txs() == old(self).txs(),
            final(self).histories() == old(self).histories(),
            final(self).pending() == old(self).pending(),
    {
        self.address_store.take_events()
    }

    /// Generates the next receive address.
    pub fn new_recv_addr(&mut self) -> (r: Option<DerivedAddress>)
        requires
            old(self).wf(),
            old(self).addrs().recv_tip_spec() + 1 < 0x8000_0000,
        ensures
            final(self).wf(),
            final(self).addrs().recv_tip_spec() == old(self).addrs().recv_tip_spec() + 1,
            final(self).addrs().change_tip_spec() == old(self).addrs().change_tip_spec(),
            final(self).addrs().derivation() == old(self).addrs().derivation(),
            final(self).addrs().look_ahead_spec() == old(self).addrs().look_ahead_spec(),
            final(self).addrs().watching_spec() == old(self).addrs().watching_spec(),
            final(self).addrs().entries().take(old(self).addrs().entries().len() as int) == old(self).addrs().entries(),
            old(self).addrs().entries().len() <= final(self).addrs().entries().len(),
            covers(final(self).addrs().entries(), final(self).addrs().derivation(), 0, final(self).addrs().recv_watch_spec()),
            covers(final(self).addrs().entries(), final(self).addrs().derivation(), 1, final(self).addrs().change_watch_spec()),
            final(self).addrs().events_spec() == old(self).addrs().events_spec().push(final(self).addrs().tip_event()),
            match r {
                Some(a) => derived_address(final(self).addrs().derivation().0, final(self).addrs().derivation().1, 0,
                    final(self).addrs().recv_tip_spec()) == Some((a.address@, a.script@)),
                None => derived_address(final(self).addrs().derivation().0, final(self).addrs().derivation().1, 0,
                    final(self).addrs().recv_tip_spec()) is None,
            },
            final(self).coins_spec() == old(self).coins_spec(),
            final(self).txs() == old(self).txs(),
            final(self).histories() == old(self).histories(),
            final(self).pending() == old(self).pending(),
    {
        self.address_store.new_recv_addr()
    }

    /// Generates the next change address.
    pub fn new_change_addr(&mut self) -> (r: Option<DerivedAddress>)
        requires
            old(self).wf(),
            old(self).addrs().change_tip_spec() + 1 < 0x8000_0000,
        ensures
            final(self).wf(),
            final(self).addrs().change_tip_spec() == old(self).addrs().change_tip_spec() + 1,
            final(self).addrs().recv_tip_spec() == old(self).addrs().recv_tip_spec(),
            final(self).addrs().derivation() == old(self).addrs().derivation(),
            final(self).addrs().look_ahead_spec() == old(self).addrs().look_ahead_spec(),
            final(self).addrs().watching_spec() == old(self).addrs().watching_spec(),
            final(self).addrs().entries().take(old(self).addrs().entries().len() as int) == old(self).addrs().entries(),
            old(self).addrs().entries().len() <= final(self).addrs().entries().len(),
            covers(final(self).addrs().entries(), final(self).addrs().derivation(), 0, final(self).addrs().recv_watch_spec()),
            covers(final(self).addrs().entries(), final(self).addrs().derivation(), 1, final(self).addrs().change_watch_spec()),
            final(self).addrs().events_spec() == old(self).addrs().events_spec().push(final(self).addrs().tip_event()),
            match r {
                Some(a) => derived_address(final(self).addrs().derivation().0, final(self).addrs().derivation().1, 1,
                    final(self).addrs().change_tip_spec()) == Some((a.address@, a.script@)),
                None => derived_address(final(self).addrs().derivation().0, final(self).addrs().derivation().1, 1,
                    final(self).addrs().change_tip_spec()) is None,
            },
            final(self).coins_spec() == old(self).coins_spec(),
            final(self).txs() == old(self).txs(),
            final(self).histories() == old(self).histories(),
            final(self).pending() == old(self).pending(),
    {
        self.address_store.new_change_addr()
    }

    /// Updates the tips for a coin received on `spk`.
    pub fn recv_coin_at(&mut self, spk: &Script)
        requires
            old(self).wf(),
            has_script(old(self).addrs().entries(), spk@),
        ensures
            final(self).wf(),
            coin_received(old(self).addrs(), final(self).addrs(), spk@),
            final(self).coins_spec() == old(self).coins_spec(),
            final(self).txs() == old(self).txs(),
            final(self).histories() == old(self).histories(),
            final(self).pending() == old(self).pending(),
    {
        self.address_store.recv_coin_at(spk);
    }
}

} // verus!

verus! {

/// Fills, update after update, each entry whose transaction is stored.
fn prefill_all(store: &TxStore, ups: Vec<Update>) -> (pf: Vec<Update>)
    requires
        store.wf(),
        outputs_fit(store@),
        forall|j: int| 0 <= j < ups@.len() ==> update_ok((#[trigger] ups@[j]).txs_view()),
    ensures
        update_views(pf@) == update_views(ups@).map_values(|u: Seq<UpdateEntry>| prefill(u, store@)),
        forall|j: int| 0 <= j < pf@.len() ==> update_ok((#[trigger] pf@[j]).txs_view()),
{
    let ghost us = update_views(ups@);
    let ghost total = ups@.len();
    let mut ups = ups;
    let mut pf: Vec<Update> = Vec::new();
    assert(ups.len() == total);
    let mut k: usize = 0;
    while ups.len() > 0
        invariant
            k + ups@.len() == total,
            total <= usize::MAX,
            us.len() == total,
            forall|j: int| 0 <= j < ups@.len() ==> (#[trigger] ups@[j]).txs_view() == us[k + j]
                && update_ok(ups@[j].txs_view()),
            store.wf(),
            outputs_fit(store@),
            pf@.len() == k,
            forall|j: int| 0 <= j < k ==> (#[trigger] pf@[j]).txs_view() == prefill(us[j], store@)
                && update_ok(pf@[j].txs_view()),
        decreases ups@.len(),
    {
        let ghost before = ups@;
        let u = ups.remove(0);
        assert forall|j: int| 0 <= j < ups@.len() implies (#[trigger] ups@[j]).txs_view() == us[k + 1 + j]
            && update_ok(ups@[j].txs_view()) by {
            assert(ups@[j] == before[j + 1]);
        }
        let f = prefill_from(u, store);
        pf.push(f);
        k = k + 1;
    }
    assert(update_views(pf@) =~= us.map_values(|u: Seq<UpdateEntry>| prefill(u, store@)));
    pf
}

/// The missing ids of the updates, update after update.
fn missing_all(pf: &Vec<Update>) -> (r: Vec<Txid>)
    ensures
        r@ == all_missing(update_views(pf@)),
{
    let ghost pfv = update_views(pf@);
    let mut r: Vec<Txid> = Vec::new();
    let np = pf.len();
    assert(pfv.take(0) =~= Seq::<Seq<UpdateEntry>>::empty());
    for j in 0..np
        invariant
            np == pf@.len(),
            pfv == update_views(pf@),
            r@ == all_missing(pfv.take(j as int)),
    {
        let mut m = pf[j].missing();
        assert(pfv.take(j + 1).drop_last() =~= pfv.take(j as int));
        assert(pfv.take(j + 1).last() == pf@[j as int].txs_view());
        r.append(&mut m);
    }
    assert(pfv.take(np as int) =~= pfv);
    r
}

impl CoinStore {
    /// For each report in turn: a coin received on its script updates the
    /// tips, and the history of the script is recorded. Returns the updates
    /// in report order.
    fn record_reports(&mut self, hist: Vec<(Script, Vec<(Txid, Option<u64>)>)>) -> (ups: Vec<Update>)
        requires
            old(self).wf(),
            forall|i: int| 0 <= i < hist@.len() ==> has_script(old(self).addrs().entries(), (#[trigger] hist@[i]).0@),
            history_changes_known(HistState { hs: old(self).histories(), txs: old(self).txs() }, hist_items(hist@)),
        ensures
            final(self).wf(),
            (HistState { hs: final(self).histories(), txs: final(self).txs() }) == hist_run(
                HistState { hs: old(self).histories(), txs: old(self).txs() }, hist_items(hist@)),
            ups@.len() == hist@.len(),
            forall|j: int| 0 <= j < ups@.len() ==> fresh_update((#[trigger] ups@[j]).txs_view(),
                added_at(HistState { hs: old(self).histories(), txs: old(self).txs() }, hist_items(hist@), j)),
            forall|j: int| 0 <= j < ups@.len() ==> update_ok((#[trigger] ups@[j]).txs_view()),
            (final(self).addrs().recv_tip_spec(), final(self).addrs().change_tip_spec()) == tips_run(
                (old(self).addrs().recv_tip_spec(), old(self).addrs().change_tip_spec()),
                old(self).addrs().entries(), hist_spks(hist@)),
            final(self).addrs().events_spec() == old(self).addrs().events_spec() + tip_events_run(
                old(self).addrs().watching_spec(), old(self).addrs().look_ahead_spec(),
                (old(self).addrs().recv_tip_spec(), old(self).addrs().change_tip_spec()),
                old(self).addrs().entries(), hist_spks(hist@)),
            final(self).addrs().look_ahead_spec() == old(self).addrs().look_ahead_spec(),
            final(self).addrs().derivation() == old(self).addrs().derivation(),
            final(self).addrs().watching_spec() == old(self).addrs().watching_spec(),
            final(self).addrs().entries().take(old(self).addrs().entries().len() as int) == old(self).addrs().entries(),
            old(self).addrs().entries().len() <= final(self).addrs().entries().len(),
            hist@.len() > 0 ==> covers(final(self).addrs().entries(), final(self).addrs().derivation(), 0,
                final(self).addrs().recv_watch_spec()),
            hist@.len() > 0 ==> covers(final(self).addrs().entries(), final(self).addrs().derivation(), 1,
                final(self).addrs().change_watch_spec()),
            final(self).coins_spec() == old(self).coins_spec(),
            final(self).pending() == old(self).pending(),
    {
        let ghost s0 = HistState { hs: self.histories(), txs: self.txs() };
        let ghost items = hist_items(hist@);
        let ghost spks = hist_spks(hist@);
        let ghost a0 = self.addrs().entries();
        let ghost t0 = (self.addrs().recv_tip_spec(), self.addrs().change_tip_spec());
        let ghost e0 = self.addrs().events_spec();
        let ghost w0 = self.addrs().watching_spec();
        let ghost la0 = self.addrs().look_ahead_spec();
        let ghost d0 = self.addrs().derivation();
        let ghost c0 = self.coins_spec();
        let ghost p0 = self.pending();
        let mut rest = hist;
        let mut ups: Vec<Update> = Vec::new();
        let ghost total = rest@.len();
        assert(rest.len() == total);
        let mut k: usize = 0;
        proof {
            assert(items.take(0) =~= Seq::<(Seq<u8>, Heights)>::empty());
            assert(spks.take(0) =~= Seq::<Seq<u8>>::empty());
            assert(a0.take(a0.len() as int) =~= a0);
            assert(e0 + Seq::<StoreEvent>::empty() =~= e0);
            assert forall|j: int| 0 <= j < total implies has_script(a0, (#[trigger] items[j]).0) by {
                assert(items[j].0 == rest@[j].0@);
            }
        }
        while rest.len() > 0
            invariant
                k + rest@.len() == total,
                total <= usize::MAX,
                items.len() == total,
                spks.len() == total,
                forall|j: int| 0 <= j < rest@.len() ==> (#[trigger] rest@[j]).0@ == items[k + j].0
                    && pairs_to_map(rest@[j].1@) == items[k + j].1 && spks[k + j] == items[k + j].0,
                forall|j: int| 0 <= j < total ==> has_script(a0, (#[trigger] items[j]).0),
                history_changes_known(s0, items),
                self.wf(),
                (HistState { hs: self.histories(), txs: self.txs() }) == hist_run(s0, items.take(k as int)),
                self.coins_spec() == c0,
                self.pending() == p0,
                ups@.len() == k,
                forall|j: int| 0 <= j < k ==> fresh_update((#[trigger] ups@[j]).txs_view(), added_at(s0, items, j)),
                forall|j: int| 0 <= j < k ==> update_ok((#[trigger] ups@[j]).txs_view()),
                (self.addrs().recv_tip_spec(), self.addrs().change_tip_spec()) == tips_run(t0, a0, spks.take(k as int)),
                self.addrs().events_spec() == e0 + tip_events_run(w0, la0, t0, a0, spks.take(k as int)),
                self.addrs().look_ahead_spec() == la0,
                self.addrs().derivation() == d0,
                self.addrs().watching_spec() == w0,
                a0.len() <= self.addrs().entries().len(),
                self.addrs().entries().take(a0.len() as int) == a0,
                k > 0 ==> covers(self.addrs().entries(), self.addrs().derivation(), 0, self.addrs().recv_watch_spec()),
                k > 0 ==> covers(self.addrs().entries(), self.addrs().derivation(), 1, self.addrs().change_watch_spec()),
            decreases rest@.len(),
        {
            let ghost before = rest@;
            let (spk, history) = rest.remove(0);
            proof {
                assert forall|j: int| 0 <= j < rest@.len() implies (#[trigger] rest@[j]).0@ == items[k + 1 + j].0
                    && pairs_to_map(rest@[j].1@) == items[k + 1 + j].1 && spks[k + 1 + j] == items[k + 1 + j].0 by {
                    assert(rest@[j] == before[j + 1]);
                }
                assert(before[0].0@ == items[k as int].0);
                self.address_store.lemma_wf();
                lemma_prefix_entry(a0, self.addrs().entries(), spk@);
            }
            let ghost st = hist_run(s0, items.take(k as int));
            let ghost a1 = self.addrs().entries();
            self.recv_coin_at(&spk);
            proof {
                let a2 = self.addrs().entries();
                assert(a2.take(a0.len() as int) =~= a2.take(a1.len() as int).take(a0.len() as int));
                assert(spks.take(k + 1).drop_last() =~= spks.take(k as int));
                assert(spks.take(k + 1).last() == spk@);
                assert(items.take(k + 1).drop_last() =~= items.take(k as int));
                assert(items.take(k + 1).last() == items[k as int]);
                assert(items[k as int] == (spk@, pairs_to_map(history@)));
                assert(hist_run(s0, items.take(k + 1)) == hist_step(st, items[k as int]));
                let te = tip_events_run(w0, la0, t0, a0, spks.take(k as int));
                assert(e0 + te.push(self.addrs().tip_event()) =~= (e0 + te).push(self.addrs().tip_event()));
            }
            let u = self.update_spk_history(spk, history);
            let ghost ups0 = ups@;
            ups.push(u);
            proof {
                assert forall|j: int| 0 <= j < k + 1 implies fresh_update((#[trigger] ups@[j]).txs_view(), added_at(s0, items, j))
                    && update_ok(ups@[j].txs_view()) by {
                    if j < k {
                        assert(ups@[j] == ups0[j]);
                    }
                }
            }
            k = k + 1;
        }
        assert(items.take(k as int) =~= items);
        assert(spks.take(k as int) =~= spks);
        ups
    }

    /// Takes in a history report: for each script in turn, a coin received
    /// on it updates the tips and its history is recorded. The updates that
    /// follow take the transactions already stored; the ids still missing
    /// are returned, update after update; the complete updates are stored,
    /// in order, and the others wait.
    pub fn handle_history_response(&mut self, hist: Vec<(Script, Vec<(Txid, Option<u64>)>)>) -> (r: Vec<Txid>)
        requires
            old(self).wf(),
            forall|i: int| 0 <= i < hist@.len() ==> has_script(old(self).addrs().entries(), (#[trigger] hist@[i]).0@),
            history_changes_known(HistState { hs: old(self).histories(), txs: old(self).txs() }, hist_items(hist@)),
        ensures
            final(self).wf(),
            ({
                let s0 = HistState { hs: old(self).histories(), txs: old(self).txs() };
                let items = hist_items(hist@);
                let s1 = hist_run(s0, items);
                &&& final(self).histories() == s1.hs
                &&& exists|us: Seq<Seq<UpdateEntry>>| {
                    &&& us.len() == items.len()
                    &&& forall|i: int| 0 <= i < us.len() ==> fresh_update(#[trigger] us[i], added_at(s0, items, i))
                    &&& r@ == all_missing(us.map_values(|u: Seq<UpdateEntry>| prefill(u, s1.txs)))
                    &&& final(self).txs() == insert_updates_spec(s1.txs,
                        complete_of(us.map_values(|u: Seq<UpdateEntry>| prefill(u, s1.txs))))
                    &&& final(self).pending() == old(self).pending() + incomplete_of(
                        us.map_values(|u: Seq<UpdateEntry>| prefill(u, s1.txs)))
                }
            }),
            (final(self).addrs().recv_tip_spec(), final(self).addrs().change_tip_spec()) == tips_run(
                (old(self).addrs().recv_tip_spec(), old(self).addrs().change_tip_spec()),
                old(self).addrs().entries(), hist_spks(hist@)),
            final(self).addrs().events_spec() == old(self).addrs().events_spec() + tip_events_run(
                old(self).addrs().watching_spec(), old(self).addrs().look_ahead_spec(),
                (old(self).addrs().recv_tip_spec(), old(self).addrs().change_tip_spec()),
                old(self).addrs().entries(), hist_spks(hist@)),
            final(self).addrs().look_ahead_spec() == old(self).addrs().look_ahead_spec(),
            final(self).addrs().derivation() == old(self).addrs().derivation(),
            final(self).addrs().watching_spec() == old(self).addrs().watching_spec(),
            final(self).addrs().entries().take(old(self).addrs().entries().len() as int) == old(self).addrs().entries(),
            old(self).addrs().entries().len() <= final(self).addrs().entries().len(),
            hist@.len() > 0 ==> covers(final(self).addrs().entries(), final(self).addrs().derivation(), 0,
                final(self).addrs().recv_watch_spec()),
            hist@.len() > 0 ==> covers(final(self).addrs().entries(), final(self).addrs().derivation(), 1,
                final(self).addrs().change_watch_spec()),
            final(self).coins_spec() == old(self).coins_spec(),
    {
        let ups = self.record_reports(hist);
        let ghost us = update_views(ups@);
        let ghost t1 = self.txs();
        let pf = prefill_all(&self.tx_store, ups);
        let r = missing_all(&pf);
        let mut kept = settle_updates(&mut self.tx_store, pf);
        let ghost old_updates = self.updates@;
        let ghost kv = kept@;
        self.updates.append(&mut kept);
        assert(update_views(self.updates@) =~= update_views(old_updates) + update_views(kv));
        assert forall|i: int| 0 <= i < self.updates@.len() implies update_ok((#[trigger] self.updates@[i]).txs_view()) by {
            if i < old_updates.len() {
                assert(self.updates@[i] == old_updates[i]);
            } else {
                assert(self.updates@[i] == kv[i - old_updates.len()]);
            }
        }
        assert(us.len() == hist@.len());
        assert(forall|i: int| 0 <= i < us.len() ==> us[i] == (#[trigger] ups@[i]).txs_view());
        r
    }
}

} // verus!

verus! {

/// The coins of `s` that satisfy `keep`, in order.
pub open spec fn coins_where(s: Seq<CoinModel>, keep: spec_fn(CoinModel) -> bool) -> Seq<CoinModel>
    decreases s.len(),
{
    if s.len() == 0 {
        Seq::empty()
    } else if keep(s.last()) {
        coins_where(s.drop_last(), keep).push(s.last())
    } else {
        coins_where(s.drop_last(), keep)
    }
}

/// A coin that can be spent: unconfirmed or confirmed.
pub open spec fn spendable(c: CoinModel) -> bool {
    c.status == CoinStatus::Unconfirmed || c.status == CoinStatus::Confirmed
}

impl CoinStore {
    /// Copies of the coins with the status `status`, in outpoint order.
    pub fn get_by_status(&self, status: CoinStatus) -> (r: Vec<CoinEntry>)
        ensures
            coin_models(r@) == coins_where(self.coins_spec(), |c: CoinModel| c.status == status),
    {
        let ghost cv = coin_models(self.store@);
        let ghost keep = |c: CoinModel| c.status == status;
        let mut r: Vec<CoinEntry> = Vec::new();
        let n = self.store.len();
        assert(cv.take(0) =~= Seq::<CoinModel>::empty());
        for i in 0..n
            invariant
                n == self.store@.len(),
                cv == coin_models(self.store@),
                cv == self.coins_spec(),
                keep == (|c: CoinModel| c.status == status),
                coin_models(r@) == coins_where(cv.take(i as int), keep),
        {
            assert(cv.take(i + 1).drop_last() =~= cv.take(i as int));
            assert(cv.take(i + 1).last() == self.store@[i as int]@);
            assert(keep(self.store@[i as int]@) == (self.store@[i as int]@.status == status));
            if self.store[i].status == status {
                let ghost rv = coin_models(r@);
                r.push(self.store[i].duplicate());
                assert(coin_models(r@) =~= rv.push(self.store@[i as int]@));
            }
        }
        assert(cv.take(n as int) =~= cv);
        r
    }

    /// Copies of the coins that can be spent, in outpoint order.
    pub fn spendable_coins(&self) -> (r: Vec<CoinEntry>)
        ensures
            coin_models(r@) == coins_where(self.coins_spec(), |c: CoinModel| spendable(c)),
            forall|i: int| #![trigger self.coins_spec()[i]] 0 <= i < self.coins_spec().len()
                && (self.coins_spec()[i].status == CoinStatus::Unconfirmed || self.coins_spec()[i].status == CoinStatus::Confirmed)
                ==> coin_models(r@).contains(self.coins_spec()[i]),
            forall|k: int| 0 <= k < r@.len() ==> self.coins_spec().contains((#[trigger] r@[k])@)
                && (r@[k]@.status == CoinStatus::Unconfirmed || r@[k]@.status == CoinStatus::Confirmed),
    {
        let ghost cv = coin_models(self.store@);
        let ghost keep = |c: CoinModel| spendable(c);
        let mut r: Vec<CoinEntry> = Vec::new();
        let n = self.store.len();
        assert(cv.take(0) =~= Seq::<CoinModel>::empty());
        for i in 0..n
            invariant
                n == self.store@.len(),
                cv == coin_models(self.store@),
                cv == self.coins_spec(),
                keep == (|c: CoinModel| spendable(c)),
                coin_models(r@) == coins_where(cv.take(i as int), keep),
        {
            assert(cv.take(i + 1).drop_last() =~= cv.take(i as int));
            assert(cv.take(i + 1).last() == self.store@[i as int]@);
            assert(keep(self.store@[i as int]@) == spendable(self.store@[i as int]@));
            let ok = match self.store[i].status {
                CoinStatus::Unconfirmed | CoinStatus::Confirmed => true,
                CoinStatus::BeingSpend | CoinStatus::Spent => false,
            };
            if ok {
                let ghost rv = coin_models(r@);
                r.push(self.store[i].duplicate());
                assert(coin_models(r@) =~= rv.push(self.store@[i as int]@));
            }
        }
        assert(cv.take(n as int) =~= cv);
        proof {
            law_spendable_coins(cv, coin_models(r@));
            assert forall|k: int| 0 <= k < r@.len() implies cv.contains((#[trigger] r@[k])@)
                && (r@[k]@.status == CoinStatus::Unconfirmed || r@[k]@.status == CoinStatus::Confirmed) by {
                assert(coin_models(r@)[k] == r@[k]@);
            }
        }
        r
    }

    /// Copies of all the coins, in outpoint order.
    pub fn coins(&self) -> (r: Vec<CoinEntry>)
        ensures
            coin_models(r@) == self.coins_spec(),
    {
        let mut r: Vec<CoinEntry> = Vec::new();
        let n = self.store.len();
        for i in 0..n
            invariant
                n == self.store@.len(),
                r@.len() == i,
                forall|j: int| 0 <= j < i ==> (#[trigger] r@[j])@ == self.store@[j]@,
        {
            r.push(self.store[i].duplicate());
        }
        assert(coin_models(r@) =~= self.coins_spec());
        r
    }
}

} // verus!

verus! {

/// The first coin of `s` at `op`, if any.
pub open spec fn coin_at(s: Seq<CoinModel>, op: OutPoint) -> Option<CoinModel>
    decreases s.len(),
{
    if s.len() == 0 {
        None
    } else if s[0].outpoint == op {
        Some(s[0])
    } else {
        coin_at(s.drop_first(), op)
    }
}

impl CoinStore {
    /// A copy of the coin at `op`, if any.
    pub fn get(&self, op: &OutPoint) -> (r: Option<CoinEntry>)
        ensures
            match r {
                Some(c) => coin_at(self.coins_spec(), *op) == Some(c@),
                None => coin_at(self.coins_spec(), *op) is None,
            },
            r matches Some(c) ==> c@.outpoint == *op && self.coins_spec().contains(c@),
            r is None <==> forall|i: int| 0 <= i < self.coins_spec().len() ==> (#[trigger] self.coins_spec()[i]).outpoint != *op,
    {
        proof { law_coin_at_outpoint(self.coins_spec(), *op); }
        let ghost cv = self.coins_spec();
        let n = self.store.len();
        assert(cv.skip(0) =~= cv);
        for i in 0..n
            invariant
                n == cv.len(),
                cv == coin_models(self.store@),
                cv == self.coins_spec(),
                coin_at(cv, *op) == coin_at(cv.skip(i as int), *op),
        {
            let ghost rest = cv.skip(i as int);
            assert(rest[0] == self.store@[i as int]@);
            if self.store[i].outpoint.same(op) {
                return Some(self.store[i].duplicate());
            }
            assert(rest.drop_first() =~= cv.skip(i + 1));
        }
        assert(cv.skip(n as int) =~= Seq::<CoinModel>::empty());
        None
    }

    /// The address entry watching `spk`, if any.
    pub fn address_info(&self, spk: &Script) -> (r: Option<AddressEntry>)
        requires
            self.wf(),
        ensures
            match r {
                Some(e) => has_script(self.addrs().entries(), spk@) && e@ == entry_for(self.addrs().entries(), spk@),
                None => !has_script(self.addrs().entries(), spk@),
            },
    {
        self.address_store.get_entry(spk)
    }
}

} // verus!

verus! {

/// The outpoints of a list of coins.
pub open spec fn outpoints_of(s: Seq<CoinModel>) -> Seq<OutPoint> {
    s.map_values(|c: CoinModel| c.outpoint)
}

/// The outpoints of `s` strictly increase.
pub open spec fn strictly_sorted(s: Seq<OutPoint>) -> bool {
    forall|a: int, b: int| 0 <= a < b < s.len() ==> outpoint_lt(s[a], s[b])
}

/// `x` is one of the outpoints of `t`.
pub open spec fn occurs_in(t: Seq<OutPoint>, x: OutPoint) -> bool {
    exists|j: int| 0 <= j < t.len() && t[j] == x
}

/// Every outpoint of `s` is in `t`.
pub open spec fn included(s: Seq<OutPoint>, t: Seq<OutPoint>) -> bool {
    forall|i: int| 0 <= i < s.len() ==> occurs_in(t, #[trigger] s[i])
}

/// The first outpoint of a strictly increasing list comes before the
/// others.
proof fn lemma_first_least(s: Seq<OutPoint>, x: OutPoint)
    requires
        strictly_sorted(s),
        s.len() > 0,
        occurs_in(s, x),
        x != s[0],
    ensures
        outpoint_lt(s[0], x),
{
    let j = choose|j: int| 0 <= j < s.len() && s[j] == x;
    assert(j != 0);
    assert(outpoint_lt(s[0], s[j]));
}

/// The tail of a strictly increasing list is strictly increasing.
proof fn lemma_tail_sorted(s: Seq<OutPoint>)
    requires
        strictly_sorted(s),
        s.len() > 0,
    ensures
        strictly_sorted(s.drop_first()),
{
    let s1 = s.drop_first();
    assert forall|a: int, b: int| 0 <= a < b < s1.len() implies outpoint_lt(s1[a], s1[b]) by {
        assert(s1[a] == s[a + 1] && s1[b] == s[b + 1]);
    }
}

/// What the tail of `s` holds, the tail of `t` holds, when both lists start
/// alike.
proof fn lemma_tail_included(s: Seq<OutPoint>, t: Seq<OutPoint>)
    requires
        strictly_sorted(s),
        strictly_sorted(t),
        s.len() > 0,
        t.len() > 0,
        s[0] == t[0],
        included(s, t),
    ensures
        included(s.drop_first(), t.drop_first()),
{
    let s1 = s.drop_first();
    let t1 = t.drop_first();
    assert forall|x: int| 0 <= x < s1.len() implies occurs_in(t1, #[trigger] s1[x]) by {
        assert(s1[x] == s[x + 1]);
        assert(occurs_in(t, s[x + 1]));
        let y = choose|y: int| 0 <= y < t.len() && t[y] == s[x + 1];
        assert(outpoint_lt(s[0], s[x + 1]));
        assert(y != 0);
        assert(t1[y - 1] == t[y]);
    }
}

/// Two strictly increasing lists of the same outpoints are the same list.
proof fn lemma_sorted_same(s: Seq<OutPoint>, t: Seq<OutPoint>)
    requires
        strictly_sorted(s),
        strictly_sorted(t),
        included(s, t),
        included(t, s),
    ensures
        s == t,
    decreases s.len(),
{
    if s.len() == 0 {
        if t.len() > 0 {
            assert(occurs_in(s, t[0]));
        }
        assert(s =~= t);
    } else {
        assert(occurs_in(t, s[0]));
        if t.len() == 0 {
            assert(false);
        }
        assert(occurs_in(s, t[0]));
        if s[0] != t[0] {
            lemma_first_least(t, s[0]);
            lemma_first_least(s, t[0]);
            assert(false);
        }
        lemma_tail_sorted(s);
        lemma_tail_sorted(t);
        lemma_tail_included(s, t);
        lemma_tail_included(t, s);
        lemma_sorted_same(s.drop_first(), t.drop_first());
        assert(s =~= seq![s[0]] + s.drop_first());
        assert(t =~= seq![t[0]] + t.drop_first());
    }
}

/// Setting the statuses of the addresses keeps their scripts, and the
/// coins read the same entry for each script.
proof fn lemma_statuses_keep_coins(coins: Seq<CoinModel>, c1: Seq<CoinModel>, txs: Map<Txid, TxEntryModel>, a: Seq<AddressEntryModel>)
    requires
        scripts_unique(a),
        generated_coins(coins, txs, a.map_values(|e: AddressEntryModel| status_after(e, c1))),
    ensures
        generated_coins(coins, txs, a),
{
    let a1 = a.map_values(|e: AddressEntryModel| status_after(e, c1));
    assert forall|script: Seq<u8>| has_script(a1, script) <==> has_script(a, script) by {
        if has_script(a, script) {
            let i = choose|i: int| 0 <= i < a.len() && a[i].script == script;
            assert(a1[i].script == script);
        }
        if has_script(a1, script) {
            let i = choose|i: int| 0 <= i < a1.len() && a1[i].script == script;
            assert(a[i].script == script);
        }
    }
    assert(scripts_unique(a1)) by {
        assert forall|i: int, j: int| 0 <= i < a1.len() && 0 <= j < a1.len() && i != j implies a1[i].script != a1[j].script by {
            assert(a1[i].script == a[i].script && a1[j].script == a[j].script);
        }
    }
    assert forall|q: int| 0 <= q < coins.len() implies {
        let c = #[trigger] coins[q];
        &&& txs.contains_key(c.outpoint.txid)
        &&& coin_from(c, txs[c.outpoint.txid], a)
        &&& c.status == (if spent(txs, c.outpoint) { CoinStatus::Spent } else { base_status(c.height) })
    } by {
        let c = coins[q];
        assert(has_script(a1, c.script));
        let i = choose|i: int| 0 <= i < a.len() && a[i].script == c.script;
        lemma_entry_for(a, i);
        lemma_entry_for(a1, i);
    }
}

/// Generating the coins again gives the same coins: setting the statuses of
/// the addresses after the first generation changes nothing that the coins
/// are made of.
pub proof fn law_generate_twice(c1: Seq<CoinModel>, c2: Seq<CoinModel>, txs: Map<Txid, TxEntryModel>, a: Seq<AddressEntryModel>)
    requires
        scripts_unique(a),
        generated_coins(c1, txs, a),
        generated_coins(c2, txs, a.map_values(|e: AddressEntryModel| status_after(e, c1))),
    ensures
        c1 == c2,
{
    lemma_statuses_keep_coins(c2, c1, txs, a);
    law_generated_coins_unique(c1, c2, txs, a);
}

/// The coins are a function of the stored transactions and the watched
/// addresses: two lists of coins generated from the same transactions and
/// addresses are the same list.
pub proof fn law_generated_coins_unique(
    c1: Seq<CoinModel>,
    c2: Seq<CoinModel>,
    txs: Map<Txid, TxEntryModel>,
    addrs: Seq<AddressEntryModel>,
)
    requires
        generated_coins(c1, txs, addrs),
        generated_coins(c2, txs, addrs),
    ensures
        c1 == c2,
{
    let k1 = outpoints_of(c1);
    let k2 = outpoints_of(c2);
    assert forall|a: int, b: int| 0 <= a < b < k1.len() implies outpoint_lt(k1[a], k1[b]) by {
        assert(outpoint_lt(c1[a].outpoint, c1[b].outpoint));
    }
    assert forall|a: int, b: int| 0 <= a < b < k2.len() implies outpoint_lt(k2[a], k2[b]) by {
        assert(outpoint_lt(c2[a].outpoint, c2[b].outpoint));
    }
    assert forall|i: int| 0 <= i < k1.len() implies occurs_in(k2, #[trigger] k1[i]) by {
        let c = c1[i];
        let k = c.outpoint.txid;
        let v = c.outpoint.vout as int;
        assert(coin_from(c, txs[k], addrs));
        assert(txs[k].tx.outputs[v] == txs[k].tx.outputs[v]);
        let j = choose|j: int| 0 <= j < c2.len() && (#[trigger] c2[j]).outpoint == (OutPoint { txid: k, vout: v as u32 });
        assert(k2[j] == k1[i]);
    }
    assert forall|i: int| 0 <= i < k2.len() implies occurs_in(k1, #[trigger] k2[i]) by {
        let c = c2[i];
        let k = c.outpoint.txid;
        let v = c.outpoint.vout as int;
        assert(coin_from(c, txs[k], addrs));
        assert(txs[k].tx.outputs[v] == txs[k].tx.outputs[v]);
        let j = choose|j: int| 0 <= j < c1.len() && (#[trigger] c1[j]).outpoint == (OutPoint { txid: k, vout: v as u32 });
        assert(k1[j] == k2[i]);
    }
    lemma_sorted_same(k1, k2);
    assert forall|i: int| 0 <= i < c1.len() implies c1[i] == c2[i] by {
        assert(k1[i] == k2[i]);
        let a = c1[i];
        let b = c2[i];
        assert(coin_from(a, txs[a.outpoint.txid], addrs));
        assert(coin_from(b, txs[b.outpoint.txid], addrs));
    }
    assert(c1 =~= c2);
}

impl CoinStore {
    /// The transaction store.
    pub fn tx_store(&self) -> (r: &TxStore)
        requires
            self.wf(),
        ensures
            r.wf(),
            r@ == self.txs(),
    {
        &self.tx_store
    }

    /// The last recorded state of the history of `spk`, if one is kept.
    pub fn last_history(&self, spk: &Script) -> (r: Option<&TxidMap<Option<u64>>>)
        requires
            self.wf(),
        ensures
            match r {
                Some(m) => m.wf() && self.histories().contains_key(spk@) && m@ == self.histories()[spk@].last(),
                None => !self.histories().contains_key(spk@),
            },
    {
        match self.find_history(spk) {
            Some(i) => {
                proof { lemma_histories_at(self.spk_history@, i as int); }
                Some(self.spk_history[i].1.last_state())
            },
            None => None,
        }
    }

    /// The derivator addresses are derived with.
    pub fn derivator(&self) -> (r: &Derivator)
        ensures
            r@ == self.addrs().derivation(),
    {
        self.address_store.derivator()
    }
}

impl SpkHistory {
    /// The last recorded state.
    pub fn last_state(&self) -> (r: &TxidMap<Option<u64>>)
        requires
            self.wf(),
        ensures
            r.wf(),
            r@ == self@.last(),
    {
        let n = self.history.len();
        &self.history[n - 1]
    }
}

} // verus!

verus! {

/// No coin pays a script exactly when the count of coins paying it is zero.
proof fn lemma_count_zero(s: Seq<CoinModel>, script: Seq<u8>)
    ensures
        count_script(s, script) == 0 <==> forall|i: int| 0 <= i < s.len() ==> (#[trigger] s[i]).script != script,
    decreases s.len(),
{
    if s.len() > 0 {
        let t = s.drop_last();
        lemma_count_zero(t, script);
        if count_script(s, script) == 0 {
            assert forall|i: int| 0 <= i < s.len() implies (#[trigger] s[i]).script != script by {
                if i < s.len() - 1 {
                    assert(t[i] == s[i]);
                }
            }
        } else if forall|i: int| 0 <= i < s.len() ==> (#[trigger] s[i]).script != script {
            assert forall|i: int| 0 <= i < t.len() implies (#[trigger] t[i]).script != script by {
                assert(t[i] == s[i]);
            }
            assert(s[s.len() - 1].script != script);
        }
    }
}

/// The count of coins paying a script is at least one when coin `i` pays it.
proof fn lemma_count_one_at_least(s: Seq<CoinModel>, script: Seq<u8>, i: int)
    requires
        0 <= i < s.len(),
        s[i].script == script,
    ensures
        count_script(s, script) >= 1,
    decreases s.len(),
{
    if i < s.len() - 1 {
        let t = s.drop_last();
        assert(t[i] == s[i]);
        lemma_count_one_at_least(t, script, i);
    }
}

/// Two coins paying a script make a count of at least two.
proof fn lemma_count_two(s: Seq<CoinModel>, script: Seq<u8>, i: int, j: int)
    requires
        0 <= i < j < s.len(),
        s[i].script == script,
        s[j].script == script,
    ensures
        count_script(s, script) >= 2,
    decreases s.len(),
{
    let t = s.drop_last();
    assert(t[i] == s[i]);
    if j < s.len() - 1 {
        assert(t[j] == s[j]);
        lemma_count_two(t, script, i, j);
    } else {
        lemma_count_one_at_least(t, script, i);
    }
}

/// When coin `i` alone pays a script, the count is one.
proof fn lemma_count_one(s: Seq<CoinModel>, script: Seq<u8>, i: int)
    requires
        0 <= i < s.len(),
        s[i].script == script,
        forall|j: int| 0 <= j < s.len() && j != i ==> (#[trigger] s[j]).script != script,
    ensures
        count_script(s, script) == 1,
    decreases s.len(),
{
    let t = s.drop_last();
    if i < s.len() - 1 {
        assert(t[i] == s[i]);
        assert forall|j: int| 0 <= j < t.len() && j != i implies (#[trigger] t[j]).script != script by {
            assert(t[j] == s[j]);
        }
        lemma_count_one(t, script, i);
        assert(s[s.len() - 1].script != script);
    } else {
        assert forall|j: int| 0 <= j < t.len() implies (#[trigger] t[j]).script != script by {
            assert(t[j] == s[j]);
        }
        lemma_count_zero(t, script);
    }
}

/// The status an address takes from the coins counts every coin paying its
/// script, spent or not: it is not used exactly when no coin pays it.
pub proof fn law_address_not_used(e: AddressEntryModel, coins: Seq<CoinModel>)
    ensures
        status_after(e, coins).status == AddressStatus::NotUsed
            <==> forall|i: int| 0 <= i < coins.len() ==> (#[trigger] coins[i]).script != e.script,
        status_after(e, coins).script == e.script,
        status_after(e, coins).account == e.account,
        status_after(e, coins).index == e.index,
{
    lemma_count_zero(coins, e.script);
}

/// An address paid by exactly one coin, whatever that coin's status, is
/// used.
pub proof fn law_address_used(e: AddressEntryModel, coins: Seq<CoinModel>, i: int)
    requires
        0 <= i < coins.len(),
        coins[i].script == e.script,
        forall|j: int| 0 <= j < coins.len() && j != i ==> (#[trigger] coins[j]).script != e.script,
    ensures
        status_after(e, coins).status == AddressStatus::Used,
{
    lemma_count_one(coins, e.script, i);
}

/// An address paid by two coins or more, whatever their status, is reused.
pub proof fn law_address_reused(e: AddressEntryModel, coins: Seq<CoinModel>, i: int, j: int)
    requires
        0 <= i < coins.len(),
        0 <= j < coins.len(),
        i != j,
        coins[i].script == e.script,
        coins[j].script == e.script,
    ensures
        status_after(e, coins).status == AddressStatus::Reused,
{
    if i < j {
        lemma_count_two(coins, e.script, i, j);
    } else {
        lemma_count_two(coins, e.script, j, i);
    }
}

/// The coin found at an outpoint is a coin of the list with that outpoint,
/// and a coin is found whenever the list has one with that outpoint.
pub proof fn law_coin_at_outpoint(s: Seq<CoinModel>, op: OutPoint)
    ensures
        coin_at(s, op) matches Some(c) ==> c.outpoint == op && s.contains(c),
        coin_at(s, op) is None <==> forall|i: int| 0 <= i < s.len() ==> (#[trigger] s[i]).outpoint != op,
    decreases s.len(),
{
    if s.len() > 0 {
        let t = s.drop_first();
        law_coin_at_outpoint(t, op);
        assert forall|i: int| 0 <= i < t.len() implies t[i] == s[i + 1] by {}
        if s[0].outpoint != op {
            if coin_at(t, op) is None {
                assert forall|i: int| 0 <= i < s.len() implies (#[trigger] s[i]).outpoint != op by {
                    if i > 0 {
                        assert(s[i] == t[i - 1]);
                    }
                }
            } else {
                let c = coin_at(t, op)->Some_0;
                let k = choose|k: int| 0 <= k < t.len() && t[k] == c;
                assert(s[k + 1] == c);
                assert(s.contains(c));
            }
        } else {
            assert(s.contains(s[0]));
        }
    }
}

/// Each coin kept is in the list, and each coin of the list is a coin
/// kept.
pub proof fn lemma_coins_where(s: Seq<CoinModel>, keep: spec_fn(CoinModel) -> bool)
    ensures
        forall|i: int| 0 <= i < s.len() && keep(s[i]) ==> #[trigger] coins_where(s, keep).contains(s[i]),
        forall|k: int| 0 <= k < coins_where(s, keep).len() ==> keep(#[trigger] coins_where(s, keep)[k])
            && s.contains(coins_where(s, keep)[k]),
    decreases s.len(),
{
    if s.len() > 0 {
        let t = s.drop_last();
        lemma_coins_where(t, keep);
        let r = coins_where(s, keep);
        let rt = coins_where(t, keep);
        assert forall|i: int| 0 <= i < s.len() && keep(s[i]) implies #[trigger] r.contains(s[i]) by {
            if i < s.len() - 1 {
                assert(t[i] == s[i]);
                assert(rt.contains(t[i]));
                let k = choose|k: int| 0 <= k < rt.len() && rt[k] == t[i];
                assert(r[k] == rt[k]);
            } else {
                assert(r[r.len() - 1] == s[i]);
            }
        }
        assert forall|k: int| 0 <= k < r.len() implies keep(#[trigger] r[k]) && s.contains(r[k]) by {
            if k < rt.len() {
                assert(r[k] == rt[k]);
                assert(rt.contains(rt[k]));
                let i = choose|i: int| 0 <= i < t.len() && t[i] == rt[k];
                assert(s[i] == t[i]);
            } else {
                assert(r[k] == s[s.len() - 1]);
            }
        }
    }
}

/// The spendable coins (`r`, what `spendable_coins` gives of the coins `s`)
/// are exactly the coins that are unconfirmed or confirmed: each such coin
/// is in the list, and each coin of the list is one of them.
pub proof fn law_spendable_coins(s: Seq<CoinModel>, r: Seq<CoinModel>)
    requires
        r == coins_where(s, |c: CoinModel| spendable(c)),
    ensures
        forall|i: int| 0 <= i < s.len() && (s[i].status == CoinStatus::Unconfirmed || s[i].status == CoinStatus::Confirmed)
            ==> #[trigger] r.contains(s[i]),
        forall|k: int| 0 <= k < r.len() ==> s.contains(#[trigger] r[k])
            && (r[k].status == CoinStatus::Unconfirmed || r[k].status == CoinStatus::Confirmed),
{
    let keep = |c: CoinModel| spendable(c);
    lemma_coins_where(s, keep);
    assert forall|i: int| 0 <= i < s.len() && (s[i].status == CoinStatus::Unconfirmed || s[i].status == CoinStatus::Confirmed)
        implies #[trigger] r.contains(s[i]) by {
        assert(keep(s[i]));
    }
    assert forall|k: int| 0 <= k < r.len() implies s.contains(#[trigger] r[k])
        && (r[k].status == CoinStatus::Unconfirmed || r[k].status == CoinStatus::Confirmed) by {
        assert(keep(r[k]));
    }
}

} // verus!
