//! The transaction store: the wallet's transactions indexed by id.
use vstd::prelude::*;
use crate::chain::{Transaction, TxModel, Txid};
use crate::coin_store::Update;
use crate::txid_map::TxidMap;

verus! {

/// The abstract value of a stored transaction.
pub struct TxEntryModel {
    pub height: Option<u64>,
    pub tx: TxModel,
    pub merkle: Seq<Seq<u8>>,
}

/// A stored transaction with its confirmation height and merkle proof.
#[derive(Debug)]
pub struct TxEntry {
    height: Option<u64>,
    tx: Transaction,
    merkle: Vec<Vec<u8>>,
}

impl View for TxEntry {
    type V = TxEntryModel;

    closed spec fn view(&self) -> TxEntryModel {
        TxEntryModel {
            height: self.height,
            tx: self.tx@,
            merkle: self.merkle@.map_values(|b: Vec<u8>| b@),
        }
    }
}

impl TxEntry {
    /// An entry for `tx` at `height`, with an empty merkle proof.
    pub fn new(height: Option<u64>, tx: Transaction) -> (r: TxEntry)
        ensures
            r@ == (TxEntryModel { height, tx: tx@, merkle: Seq::empty() }),
    {
        let r = TxEntry { height, tx, merkle: Vec::new() };
        assert(r@.merkle =~= Seq::<Seq<u8>>::empty());
        r
    }

    /// An entry with the given height, transaction and merkle proof.
    pub fn with_merkle(height: Option<u64>, tx: Transaction, merkle: Vec<Vec<u8>>) -> (r: TxEntry)
        ensures
            r@ == (TxEntryModel { height, tx: tx@, merkle: merkle@.map_values(|b: Vec<u8>| b@) }),
    {
        TxEntry { height, tx, merkle }
    }

    /// The id of the transaction.
    pub fn txid(&self) -> (r: Txid)
        ensures
            r == self@.tx.txid,
    {
        self.tx.txid
    }

    /// The confirmation height, `None` while unconfirmed.
    pub fn height(&self) -> (r: Option<u64>)
        ensures
            r == self@.height,
    {
        self.height
    }

    /// The transaction.
    pub fn tx(&self) -> (r: &Transaction)
        ensures
            r@ == self@.tx,
    {
        &self.tx
    }

    /// A copy of the merkle proof.
    pub fn merkle(&self) -> (r: Vec<Vec<u8>>)
        ensures
            r@.map_values(|b: Vec<u8>| b@) == self@.merkle,
    {
        let mut r: Vec<Vec<u8>> = Vec::new();
        let n = self.merkle.len();
        for i in 0..n
            invariant
                n == self.merkle@.len(),
                r@.len() == i,
                forall|j: int| 0 <= j < i ==> (#[trigger] r@[j])@ == self.merkle@[j]@,
        {
            let b = self.merkle[i].clone();
            assert(b@ =~= self.merkle@[i as int]@);
            r.push(b);
        }
        assert(r@.map_values(|b: Vec<u8>| b@) =~= self@.merkle);
        r
    }
}

/// The transactions of an update, applied in order to `m`: each id gets an
/// entry with its height and transaction, and an empty merkle proof.
pub open spec fn insert_tx_triples(
    m: Map<Txid, TxEntryModel>,
    s: Seq<(Txid, Option<TxModel>, Option<u64>)>,
) -> Map<Txid, TxEntryModel>
    decreases s.len(),
{
    if s.len() == 0 {
        m
    } else {
        insert_tx_triples(m, s.drop_last()).insert(
            s.last().0,
            TxEntryModel { height: s.last().2, tx: s.last().1.unwrap(), merkle: Seq::empty() },
        )
    }
}

/// A list of updates applied in order to `m`.
pub open spec fn insert_updates_spec(
    m: Map<Txid, TxEntryModel>,
    us: Seq<Seq<(Txid, Option<TxModel>, Option<u64>)>>,
) -> Map<Txid, TxEntryModel>
    decreases us.len(),
{
    if us.len() == 0 {
        m
    } else {
        insert_tx_triples(insert_updates_spec(m, us.drop_last()), us.last())
    }
}

/// Entries applied in order to `m`, each under the id of its transaction.
pub open spec fn insert_entries_spec(m: Map<Txid, TxEntryModel>, s: Seq<TxEntryModel>) -> Map<Txid, TxEntryModel>
    decreases s.len(),
{
    if s.len() == 0 {
        m
    } else {
        insert_entries_spec(m, s.drop_last()).insert(s.last().tx.txid, s.last())
    }
}

/// Every fetched transaction of an update has the id it is listed under.
pub open spec fn update_ids_match(s: Seq<(Txid, Option<TxModel>, Option<u64>)>) -> bool {
    forall|i: int| 0 <= i < s.len() ==> ((#[trigger] s[i]).1 matches Some(t) ==> t.txid == s[i].0)
}

/// The wallet's transactions, by id.
#[derive(Debug)]
pub struct TxStore {
    store: TxidMap<TxEntry>,
}

impl View for TxStore {
    type V = Map<Txid, TxEntryModel>;

    closed spec fn view(&self) -> Map<Txid, TxEntryModel> {
        self.store@.map_values(|e: TxEntry| e@)
    }
}

impl TxStore {
    /// The map is well formed and each entry is stored under the id of its
    /// transaction.
    pub closed spec fn wf(&self) -> bool {
        &&& self.store.wf()
        &&& forall|k: Txid| #[trigger] self.store@.contains_key(k) ==> self.store@[k]@.tx.txid == k
    }

    /// A store holding `entries`, each under the id of its transaction; a
    /// later entry with an id already seen replaces the earlier one.
    pub fn new(entries: Vec<TxEntry>) -> (r: TxStore)
        ensures
            r.wf(),
            r@ == insert_entries_spec(Map::empty(), entries@.map_values(|e: TxEntry| e@)),
    {
        let mut r = TxStore { store: TxidMap::new() };
        let ghost es = entries@.map_values(|e: TxEntry| e@);
        let mut entries = entries;
        let ghost total = entries@.len();
        assert(entries.len() == total);
        let mut k: usize = 0;
        assert(r@ =~= Map::<Txid, TxEntryModel>::empty());
        while entries.len() > 0
            invariant
                r.wf(),
                k + entries@.len() == total,
                total <= usize::MAX,
                es.len() == total,
                forall|j: int| 0 <= j < entries@.len() ==> (#[trigger] entries@[j])@ == es[k + j],
                r@ == insert_entries_spec(Map::empty(), es.take(k as int)),
            decreases entries@.len(),
        {
            let e = entries.remove(0);
            assert(e@ == es[k as int]);
            r.update(e);
            assert(es.take(k + 1).drop_last() =~= es.take(k as int));
            k = k + 1;
        }
        assert(es.take(k as int) =~= es);
        r
    }

    /// Each stored transaction sits under its own id.
    pub proof fn lemma_keyed(&self)
        requires
            self.wf(),
        ensures
            forall|k: Txid| #[trigger] self@.contains_key(k) ==> self@[k].tx.txid == k,
    {
    }

    /// The number of stored transactions.
    pub fn len(&self) -> (r: usize)
        requires
            self.wf(),
        ensures
            r == self@.len(),
    {
        proof { self.store.lemma_len(); }
        assert(self@.dom() =~= self.store@.dom());
        self.store.len()
    }

    /// The underlying map, in increasing id order.
    pub fn inner(&self) -> (r: &TxidMap<TxEntry>)
        requires
            self.wf(),
        ensures
            r.wf(),
            r@.map_values(|e: TxEntry| e@) == self@,
            forall|k: Txid| #[trigger] r@.contains_key(k) ==> r@[k]@.tx.txid == k,
    {
        &self.store
    }

    /// Applies complete updates in order: each listed transaction is stored
    /// under its id with its height and an empty merkle proof.
    pub fn insert_updates(&mut self, updates: Vec<Update>)
        requires
            old(self).wf(),
            forall|i: int| 0 <= i < updates@.len() ==> (#[trigger] updates@[i]).complete(),
            forall|i: int| 0 <= i < updates@.len() ==> update_ids_match((#[trigger] updates@[i]).txs_view()),
        ensures
            final(self).wf(),
            final(self)@ == insert_updates_spec(old(self)@, updates@.map_values(|u: Update| u.txs_view())),
    {
        let ghost us = updates@.map_values(|u: Update| u.txs_view());
        let ghost start = self@;
        let mut updates = updates;
        let ghost total = updates@.len();
        assert(updates.len() == total);
        let mut k: usize = 0;
        while updates.len() > 0
            invariant
                self.wf(),
                k + updates@.len() == total,
                total <= usize::MAX,
                us.len() == total,
                forall|j: int| 0 <= j < updates@.len() ==> (#[trigger] updates@[j]).txs_view() == us[k + j],
                forall|j: int| 0 <= j < updates@.len() ==> (#[trigger] updates@[j]).complete(),
                forall|j: int| 0 <= j < updates@.len() ==> update_ids_match((#[trigger] updates@[j]).txs_view()),
                self@ == insert_updates_spec(start, us.take(k as int)),
            decreases updates@.len(),
        {
            let u = updates.remove(0);
            assert(u.txs_view() == us[k as int]);
            self.insert_update(u);
            assert(us.take(k + 1).drop_last() =~= us.take(k as int));
            k = k + 1;
        }
        assert(us.take(k as int) =~= us);
    }

    /// Applies one complete update.
    fn insert_update(&mut self, update: Update)
        requires
            old(self).wf(),
            update.complete(),
            update_ids_match(update.txs_view()),
        ensures
            final(self).wf(),
            final(self)@ == insert_tx_triples(old(self)@, update.txs_view()),
    {
        let ghost ts = update.txs_view();
        let ghost start = self@;
        let mut txs = update.txs;
        let ghost total = txs@.len();
        assert(txs.len() == total);
        let mut k: usize = 0;
        while txs.len() > 0
            invariant
                self.wf(),
                k + txs@.len() == total,
                total <= usize::MAX,
                ts.len() == total,
                update_ids_match(ts),
                forall|j: int| 0 <= j < txs@.len() ==> (#[trigger] txs@[j]).1 is Some,
                forall|j: int| 0 <= j < txs@.len() ==> {
                    let e = #[trigger] txs@[j];
                    (e.0, match e.1 { Some(t) => Some(t@), None => None }, e.2) == ts[k + j]
                },
                self@ == insert_tx_triples(start, ts.take(k as int)),
            decreases txs@.len(),
        {
            let (txid, tx, height) = txs.remove(0);
            assert(ts[k as int].1 matches Some(t) ==> t.txid == ts[k as int].0);
            match tx {
                Some(t) => {
                    let entry = TxEntry::new(height, t);
                    let ghost em = entry@;
                    self.store.insert(txid, entry);
                    assert(self@ =~= insert_tx_triples(start, ts.take(k as int)).insert(txid, em));
                },
                None => {},
            }
            assert(ts.take(k + 1).drop_last() =~= ts.take(k as int));
            k = k + 1;
        }
        assert(ts.take(k as int) =~= ts);
    }

    /// Stores `entry` under the id of its transaction.
    pub fn update(&mut self, entry: TxEntry)
        requires
            old(self).wf(),
        ensures
            final(self).wf(),
            final(self)@ == old(self)@.insert(entry@.tx.txid, entry@),
    {
        let txid = entry.txid();
        let ghost em = entry@;
        self.store.insert(txid, entry);
        assert(self@ =~= old(self)@.insert(txid, em));
    }

    /// A copy of the stored transaction with id `txid`, if any.
    pub fn inner_get(&self, txid: &Txid) -> (r: Option<Transaction>)
        requires
            self.wf(),
        ensures
            match r {
                Some(t) => self@.contains_key(*txid) && t@ == self@[*txid].tx,
                None => !self@.contains_key(*txid),
            },
    {
        match self.store.get(txid) {
            Some(e) => Some(e.tx.duplicate()),
            None => None,
        }
    }

    /// Drops the transaction with id `txid`, if stored.
    pub fn remove(&mut self, txid: &Txid)
        requires
            old(self).wf(),
        ensures
            final(self).wf(),
            final(self)@ == old(self)@.remove(*txid),
    {
        self.store.remove(txid);
        assert(self@ =~= old(self)@.remove(*txid));
    }

    /// Sets the height of the stored transaction with id `txid`.
    pub fn update_height(&mut self, txid: &Txid, height: Option<u64>)
        requires
            old(self).wf(),
            old(self)@.contains_key(*txid),
        ensures
            final(self).wf(),
            final(self)@ == old(self)@.insert(*txid, TxEntryModel { height, ..old(self)@[*txid] }),
    {
        let e = self.store.remove(txid);
        match e {
            Some(entry) => {
                let TxEntry { height: _, tx, merkle } = entry;
                let updated = TxEntry { height, tx, merkle };
                let ghost em = updated@;
                self.store.insert(*txid, updated);
                assert(self@ =~= old(self)@.insert(*txid, em));
            },
            None => {},
        }
    }
}

} // verus!
