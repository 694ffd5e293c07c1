//! A map keyed by transaction id whose entries are kept in increasing id
//! order, so that walking it visits the ids as an ordered map would.
use vstd::prelude::*;
use crate::chain::{Txid, txid_lt};

verus! {

/// The keys of `s` strictly increase.
pub open spec fn sorted_keys<V>(s: Seq<(Txid, V)>) -> bool {
    forall|i: int, j: int| 0 <= i < j < s.len() ==> txid_lt(s[i].0, s[j].0)
}

/// Some entry of `s` has the key `k`.
pub open spec fn has_key<V>(s: Seq<(Txid, V)>, k: Txid) -> bool {
    exists|i: int| 0 <= i < s.len() && s[i].0 == k
}

/// The position of an entry of `s` with the key `k`.
pub open spec fn key_index<V>(s: Seq<(Txid, V)>, k: Txid) -> int {
    choose|i: int| 0 <= i < s.len() && s[i].0 == k
}

/// The map that the entries of `s` describe.
pub open spec fn seq_map<V>(s: Seq<(Txid, V)>) -> Map<Txid, V> {
    Map::new(|k: Txid| has_key(s, k), |k: Txid| s[key_index(s, k)].1)
}

/// The map built by inserting the pairs of `s` in order: a later pair with
/// the same id replaces an earlier one.
pub open spec fn pairs_to_map<V>(s: Seq<(Txid, V)>) -> Map<Txid, V>
    decreases s.len(),
{
    if s.len() == 0 {
        Map::empty()
    } else {
        pairs_to_map(s.drop_last()).insert(s.last().0, s.last().1)
    }
}

/// In a sorted sequence, the entry at `i` is what the map holds for its key.
pub proof fn lemma_seq_map_index<V>(s: Seq<(Txid, V)>, i: int)
    requires
        sorted_keys(s),
        0 <= i < s.len(),
    ensures
        seq_map(s).contains_key(s[i].0),
        seq_map(s)[s[i].0] == s[i].1,
{
    assert(has_key(s, s[i].0));
    let j = key_index(s, s[i].0);
    if j != i {
        if j < i {
            assert(txid_lt(s[j].0, s[i].0));
        } else {
            assert(txid_lt(s[i].0, s[j].0));
        }
    }
}

/// Taking one more entry of a sorted sequence adds that entry's key, which
/// the shorter prefix does not hold.
pub proof fn lemma_seq_map_take<V>(s: Seq<(Txid, V)>, i: int)
    requires
        sorted_keys(s),
        0 <= i < s.len(),
    ensures
        sorted_keys(s.take(i)),
        sorted_keys(s.take(i + 1)),
        !seq_map(s.take(i)).contains_key(s[i].0),
        seq_map(s.take(i + 1)) == seq_map(s.take(i)).insert(s[i].0, s[i].1),
{
    let a = s.take(i);
    let b = s.take(i + 1);
    assert(sorted_keys(a));
    assert(sorted_keys(b));
    if seq_map(a).contains_key(s[i].0) {
        let j = key_index(a, s[i].0);
        assert(txid_lt(s[j].0, s[i].0));
    }
    assert forall|key: Txid| #![auto] seq_map(b).contains_key(key)
        == seq_map(a).insert(s[i].0, s[i].1).contains_key(key) by {
        if seq_map(a).contains_key(key) {
            let j = key_index(a, key);
            assert(b[j].0 == key);
        } else if key == s[i].0 {
            assert(b[i].0 == key);
        } else if seq_map(b).contains_key(key) {
            let j = key_index(b, key);
            assert(a[j].0 == key);
        }
    }
    assert forall|key: Txid| #![auto] seq_map(b).contains_key(key)
        implies seq_map(b)[key] == seq_map(a).insert(s[i].0, s[i].1)[key] by {
        let j = key_index(b, key);
        lemma_seq_map_index(b, j);
        if j < i {
            lemma_seq_map_index(a, j);
        }
    }
    assert(seq_map(b) =~= seq_map(a).insert(s[i].0, s[i].1));
}

/// The whole sequence is its longest prefix.
pub proof fn lemma_seq_map_full<V>(s: Seq<(Txid, V)>)
    ensures
        s.take(s.len() as int) == s,
        s.take(0) == Seq::<(Txid, V)>::empty(),
        seq_map(Seq::<(Txid, V)>::empty()) == Map::<Txid, V>::empty(),
{
    assert(s.take(s.len() as int) =~= s);
    assert(s.take(0) =~= Seq::<(Txid, V)>::empty());
    assert(seq_map(Seq::<(Txid, V)>::empty()) =~= Map::<Txid, V>::empty());
}

/// A finite map from transaction id to `V`, stored as a vector sorted by id.
#[derive(Debug)]
pub struct TxidMap<V> {
    entries: Vec<(Txid, V)>,
}

impl<V> View for TxidMap<V> {
    type V = Map<Txid, V>;

    open spec fn view(&self) -> Map<Txid, V> {
        seq_map(self.seq())
    }
}

impl<V> TxidMap<V> {
    /// The entries, in increasing id order.
    pub closed spec fn seq(&self) -> Seq<(Txid, V)> {
        self.entries@
    }

    /// The entries are sorted by id, each id once.
    pub open spec fn wf(&self) -> bool {
        sorted_keys(self.seq())
    }

    /// An empty map.
    pub fn new() -> (r: TxidMap<V>)
        ensures
            r.wf(),
            r.seq().len() == 0,
            r@ == Map::<Txid, V>::empty(),
    {
        let r = TxidMap { entries: Vec::new() };
        assert(r@ =~= Map::<Txid, V>::empty());
        r
    }

    /// The number of entries.
    pub fn len(&self) -> (r: usize)
        requires
            self.wf(),
        ensures
            r == self.seq().len(),
            r == self@.len(),
            self@.dom().finite(),
    {
        proof { self.lemma_len(); }
        self.entries.len()
    }

    /// The map's domain is finite and has as many ids as there are entries.
    pub proof fn lemma_len(&self)
        requires
            self.wf(),
        ensures
            self@.dom().finite(),
            self@.len() == self.seq().len(),
            self.seq().len() == 0 <==> self@ =~= Map::<Txid, V>::empty(),
        decreases self.seq().len(),
    {
        let s = self.seq();
        let keys = s.map_values(|e: (Txid, V)| e.0);
        assert(self@.dom() =~= keys.to_set()) by {
            assert forall|k: Txid| self@.dom().contains(k) implies keys.to_set().contains(k) by {
                let i = key_index(s, k);
                assert(keys[i] == k);
            }
            assert forall|k: Txid| keys.to_set().contains(k) implies self@.dom().contains(k) by {
                let i = choose|i: int| 0 <= i < keys.len() && keys[i] == k;
                assert(s[i].0 == k);
            }
        }
        assert(keys.no_duplicates()) by {
            assert forall|i: int, j: int| 0 <= i < keys.len() && 0 <= j < keys.len() && i != j
                implies keys[i] != keys[j] by {
                if i < j {
                    assert(txid_lt(s[i].0, s[j].0));
                } else {
                    assert(txid_lt(s[j].0, s[i].0));
                }
            }
        }
        keys.unique_seq_to_set();
        if s.len() == 0 {
            assert(self@ =~= Map::<Txid, V>::empty());
        } else {
            lemma_seq_map_index(s, 0);
        }
    }

    /// The position of the entry with id `k`, if there is one.
    pub fn find(&self, k: &Txid) -> (r: Option<usize>)
        requires
            self.wf(),
        ensures
            match r {
                Some(i) => i < self.seq().len() && self.seq()[i as int].0 == *k && self@.contains_key(*k)
                    && self@[*k] == self.seq()[i as int].1,
                None => !self@.contains_key(*k),
            },
    {
        let n = self.entries.len();
        let mut i: usize = 0;
        while i < n
            invariant
                n == self.entries@.len(),
                self.wf(),
                i <= n,
                forall|j: int| 0 <= j < i ==> self.entries@[j].0 != *k,
            decreases n - i,
        {
            if self.entries[i].0.same(k) {
                proof { lemma_seq_map_index(self.seq(), i as int); }
                return Some(i);
            }
            i = i + 1;
        }
        None
    }

    /// Whether some entry has the id `k`.
    pub fn contains(&self, k: &Txid) -> (r: bool)
        requires
            self.wf(),
        ensures
            r == self@.contains_key(*k),
    {
        self.find(k).is_some()
    }

    /// The value kept for `k`, if any.
    pub fn get(&self, k: &Txid) -> (r: Option<&V>)
        requires
            self.wf(),
        ensures
            r == (if self@.contains_key(*k) { Some(&self@[*k]) } else { None }),
    {
        match self.find(k) {
            Some(i) => Some(&self.entries[i].1),
            None => None,
        }
    }

    /// The entry at position `i`.
    pub fn entry_at(&self, i: usize) -> (r: &(Txid, V))
        requires
            self.wf(),
            i < self.seq().len(),
        ensures
            *r == self.seq()[i as int],
            self@.contains_key(r.0),
            self@[r.0] == r.1,
    {
        proof { lemma_seq_map_index(self.seq(), i as int); }
        &self.entries[i]
    }

    /// Every entry of the map stands at some position.
    pub proof fn lemma_key_at(&self, k: Txid) -> (i: int)
        requires
            self.wf(),
            self@.contains_key(k),
        ensures
            0 <= i < self.seq().len(),
            self.seq()[i].0 == k,
            self.seq()[i].1 == self@[k],
    {
        let i = key_index(self.seq(), k);
        lemma_seq_map_index(self.seq(), i);
        i
    }

    /// Sets the value of `k` to `v`, adding the id if it is new.
    pub fn insert(&mut self, k: Txid, v: V)
        requires
            old(self).wf(),
        ensures
            final(self).wf(),
            final(self)@ == old(self)@.insert(k, v),
    {
        let ghost s = self.entries@;
        let n = self.entries.len();
        let mut p: usize = 0;
        while p < n && self.entries[p].0.less_than(&k)
            invariant
                n == self.entries@.len(),
                self.entries@ == s,
                sorted_keys(s),
                p <= n,
                forall|j: int| 0 <= j < p ==> txid_lt(s[j].0, k),
            decreases n - p,
        {
            p = p + 1;
        }
        // every entry from `p` on has an id that is not below `k`
        assert forall|j: int| p <= j < n implies !txid_lt(s[j].0, k) by {
            if p < j {
                assert(txid_lt(s[p as int].0, s[j].0));
            }
        }
        if p < n && self.entries[p].0.same(&k) {
            self.entries.remove(p);
            self.entries.insert(p, (k, v));
            let ghost t = self.entries@;
            assert(t =~= s.update(p as int, (k, v)));
            assert(sorted_keys(t));
            assert forall|key: Txid| #![auto] seq_map(t).contains_key(key)
                == seq_map(s).insert(k, v).contains_key(key) by {
                if key == k {
                    assert(t[p as int].0 == k);
                } else if seq_map(s).contains_key(key) {
                    let i = key_index(s, key);
                    assert(t[i].0 == key);
                } else if seq_map(t).contains_key(key) {
                    let i = key_index(t, key);
                    assert(s[i].0 == key);
                }
            }
            assert forall|key: Txid| #![auto] seq_map(t).contains_key(key)
                implies seq_map(t)[key] == seq_map(s).insert(k, v)[key] by {
                let i = key_index(t, key);
                lemma_seq_map_index(t, i);
                if key != k {
                    lemma_seq_map_index(s, i);
                }
            }
            assert(seq_map(t) =~= seq_map(s).insert(k, v));
        } else {
            assert forall|j: int| p <= j < n implies txid_lt(k, s[j].0) by {
                if j == p {
                    assert(s[j].0 != k);
                } else {
                    assert(txid_lt(s[p as int].0, s[j].0));
                }
            }
            self.entries.insert(p, (k, v));
            let ghost t = self.entries@;
            assert(t =~= s.insert(p as int, (k, v)));
            assert(sorted_keys(t)) by {
                assert forall|i: int, j: int| 0 <= i < j < t.len() implies txid_lt(t[i].0, t[j].0) by {
                    if j < p {
                    } else if j == p {
                    } else if i < p {
                        assert(txid_lt(s[i].0, k));
                        assert(txid_lt(k, s[j - 1].0));
                    } else if i == p {
                    } else {
                        assert(txid_lt(s[i - 1].0, s[j - 1].0));
                    }
                }
            }
            assert forall|key: Txid| #![auto] seq_map(t).contains_key(key)
                == seq_map(s).insert(k, v).contains_key(key) by {
                if key == k {
                    assert(t[p as int].0 == k);
                } else if seq_map(s).contains_key(key) {
                    let i = key_index(s, key);
                    if i < p {
                        assert(t[i].0 == key);
                    } else {
                        assert(t[i + 1].0 == key);
                    }
                } else if seq_map(t).contains_key(key) {
                    let i = key_index(t, key);
                    if i < p {
                        assert(s[i].0 == key);
                    } else {
                        assert(s[i - 1].0 == key);
                    }
                }
            }
            assert forall|key: Txid| #![auto] seq_map(t).contains_key(key)
                implies seq_map(t)[key] == seq_map(s).insert(k, v)[key] by {
                let i = key_index(t, key);
                lemma_seq_map_index(t, i);
                if key != k {
                    if i < p {
                        lemma_seq_map_index(s, i);
                    } else {
                        lemma_seq_map_index(s, i - 1);
                    }
                }
            }
            assert(seq_map(t) =~= seq_map(s).insert(k, v));
        }
    }

    /// Drops the entry of `k`, if any, and hands its value back.
    pub fn remove(&mut self, k: &Txid) -> (r: Option<V>)
        requires
            old(self).wf(),
        ensures
            final(self).wf(),
            final(self)@ == old(self)@.remove(*k),
            r == (if old(self)@.contains_key(*k) { Some(old(self)@[*k]) } else { None }),
    {
        let ghost s = self.entries@;
        match self.find(k) {
            None => {
                assert(self@ =~= seq_map(s).remove(*k));
                None
            },
            Some(p) => {
                let e = self.entries.remove(p);
                let ghost t = self.entries@;
                assert(t =~= s.remove(p as int));
                assert(sorted_keys(t)) by {
                    assert forall|i: int, j: int| 0 <= i < j < t.len() implies txid_lt(t[i].0, t[j].0) by {
                        if j < p {
                        } else if i < p {
                            assert(txid_lt(s[i].0, s[j + 1].0));
                        } else {
                            assert(txid_lt(s[i + 1].0, s[j + 1].0));
                        }
                    }
                }
                assert forall|key: Txid| #![auto] seq_map(t).contains_key(key)
                    == seq_map(s).remove(*k).contains_key(key) by {
                    if seq_map(s).contains_key(key) && key != *k {
                        let i = key_index(s, key);
                        if i < p {
                            assert(t[i].0 == key);
                        } else {
                            assert(i != p);
                            assert(t[i - 1].0 == key);
                        }
                    } else if seq_map(t).contains_key(key) {
                        let i = key_index(t, key);
                        if i < p {
                            assert(s[i].0 == key);
                            assert(txid_lt(s[i].0, s[p as int].0));
                        } else {
                            assert(s[i + 1].0 == key);
                            assert(txid_lt(s[p as int].0, s[i + 1].0));
                        }
                    }
                }
                assert forall|key: Txid| #![auto] seq_map(t).contains_key(key)
                    implies seq_map(t)[key] == seq_map(s).remove(*k)[key] by {
                    let i = key_index(t, key);
                    lemma_seq_map_index(t, i);
                    if i < p {
                        lemma_seq_map_index(s, i);
                        assert(txid_lt(s[i].0, s[p as int].0));
                    } else {
                        lemma_seq_map_index(s, i + 1);
                        assert(txid_lt(s[p as int].0, s[i + 1].0));
                    }
                }
                assert(seq_map(t) =~= seq_map(s).remove(*k));
                Some(e.1)
            },
        }
    }
}

impl<V: Copy> TxidMap<V> {
    /// A copy with the same entries.
    pub fn duplicate(&self) -> (r: TxidMap<V>)
        requires
            self.wf(),
        ensures
            r.wf(),
            r.seq() == self.seq(),
            r@ == self@,
    {
        let mut entries: Vec<(Txid, V)> = Vec::new();
        let n = self.entries.len();
        for i in 0..n
            invariant
                n == self.entries@.len(),
                entries@ == self.entries@.take(i as int),
        {
            let e = self.entries[i];
            entries.push(e);
            assert(entries@ =~= self.entries@.take(i + 1));
        }
        assert(entries@ =~= self.entries@);
        TxidMap { entries }
    }
}

} // verus!
