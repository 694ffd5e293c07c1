//! Labels the user gives to coins, transactions and addresses.
use vstd::prelude::*;
use crate::chain::{OutPoint, Txid};

verus! {

/// What a label is attached to.
#[derive(Debug)]
pub enum LabelKey {
    OutPoint(OutPoint),
    Transaction(Txid),
    Address(String),
}

/// The abstract value of a label key.
pub enum LabelKeyModel {
    OutPoint(OutPoint),
    Transaction(Txid),
    Address(Seq<char>),
}

impl View for LabelKey {
    type V = LabelKeyModel;

    open spec fn view(&self) -> LabelKeyModel {
        match self {
            LabelKey::OutPoint(op) => LabelKeyModel::OutPoint(*op),
            LabelKey::Transaction(t) => LabelKeyModel::Transaction(*t),
            LabelKey::Address(a) => LabelKeyModel::Address(a@),
        }
    }
}

impl LabelKey {
    /// Whether both keys name the same thing.
    pub fn same(&self, other: &LabelKey) -> (r: bool)
        ensures
            r == (self@ == other@),
    {
        match (self, other) {
            (LabelKey::OutPoint(a), LabelKey::OutPoint(b)) => a.same(b),
            (LabelKey::Transaction(a), LabelKey::Transaction(b)) => a.same(b),
            (LabelKey::Address(a), LabelKey::Address(b)) => *a == *b,
            _ => false,
        }
    }
}

impl LabelKey {
    /// A copy naming the same thing.
    pub fn duplicate(&self) -> (r: LabelKey)
        ensures
            r@ == self@,
    {
        match self {
            LabelKey::OutPoint(op) => LabelKey::OutPoint(*op),
            LabelKey::Transaction(t) => LabelKey::Transaction(*t),
            LabelKey::Address(a) => LabelKey::Address(a.clone()),
        }
    }
}

/// The labels of the wallet, by key.
#[derive(Debug)]
pub struct LabelStore {
    store: Vec<(LabelKey, String)>,
}

/// The labels of `s`, by key.
pub open spec fn labels_map(s: Seq<(LabelKey, String)>) -> Map<LabelKeyModel, Seq<char>> {
    Map::new(
        |k: LabelKeyModel| exists|i: int| 0 <= i < s.len() && s[i].0@ == k,
        |k: LabelKeyModel| s[choose|i: int| 0 <= i < s.len() && s[i].0@ == k].1@,
    )
}

/// The keys of `s` are pairwise distinct.
pub open spec fn keys_unique(s: Seq<(LabelKey, String)>) -> bool {
    forall|i: int, j: int| 0 <= i < s.len() && 0 <= j < s.len() && i != j ==> s[i].0@ != s[j].0@
}

/// The labels once `key` is edited: set to `value`, or dropped when there
/// is none.
pub open spec fn edited(m: Map<LabelKeyModel, Seq<char>>, key: LabelKeyModel, value: Option<Seq<char>>) -> Map<LabelKeyModel, Seq<char>> {
    match value {
        Some(v) => m.insert(key, v),
        None => m.remove(key),
    }
}

/// In distinct keys, the entry at `i` is the label of its key.
proof fn lemma_labels_at(s: Seq<(LabelKey, String)>, i: int)
    requires
        keys_unique(s),
        0 <= i < s.len(),
    ensures
        labels_map(s).contains_key(s[i].0@),
        labels_map(s)[s[i].0@] == s[i].1@,
{
    assert(labels_map(s).dom().contains(s[i].0@));
    let j = choose|j: int| 0 <= j < s.len() && s[j].0@ == s[i].0@;
    assert(j == i);
}

impl View for LabelStore {
    type V = Map<LabelKeyModel, Seq<char>>;

    closed spec fn view(&self) -> Map<LabelKeyModel, Seq<char>> {
        labels_map(self.store@)
    }
}

impl LabelStore {
    /// Each key is labelled once.
    pub closed spec fn wf(&self) -> bool {
        keys_unique(self.store@)
    }

    /// A store with no label.
    pub fn new() -> (r: LabelStore)
        ensures
            r.wf(),
            r@ == Map::<LabelKeyModel, Seq<char>>::empty(),
    {
        let r = LabelStore { store: Vec::new() };
        assert(r@ =~= Map::<LabelKeyModel, Seq<char>>::empty());
        r
    }

    /// The position of the label of `key`, if any.
    fn find(&self, key: &LabelKey) -> (r: Option<usize>)
        ensures
            match r {
                Some(i) => i < self.store@.len() && self.store@[i as int].0@ == key@,
                None => forall|i: int| 0 <= i < self.store@.len() ==> (#[trigger] self.store@[i]).0@ != key@,
            },
    {
        let n = self.store.len();
        for i in 0..n
            invariant
                n == self.store@.len(),
                forall|j: int| 0 <= j < i ==> (#[trigger] self.store@[j]).0@ != key@,
        {
            if self.store[i].0.same(key) {
                return Some(i);
            }
        }
        None
    }

    /// The label of `key`, if any.
    pub fn get(&self, key: &LabelKey) -> (r: Option<String>)
        requires
            self.wf(),
        ensures
            match r {
                Some(v) => self@.contains_key(key@) && self@[key@] == v@,
                None => !self@.contains_key(key@),
            },
    {
        match self.find(key) {
            Some(i) => {
                proof { lemma_labels_at(self.store@, i as int); }
                Some(self.store[i].1.clone())
            },
            None => None,
        }
    }

    /// Sets the label of `key` to `value`, or drops it when there is none.
    pub fn edit(&mut self, key: LabelKey, value: Option<String>)
        requires
            old(self).wf(),
        ensures
            final(self).wf(),
            final(self)@ == edited(old(self)@, key@, match value {
                Some(v) => Some(v@),
                None => None,
            }),
    {
        match value {
            Some(v) => self.set(key, v),
            None => self.remove(key),
        }
    }

    /// Sets the label of `key` to `value`.
    fn set(&mut self, key: LabelKey, value: String)
        requires
            old(self).wf(),
        ensures
            final(self).wf(),
            final(self)@ == old(self)@.insert(key@, value@),
    {
        let ghost s0 = self.store@;
        let ghost k = key@;
        let ghost v = value@;
        match self.find(&key) {
            Some(i) => {
                self.store.remove(i);
                self.store.insert(i, (key, value));
                let ghost s1 = self.store@;
                assert(s1 =~= s0.update(i as int, s1[i as int]));
                assert(keys_unique(s1)) by {
                    assert forall|a: int, b: int| 0 <= a < s1.len() && 0 <= b < s1.len() && a != b
                        implies s1[a].0@ != s1[b].0@ by {
                        assert(s0[a].0@ != s0[b].0@);
                    }
                }
                assert forall|kk: LabelKeyModel| #[trigger] labels_map(s1).contains_key(kk)
                    <==> s0.len() >= 0 && old(self)@.insert(k, v).contains_key(kk) by {
                    if labels_map(s1).contains_key(kk) {
                        let j = choose|j: int| 0 <= j < s1.len() && s1[j].0@ == kk;
                        if j != i {
                            assert(s0[j] == s1[j]);
                        }
                    }
                    if old(self)@.contains_key(kk) {
                        let j = choose|j: int| 0 <= j < s0.len() && s0[j].0@ == kk;
                        if j != i {
                            assert(s0[j] == s1[j]);
                        } else {
                            assert(s1[i as int].0@ == k);
                        }
                    }
                    if kk == k {
                        assert(s1[i as int].0@ == k);
                    }
                }
                assert forall|kk: LabelKeyModel| #[trigger] labels_map(s1).contains_key(kk)
                    implies labels_map(s1)[kk] == old(self)@.insert(k, v)[kk] by {
                    let j = choose|j: int| 0 <= j < s1.len() && s1[j].0@ == kk;
                    lemma_labels_at(s1, j);
                    if j != i {
                        assert(s0[j] == s1[j]);
                        lemma_labels_at(s0, j);
                    }
                }
                assert(self@ =~= old(self)@.insert(k, v));
            },
            None => {
                self.store.push((key, value));
                let ghost s1 = self.store@;
                let ghost n = s0.len() as int;
                assert(keys_unique(s1)) by {
                    assert forall|a: int, b: int| 0 <= a < s1.len() && 0 <= b < s1.len() && a != b
                        implies s1[a].0@ != s1[b].0@ by {
                        if a < n && b < n {
                            assert(s0[a].0@ != s0[b].0@);
                        } else if a < n {
                            assert(s1[a] == s0[a]);
                        } else {
                            assert(s1[b] == s0[b]);
                        }
                    }
                }
                assert forall|kk: LabelKeyModel| #[trigger] labels_map(s1).contains_key(kk)
                    <==> old(self)@.insert(k, v).contains_key(kk) by {
                    if labels_map(s1).contains_key(kk) {
                        let j = choose|j: int| 0 <= j < s1.len() && s1[j].0@ == kk;
                        if j < n {
                            assert(s0[j] == s1[j]);
                        }
                    }
                    if old(self)@.contains_key(kk) {
                        let j = choose|j: int| 0 <= j < s0.len() && s0[j].0@ == kk;
                        assert(s0[j] == s1[j]);
                    }
                    if kk == k {
                        assert(s1[n].0@ == k);
                    }
                }
                assert forall|kk: LabelKeyModel| #[trigger] labels_map(s1).contains_key(kk)
                    implies labels_map(s1)[kk] == old(self)@.insert(k, v)[kk] by {
                    let j = choose|j: int| 0 <= j < s1.len() && s1[j].0@ == kk;
                    lemma_labels_at(s1, j);
                    if j < n {
                        assert(s0[j] == s1[j]);
                        lemma_labels_at(s0, j);
                    }
                }
                assert(self@ =~= old(self)@.insert(k, v));
            },
        }
    }

    /// Drops the label of `key`, if any.
    pub fn remove(&mut self, key: LabelKey)
        requires
            old(self).wf(),
        ensures
            final(self).wf(),
            final(self)@ == old(self)@.remove(key@),
    {
        let ghost s0 = self.store@;
        let ghost k = key@;
        match self.find(&key) {
            Some(i) => {
                self.store.remove(i);
                let ghost s1 = self.store@;
                assert(s1 =~= s0.remove(i as int));
                assert(keys_unique(s1)) by {
                    assert forall|a: int, b: int| 0 <= a < s1.len() && 0 <= b < s1.len() && a != b
                        implies s1[a].0@ != s1[b].0@ by {
                        let a0 = if a < i { a } else { a + 1 };
                        let b0 = if b < i { b } else { b + 1 };
                        assert(s1[a] == s0[a0] && s1[b] == s0[b0]);
                        assert(s0[a0].0@ != s0[b0].0@);
                    }
                }
                assert forall|kk: LabelKeyModel| #[trigger] labels_map(s1).contains_key(kk)
                    <==> old(self)@.remove(k).contains_key(kk) by {
                    if labels_map(s1).contains_key(kk) {
                        let j = choose|j: int| 0 <= j < s1.len() && s1[j].0@ == kk;
                        let j0 = if j < i { j } else { j + 1 };
                        assert(s1[j] == s0[j0]);
                        assert(s0[j0].0@ != s0[i as int].0@);
                    }
                    if old(self)@.contains_key(kk) && kk != k {
                        let j = choose|j: int| 0 <= j < s0.len() && s0[j].0@ == kk;
                        if j < i {
                            assert(s1[j] == s0[j]);
                        } else {
                            assert(j != i);
                            assert(s1[j - 1] == s0[j]);
                        }
                    }
                }
                assert forall|kk: LabelKeyModel| #[trigger] labels_map(s1).contains_key(kk)
                    implies labels_map(s1)[kk] == old(self)@.remove(k)[kk] by {
                    let j = choose|j: int| 0 <= j < s1.len() && s1[j].0@ == kk;
                    lemma_labels_at(s1, j);
                    let j0 = if j < i { j } else { j + 1 };
                    assert(s1[j] == s0[j0]);
                    lemma_labels_at(s0, j0);
                }
                assert(self@ =~= old(self)@.remove(k));
            },
            None => {
                assert(!old(self)@.contains_key(k));
                assert(self@ =~= old(self)@.remove(k));
            },
        }
    }

    /// Copies of the labels, each key once.
    pub fn labels(&self) -> (r: Vec<(LabelKey, String)>)
        requires
            self.wf(),
        ensures
            keys_unique(r@),
            labels_map(r@) == self@,
    {
        let mut r: Vec<(LabelKey, String)> = Vec::new();
        let n = self.store.len();
        for i in 0..n
            invariant
                n == self.store@.len(),
                r@.len() == i,
                forall|j: int| 0 <= j < i ==> (#[trigger] r@[j]).0@ == self.store@[j].0@ && r@[j].1@ == self.store@[j].1@,
        {
            let e = &self.store[i];
            r.push((e.0.duplicate(), e.1.clone()));
        }
        let ghost s = self.store@;
        assert(keys_unique(r@)) by {
            assert forall|a: int, b: int| 0 <= a < r@.len() && 0 <= b < r@.len() && a != b
                implies r@[a].0@ != r@[b].0@ by {
                assert(s[a].0@ != s[b].0@);
            }
        }
        assert forall|k: LabelKeyModel| #[trigger] labels_map(r@).contains_key(k) <==> labels_map(s).contains_key(k) by {
            if labels_map(r@).contains_key(k) {
                let j = choose|j: int| 0 <= j < r@.len() && r@[j].0@ == k;
                assert(s[j].0@ == k);
            }
            if labels_map(s).contains_key(k) {
                let j = choose|j: int| 0 <= j < s.len() && s[j].0@ == k;
                assert(r@[j].0@ == k);
            }
        }
        assert forall|k: LabelKeyModel| #[trigger] labels_map(r@).contains_key(k) implies labels_map(r@)[k] == labels_map(s)[k] by {
            let j = choose|j: int| 0 <= j < r@.len() && r@[j].0@ == k;
            lemma_labels_at(r@, j);
            lemma_labels_at(s, j);
        }
        assert(labels_map(r@) =~= labels_map(s));
        r
    }

    /// The label of the address `address`, if any.
    pub fn address(&self, address: String) -> (r: Option<String>)
        requires
            self.wf(),
        ensures
            match r {
                Some(v) => self@.contains_key(LabelKeyModel::Address(address@))
                    && self@[LabelKeyModel::Address(address@)] == v@,
                None => !self@.contains_key(LabelKeyModel::Address(address@)),
            },
    {
        self.get(&LabelKey::Address(address))
    }

    /// The label of the coin at `outpoint`, if any.
    pub fn outpoint(&self, outpoint: OutPoint) -> (r: Option<String>)
        requires
            self.wf(),
        ensures
            match r {
                Some(v) => self@.contains_key(LabelKeyModel::OutPoint(outpoint))
                    && self@[LabelKeyModel::OutPoint(outpoint)] == v@,
                None => !self@.contains_key(LabelKeyModel::OutPoint(outpoint)),
            },
    {
        self.get(&LabelKey::OutPoint(outpoint))
    }

    /// The label of the transaction `txid`, if any.
    pub fn transaction(&self, txid: Txid) -> (r: Option<String>)
        requires
            self.wf(),
        ensures
            match r {
                Some(v) => self@.contains_key(LabelKeyModel::Transaction(txid))
                    && self@[LabelKeyModel::Transaction(txid)] == v@,
                None => !self@.contains_key(LabelKeyModel::Transaction(txid)),
            },
    {
        self.get(&LabelKey::Transaction(txid))
    }
}

/// After a label is set, reading its key gives it back, and every other key
/// keeps its label.
pub proof fn law_label_set_then_get(m: Map<LabelKeyModel, Seq<char>>, key: LabelKeyModel, value: Seq<char>, other: LabelKeyModel)
    ensures
        edited(m, key, Some(value)).contains_key(key),
        edited(m, key, Some(value))[key] == value,
        other != key ==> (edited(m, key, Some(value)).contains_key(other) == m.contains_key(other)),
        other != key && m.contains_key(other) ==> edited(m, key, Some(value))[other] == m[other],
{
}

/// After a label is dropped, its key has none, and every other key keeps its
/// label.
pub proof fn law_label_drop_then_get(m: Map<LabelKeyModel, Seq<char>>, key: LabelKeyModel, other: LabelKeyModel)
    ensures
        !edited(m, key, None).contains_key(key),
        other != key ==> (edited(m, key, None).contains_key(other) == m.contains_key(other)),
        other != key && m.contains_key(other) ==> edited(m, key, None)[other] == m[other],
{
}

} // verus!
