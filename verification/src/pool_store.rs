//! The coinjoin pools heard of, with their status and the wallet's part in
//! them.
use vstd::prelude::*;
use crate::types::{PoolStatus, RustPool, RustPoolModel};
use crate::signal::{Error, JoinstrNotif};

verus! {

/// Strict order on texts: character by character, a proper prefix first.
pub open spec fn text_lt(a: Seq<char>, b: Seq<char>) -> bool
    decreases a.len(),
{
    if a.len() == 0 {
        b.len() > 0
    } else if b.len() == 0 {
        false
    } else if a[0] != b[0] {
        (a[0] as int) < (b[0] as int)
    } else {
        text_lt(a.drop_first(), b.drop_first())
    }
}

/// Of two different texts, one comes first.
pub proof fn lemma_text_total(a: Seq<char>, b: Seq<char>)
    requires
        a != b,
    ensures
        text_lt(a, b) || text_lt(b, a),
    decreases a.len(),
{
    if a.len() == 0 && b.len() == 0 {
        assert(a =~= b);
    }
    if a.len() > 0 && b.len() > 0 && a[0] == b[0] {
        if a.drop_first() == b.drop_first() {
            assert(a =~= seq![a[0]] + a.drop_first());
            assert(b =~= seq![b[0]] + b.drop_first());
        }
        lemma_text_total(a.drop_first(), b.drop_first());
    }
}

/// Whether `a` comes strictly before `b`.
pub fn text_less(a: &str, b: &str) -> (r: bool)
    ensures
        r == text_lt(a@, b@),
{
    let n = a.unicode_len();
    let m = b.unicode_len();
    let mut i: usize = 0;
    assert(a@.skip(0) =~= a@);
    assert(b@.skip(0) =~= b@);
    while i < n && i < m
        invariant
            n == a@.len(),
            m == b@.len(),
            i <= n,
            i <= m,
            text_lt(a@, b@) == text_lt(a@.skip(i as int), b@.skip(i as int)),
        decreases n - i,
    {
        let x = a.get_char(i);
        let y = b.get_char(i);
        let ghost sa = a@.skip(i as int);
        let ghost sb = b@.skip(i as int);
        assert(sa[0] == x && sb[0] == y);
        if x != y {
            return (x as u32) < (y as u32);
        }
        assert(sa.drop_first() =~= a@.skip(i + 1));
        assert(sb.drop_first() =~= b@.skip(i + 1));
        i = i + 1;
    }
    i < m && i == n
}

/// How a pool's fee is set.
#[derive(Debug, Clone, Copy, PartialEq, Eq, Structural)]
pub enum PoolFee {
    /// A fixed amount.
    Fixed(u32),
    /// Set by a provider.
    Provider,
}

/// How a pool's deadline is set.
#[derive(Debug, Clone, Copy, PartialEq, Eq, Structural)]
pub enum PoolTimeline {
    /// A plain timestamp.
    Simple(u64),
    /// Any other schedule.
    Other,
}

/// The terms of a pool as announced.
#[derive(Debug)]
pub struct PoolPayload {
    pub denomination: u64,
    pub peers: usize,
    pub relays: Vec<String>,
    pub fee: PoolFee,
    pub timeout: PoolTimeline,
}

/// An announced pool: its id and its terms when announced with them.
#[derive(Debug)]
pub struct PoolInfo {
    pub id: String,
    pub payload: Option<PoolPayload>,
}

/// The abstract value of a pool's terms.
pub struct PoolPayloadModel {
    pub denomination: u64,
    pub peers: usize,
    pub relays: Seq<Seq<char>>,
    pub fee: PoolFee,
    pub timeout: PoolTimeline,
}

/// The abstract value of an announced pool.
pub struct PoolInfoModel {
    pub id: Seq<char>,
    pub payload: Option<PoolPayloadModel>,
}

impl View for PoolInfo {
    type V = PoolInfoModel;

    open spec fn view(&self) -> PoolInfoModel {
        PoolInfoModel {
            id: self.id@,
            payload: match &self.payload {
                Some(p) => Some(PoolPayloadModel {
                    denomination: p.denomination,
                    peers: p.peers,
                    relays: p.relays@.map_values(|r: String| r@),
                    fee: p.fee,
                    timeout: p.timeout,
                }),
                None => None,
            },
        }
    }
}

impl PoolInfo {
    /// A copy with the same id and terms.
    pub fn duplicate(&self) -> (r: PoolInfo)
        ensures
            r@ == self@,
    {
        let payload = match &self.payload {
            Some(p) => {
                let relays = p.relays.clone();
                assert(relays@.map_values(|r: String| r@) =~= p.relays@.map_values(|r: String| r@));
                Some(PoolPayload { denomination: p.denomination, peers: p.peers, relays, fee: p.fee, timeout: p.timeout })
            },
            None => None,
        };
        PoolInfo { id: self.id.clone(), payload }
    }
}

/// The wallet's part in a pool.
#[derive(Debug, Clone, Copy, PartialEq, Eq, Structural)]
pub enum PoolRole {
    Unset,
    Initiator,
    Peer,
}

/// A pool with its status, the wallet's part in it, and whether a coinjoin
/// is running for it.
#[derive(Debug)]
pub struct PoolEntry {
    pub status: PoolStatus,
    pub pool: PoolInfo,
    pub role: PoolRole,
    pub running: bool,
}

/// The abstract value of a pool entry.
pub struct PoolEntryModel {
    pub status: PoolStatus,
    pub pool: PoolInfoModel,
    pub role: PoolRole,
    pub running: bool,
}

impl View for PoolEntry {
    type V = PoolEntryModel;

    open spec fn view(&self) -> PoolEntryModel {
        PoolEntryModel { status: self.status, pool: self.pool@, role: self.role, running: self.running }
    }
}

/// A pool entry can be shown: it has terms, a relay, a fixed fee and a
/// plain deadline.
pub open spec fn showable(e: PoolEntryModel) -> bool {
    &&& e.pool.payload is Some
    &&& e.pool.payload->0.relays.len() > 0
    &&& e.pool.payload->0.fee is Fixed
    &&& e.pool.payload->0.timeout is Simple
}

/// How a pool entry is shown.
pub open spec fn shown(e: PoolEntryModel) -> RustPoolModel {
    let p = e.pool.payload->0;
    RustPoolModel {
        denomination: p.denomination,
        total_peers: p.peers,
        current_peers: 0,
        relay: p.relays[0],
        fees: p.fee->Fixed_0,
        id: e.pool.id,
        status: e.status,
        timeout: p.timeout->Simple_0,
    }
}

impl PoolEntry {
    /// The id of the pool.
    pub fn pool_id(&self) -> (r: String)
        ensures
            r@ == self@.pool.id,
    {
        self.pool.id.clone()
    }

    /// The status.
    pub fn status(&self) -> (r: PoolStatus)
        ensures
            r == self@.status,
    {
        self.status
    }

    /// A copy of the pool.
    pub fn pool(&self) -> (r: PoolInfo)
        ensures
            r@ == self@.pool,
    {
        self.pool.duplicate()
    }

    /// A copy with the same fields.
    pub fn duplicate(&self) -> (r: PoolEntry)
        ensures
            r@ == self@,
    {
        PoolEntry { status: self.status, pool: self.pool.duplicate(), role: self.role, running: self.running }
    }

    /// The pool as shown to the user.
    pub fn to_rust_pool(&self) -> (r: RustPool)
        requires
            showable(self@),
        ensures
            r@ == shown(self@),
    {
        let p = match &self.pool.payload {
            Some(p) => p,
            None => {
                proof { assert(false); }
                return RustPool {
                    denomination: 0,
                    total_peers: 0,
                    current_peers: 0,
                    relay: String::new(),
                    fees: 0,
                    id: String::new(),
                    status: self.status,
                    timeout: 0,
                };
            },
        };
        let fees = match p.fee {
            PoolFee::Fixed(f) => f,
            PoolFee::Provider => 0,
        };
        let timeout = match p.timeout {
            PoolTimeline::Simple(t) => t,
            PoolTimeline::Other => 0,
        };
        assert(p.relays@.map_values(|r: String| r@)[0] == p.relays@[0]@);
        RustPool {
            denomination: p.denomination,
            total_peers: p.peers,
            current_peers: 0,
            relay: p.relays[0].clone(),
            fees,
            id: self.pool.id.clone(),
            status: self.status,
            timeout,
        }
    }
}

/// The ids of `s` are distinct, and each comes before the next.
pub open spec fn pools_ordered(s: Seq<PoolEntryModel>) -> bool {
    &&& forall|i: int, j: int| 0 <= i < s.len() && 0 <= j < s.len() && i != j ==> s[i].pool.id != s[j].pool.id
    &&& forall|i: int| 0 <= i < s.len() - 1 ==> text_lt(#[trigger] s[i].pool.id, s[i + 1].pool.id)
}

/// The position of the pool `id` in `s`, when there is one.
pub open spec fn has_pool(s: Seq<PoolEntryModel>, id: Seq<char>) -> bool {
    exists|i: int| 0 <= i < s.len() && s[i].pool.id == id
}

/// The pools once `pool` is heard of with `status`: a new pool is added,
/// in id order, with no part taken and nothing running; a known pool in
/// which the wallet takes no part and runs nothing takes the status.
pub open spec fn pool_updated(s: Seq<PoolEntryModel>, pool: PoolInfoModel, status: PoolStatus, r: Seq<PoolEntryModel>, updated: bool) -> bool {
    if has_pool(s, pool.id) {
        let i = choose|i: int| 0 <= i < s.len() && s[i].pool.id == pool.id;
        let e = s[i];
        if e.role == PoolRole::Unset && !e.running && e.status != status {
            updated && r == s.update(i, PoolEntryModel { status, ..e })
        } else {
            !updated && r == s
        }
    } else {
        &&& !updated
        &&& r.len() == s.len() + 1
        &&& pools_ordered(r)
        &&& exists|p: int| 0 <= p <= s.len() && r == s.insert(p, PoolEntryModel { status, pool, role: PoolRole::Unset, running: false })
    }
}

/// The pools, in id order.
#[derive(Debug)]
pub struct PoolStore {
    store: Vec<PoolEntry>,
}

impl View for PoolStore {
    type V = Seq<PoolEntryModel>;

    closed spec fn view(&self) -> Seq<PoolEntryModel> {
        self.store@.map_values(|e: PoolEntry| e@)
    }
}

impl PoolStore {
    /// No pool.
    pub fn new() -> (r: PoolStore)
        ensures
            r@ == Seq::<PoolEntryModel>::empty(),
    {
        let r = PoolStore { store: Vec::new() };
        assert(r@ =~= Seq::<PoolEntryModel>::empty());
        r
    }

    /// The position of the pool `id`, if any.
    fn find(&self, id: &str) -> (r: Option<usize>)
        ensures
            match r {
                Some(i) => i < self@.len() && self@[i as int].pool.id == id@,
                None => !has_pool(self@, id@),
            },
    {
        let key = id.to_string();
        let n = self.store.len();
        for i in 0..n
            invariant
                n == self@.len(),
                key@ == id@,
                forall|j: int| 0 <= j < i ==> (#[trigger] self@[j]).pool.id != id@,
        {
            if self.store[i].pool.id == key {
                return Some(i);
            }
        }
        None
    }

    /// Records that `pool` is announced with `status`. A new pool is added
    /// with no part taken; a known pool takes the status only when the
    /// wallet takes no part in it and runs nothing for it. Returns whether
    /// a known pool changed status.
    #[verifier::rlimit(40)]
    pub fn update(&mut self, pool: PoolInfo, status: PoolStatus) -> (updated: bool)
        requires
            pools_ordered(old(self)@),
        ensures
            pools_ordered(final(self)@),
            pool_updated(old(self)@, pool@, status, final(self)@, updated),
    {
        let ghost s = self@;
        match self.find(pool.id.as_str()) {
            Some(i) => {
                let ghost j = choose|j: int| 0 <= j < s.len() && s[j].pool.id == pool@.id;
                assert(j == i) by {
                    if j != i {
                        assert(s[j].pool.id != s[i as int].pool.id);
                    }
                }
                if self.store[i].role == PoolRole::Unset && !self.store[i].running && self.store[i].status != status {
                    let mut e = self.store.remove(i);
                    e.status = status;
                    self.store.insert(i, e);
                    assert(self@ =~= s.update(i as int, PoolEntryModel { status, ..s[i as int] }));
                    true
                } else {
                    false
                }
            },
            None => {
                let entry = PoolEntry { status, pool, role: PoolRole::Unset, running: false };
                self.insert_new(entry);
                false
            },
        }
    }

    /// Adds `entry`, whose pool is not known yet, in id order.
    #[verifier::spinoff_prover]
    #[verifier::rlimit(40)]
    fn insert_new(&mut self, entry: PoolEntry)
        requires
            pools_ordered(old(self)@),
            !has_pool(old(self)@, entry@.pool.id),
        ensures
            pools_ordered(final(self)@),
            final(self)@.len() == old(self)@.len() + 1,
            exists|p: int| 0 <= p <= old(self)@.len() && final(self)@ == old(self)@.insert(p, entry@),
    {
        let ghost s = self@;
        let ghost em = entry@;
        let n = self.store.len();
        let mut p: usize = 0;
        while p < n && text_less(self.store[p].pool.id.as_str(), entry.pool.id.as_str())
            invariant
                n == s.len(),
                self@ == s,
                pools_ordered(s),
                !has_pool(s, em.pool.id),
                p <= n,
                em == entry@,
                p > 0 ==> text_lt(s[p - 1].pool.id, em.pool.id),
            decreases n - p,
        {
            p = p + 1;
        }
        if p < n {
            proof {
                assert(s[p as int].pool.id != em.pool.id);
                lemma_text_total(s[p as int].pool.id, em.pool.id);
            }
        }
        self.store.insert(p, entry);
        let ghost r = self@;
        assert(r =~= s.insert(p as int, em));
        assert(pools_ordered(r)) by {
            assert forall|a: int, b: int| 0 <= a < r.len() && 0 <= b < r.len() && a != b
                implies r[a].pool.id != r[b].pool.id by {
                if a != p && b != p {
                    let a0 = if a < p { a } else { a - 1 };
                    let b0 = if b < p { b } else { b - 1 };
                    assert(r[a] == s[a0] && r[b] == s[b0]);
                } else if a == p {
                    let b0 = if b < p { b } else { b - 1 };
                    assert(r[b] == s[b0]);
                } else {
                    let a0 = if a < p { a } else { a - 1 };
                    assert(r[a] == s[a0]);
                }
            }
            assert forall|a: int| 0 <= a < r.len() - 1 implies text_lt(#[trigger] r[a].pool.id, r[a + 1].pool.id) by {
                if a + 1 < p {
                    assert(r[a] == s[a] && r[a + 1] == s[a + 1]);
                } else if a + 1 == p {
                    assert(r[a] == s[a]);
                } else if a == p {
                    assert(r[a + 1] == s[a]);
                } else {
                    assert(r[a] == s[a - 1] && r[a + 1] == s[a]);
                }
            }
        }
    }

    /// A copy of the pool `id`, if known.
    pub fn get(&self, id: &str) -> (r: Option<PoolEntry>)
        requires
            pools_ordered(self@),
        ensures
            match r {
                Some(e) => has_pool(self@, id@) && e@ == self@[choose|i: int| 0 <= i < self@.len() && self@[i].pool.id == id@],
                None => !has_pool(self@, id@),
            },
    {
        match self.find(id) {
            Some(i) => {
                let ghost j = choose|j: int| 0 <= j < self@.len() && self@[j].pool.id == id@;
                assert(j == i) by {
                    if j != i {
                        assert(self@[j].pool.id != self@[i as int].pool.id);
                    }
                }
                Some(self.store[i].duplicate())
            },
            None => None,
        }
    }

    /// Stores `entry` under its pool id, replacing the entry of the same
    /// pool if there is one.
    pub fn insert(&mut self, entry: PoolEntry)
        requires
            pools_ordered(old(self)@),
        ensures
            pools_ordered(final(self)@),
            has_pool(final(self)@, entry@.pool.id),
            forall|i: int| 0 <= i < final(self)@.len() && final(self)@[i].pool.id == entry@.pool.id
                ==> #[trigger] final(self)@[i] == entry@,
            forall|i: int| 0 <= i < old(self)@.len() && old(self)@[i].pool.id != entry@.pool.id
                ==> exists|j: int| 0 <= j < final(self)@.len() && #[trigger] final(self)@[j] == old(self)@[i],
            forall|j: int| 0 <= j < final(self)@.len() && final(self)@[j].pool.id != entry@.pool.id
                ==> exists|i: int| 0 <= i < old(self)@.len() && #[trigger] old(self)@[i] == final(self)@[j],
    {
        let ghost s = self@;
        let ghost em = entry@;
        match self.find(entry.pool.id.as_str()) {
            Some(i) => {
                self.store.remove(i);
                self.store.insert(i, entry);
                let ghost r = self@;
                assert(r =~= s.update(i as int, em));
                assert forall|a: int| 0 <= a < r.len() && r[a].pool.id == em.pool.id implies #[trigger] r[a] == em by {
                    if a != i {
                        assert(s[a].pool.id != s[i as int].pool.id);
                    }
                }
                assert forall|a: int| 0 <= a < s.len() && s[a].pool.id != em.pool.id
                    implies exists|j: int| 0 <= j < r.len() && #[trigger] r[j] == s[a] by {
                    assert(r[a] == s[a]);
                }
                assert forall|j: int| 0 <= j < r.len() && r[j].pool.id != em.pool.id
                    implies exists|a: int| 0 <= a < s.len() && #[trigger] s[a] == r[j] by {
                    assert(r[j] == s[j]);
                }
                assert(pools_ordered(r)) by {
                    assert forall|a: int, b: int| 0 <= a < r.len() && 0 <= b < r.len() && a != b
                        implies r[a].pool.id != r[b].pool.id by {
                        assert(s[a].pool.id != s[b].pool.id);
                    }
                    assert forall|a: int| 0 <= a < r.len() - 1 implies text_lt(#[trigger] r[a].pool.id, r[a + 1].pool.id) by {
                        assert(text_lt(s[a].pool.id, s[a + 1].pool.id));
                    }
                }
                assert(r[i as int].pool.id == em.pool.id);
            },
            None => {
                self.insert_new(entry);
                let ghost r = self@;
                let ghost p = choose|p: int| 0 <= p <= s.len() && r == s.insert(p, em);
                assert(r[p].pool.id == em.pool.id);
                assert forall|a: int| 0 <= a < r.len() && r[a].pool.id == em.pool.id implies #[trigger] r[a] == em by {
                    if a != p {
                        let a0 = if a < p { a } else { a - 1 };
                        assert(r[a] == s[a0]);
                    }
                }
                assert forall|a: int| 0 <= a < s.len() && s[a].pool.id != em.pool.id
                    implies exists|j: int| 0 <= j < r.len() && #[trigger] r[j] == s[a] by {
                    if a < p {
                        assert(r[a] == s[a]);
                    } else {
                        assert(r[a + 1] == s[a]);
                    }
                }
                assert forall|j: int| 0 <= j < r.len() && r[j].pool.id != em.pool.id
                    implies exists|a: int| 0 <= a < s.len() && #[trigger] s[a] == r[j] by {
                    if j < p {
                        assert(r[j] == s[j]);
                    } else {
                        assert(j != p);
                        assert(r[j] == s[j - 1]);
                    }
                }
            },
        }
    }
}

/// How the entries of `s` that satisfy `keep` are shown, in order.
pub open spec fn shown_where(s: Seq<PoolEntryModel>, keep: spec_fn(PoolEntryModel) -> bool) -> Seq<RustPoolModel>
    decreases s.len(),
{
    if s.len() == 0 {
        Seq::empty()
    } else if keep(s.last()) {
        shown_where(s.drop_last(), keep).push(shown(s.last()))
    } else {
        shown_where(s.drop_last(), keep)
    }
}

/// A pool that can still be joined: available or processing.
pub open spec fn open_pool(e: PoolEntryModel) -> bool {
    e.status == PoolStatus::Available || e.status == PoolStatus::Processing
}

impl PoolStore {
    /// The pools with the status `status`, as shown, in id order.
    pub fn get_by_status(&self, status: PoolStatus) -> (r: Vec<RustPool>)
        requires
            forall|i: int| 0 <= i < self@.len() && (#[trigger] self@[i]).status == status ==> showable(self@[i]),
        ensures
            r@.map_values(|p: RustPool| p@) == shown_where(self@, |e: PoolEntryModel| e.status == status),
    {
        let ghost sv = self@;
        let ghost keep = |e: PoolEntryModel| e.status == status;
        let mut r: Vec<RustPool> = Vec::new();
        let n = self.store.len();
        assert(sv.take(0) =~= Seq::<PoolEntryModel>::empty());
        for i in 0..n
            invariant
                n == sv.len(),
                sv == self@,
                keep == (|e: PoolEntryModel| e.status == status),
                forall|j: int| 0 <= j < sv.len() && (#[trigger] sv[j]).status == status ==> showable(sv[j]),
                r@.map_values(|p: RustPool| p@) == shown_where(sv.take(i as int), keep),
        {
            assert(sv.take(i + 1).drop_last() =~= sv.take(i as int));
            assert(sv.take(i + 1).last() == self.store@[i as int]@);
            assert(sv[i as int] == self.store@[i as int]@);
            if self.store[i].status == status {
                let ghost rv = r@.map_values(|p: RustPool| p@);
                r.push(self.store[i].to_rust_pool());
                assert(r@.map_values(|p: RustPool| p@) =~= rv.push(shown(sv[i as int])));
            }
        }
        assert(sv.take(n as int) =~= sv);
        r
    }

    /// The pools that can still be joined, as shown, in id order; pools of
    /// any other status are left out.
    pub fn available_pools(&self) -> (r: Vec<RustPool>)
        requires
            forall|i: int| 0 <= i < self@.len() && open_pool(#[trigger] self@[i]) ==> showable(self@[i]),
        ensures
            r@.map_values(|p: RustPool| p@) == shown_where(self@, |e: PoolEntryModel| open_pool(e)),
            forall|i: int| #![trigger self@[i]] 0 <= i < self@.len()
                && (self@[i].status == PoolStatus::Available || self@[i].status == PoolStatus::Processing)
                ==> r@.map_values(|p: RustPool| p@).contains(shown(self@[i])),
            forall|k: int| 0 <= k < r@.len() ==> (#[trigger] r@[k])@.status == PoolStatus::Available
                || r@[k]@.status == PoolStatus::Processing,
    {
        let ghost sv = self@;
        let ghost keep = |e: PoolEntryModel| open_pool(e);
        let mut r: Vec<RustPool> = Vec::new();
        let n = self.store.len();
        assert(sv.take(0) =~= Seq::<PoolEntryModel>::empty());
        for i in 0..n
            invariant
                n == sv.len(),
                sv == self@,
                keep == (|e: PoolEntryModel| open_pool(e)),
                forall|j: int| 0 <= j < sv.len() && open_pool(#[trigger] sv[j]) ==> showable(sv[j]),
                r@.map_values(|p: RustPool| p@) == shown_where(sv.take(i as int), keep),
        {
            assert(sv.take(i + 1).drop_last() =~= sv.take(i as int));
            assert(sv.take(i + 1).last() == self.store@[i as int]@);
            assert(sv[i as int] == self.store@[i as int]@);
            let keep_it = match self.store[i].status {
                PoolStatus::Available | PoolStatus::Processing => true,
                _ => false,
            };
            if keep_it {
                let ghost rv = r@.map_values(|p: RustPool| p@);
                r.push(self.store[i].to_rust_pool());
                assert(r@.map_values(|p: RustPool| p@) =~= rv.push(shown(sv[i as int])));
            }
        }
        assert(sv.take(n as int) =~= sv);
        proof {
            let rv = r@.map_values(|p: RustPool| p@);
            law_available_pools_are_open(sv, rv);
            assert forall|k: int| 0 <= k < r@.len() implies (#[trigger] r@[k])@.status == PoolStatus::Available
                || r@[k]@.status == PoolStatus::Processing by {
                assert(rv[k] == r@[k]@);
            }
        }
        r
    }

    /// Marks the pool `id` as running a coinjoin.
    pub fn set_running(&mut self, id: &str)
        requires
            pools_ordered(old(self)@),
            has_pool(old(self)@, id@),
        ensures
            pools_ordered(final(self)@),
            final(self)@.len() == old(self)@.len(),
            forall|i: int| 0 <= i < old(self)@.len() ==> #[trigger] final(self)@[i] == (if old(self)@[i].pool.id == id@ {
                PoolEntryModel { running: true, ..old(self)@[i] }
            } else {
                old(self)@[i]
            }),
    {
        let ghost s = self@;
        match self.find(id) {
            Some(i) => {
                let mut e = self.store.remove(i);
                e.running = true;
                self.store.insert(i, e);
                let ghost r = self@;
                assert forall|a: int| 0 <= a < s.len() implies #[trigger] r[a] == (if s[a].pool.id == id@ {
                    PoolEntryModel { running: true, ..s[a] }
                } else {
                    s[a]
                }) by {
                    if a != i {
                        assert(s[a].pool.id != s[i as int].pool.id);
                        assert(r[a] == s[a]);
                    }
                }
                assert(pools_ordered(r)) by {
                    assert forall|a: int, b: int| 0 <= a < r.len() && 0 <= b < r.len() && a != b
                        implies r[a].pool.id != r[b].pool.id by {
                        assert(s[a].pool.id != s[b].pool.id);
                    }
                    assert forall|a: int| 0 <= a < r.len() - 1 implies text_lt(#[trigger] r[a].pool.id, r[a + 1].pool.id) by {
                        assert(text_lt(s[a].pool.id, s[a + 1].pool.id));
                    }
                }
            },
            None => {},
        }
    }
}

/// A pool heard of for the first time is added with the status it is
/// heard with and no part taken; no status change is reported.
pub proof fn law_new_pool_added(s: Seq<PoolEntryModel>, pool: PoolInfoModel, status: PoolStatus, r: Seq<PoolEntryModel>, updated: bool)
    requires
        pools_ordered(s),
        !has_pool(s, pool.id),
        pool_updated(s, pool, status, r, updated),
    ensures
        !updated,
        has_pool(r, pool.id),
        exists|i: int| 0 <= i < r.len() && r[i] == (PoolEntryModel { status, pool, role: PoolRole::Unset, running: false }),
{
    let p = choose|p: int| 0 <= p <= s.len() && r == s.insert(p, PoolEntryModel { status, pool, role: PoolRole::Unset, running: false });
    assert(r[p].pool.id == pool.id);
}

/// A pool in which the wallet takes a part, or runs a coinjoin, keeps its
/// status whatever is heard of it.
pub proof fn law_engaged_pool_kept(s: Seq<PoolEntryModel>, pool: PoolInfoModel, status: PoolStatus, r: Seq<PoolEntryModel>, updated: bool, i: int)
    requires
        pools_ordered(s),
        0 <= i < s.len(),
        s[i].pool.id == pool.id,
        s[i].role != PoolRole::Unset || s[i].running,
        pool_updated(s, pool, status, r, updated),
    ensures
        !updated,
        r == s,
{
    let j = choose|j: int| 0 <= j < s.len() && s[j].pool.id == pool.id;
    assert(j == i) by {
        if j != i {
            assert(s[j].pool.id != s[i].pool.id);
        }
    }
}

/// Hearing a known pool again with its current status changes nothing.
pub proof fn law_same_status_kept(s: Seq<PoolEntryModel>, pool: PoolInfoModel, r: Seq<PoolEntryModel>, updated: bool, i: int)
    requires
        pools_ordered(s),
        0 <= i < s.len(),
        s[i].pool.id == pool.id,
        pool_updated(s, pool, s[i].status, r, updated),
    ensures
        !updated,
        r == s,
{
    let j = choose|j: int| 0 <= j < s.len() && s[j].pool.id == pool.id;
    assert(j == i) by {
        if j != i {
            assert(s[j].pool.id != s[i].pool.id);
        }
    }
}


/// What the pool listener meets while it listens to the relay.
#[derive(Debug)]
pub enum RelayEvent {
    /// the account asked it to stop
    StopRequested,
    /// a pool was announced
    Pool(PoolInfo),
    /// nothing was received
    Nothing,
    /// the connection to the relay was lost
    ConnectionLost,
    /// another error of the relay client, as its text
    ClientError(String),
    /// connecting or subscribing failed, with the error's text; `true` when
    /// it was a reconnection
    SetupFailed(String, bool),
}

/// What the pool listener does after reporting.
#[derive(Debug, Clone, Copy, PartialEq, Eq, Structural)]
pub enum RelayNext {
    /// it ends
    End,
    /// it polls the relay again after this many milliseconds
    Poll(u64),
    /// it connects and subscribes again, then polls after 50 milliseconds
    Reconnect,
}

/// What the pool listener reports on an event, and what it does next.
#[derive(Debug)]
pub struct RelayStep {
    pub reports: Vec<JoinstrNotif>,
    pub next: RelayNext,
}

/// The error report of a relay client's error.
pub open spec fn relay_error(text: Seq<char>, r: JoinstrNotif) -> bool {
    r matches JoinstrNotif::Error(Error::Nostr(t)) && t@ == text
}

impl PoolStore {
    /// Decides what the pool listener does on `event`: an announced pool is
    /// recorded as available and reported as a pool update, then the relay
    /// is polled at once; nothing received, polled again after 300
    /// milliseconds; a lost connection, reconnection; a stop request, the
    /// report `Stopped` and the end; a client error, its report, `Stopped`
    /// and the end; a failed set-up, its report, `Stopped` when it was a
    /// reconnection, and the end.
    pub fn pool_listener_step(&mut self, event: RelayEvent) -> (r: RelayStep)
        requires
            pools_ordered(old(self)@),
        ensures
            pools_ordered(final(self)@),
            !(event is Pool) ==> final(self)@ == old(self)@,
            match event {
                RelayEvent::StopRequested => r.reports@.len() == 1 && r.reports@[0] is Stopped && r.next == RelayNext::End,
                RelayEvent::Pool(p) => (exists|u: bool| pool_updated(old(self)@, p@, PoolStatus::Available, final(self)@, u))
                    && r.reports@.len() == 1 && r.reports@[0] is PoolUpdate && r.next == RelayNext::Poll(0),
                RelayEvent::Nothing => r.reports@.len() == 0 && r.next == RelayNext::Poll(300),
                RelayEvent::ConnectionLost => r.reports@.len() == 0 && r.next == RelayNext::Reconnect,
                RelayEvent::ClientError(e) => r.reports@.len() == 2 && relay_error(e@, r.reports@[0])
                    && r.reports@[1] is Stopped && r.next == RelayNext::End,
                RelayEvent::SetupFailed(e, again) => r.reports@.len() == (if again { 2int } else { 1int })
                    && relay_error(e@, r.reports@[0]) && (again ==> r.reports@[1] is Stopped) && r.next == RelayNext::End,
            },
    {
        match event {
            RelayEvent::StopRequested => RelayStep { reports: vec![JoinstrNotif::Stopped], next: RelayNext::End },
            RelayEvent::Pool(p) => {
                let _ = self.update(p, PoolStatus::Available);
                RelayStep { reports: vec![JoinstrNotif::PoolUpdate], next: RelayNext::Poll(0) }
            },
            RelayEvent::Nothing => RelayStep { reports: Vec::new(), next: RelayNext::Poll(300) },
            RelayEvent::ConnectionLost => RelayStep { reports: Vec::new(), next: RelayNext::Reconnect },
            RelayEvent::ClientError(e) => RelayStep {
                reports: vec![JoinstrNotif::Error(Error::Nostr(e)), JoinstrNotif::Stopped],
                next: RelayNext::End,
            },
            RelayEvent::SetupFailed(e, again) => {
                let mut reports = vec![JoinstrNotif::Error(Error::Nostr(e))];
                if again {
                    reports.push(JoinstrNotif::Stopped);
                }
                RelayStep { reports, next: RelayNext::End }
            },
        }
    }
}

} // verus!

verus! {

/// Each entry kept is shown in the list, and each pool shown is that of an
/// entry kept.
pub proof fn lemma_shown_where(s: Seq<PoolEntryModel>, keep: spec_fn(PoolEntryModel) -> bool)
    ensures
        forall|i: int| 0 <= i < s.len() && keep(s[i]) ==> #[trigger] shown_where(s, keep).contains(shown(s[i])),
        forall|k: int| 0 <= k < shown_where(s, keep).len() ==> exists|i: int|
            0 <= i < s.len() && keep(s[i]) && #[trigger] shown_where(s, keep)[k] == shown(s[i]),
    decreases s.len(),
{
    if s.len() > 0 {
        let t = s.drop_last();
        lemma_shown_where(t, keep);
        let r = shown_where(s, keep);
        let rt = shown_where(t, keep);
        assert forall|i: int| 0 <= i < s.len() && keep(s[i]) implies #[trigger] r.contains(shown(s[i])) by {
            if i < s.len() - 1 {
                assert(t[i] == s[i]);
                assert(rt.contains(shown(t[i])));
                let k = choose|k: int| 0 <= k < rt.len() && rt[k] == shown(t[i]);
                assert(r[k] == rt[k]);
            } else {
                assert(r[r.len() - 1] == shown(s[i]));
            }
        }
        assert forall|k: int| 0 <= k < r.len() implies exists|i: int|
            0 <= i < s.len() && keep(s[i]) && #[trigger] r[k] == shown(s[i]) by {
            if k < rt.len() {
                assert(r[k] == rt[k]);
                let i = choose|i: int| 0 <= i < t.len() && keep(t[i]) && rt[k] == shown(t[i]);
                assert(s[i] == t[i]);
            } else {
                assert(keep(s.last()) && r[k] == shown(s[s.len() - 1]));
            }
        }
    }
}

/// The pools listed as available (`r`, what `available_pools` shows of the
/// entries `s`) are exactly the pools that are available or processing:
/// each such pool is listed, and each pool listed is available or
/// processing.
pub proof fn law_available_pools_are_open(s: Seq<PoolEntryModel>, r: Seq<RustPoolModel>)
    requires
        r == shown_where(s, |e: PoolEntryModel| open_pool(e)),
    ensures
        forall|i: int| 0 <= i < s.len() && (s[i].status == PoolStatus::Available || s[i].status == PoolStatus::Processing)
            ==> #[trigger] r.contains(shown(s[i])),
        forall|k: int| 0 <= k < r.len() ==> (#[trigger] r[k]).status == PoolStatus::Available
            || r[k].status == PoolStatus::Processing,
{
    let keep = |e: PoolEntryModel| open_pool(e);
    lemma_shown_where(s, keep);
    assert forall|i: int| 0 <= i < s.len() && (s[i].status == PoolStatus::Available || s[i].status == PoolStatus::Processing)
        implies #[trigger] r.contains(shown(s[i])) by {
        assert(keep(s[i]));
    }
    assert forall|k: int| 0 <= k < r.len() implies (#[trigger] r[k]).status == PoolStatus::Available
        || r[k].status == PoolStatus::Processing by {
        let i = choose|i: int| 0 <= i < s.len() && keep(s[i]) && r[k] == shown(s[i]);
    }
}

} // verus!
