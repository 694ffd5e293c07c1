//! The decisions of the transaction listener: which scripts to subscribe to
//! when the address tips move, and what to do when the server reports the
//! statuses of scripts.
use vstd::prelude::*;
use crate::chain::Script;
use crate::derivator::{Derivator, derived_address};
use crate::types::{AddressTip, Network};

verus! {

/// What is known of a subscribed script: its last status, its branch and
/// its index.
pub type StatusModel = (Option<Seq<char>>, u32, u32);

/// The statuses of the subscribed scripts, by script.
pub type StatusMap = Map<Seq<u8>, StatusModel>;

/// A subscribed script with its last status, branch and index.
#[derive(Debug)]
pub struct StatusEntry {
    pub script: Script,
    pub status: Option<String>,
    pub branch: u32,
    pub index: u32,
}

/// The abstract value of an optional status text.
pub open spec fn status_text(s: Option<String>) -> Option<Seq<char>> {
    match s {
        Some(t) => Some(t@),
        None => None,
    }
}

impl View for StatusEntry {
    type V = (Seq<u8>, StatusModel);

    open spec fn view(&self) -> (Seq<u8>, StatusModel) {
        (self.script@, (status_text(self.status), self.branch, self.index))
    }
}

/// The statuses that the entries `s` hold, by script.
pub open spec fn statuses_map(s: Seq<StatusEntry>) -> StatusMap {
    Map::new(
        |k: Seq<u8>| exists|i: int| 0 <= i < s.len() && s[i].script@ == k,
        |k: Seq<u8>| s[choose|i: int| 0 <= i < s.len() && s[i].script@ == k]@.1,
    )
}

/// The scripts of `s` are pairwise distinct.
pub open spec fn scripts_distinct(s: Seq<StatusEntry>) -> bool {
    forall|i: int, j: int| 0 <= i < s.len() && 0 <= j < s.len() && i != j ==> s[i].script@ != s[j].script@
}

/// In distinct scripts, the entry at `i` is the status of its script.
proof fn lemma_status_at(s: Seq<StatusEntry>, i: int)
    requires
        scripts_distinct(s),
        0 <= i < s.len(),
    ensures
        statuses_map(s).contains_key(s[i].script@),
        statuses_map(s)[s[i].script@] == s[i]@.1,
{
    assert(statuses_map(s).dom().contains(s[i].script@));
    let j = choose|j: int| 0 <= j < s.len() && s[j].script@ == s[i].script@;
    assert(j == i);
}

/// The subscribed scripts and what is known of each.
#[derive(Debug)]
pub struct ScriptStatuses {
    entries: Vec<StatusEntry>,
}

impl View for ScriptStatuses {
    type V = StatusMap;

    closed spec fn view(&self) -> StatusMap {
        statuses_map(self.entries@)
    }
}

impl ScriptStatuses {
    /// Each script is held once.
    pub closed spec fn wf(&self) -> bool {
        scripts_distinct(self.entries@)
    }

    /// No script.
    pub fn new() -> (r: ScriptStatuses)
        ensures
            r.wf(),
            r@ == Map::<Seq<u8>, StatusModel>::empty(),
    {
        let r = ScriptStatuses { entries: Vec::new() };
        assert(r@ =~= Map::<Seq<u8>, StatusModel>::empty());
        r
    }

    /// The number of entries.
    pub closed spec fn count(&self) -> nat {
        self.entries@.len()
    }

    /// The number of scripts.
    pub fn len(&self) -> (r: usize)
        ensures
            r == self.count(),
    {
        self.entries.len()
    }

    /// The entry at position `i`.
    pub fn entry_at(&self, i: usize) -> (r: &StatusEntry)
        requires
            self.wf(),
            i < self.count(),
        ensures
            self@.contains_key(r.script@),
            self@[r.script@] == r@.1,
    {
        proof { lemma_status_at(self.entries@, i as int); }
        &self.entries[i]
    }

    /// The position of `script`, if held.
    fn find(&self, script: &Script) -> (r: Option<usize>)
        ensures
            match r {
                Some(i) => i < self.entries@.len() && self.entries@[i as int].script@ == script@,
                None => forall|i: int| 0 <= i < self.entries@.len() ==> (#[trigger] self.entries@[i]).script@ != script@,
            },
    {
        let n = self.entries.len();
        for i in 0..n
            invariant
                n == self.entries@.len(),
                forall|j: int| 0 <= j < i ==> (#[trigger] self.entries@[j]).script@ != script@,
        {
            if self.entries[i].script.same(script) {
                return Some(i);
            }
        }
        None
    }

    /// Whether `script` is held.
    pub fn contains(&self, script: &Script) -> (r: bool)
        requires
            self.wf(),
        ensures
            r == self@.contains_key(script@),
    {
        match self.find(script) {
            Some(i) => {
                proof { lemma_status_at(self.entries@, i as int); }
                true
            },
            None => false,
        }
    }

    /// The last status of `script`, if held.
    pub fn status_of(&self, script: &Script) -> (r: Option<Option<String>>)
        requires
            self.wf(),
        ensures
            match r {
                Some(s) => self@.contains_key(script@) && self@[script@].0 == status_text(s),
                None => !self@.contains_key(script@),
            },
    {
        match self.find(script) {
            Some(i) => {
                proof { lemma_status_at(self.entries@, i as int); }
                Some(match &self.entries[i].status {
                    Some(t) => Some(t.clone()),
                    None => None,
                })
            },
            None => None,
        }
    }

    /// Holds `script`, not held yet, with the given status, branch and index.
    pub fn insert(&mut self, script: Script, status: Option<String>, branch: u32, index: u32)
        requires
            old(self).wf(),
            !old(self)@.contains_key(script@),
        ensures
            final(self).wf(),
            final(self)@ == old(self)@.insert(script@, (status_text(status), branch, index)),
    {
        let ghost s0 = self.entries@;
        let e = StatusEntry { script, status, branch, index };
        let ghost em = e@;
        self.entries.push(e);
        let ghost s1 = self.entries@;
        let ghost n = s0.len() as int;
        assert(forall|i: int| 0 <= i < n ==> (#[trigger] s0[i]).script@ != em.0) by {
            assert forall|i: int| 0 <= i < n implies (#[trigger] s0[i]).script@ != em.0 by {
                if s0[i].script@ == em.0 {
                    assert(statuses_map(s0).contains_key(em.0));
                }
            }
        }
        assert(scripts_distinct(s1)) by {
            assert forall|a: int, b: int| 0 <= a < s1.len() && 0 <= b < s1.len() && a != b
                implies s1[a].script@ != s1[b].script@ by {
                if a < n && b < n {
                    assert(s0[a].script@ != s0[b].script@);
                } else if a < n {
                    assert(s1[a] == s0[a]);
                } else {
                    assert(s1[b] == s0[b]);
                }
            }
        }
        let ghost want = statuses_map(s0).insert(em.0, em.1);
        assert forall|k: Seq<u8>| #[trigger] statuses_map(s1).contains_key(k) <==> want.contains_key(k) by {
            if statuses_map(s1).contains_key(k) {
                let j = choose|j: int| 0 <= j < s1.len() && s1[j].script@ == k;
                if j < n {
                    assert(s1[j] == s0[j]);
                }
            }
            if statuses_map(s0).contains_key(k) {
                let j = choose|j: int| 0 <= j < s0.len() && s0[j].script@ == k;
                assert(s1[j] == s0[j]);
            }
            if k == em.0 {
                assert(s1[n].script@ == k);
            }
        }
        assert forall|k: Seq<u8>| #[trigger] statuses_map(s1).contains_key(k) implies statuses_map(s1)[k] == want[k] by {
            let j = choose|j: int| 0 <= j < s1.len() && s1[j].script@ == k;
            lemma_status_at(s1, j);
            if j < n {
                assert(s1[j] == s0[j]);
                lemma_status_at(s0, j);
            }
        }
        assert(self@ =~= want);
    }

    /// Records `status` as the last status of `script`, which is held.
    pub fn set_status(&mut self, script: &Script, status: Option<String>)
        requires
            old(self).wf(),
            old(self)@.contains_key(script@),
        ensures
            final(self).wf(),
            final(self)@ == old(self)@.insert(script@, (status_text(status), old(self)@[script@].1, old(self)@[script@].2)),
    {
        let ghost s0 = self.entries@;
        match self.find(script) {
            Some(i) => {
                proof { lemma_status_at(s0, i as int); }
                let mut e = self.entries.remove(i);
                e.status = status;
                let ghost em = e@;
                self.entries.insert(i, e);
                let ghost s1 = self.entries@;
                assert(s1 =~= s0.update(i as int, s1[i as int]));
                assert(scripts_distinct(s1)) by {
                    assert forall|a: int, b: int| 0 <= a < s1.len() && 0 <= b < s1.len() && a != b
                        implies s1[a].script@ != s1[b].script@ by {
                        assert(s0[a].script@ != s0[b].script@);
                    }
                }
                let ghost want = statuses_map(s0).insert(em.0, em.1);
                assert forall|k: Seq<u8>| #[trigger] statuses_map(s1).contains_key(k) <==> want.contains_key(k) by {
                    if statuses_map(s1).contains_key(k) {
                        let j = choose|j: int| 0 <= j < s1.len() && s1[j].script@ == k;
                        if j != i {
                            assert(s1[j] == s0[j]);
                        }
                    }
                    if statuses_map(s0).contains_key(k) {
                        let j = choose|j: int| 0 <= j < s0.len() && s0[j].script@ == k;
                        if j != i {
                            assert(s1[j] == s0[j]);
                        } else {
                            assert(s1[j].script@ == k);
                        }
                    }
                }
                assert forall|k: Seq<u8>| #[trigger] statuses_map(s1).contains_key(k) implies statuses_map(s1)[k] == want[k] by {
                    let j = choose|j: int| 0 <= j < s1.len() && s1[j].script@ == k;
                    lemma_status_at(s1, j);
                    if j != i {
                        assert(s1[j] == s0[j]);
                        lemma_status_at(s0, j);
                    }
                }
                assert(self@ =~= want);
            },
            None => {
                proof {
                    let j = choose|j: int| 0 <= j < s0.len() && s0[j].script@ == script@;
                    assert(s0[j].script@ != script@);
                }
            },
        }
    }
}

/// The scripts of branch `branch` at indexes 0 to `k` - 1 that derive and
/// are not held yet, each added in turn with no status: the statuses after,
/// and the scripts added, in index order.
pub open spec fn scan_branch(m: StatusMap, d: (Seq<char>, Network), branch: nat, k: nat) -> (StatusMap, Seq<Seq<u8>>)
    decreases k,
{
    if k == 0 {
        (m, Seq::empty())
    } else {
        let prev = scan_branch(m, d, branch, (k - 1) as nat);
        let i = (k - 1) as u32;
        match derived_address(d.0, d.1, branch, i) {
            Some(a) => if !prev.0.contains_key(a.1) {
                (prev.0.insert(a.1, (None, branch as u32, i)), prev.1.push(a.1))
            } else {
                prev
            },
            None => prev,
        }
    }
}

/// A branch is scanned when its address at its tip derives and is not held
/// yet.
pub open spec fn scan_wanted(m: StatusMap, d: (Seq<char>, Network), branch: nat, tip: u32) -> bool {
    match derived_address(d.0, d.1, branch, tip) {
        Some(a) => !m.contains_key(a.1),
        None => false,
    }
}

/// What a tip report does: the receive branch is scanned up to the receive
/// tip, then the change branch up to the change tip, each only when its
/// address at its own tip is not held yet. The statuses after, and the
/// scripts to subscribe to, in order.
pub open spec fn tip_scan(m: StatusMap, d: (Seq<char>, Network), tip: AddressTip) -> (StatusMap, Seq<Seq<u8>>) {
    let r1 = if scan_wanted(m, d, 0, tip.recv) { scan_branch(m, d, 0, tip.recv as nat) } else { (m, Seq::empty()) };
    let r2 = if scan_wanted(r1.0, d, 1, tip.change) { scan_branch(r1.0, d, 1, tip.change as nat) } else {
        (r1.0, Seq::empty())
    };
    (r2.0, r1.1 + r2.1)
}

impl ScriptStatuses {
    /// Adds the scripts of `branch` at indexes below `k` that derive and are
    /// not held yet; returns them in index order.
    fn scan(&mut self, derivator: &Derivator, branch: u32, k: u32) -> (r: Vec<Script>)
        requires
            old(self).wf(),
            branch <= 1,
        ensures
            final(self).wf(),
            (final(self)@, r@.map_values(|s: Script| s@)) == scan_branch(old(self)@, derivator@, branch as nat, k as nat),
    {
        let mut sub: Vec<Script> = Vec::new();
        let ghost m0 = self@;
        let mut i: u32 = 0;
        while i < k
            invariant
                self.wf(),
                branch <= 1,
                i <= k,
                (self@, sub@.map_values(|s: Script| s@)) == scan_branch(m0, derivator@, branch as nat, i as nat),
            decreases k - i,
        {
            let ghost sv = sub@.map_values(|s: Script| s@);
            let a = if branch == 0 { derivator.receive_at(i) } else { derivator.change_at(i) };
            assert(i as nat == ((i + 1) as nat - 1) as nat);
            match a {
                Some(a) => {
                    if !self.contains(&a.script) {
                        let script = a.script.duplicate();
                        self.insert(a.script, None, branch, i);
                        sub.push(script);
                        assert(sub@.map_values(|s: Script| s@) =~= sv.push(script@));
                    }
                },
                None => {},
            }
            i = i + 1;
        }
        sub
    }

    /// Takes in a tip report: adds the scripts the tips reach that are not
    /// held yet, and returns them, to be subscribed to.
    pub fn tip_subscriptions(&mut self, derivator: &Derivator, tip: AddressTip) -> (r: Vec<Script>)
        requires
            old(self).wf(),
        ensures
            final(self).wf(),
            (final(self)@, r@.map_values(|s: Script| s@)) == tip_scan(old(self)@, derivator@, tip),
    {
        let ghost m0 = self@;
        let mut sub: Vec<Script> = Vec::new();
        match derivator.receive_at(tip.recv) {
            Some(a) => {
                if !self.contains(&a.script) {
                    sub = self.scan(derivator, 0, tip.recv);
                }
            },
            None => {},
        }
        let ghost m1 = self@;
        let ghost s1 = sub@.map_values(|s: Script| s@);
        match derivator.change_at(tip.change) {
            Some(a) => {
                if !self.contains(&a.script) {
                    let mut more = self.scan(derivator, 1, tip.change);
                    let ghost mv = more@.map_values(|s: Script| s@);
                    sub.append(&mut more);
                    assert(sub@.map_values(|s: Script| s@) =~= s1 + mv);
                    return sub;
                }
            },
            None => {},
        }
        assert(s1 + Seq::<Seq<u8>>::empty() =~= s1);
        sub
    }
}

/// What one reported status asks for: the statuses after, the script to
/// ask the history of, and the script whose history is now empty with
/// whether the coins are then regenerated.
pub open spec fn status_step(m: StatusMap, spk: Seq<u8>, st: Option<Seq<char>>) -> (StatusMap, Option<Seq<u8>>, Option<(Seq<u8>, bool)>) {
    if m.contains_key(spk) {
        if m[spk].0 != st {
            let m2 = m.insert(spk, (st, m[spk].1, m[spk].2));
            if st is Some { (m2, Some(spk), None) } else { (m2, None, Some((spk, true))) }
        } else {
            (m, None, None)
        }
    } else if st is Some {
        (m, Some(spk), None)
    } else {
        (m, None, Some((spk, false)))
    }
}

/// What a status report asks for, item after item: the statuses after, the
/// scripts to ask the history of, and the scripts whose history is now
/// empty, each with whether the coins are then regenerated.
pub open spec fn status_run(m: StatusMap, items: Seq<(Seq<u8>, Option<Seq<char>>)>) -> (StatusMap, Seq<Seq<u8>>, Seq<(Seq<u8>, bool)>)
    decreases items.len(),
{
    if items.len() == 0 {
        (m, Seq::empty(), Seq::empty())
    } else {
        let prev = status_run(m, items.drop_last());
        let step = status_step(prev.0, items.last().0, items.last().1);
        (
            step.0,
            match step.1 { Some(s) => prev.1.push(s), None => prev.1 },
            match step.2 { Some(c) => prev.2.push(c), None => prev.2 },
        )
    }
}

/// What a status report asks the listener to do.
#[derive(Debug)]
pub struct StatusActions {
    /// The scripts to ask the history of, in report order.
    pub history: Vec<Script>,
    /// The scripts whose history is now empty, in report order, each with
    /// whether the coins are regenerated after.
    pub cleared: Vec<(Script, bool)>,
}

impl ScriptStatuses {
    /// Takes in a status report, records the statuses that changed, and
    /// says what to do: ask the history of the scripts with a new status,
    /// and clear the history of those that now have none.
    pub fn handle_statuses(&mut self, report: Vec<(Script, Option<String>)>) -> (r: StatusActions)
        requires
            old(self).wf(),
        ensures
            final(self).wf(),
            (final(self)@, r.history@.map_values(|s: Script| s@),
                r.cleared@.map_values(|c: (Script, bool)| (c.0@, c.1)))
                == status_run(old(self)@, report@.map_values(|e: (Script, Option<String>)| (e.0@, status_text(e.1)))),
    {
        let ghost items = report@.map_values(|e: (Script, Option<String>)| (e.0@, status_text(e.1)));
        let ghost m0 = self@;
        let mut history: Vec<Script> = Vec::new();
        let mut cleared: Vec<(Script, bool)> = Vec::new();
        let mut rest = report;
        let ghost total = rest@.len();
        assert(rest.len() == total);
        let mut k: usize = 0;
        assert(items.take(0) =~= Seq::<(Seq<u8>, Option<Seq<char>>)>::empty());
        while rest.len() > 0
            invariant
                self.wf(),
                k + rest@.len() == total,
                total <= usize::MAX,
                items.len() == total,
                forall|j: int| 0 <= j < rest@.len() ==> (#[trigger] rest@[j]).0@ == items[k + j].0
                    && status_text(rest@[j].1) == items[k + j].1,
                (self@, history@.map_values(|s: Script| s@), cleared@.map_values(|c: (Script, bool)| (c.0@, c.1)))
                    == status_run(m0, items.take(k as int)),
            decreases rest@.len(),
        {
            let ghost before = rest@;
            let (spk, status) = rest.remove(0);
            proof {
                assert forall|j: int| 0 <= j < rest@.len() implies (#[trigger] rest@[j]).0@ == items[k + 1 + j].0
                    && status_text(rest@[j].1) == items[k + 1 + j].1 by {
                    assert(rest@[j] == before[j + 1]);
                }
                assert(items.take(k + 1).drop_last() =~= items.take(k as int));
                assert(items.take(k + 1).last() == (spk@, status_text(status)));
            }
            let ghost hv = history@.map_values(|s: Script| s@);
            let ghost cv = cleared@.map_values(|c: (Script, bool)| (c.0@, c.1));
            match self.status_of(&spk) {
                Some(old_status) => {
                    let changed = match (&old_status, &status) {
                        (Some(a), Some(b)) => *a != *b,
                        (None, None) => false,
                        _ => true,
                    };
                    if changed {
                        let has = status.is_some();
                        self.set_status(&spk, status);
                        if has {
                            history.push(spk);
                            assert(history@.map_values(|s: Script| s@) =~= hv.push(spk@));
                        } else {
                            cleared.push((spk, true));
                            assert(cleared@.map_values(|c: (Script, bool)| (c.0@, c.1)) =~= cv.push((spk@, true)));
                        }
                    }
                },
                None => {
                    if status.is_some() {
                        history.push(spk);
                        assert(history@.map_values(|s: Script| s@) =~= hv.push(spk@));
                    } else {
                        cleared.push((spk, false));
                        assert(cleared@.map_values(|c: (Script, bool)| (c.0@, c.1)) =~= cv.push((spk@, false)));
                    }
                },
            }
            k = k + 1;
        }
        assert(items.take(k as int) =~= items);
        StatusActions { history, cleared }
    }
}

} // verus!
