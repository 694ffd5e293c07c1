//! The address store: the addresses the wallet watches, how far each branch
//! has been generated, and the status of each address.
use vstd::prelude::*;
use crate::chain::Script;
use crate::derivator::{Derivator, DerivedAddress, derived_address, branch_of};
use crate::types::{AddrAccount, AddressStatus, AddressTip};

verus! {

/// The abstract value of an address entry.
pub struct AddressEntryModel {
    pub status: AddressStatus,
    pub address: Seq<char>,
    pub script: Seq<u8>,
    pub account: AddrAccount,
    pub index: u32,
}

/// A watched address: its text, its output script, where it was derived,
/// and whether it has received coins.
#[derive(Debug)]
pub struct AddressEntry {
    pub status: AddressStatus,
    pub address: String,
    pub script: Script,
    pub account: AddrAccount,
    pub index: u32,
}

impl View for AddressEntry {
    type V = AddressEntryModel;

    open spec fn view(&self) -> AddressEntryModel {
        AddressEntryModel {
            status: self.status,
            address: self.address@,
            script: self.script@,
            account: self.account,
            index: self.index,
        }
    }
}

impl AddressEntry {
    /// A copy with the same fields.
    pub fn duplicate(&self) -> (r: AddressEntry)
        ensures
            r@ == self@,
    {
        AddressEntry {
            status: self.status,
            address: self.address.clone(),
            script: self.script.duplicate(),
            account: self.account,
            index: self.index,
        }
    }

    /// The output script.
    pub fn script(&self) -> (r: Script)
        ensures
            r@ == self@.script,
    {
        self.script.duplicate()
    }

    /// Sets the status.
    pub fn set_status(&mut self, status: AddressStatus)
        ensures
            final(self)@ == (AddressEntryModel { status, ..old(self)@ }),
    {
        self.status = status;
    }

    /// The status.
    pub fn status(&self) -> (r: AddressStatus)
        ensures
            r == self@.status,
    {
        self.status
    }

    /// The address text.
    pub fn value(&self) -> (r: String)
        ensures
            r@ == self@.address,
    {
        self.address.clone()
    }

    /// The branch.
    pub fn account(&self) -> (r: AddrAccount)
        ensures
            r == self@.account,
    {
        self.account
    }

    /// The branch number: 0 receive, 1 change.
    pub fn account_u32(&self) -> (r: u32)
        ensures
            r == branch_of(self@.account),
    {
        match self.account {
            AddrAccount::Receive => 0,
            AddrAccount::Change => 1,
        }
    }

    /// The derivation index.
    pub fn index(&self) -> (r: u32)
        ensures
            r == self@.index,
    {
        self.index
    }

    /// The address text.
    pub fn address(&self) -> (r: String)
        ensures
            r@ == self@.address,
    {
        self.address.clone()
    }
}

/// What a store reports for the rest of the wallet to hear.
#[derive(Debug, Clone, Copy, PartialEq, Eq, Structural)]
pub enum StoreEvent {
    /// The address tips changed; the watch tips are attached once the
    /// store has been handed to a transaction listener.
    AddressTipChanged(Option<AddressTip>),
    /// The coins were generated anew.
    CoinUpdate,
}

/// The scripts of `s` are pairwise distinct.
pub open spec fn scripts_unique(s: Seq<AddressEntryModel>) -> bool {
    forall|i: int, j: int| 0 <= i < s.len() && 0 <= j < s.len() && i != j ==> s[i].script != s[j].script
}

/// The entry was derived from `d` at its branch and index.
pub open spec fn entry_derived(e: AddressEntryModel, d: (Seq<char>, Network)) -> bool {
    derived_address(d.0, d.1, branch_of(e.account), e.index) == Some((e.address, e.script))
}

use crate::types::Network;

/// Some entry of `s` has the script `script`.
pub open spec fn has_script(s: Seq<AddressEntryModel>, script: Seq<u8>) -> bool {
    exists|i: int| 0 <= i < s.len() && s[i].script == script
}

/// The entry of `s` with the script `script`.
pub open spec fn entry_for(s: Seq<AddressEntryModel>, script: Seq<u8>) -> AddressEntryModel {
    s[choose|i: int| 0 <= i < s.len() && s[i].script == script]
}

/// In a store of distinct scripts, the entry at `i` is the entry for its
/// script.
pub proof fn lemma_entry_for(s: Seq<AddressEntryModel>, i: int)
    requires
        scripts_unique(s),
        0 <= i < s.len(),
    ensures
        has_script(s, s[i].script),
        entry_for(s, s[i].script) == s[i],
{
    assert(has_script(s, s[i].script));
}

/// Growing a store of distinct scripts keeps what it said of the scripts it
/// had.
pub proof fn lemma_prefix_entry(a: Seq<AddressEntryModel>, b: Seq<AddressEntryModel>, script: Seq<u8>)
    requires
        a.len() <= b.len(),
        b.take(a.len() as int) == a,
        scripts_unique(b),
        has_script(a, script),
    ensures
        has_script(b, script),
        entry_for(b, script) == entry_for(a, script),
{
    let i = choose|i: int| 0 <= i < a.len() && a[i].script == script;
    assert(b[i] == a[i]);
    assert(b.take(a.len() as int)[i] == b[i]);
    assert(has_script(b, script));
    let j = choose|j: int| 0 <= j < b.len() && b[j].script == script;
    assert(j == i);
}

/// Every address of branch `branch` from 0 to `tip` that can be derived is
/// watched.
pub open spec fn covers(s: Seq<AddressEntryModel>, d: (Seq<char>, Network), branch: nat, tip: int) -> bool {
    forall|i: u32| 0 <= i <= tip ==> (#[trigger] derived_address(d.0, d.1, branch, i) matches Some(a)
        ==> has_script(s, a.1))
}

/// How a coin received on `spk` changes the store from `a` to `b`: the tip
/// of the branch of the address watching `spk` is raised to its index if
/// higher, the other tip stays; what the tips reach is watched, the entries
/// before stay in place, and the tips are reported.
pub open spec fn coin_received(a: AddressStore, b: AddressStore, spk: Seq<u8>) -> bool {
    let e = entry_for(a.entries(), spk);
    &&& e.account == AddrAccount::Receive ==> b.recv_tip_spec() == (if e.index > a.recv_tip_spec() {
        e.index
    } else {
        a.recv_tip_spec()
    }) && b.change_tip_spec() == a.change_tip_spec()
    &&& e.account == AddrAccount::Change ==> b.change_tip_spec() == (if e.index > a.change_tip_spec() {
        e.index
    } else {
        a.change_tip_spec()
    }) && b.recv_tip_spec() == a.recv_tip_spec()
    &&& b.look_ahead_spec() == a.look_ahead_spec()
    &&& b.derivation() == a.derivation()
    &&& b.watching_spec() == a.watching_spec()
    &&& covers(b.entries(), b.derivation(), 0, b.recv_watch_spec())
    &&& covers(b.entries(), b.derivation(), 1, b.change_watch_spec())
    &&& b.entries().take(a.entries().len() as int) == a.entries()
    &&& a.entries().len() <= b.entries().len()
    &&& b.events_spec() == a.events_spec().push(b.tip_event())
}

/// The store of watched addresses.
#[derive(Debug)]
pub struct AddressStore {
    store: Vec<AddressEntry>,
    recv_generated_tip: u32,
    change_generated_tip: u32,
    derivator: Derivator,
    look_ahead: u32,
    watching: bool,
    events: Vec<StoreEvent>,
}

impl AddressStore {
    /// The entries.
    pub closed spec fn entries(&self) -> Seq<AddressEntryModel> {
        self.store@.map_values(|e: AddressEntry| e@)
    }

    /// The last generated receive index.
    pub closed spec fn recv_tip_spec(&self) -> u32 {
        self.recv_generated_tip
    }

    /// The last generated change index.
    pub closed spec fn change_tip_spec(&self) -> u32 {
        self.change_generated_tip
    }

    /// How many addresses are watched beyond the generated tips.
    pub closed spec fn look_ahead_spec(&self) -> u32 {
        self.look_ahead
    }

    /// The descriptor and network addresses are derived from.
    pub closed spec fn derivation(&self) -> (Seq<char>, Network) {
        self.derivator@
    }

    /// Whether a transaction listener has been given the store.
    pub closed spec fn watching_spec(&self) -> bool {
        self.watching
    }

    /// The events not yet taken.
    pub closed spec fn events_spec(&self) -> Seq<StoreEvent> {
        self.events@
    }

    /// Each script is watched once, and each entry is the derivation of its
    /// branch and index.
    pub closed spec fn wf(&self) -> bool {
        &&& scripts_unique(self.entries())
        &&& forall|i: int| 0 <= i < self.entries().len() ==> entry_derived(
            #[trigger] self.entries()[i], self.derivation())
        &&& forall|i: int| 0 <= i < self.entries().len() ==> (#[trigger] self.entries()[i]).index < 0x8000_0000
        &&& self.bounded()
    }

    /// The generated tips are unhardened indexes and the look ahead is at
    /// most 2^30, so that watch tips fit in 32 bits.
    pub open spec fn bounded(&self) -> bool {
        &&& self.recv_tip_spec() < 0x8000_0000
        &&& self.change_tip_spec() < 0x8000_0000
        &&& self.look_ahead_spec() <= 0x4000_0000
    }

    /// The entries are unhardened indexes.
    pub proof fn lemma_wf(&self)
        requires
            self.wf(),
        ensures
            self.bounded(),
            self.tips_fit(),
            scripts_unique(self.entries()),
            forall|i: int| 0 <= i < self.entries().len() ==> (#[trigger] self.entries()[i]).index < 0x8000_0000,
    {
    }

    /// The receive watch tip: generated tip, look ahead and one.
    pub open spec fn recv_watch_spec(&self) -> int {
        self.recv_tip_spec() + self.look_ahead_spec() + 1
    }

    /// The change watch tip: generated tip, look ahead and one.
    pub open spec fn change_watch_spec(&self) -> int {
        self.change_tip_spec() + self.look_ahead_spec() + 1
    }

    /// Both watch tips, plus one for the loop over them, fit in 32 bits.
    pub open spec fn tips_fit(&self) -> bool {
        self.recv_watch_spec() + 1 <= u32::MAX && self.change_watch_spec() + 1 <= u32::MAX
    }

    /// The tip report that a change of tips sends.
    pub open spec fn tip_event(&self) -> StoreEvent {
        StoreEvent::AddressTipChanged(
            if self.watching_spec() {
                Some(AddressTip { recv: self.recv_watch_spec() as u32, change: self.change_watch_spec() as u32 })
            } else {
                None
            },
        )
    }

    /// A store with no entry yet, generated up to `recv_tip` and
    /// `change_tip`, watching `look_ahead` addresses beyond.
    pub fn new(derivator: Derivator, recv_tip: u32, change_tip: u32, look_ahead: u32) -> (r: AddressStore)
        requires
            recv_tip < 0x8000_0000,
            change_tip < 0x8000_0000,
            look_ahead <= 0x4000_0000,
        ensures
            r.wf(),
            r.entries() == Seq::<AddressEntryModel>::empty(),
            r.recv_tip_spec() == recv_tip,
            r.change_tip_spec() == change_tip,
            r.look_ahead_spec() == look_ahead,
            r.derivation() == derivator@,
            !r.watching_spec(),
            r.events_spec() == Seq::<StoreEvent>::empty(),
    {
        let r = AddressStore {
            store: Vec::new(),
            recv_generated_tip: recv_tip,
            change_generated_tip: change_tip,
            derivator,
            look_ahead,
            watching: false,
            events: Vec::new(),
        };
        assert(r.entries() =~= Seq::<AddressEntryModel>::empty());
        r
    }

    /// Hands the pending events over and forgets them.
    pub fn take_events(&mut self) -> (r: Vec<StoreEvent>)
        ensures
            r@ == old(self).events_spec(),
            final(self).events_spec() == Seq::<StoreEvent>::empty(),
            final(self).entries() == old(self).entries(),
            final(self).recv_tip_spec() == old(self).recv_tip_spec(),
            final(self).change_tip_spec() == old(self).change_tip_spec(),
            final(self).look_ahead_spec() == old(self).look_ahead_spec(),
            final(self).derivation() == old(self).derivation(),
            final(self).watching_spec() == old(self).watching_spec(),
            old(self).wf() ==> final(self).wf(),
    {
        let mut r: Vec<StoreEvent> = Vec::new();
        std::mem::swap(&mut r, &mut self.events);
        r
    }

    /// The position of the entry with the script `spk`, if any.
    fn find(&self, spk: &Script) -> (r: Option<usize>)
        ensures
            match r {
                Some(i) => i < self.entries().len() && self.entries()[i as int].script == spk@,
                None => !has_script(self.entries(), spk@),
            },
    {
        let n = self.store.len();
        let mut i: usize = 0;
        while i < n
            invariant
                n == self.store@.len(),
                i <= n,
                forall|j: int| 0 <= j < i ==> self.store@[j].script@ != spk@,
            decreases n - i,
        {
            if self.store[i].script.same(spk) {
                return Some(i);
            }
            i = i + 1;
        }
        assert(!has_script(self.entries(), spk@)) by {
            if has_script(self.entries(), spk@) {
                let j = choose|j: int| 0 <= j < self.entries().len() && self.entries()[j].script == spk@;
                assert(self.store@[j].script@ == spk@);
            }
        }
        None
    }

    /// Watches the derived address `a` of `account` at `index`, unless its
    /// script is already watched.
    fn watch(&mut self, account: AddrAccount, index: u32, a: DerivedAddress)
        requires
            old(self).wf(),
            derived_address(old(self).derivation().0, old(self).derivation().1, branch_of(account), index)
                == Some((a.address@, a.script@)),
            index < 0x8000_0000,
        ensures
            final(self).wf(),
            has_script(final(self).entries(), a.script@),
            old(self).entries().len() <= final(self).entries().len(),
            final(self).entries().take(old(self).entries().len() as int) == old(self).entries(),
            forall|k: int| old(self).entries().len() <= k < final(self).entries().len() ==> {
                &&& (#[trigger] final(self).entries()[k]).status == AddressStatus::NotUsed
                &&& final(self).entries()[k].account == account
                &&& final(self).entries()[k].index == index
            },
            final(self).recv_tip_spec() == old(self).recv_tip_spec(),
            final(self).change_tip_spec() == old(self).change_tip_spec(),
            final(self).look_ahead_spec() == old(self).look_ahead_spec(),
            final(self).derivation() == old(self).derivation(),
            final(self).watching_spec() == old(self).watching_spec(),
            final(self).events_spec() == old(self).events_spec(),
    {
        let ghost before = self.entries();
        match self.find(&a.script) {
            Some(i) => {
                assert(self.entries().take(before.len() as int) =~= before);
            },
            None => {
                let entry = AddressEntry {
                    status: AddressStatus::NotUsed,
                    address: a.address,
                    script: a.script,
                    account,
                    index,
                };
                self.store.push(entry);
                let ghost after = self.entries();
                assert(after =~= before.push(entry@));
                assert(after[before.len() as int].script == entry@.script);
                assert(after.take(before.len() as int) =~= before);
                assert(scripts_unique(after)) by {
                    assert forall|i: int, j: int| 0 <= i < after.len() && 0 <= j < after.len() && i != j
                        implies after[i].script != after[j].script by {
                        if i == before.len() {
                            assert(!has_script(before, entry@.script));
                            assert(after[j] == before[j]);
                        } else if j == before.len() {
                            assert(!has_script(before, entry@.script));
                            assert(after[i] == before[i]);
                        } else {
                            assert(after[i] == before[i]);
                            assert(after[j] == before[j]);
                        }
                    }
                }
                assert forall|i: int| 0 <= i < after.len() implies entry_derived(
                    #[trigger] after[i], self.derivation()) by {
                    if i < before.len() {
                        assert(after[i] == before[i]);
                    }
                }
                assert forall|i: int| 0 <= i < after.len() implies (#[trigger] after[i]).index < 0x8000_0000 by {
                    if i < before.len() {
                        assert(after[i] == before[i]);
                    }
                }
            },
        }
    }

    /// Watches every derivable address of both branches up to their watch
    /// tips. Entries already there keep their place and status; new ones
    /// are added after them, not used.
    pub fn populate_maybe(&mut self)
        requires
            old(self).wf(),
        ensures
            final(self).wf(),
            covers(final(self).entries(), final(self).derivation(), 0, final(self).recv_watch_spec()),
            covers(final(self).entries(), final(self).derivation(), 1, final(self).change_watch_spec()),
            old(self).entries().len() <= final(self).entries().len(),
            final(self).entries().take(old(self).entries().len() as int) == old(self).entries(),
            forall|k: int| old(self).entries().len() <= k < final(self).entries().len() ==> {
                &&& (#[trigger] final(self).entries()[k]).status == AddressStatus::NotUsed
                &&& (final(self).entries()[k].account == AddrAccount::Receive ==> final(self).entries()[k].index
                    <= final(self).recv_watch_spec())
                &&& (final(self).entries()[k].account == AddrAccount::Change ==> final(self).entries()[k].index
                    <= final(self).change_watch_spec())
            },
            final(self).recv_tip_spec() == old(self).recv_tip_spec(),
            final(self).change_tip_spec() == old(self).change_tip_spec(),
            final(self).look_ahead_spec() == old(self).look_ahead_spec(),
            final(self).derivation() == old(self).derivation(),
            final(self).watching_spec() == old(self).watching_spec(),
            final(self).events_spec() == old(self).events_spec(),
    {
        let ghost start = self.entries();
        let recv_end = self.recv_watch_tip() + 1;
        for i in 0..recv_end
            invariant
                self.wf(),
                recv_end == self.recv_watch_spec() + 1,
                self.tips_fit(),
                covers(self.entries(), self.derivation(), 0, i - 1),
                start.len() <= self.entries().len(),
                self.entries().take(start.len() as int) == start,
                forall|k: int| start.len() <= k < self.entries().len() ==> {
                    &&& (#[trigger] self.entries()[k]).status == AddressStatus::NotUsed
                    &&& self.entries()[k].account == AddrAccount::Receive
                    &&& self.entries()[k].index < i
                },
                self.recv_tip_spec() == old(self).recv_tip_spec(),
                self.change_tip_spec() == old(self).change_tip_spec(),
                self.look_ahead_spec() == old(self).look_ahead_spec(),
                self.derivation() == old(self).derivation(),
                self.watching_spec() == old(self).watching_spec(),
                self.events_spec() == old(self).events_spec(),
        {
            let ghost before = self.entries();
            let derived = self.derivator.receive_at(i);
            match derived {
                Some(a) => {
                    self.watch(AddrAccount::Receive, i, a);
                },
                None => {},
            }
            assert(self.entries().take(before.len() as int) =~= before);
            proof { self.lemma_extend_covers(before, 0, i); }
            assert(self.entries().take(start.len() as int) =~= start) by {
                assert(self.entries().take(before.len() as int) == before);
                assert forall|k: int| 0 <= k < start.len() implies self.entries()[k] == start[k] by {
                    assert(self.entries().take(before.len() as int)[k] == before[k]);
                    assert(before.take(start.len() as int)[k] == start[k]);
                }
            }
            assert forall|k: int| start.len() <= k < self.entries().len() implies {
                &&& (#[trigger] self.entries()[k]).status == AddressStatus::NotUsed
                &&& self.entries()[k].account == AddrAccount::Receive
                &&& self.entries()[k].index < i + 1
            } by {
                if k < before.len() {
                    assert(self.entries().take(before.len() as int)[k] == before[k]);
                }
            }
        }
        let ghost mid = self.entries();
        let change_end = self.change_watch_tip() + 1;
        for i in 0..change_end
            invariant
                self.wf(),
                change_end == self.change_watch_spec() + 1,
                self.tips_fit(),
                covers(self.entries(), self.derivation(), 0, self.recv_watch_spec()),
                covers(self.entries(), self.derivation(), 1, i - 1),
                mid.len() <= self.entries().len(),
                self.entries().take(mid.len() as int) == mid,
                forall|k: int| mid.len() <= k < self.entries().len() ==> {
                    &&& (#[trigger] self.entries()[k]).status == AddressStatus::NotUsed
                    &&& self.entries()[k].account == AddrAccount::Change
                    &&& self.entries()[k].index < i
                },
                self.recv_tip_spec() == old(self).recv_tip_spec(),
                self.change_tip_spec() == old(self).change_tip_spec(),
                self.look_ahead_spec() == old(self).look_ahead_spec(),
                self.derivation() == old(self).derivation(),
                self.watching_spec() == old(self).watching_spec(),
                self.events_spec() == old(self).events_spec(),
        {
            let ghost before = self.entries();
            let derived = self.derivator.change_at(i);
            match derived {
                Some(a) => {
                    self.watch(AddrAccount::Change, i, a);
                },
                None => {},
            }
            assert(self.entries().take(before.len() as int) =~= before);
            proof {
                self.lemma_extend_covers(before, 1, i);
                self.lemma_keep_covers(before, 0, self.recv_watch_spec());
            }
            assert(self.entries().take(mid.len() as int) =~= mid) by {
                assert forall|k: int| 0 <= k < mid.len() implies self.entries()[k] == mid[k] by {
                    assert(self.entries().take(before.len() as int)[k] == before[k]);
                    assert(before.take(mid.len() as int)[k] == mid[k]);
                }
            }
            assert forall|k: int| mid.len() <= k < self.entries().len() implies {
                &&& (#[trigger] self.entries()[k]).status == AddressStatus::NotUsed
                &&& self.entries()[k].account == AddrAccount::Change
                &&& self.entries()[k].index < i + 1
            } by {
                if k < before.len() {
                    assert(self.entries().take(before.len() as int)[k] == before[k]);
                }
            }
        }
        assert(self.entries().take(start.len() as int) =~= start) by {
            assert forall|k: int| 0 <= k < start.len() implies self.entries()[k] == start[k] by {
                assert(self.entries().take(mid.len() as int)[k] == mid[k]);
                assert(mid.take(start.len() as int)[k] == start[k]);
            }
        }
        assert forall|k: int| start.len() <= k < self.entries().len() implies {
            &&& (#[trigger] self.entries()[k]).status == AddressStatus::NotUsed
            &&& (self.entries()[k].account == AddrAccount::Receive ==> self.entries()[k].index
                <= self.recv_watch_spec())
            &&& (self.entries()[k].account == AddrAccount::Change ==> self.entries()[k].index
                <= self.change_watch_spec())
        } by {
            if k < mid.len() {
                assert(self.entries().take(mid.len() as int)[k] == mid[k]);
            }
        }
    }

    /// Coverage survives entries being appended.
    proof fn lemma_keep_covers(&self, before: Seq<AddressEntryModel>, branch: nat, tip: int)
        requires
            covers(before, self.derivation(), branch, tip),
            before.len() <= self.entries().len(),
            self.entries().take(before.len() as int) == before,
        ensures
            covers(self.entries(), self.derivation(), branch, tip),
    {
        let d = self.derivation();
        assert forall|i: u32| 0 <= i <= tip implies (#[trigger] derived_address(d.0, d.1, branch, i) matches Some(a)
            ==> has_script(self.entries(), a.1)) by {
            if let Some(a) = derived_address(d.0, d.1, branch, i) {
                let j = choose|j: int| 0 <= j < before.len() && before[j].script == a.1;
                assert(self.entries().take(before.len() as int)[j] == before[j]);
            }
        }
    }

    /// After the address at `i` has been considered, coverage reaches `i`.
    proof fn lemma_extend_covers(&self, before: Seq<AddressEntryModel>, branch: nat, i: u32)
        requires
            covers(before, self.derivation(), branch, i - 1),
            before.len() <= self.entries().len(),
            self.entries().take(before.len() as int) == before,
            derived_address(self.derivation().0, self.derivation().1, branch, i) matches Some(a)
                ==> has_script(self.entries(), a.1),
        ensures
            covers(self.entries(), self.derivation(), branch, i as int),
    {
        self.lemma_keep_covers(before, branch, i - 1);
    }

    /// Raises the receive tip to `index` if it is higher, watches what the
    /// new tips reach, and reports the tips.
    pub fn update_recv(&mut self, index: u32)
        requires
            old(self).wf(),
            index < 0x8000_0000,
        ensures
            final(self).wf(),
            final(self).recv_tip_spec() == (if index > old(self).recv_tip_spec() { index } else { old(self).recv_tip_spec() }),
            final(self).change_tip_spec() == old(self).change_tip_spec(),
            final(self).look_ahead_spec() == old(self).look_ahead_spec(),
            final(self).derivation() == old(self).derivation(),
            final(self).watching_spec() == old(self).watching_spec(),
            covers(final(self).entries(), final(self).derivation(), 0, final(self).recv_watch_spec()),
            covers(final(self).entries(), final(self).derivation(), 1, final(self).change_watch_spec()),
            final(self).entries().take(old(self).entries().len() as int) == old(self).entries(),
            old(self).entries().len() <= final(self).entries().len(),
            final(self).events_spec() == old(self).events_spec().push(final(self).tip_event()),
    {
        if index > self.recv_generated_tip {
            self.recv_generated_tip = index;
        }
        self.populate_maybe();
        self.notify();
    }

    /// Raises the change tip to `index` if it is higher, watches what the
    /// new tips reach, and reports the tips.
    pub fn update_change(&mut self, index: u32)
        requires
            old(self).wf(),
            index < 0x8000_0000,
        ensures
            final(self).wf(),
            final(self).change_tip_spec() == (if index > old(self).change_tip_spec() { index } else { old(self).change_tip_spec() }),
            final(self).recv_tip_spec() == old(self).recv_tip_spec(),
            final(self).look_ahead_spec() == old(self).look_ahead_spec(),
            final(self).derivation() == old(self).derivation(),
            final(self).watching_spec() == old(self).watching_spec(),
            covers(final(self).entries(), final(self).derivation(), 0, final(self).recv_watch_spec()),
            covers(final(self).entries(), final(self).derivation(), 1, final(self).change_watch_spec()),
            final(self).entries().take(old(self).entries().len() as int) == old(self).entries(),
            old(self).entries().len() <= final(self).entries().len(),
            final(self).events_spec() == old(self).events_spec().push(final(self).tip_event()),
    {
        if index > self.change_generated_tip {
            self.change_generated_tip = index;
        }
        self.populate_maybe();
        self.notify();
    }

    /// Reports the tips.
    fn notify(&mut self)
        requires
            old(self).recv_watch_spec() <= u32::MAX,
            old(self).change_watch_spec() <= u32::MAX,
        ensures
            final(self).events_spec() == old(self).events_spec().push(old(self).tip_event()),
            final(self).entries() == old(self).entries(),
            final(self).recv_tip_spec() == old(self).recv_tip_spec(),
            final(self).change_tip_spec() == old(self).change_tip_spec(),
            final(self).look_ahead_spec() == old(self).look_ahead_spec(),
            final(self).derivation() == old(self).derivation(),
            final(self).watching_spec() == old(self).watching_spec(),
            old(self).wf() ==> final(self).wf(),
    {
        let tip = if self.watching {
            Some(AddressTip { recv: self.recv_watch_tip(), change: self.change_watch_tip() })
        } else {
            None
        };
        self.events.push(StoreEvent::AddressTipChanged(tip));
    }

    /// Generates the next receive address: raises the receive tip by one,
    /// watches what the tips reach, reports them, and derives the address
    /// at the new tip.
    pub fn new_recv_addr(&mut self) -> (r: Option<DerivedAddress>)
        requires
            old(self).wf(),
            old(self).recv_tip_spec() + 1 < 0x8000_0000,
        ensures
            final(self).wf(),
            final(self).recv_tip_spec() == old(self).recv_tip_spec() + 1,
            final(self).change_tip_spec() == old(self).change_tip_spec(),
            covers(final(self).entries(), final(self).derivation(), 0, final(self).recv_watch_spec()),
            covers(final(self).entries(), final(self).derivation(), 1, final(self).change_watch_spec()),
            final(self).derivation() == old(self).derivation(),
            final(self).look_ahead_spec() == old(self).look_ahead_spec(),
            final(self).watching_spec() == old(self).watching_spec(),
            final(self).entries().take(old(self).entries().len() as int) == old(self).entries(),
            old(self).entries().len() <= final(self).entries().len(),
            final(self).events_spec() == old(self).events_spec().push(final(self).tip_event()),
            match r {
                Some(a) => derived_address(final(self).derivation().0, final(self).derivation().1, 0,
                    final(self).recv_tip_spec()) == Some((a.address@, a.script@)),
                None => derived_address(final(self).derivation().0, final(self).derivation().1, 0,
                    final(self).recv_tip_spec()) is None,
            },
    {
        self.recv_generated_tip = self.recv_generated_tip + 1;
        let tip = self.recv_generated_tip;
        self.update_recv(tip);
        self.derivator.receive_at(tip)
    }

    /// Generates the next change address: raises the change tip by one,
    /// watches what the tips reach, reports them, and derives the address
    /// at the new tip.
    pub fn new_change_addr(&mut self) -> (r: Option<DerivedAddress>)
        requires
            old(self).wf(),
            old(self).change_tip_spec() + 1 < 0x8000_0000,
        ensures
            final(self).wf(),
            final(self).change_tip_spec() == old(self).change_tip_spec() + 1,
            final(self).recv_tip_spec() == old(self).recv_tip_spec(),
            covers(final(self).entries(), final(self).derivation(), 0, final(self).recv_watch_spec()),
            covers(final(self).entries(), final(self).derivation(), 1, final(self).change_watch_spec()),
            final(self).derivation() == old(self).derivation(),
            final(self).look_ahead_spec() == old(self).look_ahead_spec(),
            final(self).watching_spec() == old(self).watching_spec(),
            final(self).entries().take(old(self).entries().len() as int) == old(self).entries(),
            old(self).entries().len() <= final(self).entries().len(),
            final(self).events_spec() == old(self).events_spec().push(final(self).tip_event()),
            match r {
                Some(a) => derived_address(final(self).derivation().0, final(self).derivation().1, 1,
                    final(self).change_tip_spec()) == Some((a.address@, a.script@)),
                None => derived_address(final(self).derivation().0, final(self).derivation().1, 1,
                    final(self).change_tip_spec()) is None,
            },
    {
        self.change_generated_tip = self.change_generated_tip + 1;
        let tip = self.change_generated_tip;
        self.update_change(tip);
        self.derivator.change_at(tip)
    }

    /// The change watch tip.
    pub fn change_watch_tip(&self) -> (r: u32)
        requires
            self.change_watch_spec() <= u32::MAX,
        ensures
            r == self.change_watch_spec(),
    {
        self.change_generated_tip + self.look_ahead + 1
    }

    /// The receive watch tip.
    pub fn recv_watch_tip(&self) -> (r: u32)
        requires
            self.recv_watch_spec() <= u32::MAX,
        ensures
            r == self.recv_watch_spec(),
    {
        self.recv_generated_tip + self.look_ahead + 1
    }

    /// The last generated receive index.
    pub fn recv_tip(&self) -> (r: u32)
        ensures
            r == self.recv_tip_spec(),
    {
        self.recv_generated_tip
    }

    /// The last generated change index.
    pub fn change_tip(&self) -> (r: u32)
        ensures
            r == self.change_tip_spec(),
    {
        self.change_generated_tip
    }

    /// Starts reporting the watch tips to the transaction listener, watches
    /// what the tips reach, and reports them.
    pub fn init(&mut self)
        requires
            old(self).wf(),
        ensures
            final(self).wf(),
            final(self).watching_spec(),
            final(self).recv_tip_spec() == old(self).recv_tip_spec(),
            final(self).change_tip_spec() == old(self).change_tip_spec(),
            final(self).look_ahead_spec() == old(self).look_ahead_spec(),
            final(self).derivation() == old(self).derivation(),
            covers(final(self).entries(), final(self).derivation(), 0, final(self).recv_watch_spec()),
            covers(final(self).entries(), final(self).derivation(), 1, final(self).change_watch_spec()),
            final(self).entries().take(old(self).entries().len() as int) == old(self).entries(),
            old(self).entries().len() <= final(self).entries().len(),
            final(self).events_spec() == old(self).events_spec().push(final(self).tip_event()),
    {
        self.populate_maybe();
        self.watching = true;
        self.notify();
    }

    /// The derivator addresses are derived with.
    pub fn derivator(&self) -> (r: &Derivator)
        ensures
            r@ == self.derivation(),
    {
        &self.derivator
    }

    /// A copy of the entry watching `spk`, if any.
    pub fn get_entry(&self, spk: &Script) -> (r: Option<AddressEntry>)
        requires
            self.wf(),
        ensures
            match r {
                Some(e) => has_script(self.entries(), spk@) && e@ == entry_for(self.entries(), spk@),
                None => !has_script(self.entries(), spk@),
            },
    {
        match self.find(spk) {
            Some(i) => {
                let e = self.store[i].duplicate();
                proof { lemma_entry_for(self.entries(), i as int); }
                Some(e)
            },
            None => None,
        }
    }

    /// The number of entries.
    pub fn len(&self) -> (r: usize)
        ensures
            r == self.entries().len(),
    {
        self.store.len()
    }

    /// The entry at position `i`.
    pub fn entry_at(&self, i: usize) -> (r: &AddressEntry)
        requires
            i < self.entries().len(),
        ensures
            r@ == self.entries()[i as int],
    {
        &self.store[i]
    }

    /// Queues an event.
    pub fn push_event(&mut self, event: StoreEvent)
        ensures
            final(self).events_spec() == old(self).events_spec().push(event),
            final(self).entries() == old(self).entries(),
            final(self).recv_tip_spec() == old(self).recv_tip_spec(),
            final(self).change_tip_spec() == old(self).change_tip_spec(),
            final(self).look_ahead_spec() == old(self).look_ahead_spec(),
            final(self).derivation() == old(self).derivation(),
            final(self).watching_spec() == old(self).watching_spec(),
            old(self).wf() ==> final(self).wf(),
    {
        self.events.push(event);
    }

    /// Updates the tips for a coin received on `spk`: the tip of the
    /// entry's branch is raised to the entry's index if higher; then what
    /// the tips reach is watched and the tips are reported.
    pub fn recv_coin_at(&mut self, spk: &Script)
        requires
            old(self).wf(),
            has_script(old(self).entries(), spk@),
        ensures
            final(self).wf(),
            coin_received(*old(self), *final(self), spk@),
    {
        let i = match self.find(spk) {
            Some(i) => i,
            None => {
                proof { assert(false); }
                0
            },
        };
        proof { lemma_entry_for(self.entries(), i as int); }
        let account = self.store[i].account;
        let index = self.store[i].index;
        match account {
            AddrAccount::Receive => self.update_recv(index),
            AddrAccount::Change => self.update_change(index),
        }
    }

    /// Sets the status of the entry watching `spk`, if any.
    pub fn set_status(&mut self, spk: &Script, status: AddressStatus)
        requires
            old(self).wf(),
        ensures
            final(self).wf(),
            final(self).entries().len() == old(self).entries().len(),
            forall|i: int| 0 <= i < old(self).entries().len() ==> (#[trigger] final(self).entries()[i]) == (
                if old(self).entries()[i].script == spk@ {
                    AddressEntryModel { status, ..old(self).entries()[i] }
                } else {
                    old(self).entries()[i]
                }),
            final(self).recv_tip_spec() == old(self).recv_tip_spec(),
            final(self).change_tip_spec() == old(self).change_tip_spec(),
            final(self).look_ahead_spec() == old(self).look_ahead_spec(),
            final(self).derivation() == old(self).derivation(),
            final(self).watching_spec() == old(self).watching_spec(),
            final(self).events_spec() == old(self).events_spec(),
    {
        let ghost before = self.entries();
        match self.find(spk) {
            Some(i) => {
                let mut e = self.store.remove(i);
                e.set_status(status);
                self.store.insert(i, e);
                let ghost after = self.entries();
                assert forall|j: int| 0 <= j < before.len() implies (#[trigger] after[j]) == (
                    if before[j].script == spk@ { AddressEntryModel { status, ..before[j] } } else { before[j] })
                by {
                    if j != i {
                        assert(before[j].script != before[i as int].script);
                    }
                }
                assert(scripts_unique(after)) by {
                    assert forall|a: int, b: int| 0 <= a < after.len() && 0 <= b < after.len() && a != b
                        implies after[a].script != after[b].script by {
                        assert(before[a].script != before[b].script);
                    }
                }
                assert forall|j: int| 0 <= j < after.len() implies entry_derived(
                    #[trigger] after[j], self.derivation()) by {
                    assert(entry_derived(before[j], self.derivation()));
                }
            },
            None => {
                assert forall|j: int| 0 <= j < before.len() implies before[j].script != spk@ by {
                    if before[j].script == spk@ {
                        assert(has_script(before, spk@));
                    }
                }
            },
        }
    }

    /// Sets the status of the entry at position `i`.
    pub fn set_status_at(&mut self, i: usize, status: AddressStatus)
        requires
            old(self).wf(),
            i < old(self).entries().len(),
        ensures
            final(self).wf(),
            final(self).entries() == old(self).entries().update(i as int,
                AddressEntryModel { status, ..old(self).entries()[i as int] }),
            final(self).recv_tip_spec() == old(self).recv_tip_spec(),
            final(self).change_tip_spec() == old(self).change_tip_spec(),
            final(self).look_ahead_spec() == old(self).look_ahead_spec(),
            final(self).derivation() == old(self).derivation(),
            final(self).watching_spec() == old(self).watching_spec(),
            final(self).events_spec() == old(self).events_spec(),
    {
        let ghost before = self.entries();
        let mut e = self.store.remove(i);
        e.set_status(status);
        self.store.insert(i, e);
        let ghost after = self.entries();
        assert(after =~= before.update(i as int, AddressEntryModel { status, ..before[i as int] }));
        assert(scripts_unique(after)) by {
            assert forall|a: int, b: int| 0 <= a < after.len() && 0 <= b < after.len() && a != b
                implies after[a].script != after[b].script by {
                assert(before[a].script != before[b].script);
            }
        }
        assert forall|j: int| 0 <= j < after.len() implies entry_derived(#[trigger] after[j], self.derivation()) by {
            assert(entry_derived(before[j], self.derivation()));
        }
        assert forall|j: int| 0 <= j < after.len() implies (#[trigger] after[j]).index < 0x8000_0000 by {
            assert(before[j].index < 0x8000_0000);
        }
    }

    /// The unused receive addresses, in increasing index order.
    pub fn get_unused(&self) -> (r: Vec<AddressEntry>)
        requires
            self.wf(),
        ensures
            sorted_by_index(r@.map_values(|e: AddressEntry| e@)),
            same_entries(r@.map_values(|e: AddressEntry| e@), self.entries(), AddrAccount::Receive, true),
    {
        self.select(AddrAccount::Receive, true)
    }

    /// The addresses of `account`, in increasing index order.
    pub fn get(&self, account: AddrAccount) -> (r: Vec<AddressEntry>)
        requires
            self.wf(),
        ensures
            sorted_by_index(r@.map_values(|e: AddressEntry| e@)),
            same_entries(r@.map_values(|e: AddressEntry| e@), self.entries(), account, false),
    {
        self.select(account, false)
    }

    /// The entries of `account`, only the unused ones if `unused_only`,
    /// sorted by index.
    fn select(&self, account: AddrAccount, unused_only: bool) -> (r: Vec<AddressEntry>)
        requires
            self.wf(),
        ensures
            sorted_by_index(r@.map_values(|e: AddressEntry| e@)),
            same_entries(r@.map_values(|e: AddressEntry| e@), self.entries(), account, unused_only),
    {
        let ghost es = self.entries();
        let mut r: Vec<AddressEntry> = Vec::new();
        let n = self.store.len();
        proof {
            assert(r@.map_values(|x: AddressEntry| x@) =~= Seq::<AddressEntryModel>::empty());
        }
        for i in 0..n
            invariant
                n == self.store@.len(),
                es == self.entries(),
                self.wf(),
                sorted_by_index(r@.map_values(|e: AddressEntry| e@)),
                same_entries(r@.map_values(|e: AddressEntry| e@), es.take(i as int), account, unused_only),
        {
            let e = &self.store[i];
            assert(es[i as int] == e@);
            if e.account == account && (!unused_only || e.status == AddressStatus::NotUsed) {
                let ghost rv = r@.map_values(|x: AddressEntry| x@);
                let d = e.duplicate();
                proof {
                    assert forall|q: int| 0 <= q < r@.len() implies (#[trigger] r@[q]).index != d.index by {
                        assert(rv[q] == r@[q]@);
                        assert(occurs(es.take(i as int), rv[q]));
                        let k = choose|k: int| #![trigger es.take(i as int)[k]] 0 <= k < es.take(i as int).len()
                            && es.take(i as int)[k] == rv[q];
                        assert(es[k] == rv[q]);
                        self.lemma_index_unique(k, i as int);
                    }
                }
                let p = insert_sorted(&mut r, d);
                proof { lemma_same_entries_add(rv, r@.map_values(|x: AddressEntry| x@), es, i as int, p as int, account, unused_only); }
            } else {
                proof { lemma_same_entries_skip(r@.map_values(|x: AddressEntry| x@), es, i as int, account, unused_only); }
            }
        }
        assert(es.take(n as int) =~= es);
        r
    }

    /// Two entries of the same branch have different indexes.
    proof fn lemma_index_unique(&self, a: int, b: int)
        requires
            self.wf(),
            0 <= a < self.entries().len(),
            0 <= b < self.entries().len(),
            a != b,
            self.entries()[a].account == self.entries()[b].account,
        ensures
            self.entries()[a].index != self.entries()[b].index,
    {
        assert(entry_derived(self.entries()[a], self.derivation()));
        assert(entry_derived(self.entries()[b], self.derivation()));
    }
}

/// The indexes of `s` strictly increase.
pub open spec fn sorted_by_index(s: Seq<AddressEntryModel>) -> bool {
    forall|a: int, b: int| 0 <= a < b < s.len() ==> s[a].index < s[b].index
}

/// The entry is of `account`, and unused if `unused_only`.
pub open spec fn selected(e: AddressEntryModel, account: AddrAccount, unused_only: bool) -> bool {
    e.account == account && (!unused_only || e.status == AddressStatus::NotUsed)
}

/// Some element of `s` is `x`.
pub open spec fn occurs(s: Seq<AddressEntryModel>, x: AddressEntryModel) -> bool {
    exists|k: int| #![trigger s[k]] 0 <= k < s.len() && s[k] == x
}

/// `r` holds exactly the entries of `s` that are selected.
pub open spec fn same_entries(
    r: Seq<AddressEntryModel>,
    s: Seq<AddressEntryModel>,
    account: AddrAccount,
    unused_only: bool,
) -> bool {
    &&& forall|q: int| 0 <= q < r.len() ==> occurs(s, #[trigger] r[q]) && selected(r[q], account, unused_only)
    &&& forall|k: int| 0 <= k < s.len() && selected(#[trigger] s[k], account, unused_only) ==> occurs(r, s[k])
}

/// Inserts `e` into `r`, sorted by index, where no entry has its index;
/// returns the position.
fn insert_sorted(r: &mut Vec<AddressEntry>, e: AddressEntry) -> (p: usize)
    requires
        sorted_by_index(old(r)@.map_values(|x: AddressEntry| x@)),
        forall|q: int| 0 <= q < old(r)@.len() ==> (#[trigger] old(r)@[q]).index != e.index,
    ensures
        p <= old(r)@.len(),
        final(r)@.map_values(|x: AddressEntry| x@) == old(r)@.map_values(|x: AddressEntry| x@).insert(p as int, e@),
        sorted_by_index(final(r)@.map_values(|x: AddressEntry| x@)),
{
    let ghost rv = r@.map_values(|x: AddressEntry| x@);
    let m = r.len();
    let mut p: usize = 0;
    while p < m && r[p].index < e.index
        invariant
            m == r@.len(),
            p <= m,
            forall|q: int| 0 <= q < p ==> r@[q].index < e.index,
        decreases m - p,
    {
        p = p + 1;
    }
    assert forall|q: int| p <= q < m implies rv[q].index > e.index by {
        assert(rv[q] == r@[q]@);
        assert(r@[q].index != e.index);
        if q > p {
            assert(rv[p as int].index < rv[q].index);
        }
    }
    let ghost ev = e@;
    r.insert(p, e);
    let ghost rv2 = r@.map_values(|x: AddressEntry| x@);
    assert(rv2 =~= rv.insert(p as int, ev));
    assert(sorted_by_index(rv2)) by {
        assert forall|a: int, b: int| 0 <= a < b < rv2.len() implies rv2[a].index < rv2[b].index by {
            if b < p {
                assert(rv2[a] == rv[a] && rv2[b] == rv[b]);
            } else if b == p {
                assert(rv2[a] == rv[a]);
                assert(rv[a] == r@[a]@);
            } else if a < p {
                assert(rv2[b] == rv[b - 1]);
                assert(rv2[a] == rv[a]);
            } else if a == p {
                assert(rv2[b] == rv[b - 1]);
            } else {
                assert(rv2[b] == rv[b - 1]);
                assert(rv2[a] == rv[a - 1]);
            }
        }
    }
    p
}

proof fn lemma_same_entries_skip(
    r: Seq<AddressEntryModel>,
    es: Seq<AddressEntryModel>,
    i: int,
    account: AddrAccount,
    unused_only: bool,
)
    requires
        0 <= i < es.len(),
        !selected(es[i], account, unused_only),
        same_entries(r, es.take(i), account, unused_only),
    ensures
        same_entries(r, es.take(i + 1), account, unused_only),
{
    let a = es.take(i);
    let b = es.take(i + 1);
    assert forall|q: int| 0 <= q < r.len() implies occurs(b, #[trigger] r[q]) && selected(r[q], account, unused_only) by {
        assert(occurs(a, r[q]));
        let k = choose|k: int| #![trigger a[k]] 0 <= k < a.len() && a[k] == r[q];
        assert(b[k] == a[k]);
    }
    assert forall|k: int| 0 <= k < b.len() && selected(#[trigger] b[k], account, unused_only) implies occurs(r, b[k]) by {
        assert(k < i);
        assert(a[k] == b[k]);
    }
}

proof fn lemma_same_entries_add(
    r: Seq<AddressEntryModel>,
    r2: Seq<AddressEntryModel>,
    es: Seq<AddressEntryModel>,
    i: int,
    p: int,
    account: AddrAccount,
    unused_only: bool,
)
    requires
        0 <= i < es.len(),
        0 <= p <= r.len(),
        selected(es[i], account, unused_only),
        same_entries(r, es.take(i), account, unused_only),
        r2 == r.insert(p, es[i]),
    ensures
        same_entries(r2, es.take(i + 1), account, unused_only),
{
    let a = es.take(i);
    let b = es.take(i + 1);
    assert forall|q: int| 0 <= q < r2.len() implies occurs(b, #[trigger] r2[q]) && selected(r2[q], account, unused_only) by {
        if q == p {
            assert(b[i] == r2[q]);
        } else {
            let q0 = if q < p { q } else { q - 1 };
            assert(r2[q] == r[q0]);
            assert(occurs(a, r[q0]));
            let k = choose|k: int| #![trigger a[k]] 0 <= k < a.len() && a[k] == r[q0];
            assert(b[k] == a[k]);
        }
    }
    assert forall|k: int| 0 <= k < b.len() && selected(#[trigger] b[k], account, unused_only) implies occurs(r2, b[k]) by {
        if k == i {
            assert(r2[p] == b[k]);
        } else {
            assert(a[k] == b[k]);
            assert(occurs(r, a[k]));
            let q0 = choose|q: int| #![trigger r[q]] 0 <= q < r.len() && r[q] == a[k];
            if q0 < p {
                assert(r2[q0] == r[q0]);
            } else {
                assert(r2[q0 + 1] == r[q0]);
            }
        }
    }
}

} // verus!
