//! The keyed byte store with per-key expiration.
//!
//! Entries map a key to a value and an optional expiration instant, a
//! count of milliseconds on a monotonic clock. Every operation takes
//! the current instant as an argument; an entry whose instant has
//! passed reads as absent but is only removed by `remove_expired`.
//! An index of (instant, id, key) tuples remembers every expiration
//! ever assigned; the entry's own field stays authoritative, and the
//! reaper revalidates against it before removing anything.

use vstd::prelude::*;

verus! {

broadcast use vstd::std_specs::vec::group_vec_axioms, vstd::seq::group_seq_axioms;

/// One stored entry: a value and an optional expiration instant.
pub struct Entry {
    pub value: Vec<u8>,
    pub expiration: Option<u64>,
}

/// The mathematical shape of an entry.
#[verifier::ext_equal]
pub ghost struct EntryModel {
    pub value: Seq<u8>,
    pub expiration: Option<u64>,
}

impl Entry {
    pub open spec fn model(&self) -> EntryModel {
        EntryModel { value: self.value@, expiration: self.expiration }
    }
}

/// One tuple of the expiration index.
#[verifier::ext_equal]
pub ghost struct ExpModel {
    pub when: u64,
    pub id: u64,
    pub key: Seq<u8>,
}

struct ExpTuple {
    when: u64,
    id: u64,
    key: Vec<u8>,
}

impl ExpTuple {
    spec fn model(&self) -> ExpModel {
        ExpModel { when: self.when, id: self.id, key: self.key@ }
    }
}

struct Slot {
    key: Vec<u8>,
    entry: Entry,
}

/// The condition under which a conditional mutation applies.
#[derive(Debug, PartialEq, Eq, Structural, Clone, Copy)]
pub enum SetCondition {
    NX,
    XX,
    GT,
    LT,
    NONE,
}

/// An entry whose instant has passed is expired; no instant means no
/// time-to-live.
pub open spec fn entry_expired(e: EntryModel, now: u64) -> bool {
    match e.expiration {
        Some(t) => t < now,
        None => false,
    }
}

/// A key is live when present and not expired.
pub open spec fn live(m: Map<Seq<u8>, EntryModel>, k: Seq<u8>, now: u64) -> bool {
    m.contains_key(k) && !entry_expired(m[k], now)
}

/// Order on optional expirations where no instant stands greatest.
pub open spec fn exp_lt(a: Option<u64>, b: Option<u64>) -> bool {
    match (a, b) {
        (Some(x), Some(y)) => x < y,
        (Some(_), None) => true,
        (None, _) => false,
    }
}

spec fn slots_map(s: Seq<Slot>) -> Map<Seq<u8>, EntryModel>
    decreases s,
{
    if s.len() == 0 {
        Map::empty()
    } else {
        slots_map(s.drop_last()).insert(s.last().key@, s.last().entry.model())
    }
}

spec fn slots_unique(s: Seq<Slot>) -> bool {
    forall|i: int, j: int| 0 <= i < j < s.len() ==> s[i].key@ != s[j].key@
}

proof fn lemma_slots_map_contains(s: Seq<Slot>, k: Seq<u8>)
    ensures
        slots_map(s).contains_key(k) <==> exists|i: int|
            0 <= i < s.len() && (#[trigger] s[i].key@) == k,
    decreases s,
{
    if s.len() > 0 {
        lemma_slots_map_contains(s.drop_last(), k);
        if slots_map(s).contains_key(k) {
            if s.last().key@ == k {
                assert(s[s.len() - 1].key@ == k);
            } else {
                let i = choose|i: int| 0 <= i < s.len() - 1 && (#[trigger] s.drop_last()[i].key@)
                    == k;
                assert(s[i].key@ == k);
            }
        }
        if exists|i: int| 0 <= i < s.len() && (#[trigger] s[i].key@) == k {
            let i = choose|i: int| 0 <= i < s.len() && (#[trigger] s[i].key@) == k;
            if i < s.len() - 1 {
                assert(s.drop_last()[i].key@ == k);
            }
        }
    }
}

proof fn lemma_slots_map_index(s: Seq<Slot>, i: int)
    requires
        slots_unique(s),
        0 <= i < s.len(),
    ensures
        slots_map(s).contains_key(s[i].key@),
        slots_map(s)[s[i].key@] == s[i].entry.model(),
    decreases s,
{
    if i < s.len() - 1 {
        assert(forall|a: int, b: int|
            0 <= a < b < s.len() - 1 ==> s.drop_last()[a].key@ != s.drop_last()[b].key@);
        lemma_slots_map_index(s.drop_last(), i);
        assert(s[i].key@ != s.last().key@);
    }
}

proof fn lemma_slots_map_update(s: Seq<Slot>, i: int, slot: Slot)
    requires
        slots_unique(s),
        0 <= i < s.len(),
        slot.key@ == s[i].key@,
    ensures
        slots_map(s.update(i, slot)) =~= slots_map(s).insert(slot.key@, slot.entry.model()),
        slots_unique(s.update(i, slot)),
    decreases s,
{
    if i == s.len() - 1 {
        assert(s.update(i, slot).drop_last() =~= s.drop_last());
        assert(s.update(i, slot).last() == slot);
    } else {
        assert(forall|a: int, b: int|
            0 <= a < b < s.len() - 1 ==> s.drop_last()[a].key@ != s.drop_last()[b].key@);
        lemma_slots_map_update(s.drop_last(), i, slot);
        assert(s.update(i, slot).drop_last() =~= s.drop_last().update(i, slot));
        assert(s.update(i, slot).last() == s.last());
        assert(slot.key@ != s.last().key@);
    }
}

proof fn lemma_slots_map_push(s: Seq<Slot>, slot: Slot)
    requires
        slots_unique(s),
        !slots_map(s).contains_key(slot.key@),
    ensures
        slots_map(s.push(slot)) =~= slots_map(s).insert(slot.key@, slot.entry.model()),
        slots_unique(s.push(slot)),
{
    assert(s.push(slot).drop_last() =~= s);
    assert(s.push(slot).last() == slot);
    lemma_slots_map_contains(s, slot.key@);
    assert(forall|a: int| 0 <= a < s.len() ==> (#[trigger] s.push(slot)[a].key@) == s[a].key@);
}

proof fn lemma_slots_map_remove(s: Seq<Slot>, i: int)
    requires
        slots_unique(s),
        0 <= i < s.len(),
    ensures
        slots_map(s.remove(i)) =~= slots_map(s).remove(s[i].key@),
        slots_unique(s.remove(i)),
    decreases s,
{
    lemma_slots_map_contains(s.drop_last(), s[i].key@);
    if i == s.len() - 1 {
        assert(s.remove(i) =~= s.drop_last());
        // The removed key stood nowhere earlier, so dropping the last
        // slot is removing the key.
        assert(forall|a: int| 0 <= a < s.len() - 1 ==> s[a].key@ != s[i].key@);
        assert(!slots_map(s.drop_last()).contains_key(s[i].key@));
        assert(slots_map(s.drop_last()) =~= slots_map(s.drop_last()).insert(
            s.last().key@,
            s.last().entry.model(),
        ).remove(s[i].key@));
    } else {
        assert(forall|a: int, b: int|
            0 <= a < b < s.len() - 1 ==> s.drop_last()[a].key@ != s.drop_last()[b].key@);
        lemma_slots_map_remove(s.drop_last(), i);
        assert(s.remove(i).drop_last() =~= s.drop_last().remove(i));
        assert(s.remove(i).last() == s.last());
        assert(s[i].key@ != s.last().key@);
        assert(slots_map(s.remove(i)) =~= slots_map(s).remove(s[i].key@));
        assert(forall|a: int, b: int|
            0 <= a < b < s.len() - 1 ==> (#[trigger] s.remove(i)[a]).key@ != (#[trigger] s.remove(
                i,
            )[b]).key@ || true);
        assert forall|a: int, b: int| 0 <= a < b < s.len() - 1 implies (#[trigger] s.remove(
            i,
        )[a]).key@ != (#[trigger] s.remove(i)[b]).key@ by {
            if a < i {
                assert(s.remove(i)[a] == s[a]);
            } else {
                assert(s.remove(i)[a] == s[a + 1]);
            }
            if b < i {
                assert(s.remove(i)[b] == s[b]);
            } else {
                assert(s.remove(i)[b] == s[b + 1]);
            }
        }
    }
}

/// Compare two byte strings.
pub fn bytes_eq(a: &Vec<u8>, b: &Vec<u8>) -> (r: bool)
    ensures
        r == (a@ == b@),
{
    if a.len() != b.len() {
        return false;
    }
    let mut i: usize = 0;
    while i < a.len()
        invariant
            i <= a@.len() == b@.len(),
            forall|j: int| 0 <= j < i ==> a@[j] == b@[j],
        decreases a@.len() - i,
    {
        if a[i] != b[i] {
            return false;
        }
        i = i + 1;
    }
    proof {
        assert(a@ =~= b@);
    }
    true
}

/// The store.
pub struct Db {
    slots: Vec<Slot>,
    expirations: Vec<ExpTuple>,
    next_id: u64,
}

/// The whole store, seen mathematically.
#[verifier::ext_equal]
pub ghost struct DbView {
    pub entries: Map<Seq<u8>, EntryModel>,
    pub index: Seq<ExpModel>,
    pub next_id: u64,
}

impl View for Db {
    type V = DbView;

    open spec fn view(&self) -> DbView {
        DbView { entries: self.entries(), index: self.index(), next_id: self.next_id() }
    }
}

impl Db {
    /// The entries, as a map from key to entry.
    pub closed spec fn entries(&self) -> Map<Seq<u8>, EntryModel> {
        slots_map(self.slots@)
    }

    /// The expiration index, in insertion order.
    pub closed spec fn index(&self) -> Seq<ExpModel> {
        Seq::new(self.expirations@.len(), |i: int| self.expirations@[i].model())
    }

    /// The id the next index tuple will carry.
    pub closed spec fn next_id(&self) -> u64 {
        self.next_id
    }

    /// Keys are unique.
    pub closed spec fn wf(&self) -> bool {
        slots_unique(self.slots@)
    }

    /// An empty store.
    pub fn new() -> (r: Db)
        ensures
            r.wf(),
            r.entries() == Map::<Seq<u8>, EntryModel>::empty(),
            r.index() == Seq::<ExpModel>::empty(),
            r.next_id() == 1u64,
    {
        let r = Db { slots: Vec::new(), expirations: Vec::new(), next_id: 1 };
        proof {
            assert(r.index() =~= Seq::<ExpModel>::empty());
        }
        r
    }

    fn find(&self, key: &Vec<u8>) -> (r: Option<usize>)
        requires
            self.wf(),
        ensures
            match r {
                Some(i) => {
                    &&& i < self.slots@.len()
                    &&& self.slots@[i as int].key@ == key@
                    &&& self.entries().contains_key(key@)
                    &&& self.entries()[key@] == self.slots@[i as int].entry.model()
                },
                None => !self.entries().contains_key(key@),
            },
    {
        let mut i: usize = 0;
        while i < self.slots.len()
            invariant
                self.wf(),
                i <= self.slots@.len(),
                forall|j: int| 0 <= j < i ==> (#[trigger] self.slots@[j].key@) != key@,
            decreases self.slots@.len() - i,
        {
            if bytes_eq(&self.slots[i].key, key) {
                proof {
                    lemma_slots_map_index(self.slots@, i as int);
                }
                return Some(i);
            }
            i = i + 1;
        }
        proof {
            lemma_slots_map_contains(self.slots@, key@);
        }
        None
    }

    /// Whether the entry named by `key` is live at `now`.
    fn live_at(e: &Entry, now: u64) -> (r: bool)
        ensures
            r == !entry_expired(e.model(), now),
    {
        match e.expiration {
            Some(t) => t >= now,
            None => true,
        }
    }

    /// Read an entry; an expired one reads as absent and stays put.
    pub fn get(&self, key: &Vec<u8>, now: u64) -> (r: Option<&Entry>)
        requires
            self.wf(),
        ensures
            match r {
                Some(e) => live(self.entries(), key@, now) && e.model() == self.entries()[key@],
                None => !live(self.entries(), key@, now),
            },
    {
        match self.find(key) {
            Some(i) => {
                let e = &self.slots[i].entry;
                if Self::live_at(e, now) {
                    Some(e)
                } else {
                    None
                }
            },
            None => None,
        }
    }

    /// Read a value, cloned; an expired entry reads as absent.
    pub fn get_value(&self, key: &Vec<u8>, now: u64) -> (r: Option<Vec<u8>>)
        requires
            self.wf(),
        ensures
            match r {
                Some(v) => live(self.entries(), key@, now) && v@ == self.entries()[key@].value,
                None => !live(self.entries(), key@, now),
            },
    {
        match self.get(key, now) {
            Some(e) => Some(crate::resp::clone_bytes(&e.value)),
            None => None,
        }
    }

    /// Push one tuple onto the expiration index and advance the id.
    fn register(&mut self, when: u64, key: Vec<u8>)
        ensures
            final(self).slots@ == old(self).slots@,
            final(self).index() == old(self).index().push(
                ExpModel { when, id: old(self).next_id, key: key@ },
            ),
            final(self).next_id == old(self).next_id.wrapping_add(1),
    {
        let id = self.next_id;
        self.expirations.push(ExpTuple { when, id, key });
        self.next_id = self.next_id.wrapping_add(1);
        proof {
            assert(self.index() =~= old(self).index().push(
                ExpModel { when, id: old(self).next_id, key: final(self).expirations@.last().key@ },
            ));
        }
    }

    /// Write a value under a key, under the given condition; keep or
    /// replace its expiration; optionally hand back the prior value.
    pub fn set(
        &mut self,
        key: Vec<u8>,
        value: Vec<u8>,
        expiration: Option<u64>,
        set_condition: SetCondition,
        keep_ttl: bool,
        get_value: bool,
        now: u64,
    ) -> (r: Option<Vec<u8>>)
        requires
            old(self).wf(),
        ensures
            final(self).wf(),
            final(self).entries() == set_entries(
                old(self).entries(),
                key@,
                value@,
                expiration,
                set_condition,
                keep_ttl,
                now,
            ),
            opt_bytes(r) == set_returned(old(self).entries(), key@, get_value, now),
            set_registers(old(self).entries(), key@, expiration, set_condition, keep_ttl, now)
                ==> (expiration matches Some(w) && final(self).index() == old(self).index().push(
                ExpModel { when: w, id: old(self).next_id(), key: key@ },
            ) && final(self).next_id() == old(self).next_id().wrapping_add(1)),
            !set_registers(old(self).entries(), key@, expiration, set_condition, keep_ttl, now)
                ==> final(self).index() == old(self).index() && final(self).next_id() == old(
                self,
            ).next_id(),
    {
        let found = self.find(&key);
        match found {
            Some(i) => {
                let is_live = Self::live_at(&self.slots[i].entry, now);
                let old_value = if get_value && is_live {
                    Some(crate::resp::clone_bytes(&self.slots[i].entry.value))
                } else {
                    None
                };
                if is_live {
                    if !matches!(set_condition, SetCondition::NX) {
                        if keep_ttl {
                            let kept = self.slots[i].entry.expiration;
                            let slot = Slot { key, entry: Entry { value, expiration: kept } };
                            proof {
                                lemma_slots_map_update(self.slots@, i as int, slot);
                            }
                            self.slots.set(i, slot);
                        } else {
                            if let Some(when) = expiration {
                                let kc = crate::resp::clone_bytes(&key);
                                self.register(when, kc);
                            }
                            let slot = Slot { key, entry: Entry { value, expiration } };
                            proof {
                                lemma_slots_map_update(self.slots@, i as int, slot);
                            }
                            self.slots.set(i, slot);
                        }
                    }
                } else {
                    if !matches!(set_condition, SetCondition::XX) {
                        if let Some(when) = expiration {
                            let kc = crate::resp::clone_bytes(&key);
                            self.register(when, kc);
                        }
                        let slot = Slot { key, entry: Entry { value, expiration } };
                        proof {
                            lemma_slots_map_update(self.slots@, i as int, slot);
                        }
                        self.slots.set(i, slot);
                    }
                }
                old_value
            },
            None => {
                if !matches!(set_condition, SetCondition::XX) {
                    if let Some(when) = expiration {
                        let kc = crate::resp::clone_bytes(&key);
                        self.register(when, kc);
                    }
                    let slot = Slot { key, entry: Entry { value, expiration } };
                    proof {
                        lemma_slots_map_push(self.slots@, slot);
                    }
                    self.slots.push(slot);
                }
                None
            },
        }
    }

    /// Remove an entry. A present entry always goes; the answer says
    /// whether it was live.
    pub fn del(&mut self, key: &Vec<u8>, now: u64) -> (r: bool)
        requires
            old(self).wf(),
        ensures
            final(self).wf(),
            final(self).entries() == old(self).entries().remove(key@),
            r == live(old(self).entries(), key@, now),
            final(self).index() == old(self).index(),
            final(self).next_id() == old(self).next_id(),
    {
        match self.find(key) {
            Some(i) => {
                let was_live = Self::live_at(&self.slots[i].entry, now);
                proof {
                    lemma_slots_map_remove(self.slots@, i as int);
                }
                self.slots.remove(i);
                was_live
            },
            None => {
                proof {
                    assert(old(self).entries().remove(key@) =~= old(self).entries());
                }
                false
            },
        }
    }

    /// Clear a live entry's expiration; the answer says whether one
    /// was there to clear.
    pub fn persist(&mut self, key: &Vec<u8>, now: u64) -> (r: bool)
        requires
            old(self).wf(),
        ensures
            final(self).wf(),
            r == (live(old(self).entries(), key@, now) && old(self).entries()[key@].expiration
                is Some),
            r ==> final(self).entries() == old(self).entries().insert(
                key@,
                EntryModel { value: old(self).entries()[key@].value, expiration: None },
            ),
            !r ==> final(self).entries() == old(self).entries(),
            final(self).index() == old(self).index(),
            final(self).next_id() == old(self).next_id(),
    {
        match self.find(key) {
            Some(i) => {
                let is_live = Self::live_at(&self.slots[i].entry, now);
                let has_ttl = self.slots[i].entry.expiration.is_some();
                if is_live && has_ttl {
                    let value = crate::resp::clone_bytes(&self.slots[i].entry.value);
                    let kc = crate::resp::clone_bytes(key);
                    let slot = Slot { key: kc, entry: Entry { value, expiration: None } };
                    proof {
                        lemma_slots_map_update(self.slots@, i as int, slot);
                    }
                    self.slots.set(i, slot);
                    true
                } else {
                    false
                }
            },
            None => false,
        }
    }

    /// Concatenate onto a live entry's value, or start the key afresh
    /// with no expiration; returns the new length.
    pub fn append(&mut self, key: Vec<u8>, value: Vec<u8>, now: u64) -> (r: usize)
        requires
            old(self).wf(),
            live(old(self).entries(), key@, now) ==> old(self).entries()[key@].value.len()
                + value@.len() <= usize::MAX,
        ensures
            final(self).wf(),
            live(old(self).entries(), key@, now) ==> {
                &&& final(self).entries() == old(self).entries().insert(
                    key@,
                    EntryModel {
                        value: old(self).entries()[key@].value + value@,
                        expiration: old(self).entries()[key@].expiration,
                    },
                )
                &&& r == old(self).entries()[key@].value.len() + value@.len()
            },
            !live(old(self).entries(), key@, now) ==> {
                &&& final(self).entries() == old(self).entries().insert(
                    key@,
                    EntryModel { value: value@, expiration: None },
                )
                &&& r == value@.len()
            },
            final(self).index() == old(self).index(),
            final(self).next_id() == old(self).next_id(),
    {
        match self.find(&key) {
            Some(i) => {
                let is_live = Self::live_at(&self.slots[i].entry, now);
                if is_live {
                    let mut joined = crate::resp::clone_bytes(&self.slots[i].entry.value);
                    crate::resp::push_all(&mut joined, &value);
                    let n = joined.len();
                    let kept = self.slots[i].entry.expiration;
                    let slot = Slot { key, entry: Entry { value: joined, expiration: kept } };
                    proof {
                        lemma_slots_map_update(self.slots@, i as int, slot);
                    }
                    self.slots.set(i, slot);
                    n
                } else {
                    let n = value.len();
                    let slot = Slot { key, entry: Entry { value, expiration: None } };
                    proof {
                        lemma_slots_map_update(self.slots@, i as int, slot);
                    }
                    self.slots.set(i, slot);
                    n
                }
            },
            None => {
                let n = value.len();
                let slot = Slot { key, entry: Entry { value, expiration: None } };
                proof {
                    lemma_slots_map_push(self.slots@, slot);
                }
                self.slots.push(slot);
                n
            },
        }
    }

    /// Read a live entry's value and, on the side, clear its
    /// expiration, set a new one, or leave it alone.
    pub fn getex(&mut self, key: &Vec<u8>, expiration: Option<u64>, persist: bool, now: u64) -> (r:
        Option<Vec<u8>>)
        requires
            old(self).wf(),
        ensures
            final(self).wf(),
            !live(old(self).entries(), key@, now) ==> {
                &&& r is None
                &&& final(self).entries() == old(self).entries()
                &&& final(self).index() == old(self).index()
                &&& final(self).next_id() == old(self).next_id()
            },
            live(old(self).entries(), key@, now) ==> {
                &&& r matches Some(v) && v@ == old(self).entries()[key@].value
                &&& if persist {
                    final(self).entries() == old(self).entries().insert(
                        key@,
                        EntryModel { value: old(self).entries()[key@].value, expiration: None },
                    ) && final(self).index() == old(self).index() && final(self).next_id() == old(
                        self,
                    ).next_id()
                } else if expiration is Some {
                    final(self).entries() == old(self).entries().insert(
                        key@,
                        EntryModel { value: old(self).entries()[key@].value, expiration },
                    ) && final(self).index() == old(self).index().push(
                        ExpModel { when: expiration->0, id: old(self).next_id(), key: key@ },
                    ) && final(self).next_id() == old(self).next_id().wrapping_add(1)
                } else {
                    final(self).entries() == old(self).entries() && final(self).index() == old(
                        self,
                    ).index() && final(self).next_id() == old(self).next_id()
                }
            },
    {
        match self.find(key) {
            Some(i) => {
                let is_live = Self::live_at(&self.slots[i].entry, now);
                if !is_live {
                    return None;
                }
                let value = crate::resp::clone_bytes(&self.slots[i].entry.value);
                if persist {
                    let kc = crate::resp::clone_bytes(key);
                    let copy = crate::resp::clone_bytes(&value);
                    let slot = Slot { key: kc, entry: Entry { value: copy, expiration: None } };
                    proof {
                        lemma_slots_map_update(self.slots@, i as int, slot);
                    }
                    self.slots.set(i, slot);
                } else if let Some(when) = expiration {
                    let kc = crate::resp::clone_bytes(key);
                    self.register(when, kc);
                    let kc2 = crate::resp::clone_bytes(key);
                    let copy = crate::resp::clone_bytes(&value);
                    let slot = Slot { key: kc2, entry: Entry { value: copy, expiration } };
                    proof {
                        lemma_slots_map_update(self.slots@, i as int, slot);
                    }
                    self.slots.set(i, slot);
                }
                Some(value)
            },
            None => None,
        }
    }

    /// Give a live entry a new expiration, under the given condition.
    pub fn expire(
        &mut self,
        key: &Vec<u8>,
        expiration: Option<u64>,
        set_condition: SetCondition,
        now: u64,
    ) -> (r: bool)
        requires
            old(self).wf(),
        ensures
            final(self).wf(),
            r == (live(old(self).entries(), key@, now) && expire_applies(
                old(self).entries()[key@].expiration,
                expiration,
                set_condition,
            )),
            r ==> final(self).entries() == old(self).entries().insert(
                key@,
                EntryModel { value: old(self).entries()[key@].value, expiration },
            ),
            !r ==> final(self).entries() == old(self).entries(),
            r ==> (expiration matches Some(w) ==> final(self).index() == old(self).index().push(
                ExpModel { when: w, id: old(self).next_id(), key: key@ },
            ) && final(self).next_id() == old(self).next_id().wrapping_add(1)),
            !(r && expiration is Some) ==> final(self).index() == old(self).index()
                && final(self).next_id() == old(self).next_id(),
    {
        match self.find(key) {
            Some(i) => {
                let is_live = Self::live_at(&self.slots[i].entry, now);
                if !is_live {
                    return false;
                }
                let current = self.slots[i].entry.expiration;
                let applies = match set_condition {
                    SetCondition::NX => current.is_none(),
                    SetCondition::XX => current.is_some(),
                    SetCondition::GT => exp_lt_exec(&current, &expiration),
                    SetCondition::LT => exp_lt_exec(&expiration, &current),
                    SetCondition::NONE => true,
                };
                if !applies {
                    return false;
                }
                if let Some(when) = expiration {
                    let kc = crate::resp::clone_bytes(key);
                    self.register(when, kc);
                }
                let value = crate::resp::clone_bytes(&self.slots[i].entry.value);
                let kc2 = crate::resp::clone_bytes(key);
                let slot = Slot { key: kc2, entry: Entry { value, expiration } };
                proof {
                    lemma_slots_map_update(self.slots@, i as int, slot);
                }
                self.slots.set(i, slot);
                true
            },
            None => false,
        }
    }
}

/// The index tuples that survive a reap at `now`: those whose instant
/// is still in the future, in their old order.
pub open spec fn future_index(idx: Seq<ExpModel>, now: u64) -> Seq<ExpModel>
    decreases idx,
{
    if idx.len() == 0 {
        Seq::empty()
    } else {
        let rest = future_index(idx.drop_last(), now);
        if idx.last().when > now {
            rest.push(idx.last())
        } else {
            rest
        }
    }
}

/// The keys a reap at `now` removes: named by an index tuple whose
/// instant has passed, and themselves expired by their own entry.
pub open spec fn reaped_keys(idx: Seq<ExpModel>, m: Map<Seq<u8>, EntryModel>, now: u64) -> Set<
    Seq<u8>,
>
    decreases idx,
{
    if idx.len() == 0 {
        Set::empty()
    } else {
        let rest = reaped_keys(idx.drop_last(), m, now);
        let t = idx.last();
        if t.when <= now && m.contains_key(t.key) && entry_expired(m[t.key], now) {
            rest.insert(t.key)
        } else {
            rest
        }
    }
}

/// Every reaped key was present and expired.
pub proof fn lemma_reaped_keys_sub(idx: Seq<ExpModel>, m: Map<Seq<u8>, EntryModel>, now: u64)
    ensures
        forall|k: Seq<u8>|
            reaped_keys(idx, m, now).contains(k) ==> m.contains_key(k) && entry_expired(m[k], now),
    decreases idx,
{
    if idx.len() > 0 {
        lemma_reaped_keys_sub(idx.drop_last(), m, now);
    }
}

impl Db {
    /// Whether any index tuple's instant has passed; the reaper's
    /// fast-path peek.
    pub fn check_expired(&self, now: u64) -> (r: bool)
        ensures
            r == exists|i: int| 0 <= i < self.index().len() && (#[trigger] self.index()[i]).when
                < now,
    {
        let mut i: usize = 0;
        while i < self.expirations.len()
            invariant
                i <= self.expirations@.len(),
                self.index().len() == self.expirations@.len(),
                forall|j: int| 0 <= j < i ==> (#[trigger] self.index()[j]).when >= now,
            decreases self.expirations@.len() - i,
        {
            if self.expirations[i].when < now {
                proof {
                    assert(self.index()[i as int].when < now);
                }
                return true;
            }
            i = i + 1;
        }
        false
    }

    /// Remove every index tuple whose instant has passed, and with it
    /// every named entry that is itself expired. Stale tuples, whose
    /// entry has moved on, remove nothing but themselves.
    pub fn remove_expired(&mut self, now: u64)
        requires
            old(self).wf(),
        ensures
            final(self).wf(),
            final(self).entries() == old(self).entries().remove_keys(
                reaped_keys(old(self).index(), old(self).entries(), now),
            ),
            final(self).index() == future_index(old(self).index(), now),
            final(self).next_id() == old(self).next_id(),
    {
        let ghost m0 = old(self).entries();
        let ghost idx0 = old(self).index();
        let mut kept: Vec<ExpTuple> = Vec::new();
        let n = self.expirations.len();
        let mut i: usize = 0;
        proof {
            assert(reaped_keys(idx0.subrange(0, 0), m0, now) =~= Set::<Seq<u8>>::empty());
            assert(m0.remove_keys(Set::<Seq<u8>>::empty()) =~= m0);
            assert(future_index(idx0.subrange(0, 0), now) =~= Seq::<ExpModel>::empty());
            assert(Seq::new(kept@.len(), |j: int| kept@[j].model()) =~= Seq::<ExpModel>::empty());
        }
        while i < n
            invariant
                self.wf(),
                i <= n == self.expirations@.len(),
                self.expirations@ == old(self).expirations@,
                self.next_id == old(self).next_id,
                m0 == old(self).entries(),
                idx0 == old(self).index(),
                idx0.len() == n,
                Seq::new(kept@.len(), |j: int| kept@[j].model()) == future_index(
                    idx0.subrange(0, i as int),
                    now,
                ),
                self.entries() == m0.remove_keys(
                    reaped_keys(idx0.subrange(0, i as int), m0, now),
                ),
            decreases n - i,
        {
            let ghost reaped_pre = reaped_keys(idx0.subrange(0, i as int), m0, now);
            proof {
                assert(idx0.subrange(0, i + 1).drop_last() =~= idx0.subrange(0, i as int));
                assert(idx0.subrange(0, i + 1).last() == idx0[i as int]);
                assert(idx0[i as int] == self.expirations@[i as int].model());
            }
            let when = self.expirations[i].when;
            let id = self.expirations[i].id;
            if when > now {
                let k = crate::resp::clone_bytes(&self.expirations[i].key);
                let ghost kept_pre = kept@;
                kept.push(ExpTuple { when, id, key: k });
                proof {
                    assert(Seq::new(kept@.len(), |j: int| kept@[j].model()) =~= Seq::new(
                        kept_pre.len(),
                        |j: int| kept_pre[j].model(),
                    ).push(idx0[i as int]));
                }
            } else {
                let k = crate::resp::clone_bytes(&self.expirations[i].key);
                let ghost reaped_step = reaped_keys(idx0.subrange(0, i + 1), m0, now);
                match self.find(&k) {
                    Some(slot_i) => {
                        let gone = !Self::live_at(&self.slots[slot_i].entry, now);
                        proof {
                            // A surviving entry carries the model it
                            // started with: the reap only removes keys.
                            assert(self.entries()[k@] == m0[k@]);
                        }
                        if gone {
                            proof {
                                lemma_slots_map_remove(self.slots@, slot_i as int);
                                assert(reaped_step =~= reaped_pre.insert(k@));
                                assert(m0.remove_keys(reaped_pre).remove(k@) =~= m0.remove_keys(
                                    reaped_step,
                                ));
                            }
                            self.slots.remove(slot_i);
                        } else {
                            proof {
                                assert(reaped_step =~= reaped_pre);
                            }
                        }
                    },
                    None => {
                        proof {
                            lemma_reaped_keys_sub(idx0.subrange(0, i as int), m0, now);
                            if m0.contains_key(k@) && entry_expired(m0[k@], now) {
                                assert(reaped_step =~= reaped_pre.insert(k@));
                                assert(reaped_pre.contains(k@));
                                assert(reaped_step =~= reaped_pre);
                            } else {
                                assert(reaped_step =~= reaped_pre);
                            }
                            assert(m0.remove_keys(reaped_step) =~= m0.remove_keys(reaped_pre));
                        }
                    },
                }
            }
            i = i + 1;
        }
        proof {
            assert(idx0.subrange(0, n as int) =~= idx0);
        }
        self.expirations = kept;
    }
}

/// A cloned optional byte string, seen mathematically.
pub open spec fn opt_bytes(o: Option<Vec<u8>>) -> Option<Seq<u8>> {
    match o {
        Some(v) => Some(v@),
        None => None,
    }
}

/// What SET leaves in the entry map.
pub open spec fn set_entries(
    m: Map<Seq<u8>, EntryModel>,
    k: Seq<u8>,
    v: Seq<u8>,
    exp: Option<u64>,
    cond: SetCondition,
    keep_ttl: bool,
    now: u64,
) -> Map<Seq<u8>, EntryModel> {
    if live(m, k, now) {
        if cond == SetCondition::NX {
            m
        } else if keep_ttl {
            m.insert(k, EntryModel { value: v, expiration: m[k].expiration })
        } else {
            m.insert(k, EntryModel { value: v, expiration: exp })
        }
    } else {
        if cond == SetCondition::XX {
            m
        } else {
            m.insert(k, EntryModel { value: v, expiration: exp })
        }
    }
}

/// What SET hands back: the prior value, when asked for and live.
pub open spec fn set_returned(
    m: Map<Seq<u8>, EntryModel>,
    k: Seq<u8>,
    get_value: bool,
    now: u64,
) -> Option<Seq<u8>> {
    if get_value && live(m, k, now) {
        Some(m[k].value)
    } else {
        None
    }
}

/// Whether SET pushes a tuple onto the expiration index.
pub open spec fn set_registers(
    m: Map<Seq<u8>, EntryModel>,
    k: Seq<u8>,
    exp: Option<u64>,
    cond: SetCondition,
    keep_ttl: bool,
    now: u64,
) -> bool {
    if live(m, k, now) {
        cond != SetCondition::NX && !keep_ttl && exp is Some
    } else {
        cond != SetCondition::XX && exp is Some
    }
}

/// When EXPIRE applies: NX wants no current instant, XX wants one,
/// GT and LT compare with a missing instant standing greatest.
pub open spec fn expire_applies(
    current: Option<u64>,
    newexp: Option<u64>,
    cond: SetCondition,
) -> bool {
    match cond {
        SetCondition::NX => current is None,
        SetCondition::XX => current is Some,
        SetCondition::GT => exp_lt(current, newexp),
        SetCondition::LT => exp_lt(newexp, current),
        SetCondition::NONE => true,
    }
}

/// Compare optional expirations, a missing one standing greatest.
pub fn exp_lt_exec(a: &Option<u64>, b: &Option<u64>) -> (r: bool)
    ensures
        r == exp_lt(*a, *b),
{
    match (a, b) {
        (Some(x), Some(y)) => *x < *y,
        (Some(_), None) => true,
        (None, _) => false,
    }
}

} // verus!
