//! The in-memory index: for every live key, where its latest `Set` record
//! lies in the log.

use vstd::prelude::*;

verus! {

/// Where a record lies: the generation of its segment, the offset of its
/// first byte and its length in bytes.
#[derive(Clone, Copy, Debug, PartialEq, Eq, Structural)]
pub struct CommandPos {
    pub gen: u64,
    pub pos: u64,
    pub len: u64,
}

/// One entry of the index as the contracts see it.
pub struct Slot {
    pub key: Seq<char>,
    pub at: CommandPos,
}

struct IndexEntry {
    key: String,
    at: CommandPos,
}

/// No key occurs twice.
pub open spec fn distinct_keys(s: Seq<Slot>) -> bool {
    forall|i: int, j: int| 0 <= i < j < s.len() ==> s[i].key != s[j].key
}

/// Some slot holds `key`.
pub open spec fn has_key(s: Seq<Slot>, key: Seq<char>) -> bool {
    exists|i: int| 0 <= i < s.len() && #[trigger] s[i].key == key
}

/// A slot that holds `key`, where there is one.
pub open spec fn slot_of(s: Seq<Slot>, key: Seq<char>) -> int {
    choose|i: int| 0 <= i < s.len() && #[trigger] s[i].key == key
}

/// The mapping from key to position that the slots stand for.
pub open spec fn slots_map(s: Seq<Slot>) -> Map<Seq<char>, CommandPos> {
    Map::new(|k: Seq<char>| has_key(s, k), |k: Seq<char>| s[slot_of(s, k)].at)
}

/// The slots after `at` is recorded for `key`: a present key keeps its
/// place, a new one goes to the end.
pub open spec fn slots_insert(s: Seq<Slot>, key: Seq<char>, at: CommandPos) -> Seq<Slot> {
    if has_key(s, key) {
        s.update(slot_of(s, key), Slot { key, at })
    } else {
        s.push(Slot { key, at })
    }
}

/// The slots after `key` is forgotten; the others keep their order.
pub open spec fn slots_remove(s: Seq<Slot>, key: Seq<char>) -> Seq<Slot> {
    if has_key(s, key) {
        s.remove(slot_of(s, key))
    } else {
        s
    }
}

/// The length of the record that `key` points at, 0 for an absent key.
pub open spec fn displaced_len(s: Seq<Slot>, key: Seq<char>) -> nat {
    if has_key(s, key) {
        s[slot_of(s, key)].at.len as nat
    } else {
        0
    }
}

/// The summed length of the records that the slots point at.
pub open spec fn total_len(s: Seq<Slot>) -> nat
    decreases s.len(),
{
    if s.len() == 0 {
        0
    } else {
        total_len(s.drop_last()) + s.last().at.len as nat
    }
}

/// The slots after compaction into generation `gen`: the same keys in the
/// same order, each record placed directly behind the one before it.
pub open spec fn packed(s: Seq<Slot>, gen: u64) -> Seq<Slot> {
    Seq::new(
        s.len(),
        |i: int|
            Slot {
                key: s[i].key,
                at: CommandPos { gen, pos: total_len(s.take(i)) as u64, len: s[i].at.len },
            },
    )
}

/// With distinct keys, the slot that holds a key is the only one.
pub proof fn lemma_slot_unique(s: Seq<Slot>, i: int)
    requires
        distinct_keys(s),
        0 <= i < s.len(),
    ensures
        has_key(s, s[i].key),
        slot_of(s, s[i].key) == i,
        slots_map(s).contains_key(s[i].key),
        slots_map(s)[s[i].key] == s[i].at,
{
}

/// Appending a slot adds its length to the total.
pub proof fn lemma_total_push(s: Seq<Slot>, e: Slot)
    ensures
        total_len(s.push(e)) == total_len(s) + e.at.len,
{
    assert(s.push(e).drop_last() =~= s);
}

/// Replacing slot `i` exchanges its length in the total.
pub proof fn lemma_total_update(s: Seq<Slot>, i: int, e: Slot)
    requires
        0 <= i < s.len(),
    ensures
        total_len(s.update(i, e)) + s[i].at.len == total_len(s) + e.at.len,
    decreases s.len(),
{
    if i == s.len() - 1 {
        assert(s.update(i, e).drop_last() =~= s.drop_last());
    } else {
        lemma_total_update(s.drop_last(), i, e);
        assert(s.update(i, e).drop_last() =~= s.drop_last().update(i, e));
    }
}

/// Taking slot `i` out takes its length out of the total.
pub proof fn lemma_total_remove(s: Seq<Slot>, i: int)
    requires
        0 <= i < s.len(),
    ensures
        total_len(s.remove(i)) + s[i].at.len == total_len(s),
    decreases s.len(),
{
    if i == s.len() - 1 {
    } else {
        lemma_total_remove(s.drop_last(), i);
        assert(s.remove(i).drop_last() =~= s.drop_last().remove(i));
    }
}

/// A prefix never weighs more than the whole.
pub proof fn lemma_total_take(s: Seq<Slot>, i: int)
    requires
        0 <= i <= s.len(),
    ensures
        total_len(s.take(i)) <= total_len(s),
        i < s.len() ==> total_len(s.take(i + 1)) == total_len(s.take(i)) + s[i].at.len,
    decreases s.len() - i,
{
    if i == s.len() {
        assert(s.take(i) =~= s);
    } else {
        assert(s.take(i + 1).drop_last() =~= s.take(i));
        lemma_total_take(s, i + 1);
    }
}

/// Replacing the slot of a present key is `Map::insert`.
pub proof fn lemma_map_update(s: Seq<Slot>, i: int, at: CommandPos)
    requires
        distinct_keys(s),
        0 <= i < s.len(),
    ensures
        distinct_keys(s.update(i, Slot { key: s[i].key, at })),
        slots_map(s.update(i, Slot { key: s[i].key, at })) == slots_map(s).insert(s[i].key, at),
{
    let key = s[i].key;
    let t = s.update(i, Slot { key, at });
    assert forall|k: Seq<char>| has_key(t, k) == has_key(s, k) by {
        if has_key(s, k) {
            assert(t[slot_of(s, k)].key == k);
        }
    }
    assert forall|k: Seq<char>| has_key(t, k) implies #[trigger] slots_map(t)[k] == slots_map(
        s,
    ).insert(key, at)[k] by {
        let j = slot_of(t, k);
        lemma_slot_unique(t, j);
        if k == key {
            lemma_slot_unique(t, i);
        } else {
            lemma_slot_unique(s, j);
        }
    }
}

/// Appending a slot with a fresh key is `Map::insert`.
pub proof fn lemma_map_push(s: Seq<Slot>, e: Slot)
    requires
        distinct_keys(s),
        !has_key(s, e.key),
    ensures
        distinct_keys(s.push(e)),
        slots_map(s.push(e)) == slots_map(s).insert(e.key, e.at),
{
    let t = s.push(e);
    assert forall|k: Seq<char>| has_key(t, k) == (has_key(s, k) || k == e.key) by {
        if has_key(s, k) {
            assert(t[slot_of(s, k)].key == k);
        }
        if k == e.key {
            assert(t[s.len() as int].key == k);
        }
    }
    assert forall|k: Seq<char>| has_key(t, k) implies #[trigger] slots_map(t)[k] == slots_map(
        s,
    ).insert(e.key, e.at)[k] by {
        let j = slot_of(t, k);
        lemma_slot_unique(t, j);
        if k == e.key {
            lemma_slot_unique(t, s.len() as int);
        } else {
            lemma_slot_unique(s, j);
        }
    }
}

/// Taking the slot of a key out is `Map::remove`.
pub proof fn lemma_map_remove(s: Seq<Slot>, i: int)
    requires
        distinct_keys(s),
        0 <= i < s.len(),
    ensures
        distinct_keys(s.remove(i)),
        slots_map(s.remove(i)) == slots_map(s).remove(s[i].key),
{
    let key = s[i].key;
    let t = s.remove(i);
    assert forall|a: int| 0 <= a < t.len() implies #[trigger] t[a] == s[if a < i {
        a
    } else {
        a + 1
    }] by {}
    assert forall|k: Seq<char>| has_key(t, k) == (has_key(s, k) && k != key) by {
        if has_key(s, k) && k != key {
            let j = slot_of(s, k);
            let j2 = if j < i { j } else { j - 1 };
            assert(t[j2].key == k);
        }
        if has_key(t, k) {
            let j = slot_of(t, k);
            let j2 = if j < i { j } else { j + 1 };
            if k == key {
                lemma_slot_unique(s, i);
                lemma_slot_unique(s, j2);
            }
        }
    }
    assert forall|k: Seq<char>| has_key(t, k) implies #[trigger] slots_map(t)[k] == slots_map(
        s,
    ).remove(key)[k] by {
        let j = slot_of(t, k);
        let j2 = if j < i { j } else { j + 1 };
        lemma_slot_unique(t, j);
        lemma_slot_unique(s, j2);
    }
}

/// The index: an association list in which no key occurs twice.
pub struct Index {
    entries: Vec<IndexEntry>,
}

impl View for Index {
    type V = Map<Seq<char>, CommandPos>;

    open spec fn view(&self) -> Map<Seq<char>, CommandPos> {
        slots_map(self.slots())
    }
}

impl Index {
    /// The entries in the order in which compaction walks them.
    pub closed spec fn slots(&self) -> Seq<Slot> {
        Seq::new(
            self.entries@.len(),
            |i: int| Slot { key: self.entries@[i].key@, at: self.entries@[i].at },
        )
    }

    /// The invariant of the type: no key occurs twice.
    pub open spec fn wf(&self) -> bool {
        distinct_keys(self.slots())
    }

    /// The summed length of the records that the index points at.
    pub open spec fn live_bytes(&self) -> nat {
        total_len(self.slots())
    }

    /// An index without entries.
    pub fn new() -> (index: Index)
        ensures
            index.wf(),
            index.slots() == Seq::<Slot>::empty(),
            index@ == Map::<Seq<char>, CommandPos>::empty(),
    {
        Index { entries: Vec::new() }
    }

    /// The number of keys.
    pub fn len(&self) -> (n: usize)
        ensures
            n == self.slots().len(),
    {
        self.entries.len()
    }

    fn find(&self, key: &String) -> (found: Option<usize>)
        ensures
            match found {
                Some(i) => i < self.slots().len() && self.slots()[i as int].key == key@,
                None => !has_key(self.slots(), key@),
            },
    {
        let mut i: usize = 0;
        while i < self.entries.len()
            invariant
                i <= self.entries.len(),
                forall|j: int| 0 <= j < i ==> self.slots()[j].key != key@,
            decreases self.entries.len() - i,
        {
            if self.entries[i].key == *key {
                return Some(i);
            }
            i += 1;
        }
        None
    }

    /// Whether the index holds `key`.
    pub fn contains_key(&self, key: &String) -> (present: bool)
        ensures
            present == self@.contains_key(key@),
    {
        self.find(key).is_some()
    }

    /// The position recorded for `key`, if the index holds it.
    pub fn get(&self, key: &String) -> (at: Option<CommandPos>)
        requires
            self.wf(),
        ensures
            at == (if self@.contains_key(key@) {
                Some(self@[key@])
            } else {
                None
            }),
    {
        match self.find(key) {
            Some(i) => {
                proof {
                    lemma_slot_unique(self.slots(), i as int);
                }
                Some(self.entries[i].at)
            },
            None => None,
        }
    }

    /// Records `at` for `key` and returns the position it displaces, if any.
    /// A displaced entry keeps its place in the walk order; a new key goes
    /// to the end.
    pub fn insert(&mut self, key: String, at: CommandPos) -> (displaced: Option<CommandPos>)
        requires
            old(self).wf(),
        ensures
            final(self).wf(),
            final(self)@ == old(self)@.insert(key@, at),
            displaced == (if old(self)@.contains_key(key@) {
                Some(old(self)@[key@])
            } else {
                None
            }),
            final(self).live_bytes() + (match displaced {
                Some(d) => d.len as nat,
                None => 0,
            }) == old(self).live_bytes() + at.len,
            final(self).slots() == slots_insert(old(self).slots(), key@, at),
    {
        let ghost before = self.slots();
        match self.find(&key) {
            Some(i) => {
                let displaced = self.entries[i].at;
                proof {
                    lemma_slot_unique(before, i as int);
                    lemma_map_update(before, i as int, at);
                    lemma_total_update(before, i as int, Slot { key: key@, at });
                }
                self.entries.set(i, IndexEntry { key, at });
                assert(self.slots() =~= before.update(i as int, Slot { key: key@, at }));
                Some(displaced)
            },
            None => {
                proof {
                    lemma_map_push(before, Slot { key: key@, at });
                    lemma_total_push(before, Slot { key: key@, at });
                }
                self.entries.push(IndexEntry { key, at });
                assert(self.slots() =~= before.push(Slot { key: key@, at }));
                None
            },
        }
    }

    /// Forgets `key` and returns the position it had, if any. The other
    /// entries keep their order.
    pub fn remove(&mut self, key: &String) -> (displaced: Option<CommandPos>)
        requires
            old(self).wf(),
        ensures
            final(self).wf(),
            final(self)@ == old(self)@.remove(key@),
            displaced == (if old(self)@.contains_key(key@) {
                Some(old(self)@[key@])
            } else {
                None
            }),
            final(self).live_bytes() + (match displaced {
                Some(d) => d.len as nat,
                None => 0,
            }) == old(self).live_bytes(),
            final(self).slots() == slots_remove(old(self).slots(), key@),
    {
        let ghost before = self.slots();
        match self.find(key) {
            Some(i) => {
                proof {
                    lemma_slot_unique(before, i as int);
                    lemma_map_remove(before, i as int);
                    lemma_total_remove(before, i as int);
                }
                let entry = self.entries.remove(i);
                assert(self.slots() =~= before.remove(i as int));
                Some(entry.at)
            },
            None => {
                None
            },
        }
    }

    /// The recorded positions in walk order.
    pub fn positions(&self) -> (list: Vec<CommandPos>)
        ensures
            list@ == self.slots().map_values(|s: Slot| s.at),
    {
        let mut list: Vec<CommandPos> = Vec::new();
        let mut i: usize = 0;
        while i < self.entries.len()
            invariant
                i <= self.entries.len(),
                list@ == self.slots().take(i as int).map_values(|s: Slot| s.at),
            decreases self.entries.len() - i,
        {
            list.push(self.entries[i].at);
            i += 1;
        }
        list
    }

    /// The summed length of the live records, `None` where it exceeds the
    /// largest `u64`.
    pub fn packed_size(&self) -> (size: Option<u64>)
        ensures
            match size {
                Some(n) => n == self.live_bytes(),
                None => self.live_bytes() > u64::MAX,
            },
    {
        let mut total: u64 = 0;
        let mut i: usize = 0;
        while i < self.entries.len()
            invariant
                i <= self.entries.len(),
                total == total_len(self.slots().take(i as int)),
            decreases self.entries.len() - i,
        {
            let len: u64 = self.entries[i].at.len;
            proof {
                lemma_total_take(self.slots(), i as int);
                lemma_total_take(self.slots(), i + 1);
            }
            if len > u64::MAX - total {
                return None;
            }
            total = total + len;
            i += 1;
        }
        assert(self.slots().take(i as int) =~= self.slots());
        Some(total)
    }

    /// Points every entry at generation `gen`, the records packed one
    /// behind the other from offset 0 in walk order.
    pub fn repack(&mut self, gen: u64)
        requires
            old(self).wf(),
            old(self).live_bytes() <= u64::MAX,
        ensures
            final(self).wf(),
            final(self).slots() == packed(old(self).slots(), gen),
            final(self).live_bytes() == old(self).live_bytes(),
            final(self)@.dom() == old(self)@.dom(),
    {
        let ghost before = self.slots();
        let mut next: u64 = 0;
        let mut i: usize = 0;
        while i < self.entries.len()
            invariant
                i <= self.entries.len(),
                before.len() == self.entries.len(),
                total_len(before) <= u64::MAX,
                next == total_len(before.take(i as int)),
                forall|j: int| 0 <= j < i ==> self.slots()[j] == packed(before, gen)[j],
                forall|j: int| i <= j < before.len() ==> self.slots()[j] == before[j],
            decreases self.entries.len() - i,
        {
            let len: u64 = self.entries[i].at.len;
            let key = self.entries[i].key.clone();
            proof {
                lemma_total_take(before, i as int);
                lemma_total_take(before, i + 1);
            }
            self.entries.set(i, IndexEntry { key, at: CommandPos { gen, pos: next, len } });
            next = next + len;
            i += 1;
        }
        assert(self.slots() =~= packed(before, gen));
        proof {
            lemma_packed(before, gen);
        }
    }
}

/// Packing keeps the keys, their distinctness and the total length.
pub proof fn lemma_packed(s: Seq<Slot>, gen: u64)
    requires
        distinct_keys(s),
    ensures
        distinct_keys(packed(s, gen)),
        total_len(packed(s, gen)) == total_len(s),
        slots_map(packed(s, gen)).dom() == slots_map(s).dom(),
    decreases s.len(),
{
    let t = packed(s, gen);
    assert forall|k: Seq<char>| has_key(t, k) == has_key(s, k) by {
        if has_key(s, k) {
            assert(t[slot_of(s, k)].key == k);
        }
    }
    lemma_packed_total(s, gen, s.len() as int);
    assert(t.take(s.len() as int) =~= t);
    assert(s.take(s.len() as int) =~= s);
}

proof fn lemma_packed_total(s: Seq<Slot>, gen: u64, n: int)
    requires
        0 <= n <= s.len(),
    ensures
        total_len(packed(s, gen).take(n)) == total_len(s.take(n)),
    decreases n,
{
    if n > 0 {
        lemma_packed_total(s, gen, n - 1);
        assert(packed(s, gen).take(n).drop_last() =~= packed(s, gen).take(n - 1));
        assert(s.take(n).drop_last() =~= s.take(n - 1));
    }
}

} // verus!
