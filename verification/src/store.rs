//! The engine core: the index and the counters of the writer, driven by the
//! events of a log that the caller reads and writes.
//!
//! The caller appends a record to the active segment and then reports it
//! with `set` or `remove`; it asks `get` where the record of a key lies and
//! reads it; it runs a compaction by copying the records that
//! `plan_compaction` lists and then calling `commit_compaction`.

use crate::codec::{encode_command, json_quoted, remove_text, Command};
use crate::error::{KvError, Result};
use crate::index::{
    has_key, lemma_packed, lemma_slot_unique, packed, slot_of, slots_insert, slots_map,
    slots_remove, total_len, CommandPos, Index, Slot,
};
use crate::ledger::{
    balanced, covered, empty_ledger, ledger_drop, ledger_put, lemma_drop_covered,
    lemma_put_balanced, lemma_put_covered, saturate, saturating_sum, Ledger,
};
use crate::replay::{lemma_replay_balanced, lemma_replay_shift, load, replay};
use vstd::prelude::*;

verus! {

/// More dead bytes than this make a compaction due.
pub const COMPACTION_THRESHOLD: u64 = 1048576;

/// The contents of one log file.
pub struct Segment {
    pub gen: u64,
    pub bytes: Vec<u8>,
}

/// The books after the segments from number `i` on were replayed in the
/// order given; `None` where one of them is not a sequence of records.
pub open spec fn replay_all(segments: Seq<Segment>, i: nat, l: Ledger) -> Option<Ledger>
    decreases segments.len() - i,
{
    if i >= segments.len() {
        Some(l)
    } else {
        match replay(segments[i as int].gen, segments[i as int].bytes@, l) {
            Some(next) => replay_all(segments, i + 1, next),
            None => None,
        }
    }
}

/// The generation that a freshly opened engine writes to: one past the last
/// segment, 1 in an empty directory.
pub open spec fn first_active_gen(segments: Seq<Segment>) -> int {
    if segments.len() == 0 {
        1
    } else {
        segments.last().gen + 1
    }
}

/// The state of the engine as the contracts see it.
pub struct StoreView {
    pub ledger: Ledger,
    pub current_gen: u64,
    pub safe_point: u64,
    pub uncompacted: u64,
}

/// The invariant of the engine: the books are covered, the counter is the
/// dead bytes cut off at the largest `u64`, the safe point lies below the
/// active generation, and no entry points below the safe point.
pub open spec fn sound(v: StoreView) -> bool {
    &&& covered(v.ledger)
    &&& v.uncompacted == saturate(v.ledger.dead)
    &&& v.safe_point < v.current_gen
    &&& forall|i: int| 0 <= i < v.ledger.slots.len() ==> v.ledger.slots[i].at.gen >= v.safe_point
}

/// The index of the engine as a mapping from key to position.
pub open spec fn index_of(v: StoreView) -> Map<Seq<char>, CommandPos> {
    slots_map(v.ledger.slots)
}

/// Where the record of `key` lies, if the engine holds the key.
pub open spec fn located(v: StoreView, key: Seq<char>) -> Option<CommandPos> {
    if index_of(v).contains_key(key) {
        Some(index_of(v)[key])
    } else {
        None
    }
}

/// The state after a `Set` of `key` was appended to the active segment at
/// offset `pos` with `len` bytes.
pub open spec fn after_set(v: StoreView, key: Seq<char>, pos: u64, len: u64) -> StoreView {
    let ledger = ledger_put(v.ledger, key, CommandPos { gen: v.current_gen, pos, len });
    StoreView { ledger, uncompacted: saturate(ledger.dead), ..v }
}

/// The state after a `Remove` of `key` with `len` bytes was appended to the
/// active segment.
pub open spec fn after_remove(v: StoreView, key: Seq<char>, len: u64) -> StoreView {
    let ledger = ledger_drop(v.ledger, key, len);
    StoreView { ledger, uncompacted: saturate(ledger.dead), ..v }
}

/// Whether a compaction can be addressed: the packed records fit one
/// segment, and two more generations exist.
pub open spec fn can_compact(v: StoreView) -> bool {
    total_len(v.ledger.slots) <= u64::MAX && v.current_gen <= u64::MAX - 2
}

/// The state after a compaction: every live record lies packed in
/// generation `current_gen + 1`, which is the new safe point; the engine
/// writes to `current_gen + 2`; nothing is dead.
pub open spec fn after_compaction(v: StoreView) -> StoreView {
    StoreView {
        ledger: Ledger {
            slots: packed(v.ledger.slots, (v.current_gen + 1) as u64),
            dead: 0,
            logged: total_len(v.ledger.slots),
        },
        current_gen: (v.current_gen + 2) as u64,
        safe_point: (v.current_gen + 1) as u64,
        uncompacted: 0,
    }
}

/// What a compaction has to do on disk.
pub struct CompactionPlan {
    /// The generation that receives the live records.
    pub compaction_gen: u64,
    /// The generation that the engine writes to afterwards.
    pub active_gen: u64,
    /// The records to copy, in the order in which they are to be appended
    /// to the compaction segment.
    pub sources: Vec<CommandPos>,
}

/// Whether `gens` holds `gen`.
pub open spec fn holds_gen(gens: Seq<u64>, gen: u64) -> bool {
    exists|j: int| 0 <= j < gens.len() && #[trigger] gens[j] == gen
}

fn has_handle(handles: &Vec<u64>, gen: u64) -> (found: bool)
    ensures
        found == holds_gen(handles@, gen),
{
    let mut j: usize = 0;
    while j < handles.len()
        invariant
            j <= handles.len(),
            forall|k: int| 0 <= k < j ==> handles@[k] != gen,
        decreases handles.len() - j,
    {
        if handles[j] == gen {
            return true;
        }
        j += 1;
    }
    false
}

impl CompactionPlan {
    /// Checks that a read handle is open for every record that the plan
    /// wants copied, given the generations of the open handles. Fails with
    /// `LogFileNotFound` for the first record, in the order of the plan,
    /// whose generation has none.
    pub fn check_handles(&self, handles: &Vec<u64>) -> (r: Result<()>)
        ensures
            match r {
                Ok(_) => forall|i: int|
                    0 <= i < self.sources@.len() ==> holds_gen(
                        handles@,
                        #[trigger] self.sources@[i].gen,
                    ),
                Err(KvError::LogFileNotFound(gen)) => exists|i: int|
                    {
                        &&& 0 <= i < self.sources@.len()
                        &&& #[trigger] self.sources@[i].gen == gen
                        &&& !holds_gen(handles@, gen)
                        &&& forall|k: int| 0 <= k < i ==> holds_gen(handles@, self.sources@[k].gen)
                    },
                Err(_) => false,
            },
    {
        let mut i: usize = 0;
        while i < self.sources.len()
            invariant
                i <= self.sources.len(),
                forall|k: int| 0 <= k < i ==> holds_gen(handles@, #[trigger] self.sources@[k].gen),
            decreases self.sources.len() - i,
        {
            let gen: u64 = self.sources[i].gen;
            if !has_handle(handles, gen) {
                return Err(KvError::LogFileNotFound(gen));
            }
            i += 1;
        }
        Ok(())
    }
}

/// The engine core.
pub struct KvStore {
    index: Index,
    current_gen: u64,
    uncompacted: u64,
    safe_point: u64,
    dead: Ghost<nat>,
    logged: Ghost<nat>,
}

impl View for KvStore {
    type V = StoreView;

    closed spec fn view(&self) -> StoreView {
        StoreView {
            ledger: Ledger { slots: self.index.slots(), dead: self.dead@, logged: self.logged@ },
            current_gen: self.current_gen,
            safe_point: self.safe_point,
            uncompacted: self.uncompacted,
        }
    }
}

impl KvStore {
    /// The invariant of the type.
    pub open spec fn wf(&self) -> bool {
        sound(self@)
    }

    /// Rebuilds the engine from the segments of a directory, given in
    /// ascending order of generation. Fails where a segment is not a
    /// sequence of `Set` and `Remove` records.
    pub fn open(segments: &Vec<Segment>) -> (r: Result<KvStore>)
        requires
            segments.len() > 0 ==> segments@.last().gen < u64::MAX,
        ensures
            match r {
                Ok(store) => {
                    &&& store.wf()
                    &&& replay_all(segments@, 0, empty_ledger()) == Some(store@.ledger)
                    &&& balanced(store@.ledger)
                    &&& store@.current_gen == first_active_gen(segments@)
                    &&& store@.safe_point == 0
                    &&& segments@.len() == 0 ==> index_of(store@) == Map::<
                        Seq<char>,
                        CommandPos,
                    >::empty()
                },
                Err(e) => replay_all(segments@, 0, empty_ledger()) is None && e is Serde,
            },
    {
        let mut index = Index::new();
        let mut uncompacted: u64 = 0;
        let ghost mut now = empty_ledger();
        let mut i: usize = 0;
        while i < segments.len()
            invariant
                i <= segments.len(),
                index.wf(),
                now.slots == index.slots(),
                balanced(now),
                uncompacted == saturate(now.dead),
                replay_all(segments@, 0, empty_ledger()) == replay_all(segments@, i as nat, now),
            decreases segments.len() - i,
        {
            let ghost start = Ledger { slots: index.slots(), dead: 0, logged: 0 };
            proof {
                lemma_replay_shift(
                    segments@[i as int].gen,
                    segments@[i as int].bytes@,
                    0,
                    start,
                    now.dead,
                    now.logged,
                );
            }
            match load(segments[i].gen, segments[i].bytes.as_slice(), &mut index) {
                Ok(dead) => {
                    proof {
                        lemma_replay_balanced(
                            segments@[i as int].gen,
                            segments@[i as int].bytes@,
                            0,
                            now,
                        );
                        now = replay(segments@[i as int].gen, segments@[i as int].bytes@, now)->0;
                    }
                    uncompacted = saturating_sum(uncompacted, dead);
                },
                Err(e) => {
                    return Err(e);
                },
            }
            i += 1;
        }
        let current_gen: u64 = if segments.len() == 0 {
            1
        } else {
            segments[segments.len() - 1].gen + 1
        };
        Ok(
            KvStore {
                index,
                current_gen,
                uncompacted,
                safe_point: 0,
                dead: Ghost(now.dead),
                logged: Ghost(now.logged),
            },
        )
    }

    /// The engine of an empty directory: no keys, nothing dead, writing to
    /// generation 1.
    pub fn new() -> (store: KvStore)
        ensures
            store.wf(),
            store@.ledger == empty_ledger(),
            balanced(store@.ledger),
            index_of(store@) == Map::<Seq<char>, CommandPos>::empty(),
            store@.current_gen == 1,
            store@.safe_point == 0,
            store@.uncompacted == 0,
    {
        let index = Index::new();
        KvStore {
            index,
            current_gen: 1,
            uncompacted: 0,
            safe_point: 0,
            dead: Ghost(0),
            logged: Ghost(0),
        }
    }

    /// The generation of the active segment.
    pub fn current_gen(&self) -> (gen: u64)
        ensures
            gen == self@.current_gen,
    {
        self.current_gen
    }

    /// The bytes of dead records counted so far.
    pub fn uncompacted(&self) -> (bytes: u64)
        ensures
            bytes == self@.uncompacted,
    {
        self.uncompacted
    }

    /// The smallest generation that is still valid.
    pub fn safe_point(&self) -> (gen: u64)
        ensures
            gen == self@.safe_point,
    {
        self.safe_point
    }

    /// The number of live keys.
    pub fn len(&self) -> (n: usize)
        ensures
            n == self@.ledger.slots.len(),
    {
        self.index.len()
    }

    /// Where the record of `key` lies, if the engine holds the key.
    pub fn get(&self, key: &String) -> (at: Option<CommandPos>)
        requires
            self.wf(),
        ensures
            at == located(self@, key@),
            at matches Some(p) ==> p.gen >= self@.safe_point,
    {
        let at = self.index.get(key);
        proof {
            if at is Some {
                let i = slot_of(self@.ledger.slots, key@);
                lemma_slot_unique(self@.ledger.slots, i);
            }
        }
        at
    }

    /// Takes note of a `Set` record of `len` bytes that was appended to the
    /// active segment at offset `pos`. Returns whether a compaction is due.
    pub fn set(&mut self, key: String, pos: u64, len: u64) -> (due: bool)
        requires
            old(self).wf(),
        ensures
            final(self).wf(),
            final(self)@ == after_set(old(self)@, key@, pos, len),
            index_of(final(self)@) == index_of(old(self)@).insert(
                key@,
                CommandPos { gen: old(self)@.current_gen, pos, len },
            ),
            balanced(old(self)@.ledger) ==> balanced(final(self)@.ledger),
            due == (final(self)@.uncompacted > COMPACTION_THRESHOLD),
    {
        let at = CommandPos { gen: self.current_gen, pos, len };
        proof {
            lemma_put_covered(self@.ledger, key@, at);
            if balanced(self@.ledger) {
                lemma_put_balanced(self@.ledger, key@, at);
            }
            lemma_slots_insert_gen(self@.ledger.slots, key@, at, self@.safe_point);
        }
        let ghost before = self@.ledger;
        if let Some(old_at) = self.index.insert(key, at) {
            self.uncompacted = saturating_sum(self.uncompacted, old_at.len);
        }
        proof {
            self.dead = Ghost(ledger_put(before, key@, at).dead);
            self.logged = Ghost(ledger_put(before, key@, at).logged);
        }
        self.uncompacted > COMPACTION_THRESHOLD
    }

    /// Encodes the `Remove` record for `key`, to be appended to the active
    /// segment. Fails with `KeyNotFound` where the engine does not hold the
    /// key.
    pub fn prepare_remove(&self, key: &String) -> (r: Result<String>)
        requires
            self.wf(),
        ensures
            match r {
                Ok(text) => located(self@, key@) is Some && text@ == remove_text(json_quoted(key@)),
                Err(e) => located(self@, key@) is None && e is KeyNotFound,
            },
    {
        if !self.index.contains_key(key) {
            return Err(KvError::KeyNotFound);
        }
        encode_command(&Command::Remove { key: key.clone() })
    }

    /// Takes note of a `Remove` record of `len` bytes that was appended to
    /// the active segment: the key leaves the index, and its record is
    /// counted dead.
    pub fn remove(&mut self, key: &String, len: u64)
        requires
            old(self).wf(),
        ensures
            final(self).wf(),
            final(self)@ == after_remove(old(self)@, key@, len),
            index_of(final(self)@) == index_of(old(self)@).remove(key@),
    {
        proof {
            lemma_drop_covered(self@.ledger, key@, len);
            lemma_slots_remove_gen(self@.ledger.slots, key@, self@.safe_point);
        }
        let ghost before = self@.ledger;
        if let Some(old_at) = self.index.remove(key) {
            self.uncompacted = saturating_sum(self.uncompacted, old_at.len);
        }
        proof {
            self.dead = Ghost(ledger_drop(before, key@, len).dead);
            self.logged = Ghost(ledger_drop(before, key@, len).logged);
        }
    }

    /// What a compaction has to copy and which generations it uses; `None`
    /// where the packed records would not fit one segment or the
    /// generations are used up.
    pub fn plan_compaction(&self) -> (plan: Option<CompactionPlan>)
        requires
            self.wf(),
        ensures
            plan is Some <==> can_compact(self@),
            plan matches Some(p) ==> {
                &&& p.compaction_gen == self@.current_gen + 1
                &&& p.active_gen == self@.current_gen + 2
                &&& p.sources@ == self@.ledger.slots.map_values(|s: Slot| s.at)
            },
    {
        if self.current_gen > u64::MAX - 2 {
            return None;
        }
        match self.index.packed_size() {
            None => None,
            Some(_) => Some(
                CompactionPlan {
                    compaction_gen: self.current_gen + 1,
                    active_gen: self.current_gen + 2,
                    sources: self.index.positions(),
                },
            ),
        }
    }

    /// Takes note that the plan of `plan_compaction` was carried out: the
    /// index points at the packed records, nothing is dead, and the safe
    /// point moves up to the compaction segment. Returns `false`, and
    /// changes nothing, where no plan exists.
    pub fn commit_compaction(&mut self) -> (done: bool)
        requires
            old(self).wf(),
        ensures
            final(self).wf(),
            done == can_compact(old(self)@),
            done ==> final(self)@ == after_compaction(old(self)@),
            done ==> balanced(final(self)@.ledger),
            done ==> index_of(final(self)@).dom() == index_of(old(self)@).dom(),
            !done ==> final(self)@ == old(self)@,
    {
        if self.current_gen > u64::MAX - 2 {
            return false;
        }
        if self.index.packed_size().is_none() {
            return false;
        }
        let compaction_gen: u64 = self.current_gen + 1;
        proof {
            lemma_packed(self@.ledger.slots, compaction_gen);
        }
        let ghost live = total_len(self@.ledger.slots);
        self.index.repack(compaction_gen);
        self.current_gen = self.current_gen + 2;
        self.uncompacted = 0;
        self.safe_point = compaction_gen;
        proof {
            self.dead = Ghost(0);
            self.logged = Ghost(live);
        }
        true
    }
}

/// Recording a position at or above a bound keeps every entry at or above
/// it.
pub proof fn lemma_slots_insert_gen(s: Seq<Slot>, key: Seq<char>, at: CommandPos, bound: u64)
    requires
        forall|i: int| 0 <= i < s.len() ==> s[i].at.gen >= bound,
        at.gen >= bound,
    ensures
        forall|i: int|
            0 <= i < slots_insert(s, key, at).len() ==> slots_insert(
                s,
                key,
                at,
            )[i].at.gen >= bound,
{
}

/// Forgetting a key keeps every entry at or above a bound.
pub proof fn lemma_slots_remove_gen(s: Seq<Slot>, key: Seq<char>, bound: u64)
    requires
        forall|i: int| 0 <= i < s.len() ==> s[i].at.gen >= bound,
    ensures
        forall|i: int|
            0 <= i < slots_remove(s, key).len() ==> slots_remove(
                s,
                key,
            )[i].at.gen >= bound,
{
    let t = slots_remove(s, key);
    if has_key(s, key) {
        let k = slot_of(s, key);
        assert forall|i: int| 0 <= i < t.len() implies t[i].at.gen >= bound by {
            assert(t[i] == s[if i < k { i } else { i + 1 }]);
        }
    }
}

/// The generations among `handles` that lie below `safe_point`, in the
/// order given: the segments to close and unlink once the safe point has
/// moved up.
pub fn stale_generations(handles: &Vec<u64>, safe_point: u64) -> (stale: Vec<u64>)
    ensures
        stale@ == handles@.filter(|g: u64| g < safe_point),
{
    let mut stale: Vec<u64> = Vec::new();
    let mut i: usize = 0;
    while i < handles.len()
        invariant
            i <= handles.len(),
            stale@ == handles@.take(i as int).filter(|g: u64| g < safe_point),
        decreases handles.len() - i,
    {
        proof {
            reveal(Seq::filter);
            assert(handles@.take(i + 1).drop_last() =~= handles@.take(i as int));
        }
        if handles[i] < safe_point {
            stale.push(handles[i]);
        }
        i += 1;
    }
    assert(handles@.take(i as int) =~= handles@);
    stale
}

} // verus!
