//! The engine together with its directory, over whole histories of
//! operations: what the directory holds, what a lookup finds, and what a
//! re-opening rebuilds.

use crate::codec::CommandView;
use crate::index::{
    distinct_keys, has_key, lemma_packed, lemma_slot_unique, packed, slot_of, slots_map,
    CommandPos,
};
use crate::laws::{
    law_compaction_safe_point, law_lookup_after_remove, law_lookup_after_set,
    law_replay_after_compaction, packed_records,
};
use crate::ledger::{
    balanced, empty_ledger, lemma_apply_balanced, lemma_drop_covered, lemma_put_covered, rerun,
    saturate, Ledger, Logged,
};
use crate::replay::{lemma_replay_is_rerun, records_from};
use crate::store::{
    after_compaction, after_remove, after_set, can_compact, index_of, located, replay_all, sound,
    Segment, StoreView,
};
use vstd::prelude::*;

verus! {

/// A segment of the directory as the records it holds.
pub struct Shelf {
    pub gen: u64,
    pub records: Seq<Logged>,
}

/// All records of a directory, in the order in which a replay reads them.
pub open spec fn all_records(disk: Seq<Shelf>) -> Seq<Logged>
    decreases disk.len(),
{
    if disk.len() == 0 {
        Seq::empty()
    } else {
        all_records(disk.drop_last()) + disk.last().records
    }
}

/// The directory after a record was appended to its last segment.
pub open spec fn with_record(disk: Seq<Shelf>, record: Logged) -> Seq<Shelf> {
    disk.drop_last().push(
        Shelf { gen: disk.last().gen, records: disk.last().records.push(record) },
    )
}

/// The engine, its directory, and what its clients expect: for every key
/// the value of its latest `Set`, unless a `Remove` came later.
pub struct World {
    pub store: StoreView,
    pub disk: Seq<Shelf>,
    pub contents: Map<Seq<char>, Seq<char>>,
}

/// One operation on the engine.
pub enum Step {
    /// A `Set`, whose record lies at `pos` with `len` bytes.
    Put { key: Seq<char>, value: Seq<char>, pos: u64, len: u64 },
    /// A `Remove`, whose record lies at `pos` with `len` bytes. Refused,
    /// with nothing written, where the key is absent.
    Remove { key: Seq<char>, pos: u64, len: u64 },
    /// A compaction. Nothing happens where none can be addressed.
    Compact,
    /// The engine is closed and opened again on its directory. Nothing
    /// happens where the generations are used up.
    Reopen,
}

/// The values of the live records in walk order.
pub open spec fn live_values(w: World) -> Seq<Seq<char>> {
    Seq::new(w.store.ledger.slots.len(), |i: int| w.contents[w.store.ledger.slots[i].key])
}

/// The engine that opens on a directory and writes to generation `gen`.
pub open spec fn reopened(disk: Seq<Shelf>, gen: u64) -> StoreView {
    let ledger = rerun(all_records(disk), empty_ledger());
    StoreView { ledger, current_gen: gen, safe_point: 0, uncompacted: saturate(ledger.dead) }
}

/// The engine and its directory after one operation.
pub open spec fn step(w: World, s: Step) -> World {
    match s {
        Step::Put { key, value, pos, len } => World {
            store: after_set(w.store, key, pos, len),
            disk: with_record(
                w.disk,
                Logged {
                    cmd: CommandView::Put { key, value },
                    at: CommandPos { gen: w.store.current_gen, pos, len },
                },
            ),
            contents: w.contents.insert(key, value),
        },
        Step::Remove { key, pos, len } => if located(w.store, key) is Some {
            World {
                store: after_remove(w.store, key, len),
                disk: with_record(
                    w.disk,
                    Logged {
                        cmd: CommandView::Remove { key },
                        at: CommandPos { gen: w.store.current_gen, pos, len },
                    },
                ),
                contents: w.contents.remove(key),
            }
        } else {
            w
        },
        Step::Compact => if can_compact(w.store) {
            World {
                store: after_compaction(w.store),
                disk: seq![
                    Shelf {
                        gen: (w.store.current_gen + 1) as u64,
                        records: packed_records(
                            w.store.ledger.slots,
                            (w.store.current_gen + 1) as u64,
                            live_values(w),
                        ),
                    },
                    Shelf { gen: (w.store.current_gen + 2) as u64, records: Seq::empty() },
                ],
                contents: w.contents,
            }
        } else {
            w
        },
        Step::Reopen => if w.store.current_gen < u64::MAX {
            World {
                store: reopened(w.disk, (w.store.current_gen + 1) as u64),
                disk: w.disk.push(
                    Shelf { gen: (w.store.current_gen + 1) as u64, records: Seq::empty() },
                ),
                contents: w.contents,
            }
        } else {
            w
        },
    }
}

/// The engine and its directory after a sequence of operations.
pub open spec fn play(steps: Seq<Step>, w: World) -> World
    decreases steps.len(),
{
    if steps.len() == 0 {
        w
    } else {
        step(play(steps.drop_last(), w), steps.last())
    }
}

/// A new engine on an empty directory.
pub open spec fn fresh() -> World {
    World {
        store: StoreView {
            ledger: empty_ledger(),
            current_gen: 1,
            safe_point: 0,
            uncompacted: 0,
        },
        disk: seq![Shelf { gen: 1, records: Seq::empty() }],
        contents: Map::empty(),
    }
}

/// Some record of `records` is `record`.
pub open spec fn holds_record(records: Seq<Logged>, record: Logged) -> bool {
    exists|i: int| 0 <= i < records.len() && #[trigger] records[i] == record
}

/// Engine, directory and expectations agree: the engine's invariant holds;
/// the last segment is the active one; a replay of the directory rebuilds
/// the index; the index holds exactly the expected keys; and the record
/// that the index points at for a key is a `Set` of that key with the
/// expected value.
pub open spec fn consistent(w: World) -> bool {
    &&& sound(w.store)
    &&& w.disk.len() > 0
    &&& w.disk.last().gen == w.store.current_gen
    &&& rerun(all_records(w.disk), empty_ledger()).slots == w.store.ledger.slots
    &&& w.contents.dom() == index_of(w.store).dom()
    &&& forall|k: Seq<char>| #[trigger]
        w.contents.contains_key(k) ==> holds_record(
            all_records(w.disk),
            Logged {
                cmd: CommandView::Put { key: k, value: w.contents[k] },
                at: index_of(w.store)[k],
            },
        )
}

/// A directory of one segment holds the records of that segment.
pub proof fn lemma_one_shelf(shelf: Shelf)
    ensures
        all_records(seq![shelf]) == shelf.records,
{
    let disk = seq![shelf];
    assert(disk.drop_last() =~= Seq::<Shelf>::empty());
    assert(all_records(disk.drop_last()) =~= Seq::<Logged>::empty());
    assert(all_records(disk) =~= shelf.records);
}

/// Appending a record to the last segment appends it to the records of the
/// directory.
pub proof fn lemma_with_record(disk: Seq<Shelf>, record: Logged)
    requires
        disk.len() > 0,
    ensures
        all_records(with_record(disk, record)) == all_records(disk).push(record),
{
    let d2 = with_record(disk, record);
    assert(d2.drop_last() =~= disk.drop_last());
    assert(all_records(d2) =~= all_records(disk).push(record));
}

/// Replaying one sequence of records and then another is replaying both.
pub proof fn lemma_rerun_concat(a: Seq<Logged>, b: Seq<Logged>, l: Ledger)
    ensures
        rerun(a + b, l) == rerun(b, rerun(a, l)),
    decreases b.len(),
{
    if b.len() == 0 {
        assert(a + b =~= a);
    } else {
        lemma_rerun_concat(a, b.drop_last(), l);
        assert((a + b).drop_last() =~= a + b.drop_last());
    }
}

/// Replay keeps sound books sound.
pub proof fn lemma_rerun_balanced(records: Seq<Logged>, l: Ledger)
    requires
        balanced(l),
    ensures
        balanced(rerun(records, l)),
    decreases records.len(),
{
    if records.len() > 0 {
        lemma_rerun_balanced(records.drop_last(), l);
        lemma_apply_balanced(
            rerun(records.drop_last(), l),
            records.last().cmd,
            records.last().at,
        );
    }
}

/// One operation keeps engine, directory and expectations in agreement.
pub proof fn lemma_step_consistent(w: World, s: Step)
    requires
        consistent(w),
    ensures
        consistent(step(w, s)),
{
    let w2 = step(w, s);
    let before = all_records(w.disk);
    match s {
        Step::Put { key, value, pos, len } => {
            let at = CommandPos { gen: w.store.current_gen, pos, len };
            let record = Logged { cmd: CommandView::Put { key, value }, at };
            lemma_with_record(w.disk, record);
            assert(before.push(record).drop_last() =~= before);
            law_lookup_after_set(w.store, key, key, pos, len);
            lemma_put_covered(w.store.ledger, key, at);
            assert(w2.contents.dom() =~= index_of(w2.store).dom());
            assert forall|k: Seq<char>| #[trigger] w2.contents.contains_key(k) implies holds_record(
                all_records(w2.disk),
                Logged {
                    cmd: CommandView::Put { key: k, value: w2.contents[k] },
                    at: index_of(w2.store)[k],
                },
            ) by {
                if k == key {
                    assert(all_records(w2.disk)[before.len() as int] == record);
                } else {
                    assert(w.contents.contains_key(k));
                    let old_record = Logged {
                        cmd: CommandView::Put { key: k, value: w.contents[k] },
                        at: index_of(w.store)[k],
                    };
                    let i = choose|i: int| 0 <= i < before.len() && #[trigger] before[i] == old_record;
                    assert(all_records(w2.disk)[i] == old_record);
                }
            }
        },
        Step::Remove { key, pos, len } => {
            if located(w.store, key) is Some {
                let at = CommandPos { gen: w.store.current_gen, pos, len };
                let record = Logged { cmd: CommandView::Remove { key }, at };
                lemma_with_record(w.disk, record);
                assert(before.push(record).drop_last() =~= before);
                law_lookup_after_remove(w.store, key, key, len);
                lemma_drop_covered(w.store.ledger, key, len);
                assert(w2.contents.dom() =~= index_of(w2.store).dom());
                assert forall|k: Seq<char>| #[trigger]
                    w2.contents.contains_key(k) implies holds_record(
                    all_records(w2.disk),
                    Logged {
                        cmd: CommandView::Put { key: k, value: w2.contents[k] },
                        at: index_of(w2.store)[k],
                    },
                ) by {
                    assert(w.contents.contains_key(k));
                    let old_record = Logged {
                        cmd: CommandView::Put { key: k, value: w.contents[k] },
                        at: index_of(w.store)[k],
                    };
                    let i = choose|i: int| 0 <= i < before.len() && #[trigger] before[i] == old_record;
                    assert(all_records(w2.disk)[i] == old_record);
                }
            }
        },
        Step::Compact => {
            if can_compact(w.store) {
                let slots = w.store.ledger.slots;
                let gen = (w.store.current_gen + 1) as u64;
                let records = packed_records(slots, gen, live_values(w));
                assert(w2.disk.drop_last() =~= seq![w2.disk[0]]);
                lemma_one_shelf(w2.disk[0]);
                assert(all_records(w2.disk) =~= records);
                law_replay_after_compaction(slots, gen, live_values(w));
                law_compaction_safe_point(w.store, Seq::empty());
                lemma_packed(slots, gen);
                assert forall|k: Seq<char>| #[trigger]
                    w2.contents.contains_key(k) implies holds_record(
                    all_records(w2.disk),
                    Logged {
                        cmd: CommandView::Put { key: k, value: w2.contents[k] },
                        at: index_of(w2.store)[k],
                    },
                ) by {
                    assert(has_key(slots, k));
                    let i = slot_of(slots, k);
                    lemma_slot_unique(slots, i);
                    assert(packed(slots, gen)[i].key == k);
                    lemma_slot_unique(packed(slots, gen), i);
                    assert(records[i] == Logged {
                        cmd: CommandView::Put { key: k, value: w2.contents[k] },
                        at: index_of(w2.store)[k],
                    });
                }
            }
        },
        Step::Reopen => {
            if w.store.current_gen < u64::MAX {
                assert(w2.disk.drop_last() =~= w.disk);
                assert(all_records(w2.disk) =~= before);
                lemma_rerun_balanced(before, empty_ledger());
            }
        },
    }
}

/// After any sequence of sets, removes, compactions and re-openings on a
/// new engine, engine, directory and expectations agree.
pub proof fn lemma_play_consistent(steps: Seq<Step>)
    ensures
        consistent(play(steps, fresh())),
    decreases steps.len(),
{
    if steps.len() == 0 {
        let w = fresh();
        lemma_one_shelf(w.disk[0]);
        assert(w.disk =~= seq![w.disk[0]]);
        assert(w.contents.dom() =~= index_of(w.store).dom());
    } else {
        lemma_play_consistent(steps.drop_last());
        lemma_step_consistent(play(steps.drop_last(), fresh()), steps.last());
    }
}

/// After any history, a lookup of a key finds a record exactly where a
/// value is expected for the key, and that record is a `Set` of the key
/// with the value of its latest `Set`.
pub proof fn law_lookup_after_any_history(steps: Seq<Step>, key: Seq<char>)
    ensures
        ({
            let w = play(steps, fresh());
            match located(w.store, key) {
                Some(at) => w.contents.contains_key(key) && holds_record(
                    all_records(w.disk),
                    Logged { cmd: CommandView::Put { key, value: w.contents[key] }, at },
                ),
                None => !w.contents.contains_key(key),
            }
        }),
{
    lemma_play_consistent(steps);
    let w = play(steps, fresh());
    assert(w.contents.dom().contains(key) == index_of(w.store).dom().contains(key));
}

/// After any history, a replay of the records of the directory rebuilds the
/// index of the engine: a re-opened engine answers every lookup alike.
pub proof fn law_reopen_after_any_history(steps: Seq<Step>, key: Seq<char>)
    ensures
        ({
            let w = play(steps, fresh());
            let again = reopened(w.disk, w.store.current_gen);
            again.ledger.slots == w.store.ledger.slots && located(again, key) == located(
                w.store,
                key,
            )
        }),
{
    lemma_play_consistent(steps);
}

/// A directory whose segments read as the records of `disk` replays as
/// those records, one segment after the other.
pub proof fn law_directory_replays_as_records(segments: Seq<Segment>, disk: Seq<Shelf>, l: Ledger)
    requires
        segments.len() == disk.len(),
        forall|i: int|
            0 <= i < segments.len() ==> records_from(segments[i].gen, segments[i].bytes@, 0)
                == Some(#[trigger] disk[i].records),
    ensures
        replay_all(segments, 0, l) == Some(rerun(all_records(disk), l)),
{
    lemma_directory_prefix(segments, disk, l, segments.len());
    assert(disk.take(disk.len() as int) =~= disk);
}

proof fn lemma_directory_prefix(segments: Seq<Segment>, disk: Seq<Shelf>, l: Ledger, n: nat)
    requires
        segments.len() == disk.len(),
        n <= segments.len(),
        forall|i: int|
            0 <= i < segments.len() ==> records_from(segments[i].gen, segments[i].bytes@, 0)
                == Some(#[trigger] disk[i].records),
    ensures
        replay_all(segments, 0, l) == replay_all(
            segments,
            n,
            rerun(all_records(disk.take(n as int)), l),
        ),
    decreases n,
{
    if n == 0 {
        assert(disk.take(0) =~= Seq::<Shelf>::empty());
    } else {
        let m = (n - 1) as nat;
        lemma_directory_prefix(segments, disk, l, m);
        let here = rerun(all_records(disk.take(m as int)), l);
        lemma_replay_is_rerun(segments[m as int].gen, segments[m as int].bytes@, 0, here);
        assert(disk.take(n as int).drop_last() =~= disk.take(m as int));
        lemma_rerun_concat(all_records(disk.take(m as int)), disk[m as int].records, l);
    }
}

} // verus!
