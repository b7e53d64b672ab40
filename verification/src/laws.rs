//! What holds of the engine over every state and every sequence of
//! operations.

use crate::codec::{command_text, record_value, round_trips, CommandView};
use crate::index::{
    distinct_keys, has_key, lemma_packed, lemma_slot_unique, packed, slot_of, slots_map,
    total_len, CommandPos, Slot,
};
use crate::ledger::{
    balanced, empty_ledger, ledger_put, lemma_drop_covered, lemma_put_balanced,
    lemma_put_covered, rerun, run, saturate, Ledger, Logged,
};
use crate::replay::{lemma_replay_balanced, lemma_replay_is_rerun, records_from, replay};
use crate::segments::{lemma_decimal_digits, log_suffix, segment_gen, segment_name};
use crate::store::{
    after_compaction, after_remove, after_set, can_compact, lemma_slots_insert_gen,
    lemma_slots_remove_gen, located, replay_all, sound, Segment, StoreView,
    COMPACTION_THRESHOLD,
};
use crate::text::decimal;
use vstd::prelude::*;
use vstd::utf8::encode_utf8;

verus! {

/// Naming a generation and reading the name back gives the generation.
pub proof fn law_segment_name_round_trip(gen: u64)
    ensures
        segment_gen(segment_name(gen)) == Some(gen),
{
    let name = segment_name(gen);
    lemma_decimal_digits(gen as nat);
    assert(name.take(name.len() - 4) =~= decimal(gen as nat));
    assert(name.skip(name.len() - 4) =~= log_suffix());
}

/// After a `Set` of a key, a lookup of that key finds the record just
/// written, and a lookup of any other key finds what it found before. The
/// engine's invariant still holds.
pub proof fn law_lookup_after_set(
    v: StoreView,
    key: Seq<char>,
    other: Seq<char>,
    pos: u64,
    len: u64,
)
    requires
        sound(v),
    ensures
        sound(after_set(v, key, pos, len)),
        located(after_set(v, key, pos, len), key) == Some(
            CommandPos { gen: v.current_gen, pos, len },
        ),
        other != key ==> located(after_set(v, key, pos, len), other) == located(v, other),
{
    let at = CommandPos { gen: v.current_gen, pos, len };
    lemma_put_covered(v.ledger, key, at);
    lemma_slots_insert_gen(v.ledger.slots, key, at, v.safe_point);
}

/// After a `Remove` of a key, a lookup of that key finds nothing, and a
/// lookup of any other key finds what it found before. The engine's
/// invariant still holds.
pub proof fn law_lookup_after_remove(v: StoreView, key: Seq<char>, other: Seq<char>, len: u64)
    requires
        sound(v),
    ensures
        sound(after_remove(v, key, len)),
        located(after_remove(v, key, len), key) is None,
        other != key ==> located(after_remove(v, key, len), other) == located(v, other),
{
    lemma_drop_covered(v.ledger, key, len);
    lemma_slots_remove_gen(v.ledger.slots, key, v.safe_point);
}

/// Two `Set`s of one key, committed one after the other in either order:
/// a lookup finds the record of one of the two.
pub proof fn law_two_sets_one_winner(
    v: StoreView,
    key: Seq<char>,
    pos1: u64,
    len1: u64,
    pos2: u64,
    len2: u64,
)
    requires
        sound(v),
    ensures
        located(after_set(after_set(v, key, pos1, len1), key, pos2, len2), key) == Some(
            CommandPos { gen: v.current_gen, pos: pos2, len: len2 },
        ),
        located(after_set(after_set(v, key, pos2, len2), key, pos1, len1), key) == Some(
            CommandPos { gen: v.current_gen, pos: pos1, len: len1 },
        ),
{
    law_lookup_after_set(v, key, key, pos1, len1);
    law_lookup_after_set(after_set(v, key, pos1, len1), key, key, pos2, len2);
    law_lookup_after_set(v, key, key, pos2, len2);
    law_lookup_after_set(after_set(v, key, pos2, len2), key, key, pos1, len1);
}

/// Replaying the records that a running engine logged, in the same order
/// and at the same positions, rebuilds the index that the engine had: every
/// lookup is answered as before.
pub proof fn law_replay_rebuilds_index(records: Seq<Logged>, l: Ledger)
    ensures
        rerun(records, l).slots == run(records, l).slots,
    decreases records.len(),
{
    if records.len() > 0 {
        law_replay_rebuilds_index(records.drop_last(), l);
    }
}

/// Re-opening on a segment whose bytes read as the records that a running
/// engine logged rebuilds the index that the engine had.
pub proof fn law_reopen_rebuilds_index(gen: u64, bytes: Seq<u8>, records: Seq<Logged>, l: Ledger)
    requires
        records_from(gen, bytes, 0) == Some(records),
    ensures
        replay(gen, bytes, l) is Some,
        replay(gen, bytes, l)->0.slots == run(records, l).slots,
{
    lemma_replay_is_rerun(gen, bytes, 0, l);
    law_replay_rebuilds_index(records, l);
}

/// The records of a compaction segment: one `Set` for every entry, in walk
/// order, each at its packed position, with whatever value it carries.
pub open spec fn packed_records(s: Seq<Slot>, gen: u64, values: Seq<Seq<char>>) -> Seq<Logged> {
    Seq::new(
        s.len(),
        |i: int|
            Logged {
                cmd: CommandView::Put { key: s[i].key, value: values[i] },
                at: packed(s, gen)[i].at,
            },
    )
}

/// Replaying the segment that a compaction wrote, from empty books, gives
/// the index that the compaction left behind.
pub proof fn law_replay_after_compaction(s: Seq<Slot>, gen: u64, values: Seq<Seq<char>>)
    requires
        distinct_keys(s),
        values.len() == s.len(),
    ensures
        rerun(packed_records(s, gen, values), empty_ledger()).slots == packed(s, gen),
{
    lemma_replay_packed_prefix(s, gen, values, s.len());
    assert(packed_records(s, gen, values).take(s.len() as int) =~= packed_records(s, gen, values));
}

proof fn lemma_replay_packed_prefix(s: Seq<Slot>, gen: u64, values: Seq<Seq<char>>, n: nat)
    requires
        distinct_keys(s),
        values.len() == s.len(),
        n <= s.len(),
    ensures
        rerun(packed_records(s, gen, values).take(n as int), empty_ledger()).slots == packed(
            s,
            gen,
        ).take(n as int),
    decreases n,
{
    let records = packed_records(s, gen, values);
    let t = packed(s, gen);
    if n > 0 {
        lemma_replay_packed_prefix(s, gen, values, (n - 1) as nat);
        let head = records.take(n as int);
        assert(head.drop_last() =~= records.take(n - 1));
        let before = rerun(head.drop_last(), empty_ledger());
        let key = s[n - 1].key;
        assert(!has_key(before.slots, key)) by {
            if has_key(before.slots, key) {
                let j = slot_of(before.slots, key);
                assert(before.slots[j].key == s[j].key);
            }
        }
        assert(ledger_put(before, key, t[n - 1].at).slots =~= t.take(n as int));
    }
}

/// After a compaction every entry of the index points into the generation
/// that is the safe point, the safe point has moved up, the keys and the
/// lengths of their records are as before, and the engine's invariant
/// holds.
pub proof fn law_compaction_safe_point(v: StoreView, key: Seq<char>)
    requires
        sound(v),
        can_compact(v),
    ensures
        sound(after_compaction(v)),
        after_compaction(v).safe_point > v.safe_point,
        forall|i: int|
            0 <= i < after_compaction(v).ledger.slots.len() ==> after_compaction(
                v,
            ).ledger.slots[i].at.gen == after_compaction(v).safe_point,
        located(after_compaction(v), key) is Some <==> located(v, key) is Some,
        located(v, key) matches Some(p) ==> located(after_compaction(v), key)->0.len == p.len,
{
    let gen = (v.current_gen + 1) as u64;
    let s = v.ledger.slots;
    let t = packed(s, gen);
    lemma_packed(s, gen);
    if located(v, key) is Some {
        let i = slot_of(s, key);
        lemma_slot_unique(s, i);
        lemma_slot_unique(t, i);
    }
}

/// The safe point never falls: a `Set` and a `Remove` leave it where it is,
/// and a compaction moves it up.
pub proof fn law_safe_point_never_falls(v: StoreView, key: Seq<char>, pos: u64, len: u64)
    requires
        sound(v),
    ensures
        after_set(v, key, pos, len).safe_point == v.safe_point,
        after_remove(v, key, len).safe_point == v.safe_point,
        can_compact(v) ==> after_compaction(v).safe_point > v.safe_point,
{
}

/// As long as the books are sound, the counter of dead bytes is the bytes
/// of all records in the log less the bytes that the index reaches, cut off
/// at the largest `u64`. A `Set` keeps the books sound, and after a
/// compaction they are sound and the counter is 0.
pub proof fn law_uncompacted_is_dead_bytes(v: StoreView, key: Seq<char>, pos: u64, len: u64)
    requires
        sound(v),
        balanced(v.ledger),
    ensures
        v.uncompacted == saturate((v.ledger.logged - total_len(v.ledger.slots)) as nat),
        balanced(after_set(v, key, pos, len).ledger),
        can_compact(v) ==> balanced(after_compaction(v).ledger) && after_compaction(
            v,
        ).uncompacted == 0,
{
    lemma_put_balanced(v.ledger, key, CommandPos { gen: v.current_gen, pos, len });
    if can_compact(v) {
        lemma_packed(v.ledger.slots, (v.current_gen + 1) as u64);
    }
}

/// A `Set` record whose text reads back as the command yields, read as the
/// record that the index points at, the value that was set.
pub proof fn law_written_value_reads_back(key: Seq<char>, value: Seq<char>)
    requires
        round_trips(CommandView::Put { key, value }),
    ensures
        record_value(encode_utf8(command_text(CommandView::Put { key, value }))) == Some(value),
{
}

/// Replaying a directory from sound books leaves sound books.
pub proof fn lemma_replay_all_balanced(segments: Seq<Segment>, i: nat, l: Ledger)
    requires
        balanced(l),
        replay_all(segments, i, l) is Some,
    ensures
        balanced(replay_all(segments, i, l)->0),
    decreases segments.len() - i,
{
    if i < segments.len() {
        let gen = segments[i as int].gen;
        let bytes = segments[i as int].bytes@;
        lemma_replay_balanced(gen, bytes, 0, l);
        lemma_replay_all_balanced(segments, i + 1, replay(gen, bytes, l)->0);
    }
}

/// Whatever directory an engine opens on: the dead bytes that the replay
/// counts are the bytes of all records read less the bytes of the records
/// that the index reaches.
pub proof fn law_open_counts_dead_bytes(segments: Seq<Segment>)
    requires
        replay_all(segments, 0, empty_ledger()) is Some,
    ensures
        ({
            let books = replay_all(segments, 0, empty_ledger())->0;
            balanced(books) && books.dead == books.logged - total_len(books.slots)
        }),
{
    lemma_replay_all_balanced(segments, 0, empty_ledger());
}

/// The state in which `set` leaves the engine once the compaction that it
/// made due was carried out.
pub open spec fn settled(v: StoreView, key: Seq<char>, pos: u64, len: u64) -> StoreView {
    let w = after_set(v, key, pos, len);
    if w.uncompacted > COMPACTION_THRESHOLD && can_compact(w) {
        after_compaction(w)
    } else {
        w
    }
}

/// While the books are sound and compaction runs when it is due, the log
/// never holds more than the live bytes and the threshold: at most twice
/// the live bytes and one threshold.
pub proof fn law_log_stays_within_bound(v: StoreView, key: Seq<char>, pos: u64, len: u64)
    requires
        sound(v),
        balanced(v.ledger),
        can_compact(after_set(v, key, pos, len)),
    ensures
        ({
            let w = settled(v, key, pos, len);
            &&& sound(w)
            &&& balanced(w.ledger)
            &&& w.uncompacted <= COMPACTION_THRESHOLD
            &&& w.ledger.logged == total_len(w.ledger.slots) + w.uncompacted
            &&& w.ledger.logged <= 2 * total_len(w.ledger.slots) + COMPACTION_THRESHOLD
        }),
{
    let w = after_set(v, key, pos, len);
    law_lookup_after_set(v, key, key, pos, len);
    law_uncompacted_is_dead_bytes(v, key, pos, len);
    if w.uncompacted > COMPACTION_THRESHOLD {
        law_compaction_safe_point(w, key);
        law_uncompacted_is_dead_bytes(w, key, pos, len);
    }
}

} // verus!
