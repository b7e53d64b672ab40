//! The engine's bookkeeping as a mathematical model: the index entries, the
//! bytes of dead records, and the bytes of all records logged.

use crate::codec::CommandView;
use crate::index::{
    displaced_len, distinct_keys, has_key, lemma_map_push, lemma_map_remove, lemma_map_update,
    lemma_slot_unique, lemma_total_push, lemma_total_remove, lemma_total_update, slot_of,
    slots_insert, slots_map, slots_remove, total_len, CommandPos, Slot,
};
use vstd::prelude::*;

verus! {

/// The books of the engine.
pub struct Ledger {
    /// The index entries in walk order.
    pub slots: Seq<Slot>,
    /// The bytes of records that the index no longer reaches.
    pub dead: nat,
    /// The bytes of all records in the log.
    pub logged: nat,
}

/// The books of an empty log.
pub open spec fn empty_ledger() -> Ledger {
    Ledger { slots: Seq::empty(), dead: 0, logged: 0 }
}

/// The books after a `Set` of `key` was logged at `at`: the index points at
/// the new record, and what it displaced is dead.
pub open spec fn ledger_put(l: Ledger, key: Seq<char>, at: CommandPos) -> Ledger {
    Ledger {
        slots: slots_insert(l.slots, key, at),
        dead: l.dead + displaced_len(l.slots, key),
        logged: l.logged + at.len as nat,
    }
}

/// The books after a `Remove` of `key` was logged at `at`: the key leaves
/// the index, and both its record and the `Remove` record are dead.
pub open spec fn ledger_remove(l: Ledger, key: Seq<char>, at: CommandPos) -> Ledger {
    Ledger {
        slots: slots_remove(l.slots, key),
        dead: l.dead + displaced_len(l.slots, key) + at.len as nat,
        logged: l.logged + at.len as nat,
    }
}

/// The books after a running engine logged a `Remove` record of `len`
/// bytes for `key`: the key leaves the index and its record is dead. The
/// bytes of the `Remove` record itself are not counted until the log is
/// replayed.
pub open spec fn ledger_drop(l: Ledger, key: Seq<char>, len: u64) -> Ledger {
    Ledger {
        slots: slots_remove(l.slots, key),
        dead: l.dead + displaced_len(l.slots, key),
        logged: l.logged + len as nat,
    }
}

/// The books after `cmd` was logged at `at`.
pub open spec fn ledger_apply(l: Ledger, cmd: CommandView, at: CommandPos) -> Ledger {
    match cmd {
        CommandView::Put { key, value } => ledger_put(l, key, at),
        CommandView::Remove { key } => ledger_remove(l, key, at),
    }
}

/// A record of the log: the command and where it lies.
pub struct Logged {
    pub cmd: CommandView,
    pub at: CommandPos,
}

/// The books of a running engine after it logged `records` one by one.
pub open spec fn run(records: Seq<Logged>, l: Ledger) -> Ledger
    decreases records.len(),
{
    if records.len() == 0 {
        l
    } else {
        let before = run(records.drop_last(), l);
        match records.last().cmd {
            CommandView::Put { key, value } => ledger_put(before, key, records.last().at),
            CommandView::Remove { key } => ledger_drop(before, key, records.last().at.len),
        }
    }
}

/// The books after `records` were replayed one by one.
pub open spec fn rerun(records: Seq<Logged>, l: Ledger) -> Ledger
    decreases records.len(),
{
    if records.len() == 0 {
        l
    } else {
        ledger_apply(rerun(records.drop_last(), l), records.last().cmd, records.last().at)
    }
}

/// Replaying a record and then the rest is replaying them all.
pub proof fn lemma_rerun_first(first: Logged, rest: Seq<Logged>, l: Ledger)
    ensures
        rerun(seq![first] + rest, l) == rerun(rest, ledger_apply(l, first.cmd, first.at)),
    decreases rest.len(),
{
    let all = seq![first] + rest;
    if rest.len() == 0 {
        assert(rerun(all.drop_last(), l) == l);
    } else {
        lemma_rerun_first(first, rest.drop_last(), l);
        assert(all.drop_last() =~= seq![first] + rest.drop_last());
    }
}

/// The books are sound: no key occurs twice, and every logged byte is
/// either reachable from the index or counted dead.
pub open spec fn balanced(l: Ledger) -> bool {
    distinct_keys(l.slots) && total_len(l.slots) + l.dead == l.logged
}

/// The books never count more dead bytes than the log holds beside the live
/// ones, and no key occurs twice.
pub open spec fn covered(l: Ledger) -> bool {
    distinct_keys(l.slots) && total_len(l.slots) + l.dead <= l.logged
}

/// The same books with `dead` and `logged` raised by fixed amounts.
pub open spec fn shifted(l: Ledger, dead: nat, logged: nat) -> Ledger {
    Ledger { slots: l.slots, dead: l.dead + dead, logged: l.logged + logged }
}

/// Logging a `Set` keeps books covered.
pub proof fn lemma_put_covered(l: Ledger, key: Seq<char>, at: CommandPos)
    requires
        covered(l),
    ensures
        covered(ledger_put(l, key, at)),
        slots_map(ledger_put(l, key, at).slots) == slots_map(l.slots).insert(key, at),
{
    let exact = Ledger { slots: l.slots, dead: l.dead, logged: total_len(l.slots) + l.dead };
    lemma_put_balanced(exact, key, at);
}

/// A `Remove` logged by a running engine keeps books covered and takes the
/// key out.
pub proof fn lemma_drop_covered(l: Ledger, key: Seq<char>, len: u64)
    requires
        covered(l),
    ensures
        covered(ledger_drop(l, key, len)),
        slots_map(ledger_drop(l, key, len).slots) == slots_map(l.slots).remove(key),
{
    let exact = Ledger { slots: l.slots, dead: l.dead, logged: total_len(l.slots) + l.dead };
    lemma_remove_balanced(exact, key, CommandPos { gen: 0, pos: 0, len });
}

/// Logging a `Set` keeps the books sound and stores the position under
/// the key.
pub proof fn lemma_put_balanced(l: Ledger, key: Seq<char>, at: CommandPos)
    requires
        balanced(l),
    ensures
        balanced(ledger_put(l, key, at)),
        slots_map(ledger_put(l, key, at).slots) == slots_map(l.slots).insert(key, at),
{
    if has_key(l.slots, key) {
        let i = slot_of(l.slots, key);
        lemma_slot_unique(l.slots, i);
        lemma_map_update(l.slots, i, at);
        lemma_total_update(l.slots, i, Slot { key, at });
    } else {
        lemma_map_push(l.slots, Slot { key, at });
        lemma_total_push(l.slots, Slot { key, at });
    }
}

/// Logging a `Remove` keeps the books sound and takes the key out.
pub proof fn lemma_remove_balanced(l: Ledger, key: Seq<char>, at: CommandPos)
    requires
        balanced(l),
    ensures
        balanced(ledger_remove(l, key, at)),
        slots_map(ledger_remove(l, key, at).slots) == slots_map(l.slots).remove(key),
{
    if has_key(l.slots, key) {
        let i = slot_of(l.slots, key);
        lemma_slot_unique(l.slots, i);
        lemma_map_remove(l.slots, i);
        lemma_total_remove(l.slots, i);
    }
}

/// Logging any command keeps the books sound.
pub proof fn lemma_apply_balanced(l: Ledger, cmd: CommandView, at: CommandPos)
    requires
        balanced(l),
    ensures
        balanced(ledger_apply(l, cmd, at)),
{
    match cmd {
        CommandView::Put { key, value } => lemma_put_balanced(l, key, at),
        CommandView::Remove { key } => lemma_remove_balanced(l, key, at),
    }
}

/// A count of bytes as the engine holds it: cut off at the largest `u64`.
pub open spec fn saturate(n: nat) -> u64 {
    if n > u64::MAX {
        u64::MAX
    } else {
        n as u64
    }
}

/// `a + b`, cut off at the largest `u64`.
pub fn saturating_sum(a: u64, b: u64) -> (sum: u64)
    ensures
        sum == saturate((a + b) as nat),
        forall|n: nat| a == saturate(n) ==> sum == #[trigger] saturate(n + b as nat),
{
    if a > u64::MAX - b {
        u64::MAX
    } else {
        a + b
    }
}

} // verus!
