//! Replay of a segment: rebuilding the books from the records of a log file.

use crate::codec::{
    command_from_object, command_of, json_head, next_object, shape_error, Command, Parsed,
};
use crate::error::{KvError, Result};
use crate::index::{CommandPos, Index};
use crate::ledger::{
    balanced, ledger_apply, lemma_apply_balanced, lemma_rerun_first, rerun, saturate,
    saturating_sum, shifted, Ledger, Logged,
};
use vstd::prelude::*;
use vstd::slice::slice_subrange;

verus! {

/// The books after the records of `bytes` from offset `pos` on were logged
/// in generation `gen`, one after the other; `None` where the bytes are not
/// a sequence of records. A record spans from the end of the one before it
/// to its own last byte.
pub open spec fn replay_from(gen: u64, bytes: Seq<u8>, pos: nat, l: Ledger) -> Option<Ledger>
    decreases bytes.len() - pos,
{
    if pos > bytes.len() {
        None
    } else {
        match json_head(bytes.subrange(pos as int, bytes.len() as int)) {
            Parsed::End => Some(l),
            Parsed::Invalid => None,
            Parsed::Object { entries, used } => if 0 < used <= bytes.len() - pos {
                match command_of(entries) {
                    Some(cmd) => replay_from(
                        gen,
                        bytes,
                        pos + used,
                        ledger_apply(l, cmd, CommandPos { gen, pos: pos as u64, len: used as u64 }),
                    ),
                    None => None,
                }
            } else {
                None
            },
        }
    }
}

/// The books after the whole segment `bytes` of generation `gen` was
/// replayed on top of `l`.
pub open spec fn replay(gen: u64, bytes: Seq<u8>, l: Ledger) -> Option<Ledger> {
    replay_from(gen, bytes, 0, l)
}

/// The records that `bytes` hold from offset `pos` on, each with its place
/// in generation `gen`; `None` where the bytes are not a sequence of
/// records.
pub open spec fn records_from(gen: u64, bytes: Seq<u8>, pos: nat) -> Option<Seq<Logged>>
    decreases bytes.len() - pos,
{
    if pos > bytes.len() {
        None
    } else {
        match json_head(bytes.subrange(pos as int, bytes.len() as int)) {
            Parsed::End => Some(Seq::empty()),
            Parsed::Invalid => None,
            Parsed::Object { entries, used } => if 0 < used <= bytes.len() - pos {
                match (command_of(entries), records_from(gen, bytes, pos + used)) {
                    (Some(cmd), Some(rest)) => Some(
                        seq![
                            Logged { cmd, at: CommandPos { gen, pos: pos as u64, len: used as u64 } },
                        ] + rest,
                    ),
                    _ => None,
                }
            } else {
                None
            },
        }
    }
}

/// Replay of a segment is the replay of its records, one by one.
pub proof fn lemma_replay_is_rerun(gen: u64, bytes: Seq<u8>, pos: nat, l: Ledger)
    ensures
        replay_from(gen, bytes, pos, l) == (match records_from(gen, bytes, pos) {
            Some(records) => Some(rerun(records, l)),
            None => None,
        }),
    decreases bytes.len() - pos,
{
    if pos <= bytes.len() {
        match json_head(bytes.subrange(pos as int, bytes.len() as int)) {
            Parsed::Object { entries, used } => {
                if 0 < used <= bytes.len() - pos && command_of(entries) is Some {
                    let cmd = command_of(entries)->0;
                    let at = CommandPos { gen, pos: pos as u64, len: used as u64 };
                    lemma_replay_is_rerun(gen, bytes, pos + used, ledger_apply(l, cmd, at));
                    if records_from(gen, bytes, pos + used) is Some {
                        lemma_rerun_first(
                            Logged { cmd, at },
                            records_from(gen, bytes, pos + used)->0,
                            l,
                        );
                    }
                }
            },
            _ => {},
        }
    }
}

/// Replay keeps sound books sound.
pub proof fn lemma_replay_balanced(gen: u64, bytes: Seq<u8>, pos: nat, l: Ledger)
    requires
        balanced(l),
        replay_from(gen, bytes, pos, l) is Some,
    ensures
        balanced(replay_from(gen, bytes, pos, l)->0),
    decreases bytes.len() - pos,
{
    match json_head(bytes.subrange(pos as int, bytes.len() as int)) {
        Parsed::Object { entries, used } => {
            let cmd = command_of(entries)->0;
            let at = CommandPos { gen, pos: pos as u64, len: used as u64 };
            lemma_apply_balanced(l, cmd, at);
            lemma_replay_balanced(gen, bytes, pos + used, ledger_apply(l, cmd, at));
        },
        _ => {},
    }
}

/// Replay adds to the counters it starts from and looks at nothing but the
/// entries.
pub proof fn lemma_replay_shift(
    gen: u64,
    bytes: Seq<u8>,
    pos: nat,
    l: Ledger,
    dead: nat,
    logged: nat,
)
    ensures
        match replay_from(gen, bytes, pos, l) {
            Some(r) => replay_from(gen, bytes, pos, shifted(l, dead, logged)) == Some(
                shifted(r, dead, logged),
            ),
            None => replay_from(gen, bytes, pos, shifted(l, dead, logged)) is None,
        },
    decreases bytes.len() - pos,
{
    if pos <= bytes.len() {
        match json_head(bytes.subrange(pos as int, bytes.len() as int)) {
            Parsed::Object { entries, used } => {
                if 0 < used <= bytes.len() - pos && command_of(entries) is Some {
                    let cmd = command_of(entries)->0;
                    let at = CommandPos { gen, pos: pos as u64, len: used as u64 };
                    assert(ledger_apply(shifted(l, dead, logged), cmd, at) == shifted(
                        ledger_apply(l, cmd, at),
                        dead,
                        logged,
                    ));
                    lemma_replay_shift(
                        gen,
                        bytes,
                        pos + used,
                        ledger_apply(l, cmd, at),
                        dead,
                        logged,
                    );
                }
            },
            _ => {},
        }
    }
}

/// Replays one segment into `index` and returns the bytes of the records
/// that are dead after it: every entry that a later record displaced, and
/// every `Remove` record. Fails where the bytes are not a sequence of
/// `Set` and `Remove` records.
pub fn load(gen: u64, bytes: &[u8], index: &mut Index) -> (r: Result<u64>)
    requires
        old(index).wf(),
    ensures
        final(index).wf(),
        match r {
            Ok(dead) => {
                let start = Ledger { slots: old(index).slots(), dead: 0, logged: 0 };
                &&& replay(gen, bytes@, start) is Some
                &&& replay(gen, bytes@, start)->0.slots == final(index).slots()
                &&& dead == saturate(replay(gen, bytes@, start)->0.dead)
            },
            Err(e) => {
                &&& replay(gen, bytes@, Ledger { slots: old(index).slots(), dead: 0, logged: 0 })
                    is None
                &&& e is Serde
            },
        },
{
    let ghost start = Ledger { slots: index.slots(), dead: 0, logged: 0 };
    let ghost mut now = start;
    let mut pos: usize = 0;
    let mut dead: u64 = 0;
    loop
        invariant
            pos <= bytes@.len(),
            start == (Ledger { slots: old(index).slots(), dead: 0, logged: 0 }),
            index.wf(),
            now.slots == index.slots(),
            dead == saturate(now.dead),
            replay_from(gen, bytes@, 0, start) == replay_from(gen, bytes@, pos as nat, now),
        decreases bytes@.len() - pos,
    {
        let rest = slice_subrange(bytes, pos, bytes.len());
        assert(rest@ == bytes@.subrange(pos as nat as int, bytes@.len() as int));
        match next_object(rest) {
            Err(e) => {
                return Err(KvError::Serde(e));
            },
            Ok(None) => {
                return Ok(dead);
            },
            Ok(Some((object, used))) => {
                let at = CommandPos { gen, pos: pos as u64, len: used as u64 };
                match command_from_object(&object) {
                    None => {
                        return Err(KvError::Serde(shape_error("not a Set or Remove record")));
                    },
                    Some(cmd) => {
                        proof {
                            now = ledger_apply(now, cmd@, at);
                        }
                        match cmd {
                            Command::Put { key, value } => {
                                if let Some(old_at) = index.insert(key, at) {
                                    dead = saturating_sum(dead, old_at.len);
                                }
                            },
                            Command::Remove { key } => {
                                if let Some(old_at) = index.remove(&key) {
                                    dead = saturating_sum(dead, old_at.len);
                                }
                                dead = saturating_sum(dead, at.len);
                            },
                        }
                    },
                }
                pos = pos + used;
            },
        }
    }
}

} // verus!
