//! The segment directory: how generations are named, recognised and listed.

use crate::text::{decimal, digit_char, push_decimal};
use vstd::prelude::*;
use vstd::string::*;

verus! {

/// Whether `c` is an ASCII decimal digit.
pub open spec fn is_digit(c: char) -> bool {
    48 <= c as u32 <= 57
}

/// The number that a string of decimal digits denotes.
pub open spec fn digits_value(s: Seq<char>) -> nat
    decreases s.len(),
{
    if s.len() == 0 {
        0
    } else {
        digits_value(s.drop_last()) * 10 + (s.last() as u32 - 48) as nat
    }
}

/// Every character is a decimal digit.
pub open spec fn all_digits(s: Seq<char>) -> bool {
    forall|i: int| 0 <= i < s.len() ==> is_digit(#[trigger] s[i])
}

/// The suffix of a segment's file name.
pub open spec fn log_suffix() -> Seq<char> {
    seq!['.', 'l', 'o', 'g']
}

/// The generation that a file name stands for: the name is a non-empty
/// string of decimal digits that fits a `u64`, followed by `.log`.
pub open spec fn segment_gen(name: Seq<char>) -> Option<u64> {
    let stem = name.take(name.len() - 4);
    if name.len() > 4 && name.skip(name.len() - 4) == log_suffix() && all_digits(stem)
        && digits_value(stem) <= u64::MAX {
        Some(digits_value(stem) as u64)
    } else {
        None
    }
}

/// The file name of generation `gen`.
pub open spec fn segment_name(gen: u64) -> Seq<char> {
    decimal(gen as nat) + log_suffix()
}

/// The generations that a list of file names stands for, in the order of
/// the names; names that are no segment's are left out.
pub open spec fn named_gens(names: Seq<String>) -> Seq<u64>
    decreases names.len(),
{
    if names.len() == 0 {
        Seq::empty()
    } else {
        match segment_gen(names.last()@) {
            Some(gen) => named_gens(names.drop_last()).push(gen),
            None => named_gens(names.drop_last()),
        }
    }
}

/// Ascending order.
pub open spec fn ascending(s: Seq<u64>) -> bool {
    forall|i: int, j: int| 0 <= i < j < s.len() ==> s[i] <= s[j]
}

/// A longer string of digits never denotes a smaller number than its
/// prefix.
pub proof fn lemma_digits_prefix(s: Seq<char>, i: int)
    requires
        0 <= i <= s.len(),
        all_digits(s),
    ensures
        digits_value(s.take(i)) <= digits_value(s),
        i < s.len() ==> digits_value(s.take(i + 1)) == digits_value(s.take(i)) * 10 + (s[i] as u32
            - 48),
    decreases s.len() - i,
{
    if i == s.len() {
        assert(s.take(i) =~= s);
    } else {
        assert(s.take(i + 1).drop_last() =~= s.take(i));
        lemma_digits_prefix(s, i + 1);
    }
}

/// The decimal notation of a number is made of digits and denotes it.
pub proof fn lemma_decimal_digits(n: nat)
    ensures
        all_digits(decimal(n)),
        digits_value(decimal(n)) == n,
        decimal(n).len() > 0,
    decreases n,
{
    if n < 10 {
        assert(digits_value(decimal(n).drop_last()) == 0);
    } else {
        lemma_decimal_digits(n / 10);
        assert(decimal(n).drop_last() =~= decimal(n / 10));
    }
}

/// The file name of generation `gen`: its decimal notation and `.log`.
pub fn log_file_name(gen: u64) -> (name: String)
    ensures
        name@ == segment_name(gen),
{
    let mut name = String::new();
    push_decimal(&mut name, gen);
    proof {
        reveal_strlit(".log");
    }
    name.append(".log");
    name
}

/// The path of the segment of generation `gen` in directory `dir`.
pub fn log_path(dir: &str, gen: u64) -> (path: String)
    ensures
        path@ == dir@ + seq!['/'] + segment_name(gen),
{
    let mut path = String::from_str(dir);
    proof {
        reveal_strlit("/");
    }
    path.append("/");
    let name = log_file_name(gen);
    path.append(name.as_str());
    path
}

/// Reads a file name as a generation; `None` for a name that is no
/// segment's.
pub fn parse_segment_name(name: &str) -> (gen: Option<u64>)
    ensures
        gen == segment_gen(name@),
{
    let n: usize = name.unicode_len();
    if n <= 4 {
        return None;
    }
    let stem_len: usize = n - 4;
    if name.get_char(stem_len) != '.' || name.get_char(stem_len + 1) != 'l' || name.get_char(
        stem_len + 2,
    ) != 'o' || name.get_char(stem_len + 3) != 'g' {
        return None;
    }
    assert(name@.skip(name@.len() - 4) =~= log_suffix());
    let ghost stem = name@.take(stem_len as int);
    let mut value: u64 = 0;
    let mut i: usize = 0;
    while i < stem_len
        invariant
            i <= stem_len,
            stem_len + 4 == name@.len(),
            stem == name@.take(stem_len as int),
            all_digits(stem.take(i as int)),
            value == digits_value(stem.take(i as int)),
        decreases stem_len - i,
    {
        let c: char = name.get_char(i);
        let code: u32 = c as u32;
        if code < 48 || code > 57 {
            assert(!is_digit(stem[i as int]));
            return None;
        }
        let digit: u64 = (code - 48) as u64;
        proof {
            assert(stem.take(i + 1).drop_last() =~= stem.take(i as int));
            assert forall|j: int| 0 <= j < i + 1 implies is_digit(
                #[trigger] stem.take(i + 1)[j],
            ) by {
                if j < i {
                    assert(stem.take(i + 1)[j] == stem.take(i as int)[j]);
                }
            }
        }
        if value > (u64::MAX - digit) / 10 {
            proof {
                if all_digits(stem) {
                    lemma_digits_prefix(stem, i + 1);
                }
            }
            return None;
        }
        value = value * 10 + digit;
        i += 1;
    }
    assert(stem.take(i as int) =~= stem);
    Some(value)
}

/// Inserting into a sequence adds one occurrence to its multiset.
pub proof fn lemma_insert_multiset(s: Seq<u64>, i: int, a: u64)
    requires
        0 <= i <= s.len(),
    ensures
        s.insert(i, a).to_multiset() == s.to_multiset().insert(a),
{
    broadcast use vstd::seq_lib::group_to_multiset_ensures;

    let t = s.insert(i, a);
    assert(t.remove(i).to_multiset() =~= t.to_multiset().remove(a));
}

/// Puts `gen` into an ascending list at its place.
pub fn insert_ascending(list: &mut Vec<u64>, gen: u64)
    requires
        ascending(old(list)@),
    ensures
        ascending(final(list)@),
        final(list)@.to_multiset() == old(list)@.to_multiset().insert(gen),
{
    let mut i: usize = 0;
    while i < list.len() && list[i] <= gen
        invariant
            i <= list.len(),
            list@ == old(list)@,
            forall|j: int| 0 <= j < i ==> list@[j] <= gen,
        decreases list.len() - i,
    {
        i += 1;
    }
    proof {
        lemma_insert_multiset(list@, i as int, gen);
    }
    list.insert(i, gen);
}

/// The generations that the file names of a directory stand for, in
/// ascending order. Names that are no segment's are ignored.
pub fn sorted_gen_list(names: &Vec<String>) -> (list: Vec<u64>)
    ensures
        ascending(list@),
        list@.to_multiset() == named_gens(names@).to_multiset(),
{
    let mut list: Vec<u64> = Vec::new();
    let mut i: usize = 0;
    while i < names.len()
        invariant
            i <= names.len(),
            ascending(list@),
            list@.to_multiset() == named_gens(names@.take(i as int)).to_multiset(),
        decreases names.len() - i,
    {
        proof {
            broadcast use vstd::seq_lib::group_to_multiset_ensures;

            assert(names@.take(i + 1).drop_last() =~= names@.take(i as int));
        }
        match parse_segment_name(names[i].as_str()) {
            Some(gen) => {
                insert_ascending(&mut list, gen);
            },
            None => {},
        }
        i += 1;
    }
    assert(names@.take(i as int) =~= names@);
    list
}

} // verus!
