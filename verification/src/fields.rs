//! Files made of lines such as `VmStk:     132 kB`: a key, a number, perhaps a unit.

use crate::lines;
use crate::number;
use crate::number::ParseIntError;
use crate::text;
use vstd::prelude::*;

verus! {

/// What a file says under a key: nothing, or a word that may or may not be a number.
pub type Entry = Option<Result<u64, ParseIntError>>;

/// What a line says under `key`: the line begins with the key, and the first word after it
/// is the number.
pub open spec fn entry(line: Seq<char>, key: Seq<char>) -> Entry {
    if key.is_prefix_of(line) {
        match text::first_word(line.skip(key.len() as int)) {
            Some((word, _)) => Some(number::u64_of(word)),
            None => None,
        }
    } else {
        None
    }
}

/// What the last of the lines that say anything under `key` says.
pub open spec fn last_entry(lines: Seq<Seq<char>>, key: Seq<char>) -> Entry
    decreases lines.len(),
{
    if lines.len() == 0 {
        None
    } else {
        match entry(lines.last(), key) {
            Some(e) => Some(e),
            None => last_entry(lines.drop_last(), key),
        }
    }
}

/// Whether an entry is there, and is a number where `numeric` asks for one.
pub open spec fn found(e: Entry, numeric: bool) -> bool {
    match e {
        Some(Ok(_)) => true,
        Some(Err(_)) => !numeric,
        None => false,
    }
}

/// Whether the lines that were read have an entry under both keys.
pub open spec fn both_found(a: Seq<char>, b: Seq<char>, numeric: bool) -> spec_fn(
    Seq<Seq<char>>,
) -> bool {
    |read: Seq<Seq<char>>| found(last_entry(read, a), numeric) && found(last_entry(read, b), numeric)
}

/// The lines that are read until there is an entry under both keys.
pub open spec fn lines_for_pair(
    lines: Seq<Seq<char>>,
    a: Seq<char>,
    b: Seq<char>,
    numeric: bool,
) -> Seq<Seq<char>> {
    lines::lines_used(lines, both_found(a, b, numeric))
}

/// The number of bytes in a kilobyte, as the kernel counts.
pub const KB: u64 = 1024;

/// The number of bytes in `v` kilobytes, or the greatest `u64` where they are more.
pub open spec fn kilobytes(v: u64) -> u64 {
    if v * KB > u64::MAX {
        u64::MAX
    } else {
        (v * KB) as u64
    }
}

/// The bytes that an entry in kilobytes stands for. One that is missing or no number counts
/// as zero.
pub open spec fn bytes_or_zero(e: Entry) -> u64 {
    match e {
        Some(Ok(v)) => kilobytes(v),
        _ => 0,
    }
}

/// The number of bytes in `v` kilobytes, or the greatest `u64` where they are more.
pub fn from_kilobytes(v: u64) -> (r: u64)
    ensures
        r == kilobytes(v),
{
    match v.checked_mul(KB) {
        Some(bytes) => bytes,
        None => u64::MAX,
    }
}

/// The bytes that an entry in kilobytes stands for, or zero.
pub fn entry_bytes(e: Entry) -> (r: u64)
    ensures
        r == bytes_or_zero(e),
{
    match e {
        Some(Ok(v)) => from_kilobytes(v),
        _ => 0,
    }
}

/// What a line says under `key`.
pub fn read_entry(line: &[char], key: &str) -> (r: Entry)
    ensures
        r == entry(line@, key@),
{
    match text::strip_prefix(line, key) {
        Some(rest) => match text::next_word(rest) {
            Some((word, _)) => Some(number::parse_u64(word)),
            None => None,
        },
        None => None,
    }
}

fn is_found(e: &Entry, numeric: bool) -> (r: bool)
    ensures
        r == found(*e, numeric),
{
    match e {
        Some(Ok(_)) => true,
        Some(Err(_)) => !numeric,
        None => false,
    }
}

/// Reads lines until there is an entry under both keys, or to the end. A later entry takes
/// the place of an earlier one.
pub fn read_pair(lines: &Vec<Vec<char>>, a: &str, b: &str, numeric: bool) -> (r: (Entry, Entry))
    ensures
        ({
            let used = lines_for_pair(lines::views(lines@), a@, b@, numeric);
            r == (last_entry(used, a@), last_entry(used, b@))
        }),
{
    let ghost all = lines::views(lines@);
    let ghost enough = both_found(a@, b@, numeric);
    let mut first: Entry = None;
    let mut second: Entry = None;
    let mut i: usize = 0;
    assert(all.take(0) =~= Seq::<Seq<char>>::empty());
    while i < lines.len()
        invariant
            i <= lines@.len(),
            all == lines::views(lines@),
            enough == both_found(a@, b@, numeric),
            first == last_entry(all.take(i as int), a@),
            second == last_entry(all.take(i as int), b@),
            lines::lines_used(all.take(i as int), enough) == all.take(i as int),
            !enough(all.take(i as int)),
        decreases lines@.len() - i,
    {
        let ghost read = all.take(i + 1);
        assert(read.drop_last() =~= all.take(i as int));
        let line = lines[i].as_slice();
        assert(read.last() == line@);
        let e = read_entry(line, a);
        if e.is_some() {
            first = e;
        }
        let e = read_entry(line, b);
        if e.is_some() {
            second = e;
        }
        i += 1;
        if is_found(&first, numeric) && is_found(&second, numeric) {
            proof {
                lines::theorem_lines_after_enough(read, all.skip(i as int), enough);
                assert(read + all.skip(i as int) =~= all);
            }
            return (first, second);
        }
    }
    assert(all.take(i as int) =~= all);
    (first, second)
}

/// A line that says nothing under a key has no influence on what the file says under it.
proof fn lemma_last_entry_other_line(
    before: Seq<Seq<char>>,
    line: Seq<char>,
    after: Seq<Seq<char>>,
    key: Seq<char>,
)
    requires
        entry(line, key) is None,
    ensures
        last_entry(before.push(line) + after, key) == last_entry(before + after, key),
    decreases after.len(),
{
    if after.len() == 0 {
        assert(before.push(line) + after =~= before.push(line));
        assert(before.push(line).drop_last() =~= before);
        assert(before + after =~= before);
    } else {
        lemma_last_entry_other_line(before, line, after.drop_last(), key);
        assert((before.push(line) + after).drop_last() =~= before.push(line) + after.drop_last());
        assert((before + after).drop_last() =~= before + after.drop_last());
    }
}

/// A line that has neither of the two keys makes no difference, wherever it stands.
pub proof fn theorem_other_lines_ignored(
    before: Seq<Seq<char>>,
    line: Seq<char>,
    after: Seq<Seq<char>>,
    a: Seq<char>,
    b: Seq<char>,
    numeric: bool,
)
    requires
        entry(line, a) is None,
        entry(line, b) is None,
    ensures
        ({
            let with = lines_for_pair(before.push(line) + after, a, b, numeric);
            let without = lines_for_pair(before + after, a, b, numeric);
            &&& last_entry(with, a) == last_entry(without, a)
            &&& last_entry(with, b) == last_entry(without, b)
        }),
    decreases after.len(),
{
    let enough = both_found(a, b, numeric);
    let with = before.push(line) + after;
    let without = before + after;
    lemma_last_entry_other_line(before, line, after, a);
    lemma_last_entry_other_line(before, line, after, b);
    if after.len() == 0 {
        assert(with =~= before.push(line));
        assert(without =~= before);
        assert(with.drop_last() =~= before);
        lines::theorem_lines_used(before, enough);
    } else {
        theorem_other_lines_ignored(before, line, after.drop_last(), a, b, numeric);
        assert(with.drop_last() =~= before.push(line) + after.drop_last());
        assert(without.drop_last() =~= before + after.drop_last());
    }
}

/// Once there is an entry under both keys, the lines that follow make no difference.
pub proof fn theorem_stops_with_both(
    lines: Seq<Seq<char>>,
    more: Seq<Seq<char>>,
    a: Seq<char>,
    b: Seq<char>,
    numeric: bool,
)
    requires
        ({
            let used = lines_for_pair(lines, a, b, numeric);
            found(last_entry(used, a), numeric) && found(last_entry(used, b), numeric)
        }),
    ensures
        lines_for_pair(lines + more, a, b, numeric) == lines_for_pair(lines, a, b, numeric),
{
    lines::theorem_lines_after_enough(lines, more, both_found(a, b, numeric));
}

/// What is said under a key is said by one of the lines, and nothing where none says anything.
proof fn lemma_last_entry(lines: Seq<Seq<char>>, key: Seq<char>)
    ensures
        last_entry(lines, key) matches Some(e) ==> exists|k: int|
            0 <= k < lines.len() && #[trigger] entry(lines[k], key) == Some(e),
        last_entry(lines, key) is None ==> forall|k: int|
            0 <= k < lines.len() ==> #[trigger] entry(lines[k], key) is None,
    decreases lines.len(),
{
    if lines.len() > 0 {
        let n = lines.len() - 1;
        let shorter = lines.drop_last();
        lemma_last_entry(shorter, key);
        assert(entry(lines[n], key) == entry(lines.last(), key));
        assert forall|k: int| 0 <= k < n implies #[trigger] entry(lines[k], key) == entry(
            shorter[k],
            key,
        ) by {}
        if entry(lines.last(), key) is None && last_entry(shorter, key) is Some {
            let e = last_entry(shorter, key)->0;
            let k = choose|k: int|
                0 <= k < shorter.len() && #[trigger] entry(shorter[k], key) == Some(e);
            assert(entry(lines[k], key) == Some(e));
        }
    }
}

/// Whether the lines say `v` under `key`: one of them does, and none says anything else.
pub open spec fn states(lines: Seq<Seq<char>>, key: Seq<char>, v: u64) -> bool {
    let stated: Entry = Some(Ok(v));
    &&& exists|k: int| 0 <= k < lines.len() && #[trigger] entry(lines[k], key) == stated
    &&& forall|k: int|
        0 <= k < lines.len() ==> #[trigger] entry(lines[k], key) is None || entry(lines[k], key)
            == stated
}

/// Whether none of the lines says anything under `key`.
pub open spec fn lacks(lines: Seq<Seq<char>>, key: Seq<char>) -> bool {
    forall|k: int| 0 <= k < lines.len() ==> #[trigger] entry(lines[k], key) is None
}

proof fn lemma_states_is_read(
    lines: Seq<Seq<char>>,
    a: Seq<char>,
    b: Seq<char>,
    numeric: bool,
    key: Seq<char>,
    v: u64,
)
    requires
        states(lines, key, v),
        key == a || key == b,
    ensures
        last_entry(lines_for_pair(lines, a, b, numeric), key) == Some(
            Ok::<u64, ParseIntError>(v),
        ),
{
    let used = lines_for_pair(lines, a, b, numeric);
    lines::theorem_lines_used(lines, both_found(a, b, numeric));
    lemma_last_entry(used, key);
    match last_entry(used, key) {
        Some(e) => {
            let k = choose|k: int| 0 <= k < used.len() && #[trigger] entry(used[k], key) == Some(e);
            assert(used[k] == lines[k]) by {
                assert(lines.subrange(0, used.len() as int)[k] == lines[k]);
            }
            assert(entry(lines[k], key) == Some(e));
        },
        None => {
            assert(used == lines);
        },
    }
}

/// Where the lines say one number under each of the two keys, these are what is read, in
/// whatever order the lines stand.
pub proof fn theorem_pair_is_read(
    lines: Seq<Seq<char>>,
    a: Seq<char>,
    b: Seq<char>,
    numeric: bool,
    first: u64,
    second: u64,
)
    requires
        states(lines, a, first),
        states(lines, b, second),
    ensures
        ({
            let used = lines_for_pair(lines, a, b, numeric);
            &&& last_entry(used, a) == Some(Ok::<u64, ParseIntError>(first))
            &&& last_entry(used, b) == Some(Ok::<u64, ParseIntError>(second))
        }),
{
    lemma_states_is_read(lines, a, b, numeric, a, first);
    lemma_states_is_read(lines, a, b, numeric, b, second);
}

/// Where no line says anything under a key, nothing is read under it.
pub proof fn theorem_missing_is_not_read(
    lines: Seq<Seq<char>>,
    a: Seq<char>,
    b: Seq<char>,
    numeric: bool,
    key: Seq<char>,
)
    requires
        lacks(lines, key),
    ensures
        last_entry(lines_for_pair(lines, a, b, numeric), key) is None,
{
    let used = lines_for_pair(lines, a, b, numeric);
    lines::theorem_lines_used(lines, both_found(a, b, numeric));
    lemma_last_entry(used, key);
    if last_entry(used, key) is Some {
        let e = last_entry(used, key)->0;
        let k = choose|k: int| 0 <= k < used.len() && #[trigger] entry(used[k], key) == Some(e);
        assert(used[k] == lines[k]) by {
            assert(lines.subrange(0, used.len() as int)[k] == lines[k]);
        }
        assert(entry(lines[k], key) == Some(e));
    }
}

/// The decimal notation of a number holds no white space.
proof fn lemma_decimal_is_word(n: nat)
    ensures
        text::no_spaces(number::decimal(n)),
        number::decimal(n).len() > 0,
{
    number::lemma_decimal(n);
    let d = number::decimal(n);
    assert forall|i: int| 0 <= i < d.len() implies !text::is_space(#[trigger] d[i]) by {
        assert(number::is_digit(d[i]));
    }
}

/// A line made of the key, white space, a number in decimal notation and, after white space,
/// anything else, states that number under the key.
pub proof fn theorem_entry_of_line(key: Seq<char>, gap: Seq<char>, n: u64, rest: Seq<char>)
    requires
        text::all_spaces(gap),
        rest.len() == 0 || text::is_space(rest[0]),
    ensures
        entry(key + gap + number::decimal(n as nat) + rest, key) == Some(
            Ok::<u64, ParseIntError>(n),
        ),
{
    let d = number::decimal(n as nat);
    let line = key + gap + d + rest;
    lemma_decimal_is_word(n as nat);
    number::theorem_parse_decimal(n);
    assert(line.subrange(0, key.len() as int) =~= key);
    assert(line.skip(key.len() as int) =~= gap + d + rest);
    text::theorem_first_word(gap, d, rest);
}

/// A kilobyte has 1024 bytes, and a number of bytes that is too large counts as the greatest.
pub proof fn theorem_kilobytes(v: u64)
    ensures
        v * 1024 <= u64::MAX ==> kilobytes(v) == v * 1024,
        v * 1024 > u64::MAX ==> kilobytes(v) == u64::MAX,
        KB == 1024,
{
}

/// Whether `bytes` is what an entry in kilobytes amounts to: 1024 for each, up to the greatest
/// `u64`, and zero where there is no number.
pub open spec fn amounts_to(e: Entry, bytes: u64) -> bool {
    match e {
        Some(Ok(v)) => bytes == if v * 1024 <= 0xffff_ffff_ffff_ffff {
            v * 1024
        } else {
            0xffff_ffff_ffff_ffff
        },
        _ => bytes == 0,
    }
}

/// Every call gives the bytes that the kilobytes amount to.
pub proof fn theorem_bytes_of_entry(e: Entry, v: u64, r: u64)
    ensures
        amounts_to(e, bytes_or_zero(e)),
        call_ensures(entry_bytes, (e,), r) ==> amounts_to(e, r),
        call_ensures(from_kilobytes, (v,), r) ==> amounts_to(Some(Ok(v)), r),
{
}

/// A line states under its key whatever number the first word after the key is, or that it is
/// none.
pub proof fn theorem_entry_of_word(
    key: Seq<char>,
    gap: Seq<char>,
    word: Seq<char>,
    rest: Seq<char>,
)
    requires
        text::all_spaces(gap),
        text::no_spaces(word),
        word.len() > 0,
        rest.len() == 0 || text::is_space(rest[0]),
    ensures
        entry(key + gap + word + rest, key) == Some(number::u64_of(word)),
{
    let line = key + gap + word + rest;
    assert(line.subrange(0, key.len() as int) =~= key);
    assert(line.skip(key.len() as int) =~= gap + word + rest);
    text::theorem_first_word(gap, word, rest);
}

/// A line that does not begin with the key, or has no word after it, states nothing.
pub proof fn theorem_no_entry(line: Seq<char>, key: Seq<char>, gap: Seq<char>)
    requires
        text::all_spaces(gap),
    ensures
        !key.is_prefix_of(line) ==> entry(line, key) is None,
        entry(key + gap, key) is None,
{
    assert((key + gap).subrange(0, key.len() as int) =~= key);
    assert((key + gap).skip(key.len() as int) =~= gap);
    text::theorem_no_word(gap);
}

/// Whether line `i` is the last of the first `n` lines that states anything under `key`.
pub open spec fn latest(lines: Seq<Seq<char>>, key: Seq<char>, n: int, i: int) -> bool {
    &&& 0 <= i < n <= lines.len()
    &&& entry(lines[i], key) is Some
    &&& forall|k: int| i < k < n ==> entry(#[trigger] lines[k], key) is None
}

/// Whether the first `n` lines state something under both keys: with `numeric`, what was
/// stated last must be a number.
pub open spec fn has_both(
    lines: Seq<Seq<char>>,
    a: Seq<char>,
    b: Seq<char>,
    numeric: bool,
    n: int,
) -> bool {
    exists|i: int, j: int|
        {
            &&& #[trigger] latest(lines, a, n, i)
            &&& #[trigger] latest(lines, b, n, j)
            &&& numeric ==> entry(lines[i], a)->0 is Ok && entry(lines[j], b)->0 is Ok
        }
}

/// Whether the reading ends after `n` lines: there both keys are there for the first time, or
/// the file is at its end.
pub open spec fn reading_ends_at(
    lines: Seq<Seq<char>>,
    a: Seq<char>,
    b: Seq<char>,
    numeric: bool,
    n: int,
) -> bool {
    &&& 0 <= n <= lines.len()
    &&& n == lines.len() || has_both(lines, a, b, numeric, n)
    &&& forall|m: int| 0 <= m < n ==> !#[trigger] has_both(lines, a, b, numeric, m)
}

proof fn lemma_latest(lines: Seq<Seq<char>>, key: Seq<char>, n: int)
    requires
        0 <= n <= lines.len(),
    ensures
        forall|i: int| #[trigger]
            latest(lines, key, n, i) ==> last_entry(lines.take(n), key) == entry(lines[i], key),
        last_entry(lines.take(n), key) is Some ==> exists|i: int| latest(lines, key, n, i),
        lacks(lines.take(n), key) ==> last_entry(lines.take(n), key) is None,
    decreases n,
{
    if n > 0 {
        let read = lines.take(n);
        let line = lines[n - 1];
        lemma_latest(lines, key, n - 1);
        assert(read.drop_last() =~= lines.take(n - 1));
        assert(read.last() == line);
        assert(read[n - 1] == line);
        if lacks(read, key) {
            assert(entry(read[n - 1], key) is None);
            assert forall|k: int| 0 <= k < n - 1 implies entry(
                #[trigger] lines.take(n - 1)[k],
                key,
            ) is None by {
                assert(entry(read[k], key) is None);
            }
        }
        assert forall|i: int| #[trigger] latest(lines, key, n, i) implies last_entry(read, key)
            == entry(lines[i], key) by {
            if i < n - 1 {
                assert(entry(lines[n - 1], key) is None);
                assert(latest(lines, key, n - 1, i));
            }
        }
        if entry(line, key) is Some {
            assert(latest(lines, key, n, n - 1));
        } else if last_entry(read, key) is Some {
            let m = n - 1;
            let i = choose|i: int| latest(lines, key, m, i);
            assert forall|k: int| i < k < n implies entry(#[trigger] lines[k], key) is None by {}
            assert(latest(lines, key, n, i));
        }
    }
}

proof fn lemma_has_both(
    lines: Seq<Seq<char>>,
    a: Seq<char>,
    b: Seq<char>,
    numeric: bool,
    n: int,
)
    requires
        0 <= n <= lines.len(),
    ensures
        has_both(lines, a, b, numeric, n) == both_found(a, b, numeric)(lines.take(n)),
{
    lemma_latest(lines, a, n);
    lemma_latest(lines, b, n);
    if both_found(a, b, numeric)(lines.take(n)) {
        let i = choose|i: int| latest(lines, a, n, i);
        let j = choose|j: int| latest(lines, b, n, j);
        assert(latest(lines, a, n, i) && latest(lines, b, n, j));
    }
}

/// The lines are read until both keys are there, and no further.
pub proof fn theorem_where_reading_ends(
    lines: Seq<Seq<char>>,
    a: Seq<char>,
    b: Seq<char>,
    numeric: bool,
    n: int,
)
    requires
        reading_ends_at(lines, a, b, numeric, n),
    ensures
        lines_for_pair(lines, a, b, numeric) == lines.take(n),
{
    let enough = both_found(a, b, numeric);
    let used = lines_for_pair(lines, a, b, numeric);
    let u = used.len() as int;
    lines::theorem_lines_used(lines, enough);
    assert(used =~= lines.take(u)) by {
        assert(used == lines.subrange(0, u));
    }
    lemma_has_both(lines, a, b, numeric, n);
    lemma_has_both(lines, a, b, numeric, u);
    if u < n {
        assert(!has_both(lines, a, b, numeric, u));
    }
    if n < u {
        assert(!enough(lines.take(n)));
    }
}

/// There is a line after which the reading ends.
pub proof fn theorem_reading_ends(
    lines: Seq<Seq<char>>,
    a: Seq<char>,
    b: Seq<char>,
    numeric: bool,
)
    ensures
        reading_ends_at(
            lines,
            a,
            b,
            numeric,
            lines_for_pair(lines, a, b, numeric).len() as int,
        ),
{
    let enough = both_found(a, b, numeric);
    let used = lines_for_pair(lines, a, b, numeric);
    let u = used.len() as int;
    lines::theorem_lines_used(lines, enough);
    assert(used =~= lines.take(u)) by {
        assert(used == lines.subrange(0, u));
    }
    lemma_has_both(lines, a, b, numeric, u);
    assert forall|m: int| 0 <= m < u implies !#[trigger] has_both(lines, a, b, numeric, m) by {
        lemma_has_both(lines, a, b, numeric, m);
        assert(!enough(lines.take(m)));
    }
}

/// Where the reading ends after `n` lines, the last of these that states something under a key
/// counts. Nothing is read under a key where none of them does.
pub proof fn theorem_latest_counts(
    lines: Seq<Seq<char>>,
    a: Seq<char>,
    b: Seq<char>,
    numeric: bool,
    n: int,
    key: Seq<char>,
)
    requires
        reading_ends_at(lines, a, b, numeric, n),
    ensures
        ({
            let used = lines_for_pair(lines, a, b, numeric);
            &&& forall|i: int| #[trigger]
                latest(lines, key, n, i) ==> last_entry(used, key) == entry(lines[i], key)
            &&& lacks(lines.take(n), key) ==> last_entry(used, key) is None
        }),
{
    theorem_where_reading_ends(lines, a, b, numeric, n);
    lemma_latest(lines, key, n);
}

} // verus!
