//! The entries of `/proc/<PID>/task`.

use crate::number;
use crate::outside;
use crate::process::stat::Pid;
use crate::text;
use vstd::prelude::*;

verus! {

/// The thread that an entry of the directory stands for: its name holds nothing but digits,
/// and is not that of the process itself.
pub open spec fn thread_of(name: Seq<char>, pid: Pid) -> Option<Seq<char>> {
    let name = text::trimmed(name);
    if number::all_digits(name) && name != number::decimal_i32(pid) {
        Some(name)
    } else {
        None
    }
}

/// The threads that the entries of the directory stand for, in the order of the entries.
pub open spec fn threads_of(entries: Seq<Seq<u8>>, pid: Pid) -> Seq<Seq<char>>
    decreases entries.len(),
{
    if entries.len() == 0 {
        seq![]
    } else {
        let before = threads_of(entries.drop_last(), pid);
        match thread_of(outside::lossy_text(entries.last()), pid) {
            Some(name) => before.push(name),
            None => before,
        }
    }
}

/// The bytes of each of the entries.
pub open spec fn bytes_of(entries: Seq<Vec<u8>>) -> Seq<Seq<u8>> {
    Seq::new(entries.len(), |i: int| entries[i]@)
}

/// The text of each of the names.
pub open spec fn texts(names: Seq<String>) -> Seq<Seq<char>> {
    Seq::new(names.len(), |i: int| names[i]@)
}

/// The name of the thread that an entry of the directory stands for.
pub fn thread_name(name: &str, pid: Pid) -> (r: Option<String>)
    ensures
        match r {
            Some(thread) => thread_of(name@, pid) == Some(thread@),
            None => thread_of(name@, pid) is None,
        },
{
    let chars = text::chars_of(name);
    let (from, to) = text::trim_bounds(chars.as_slice());
    let trimmed = text::trim(chars.as_slice());
    let own = number::write_i32(pid);
    if number::is_str_numeric(trimmed) && !text::same_text(trimmed, own.as_slice()) {
        Some(text::substring(name, from, to))
    } else {
        None
    }
}

/// The names of the threads of the process `pid`, other than its own, from the names of the
/// entries of `/proc/<PID>/task`. An entry that is UTF-8 throughout has the text that it
/// encodes for its name.
pub fn threads(entries: &Vec<Vec<u8>>, pid: Pid) -> (r: Vec<String>)
    ensures
        texts(r@) == threads_of(bytes_of(entries@), pid),
        forall|k: int|
            0 <= k < entries@.len() ==> outside::text_is_decoded(#[trigger] entries@[k]@),
{
    let ghost all = bytes_of(entries@);
    let mut out: Vec<String> = Vec::new();
    let mut i: usize = 0;
    assert(all.take(0) =~= Seq::<Seq<u8>>::empty());
    assert(texts(out@) =~= Seq::<Seq<char>>::empty());
    while i < entries.len()
        invariant
            i <= entries@.len(),
            all == bytes_of(entries@),
            texts(out@) == threads_of(all.take(i as int), pid),
            forall|k: int| 0 <= k < i ==> outside::text_is_decoded(#[trigger] entries@[k]@),
        decreases entries@.len() - i,
    {
        let ghost before = out@;
        let name = outside::to_string_lossy(entries[i].as_slice());
        assert(all.take(i + 1).drop_last() =~= all.take(i as int));
        assert(all.take(i + 1).last() == entries@[i as int]@);
        if let Some(thread) = thread_name(name.as_str(), pid) {
            out.push(thread);
            assert(texts(out@) =~= texts(before).push(thread@));
        }
        i += 1;
    }
    assert(all.take(i as int) =~= all);
    out
}

/// Every thread that is listed has a numeric name, which is not that of the process.
pub proof fn theorem_threads_are_others(entries: Seq<Seq<u8>>, pid: Pid)
    ensures
        forall|i: int|
            0 <= i < threads_of(entries, pid).len() ==> number::all_digits(
                #[trigger] threads_of(entries, pid)[i],
            ) && threads_of(entries, pid)[i] != number::decimal_i32(pid),
    decreases entries.len(),
{
    let names = threads_of(entries, pid);
    if entries.len() > 0 {
        theorem_threads_are_others(entries.drop_last(), pid);
        let before = threads_of(entries.drop_last(), pid);
        assert forall|i: int| 0 <= i < names.len() implies number::all_digits(#[trigger] names[i])
            && names[i] != number::decimal_i32(pid) by {
            if i < before.len() {
                assert(names[i] == before[i]);
            }
        }
    }
}

/// Every entry that stands for a thread is listed.
pub proof fn theorem_no_thread_is_missed(entries: Seq<Seq<u8>>, pid: Pid, i: int)
    requires
        0 <= i < entries.len(),
        thread_of(outside::lossy_text(entries[i]), pid) is Some,
    ensures
        threads_of(entries, pid).contains(thread_of(outside::lossy_text(entries[i]), pid)->0),
    decreases entries.len(),
{
    let name = thread_of(outside::lossy_text(entries[i]), pid)->0;
    let names = threads_of(entries, pid);
    let before = threads_of(entries.drop_last(), pid);
    if i < entries.len() - 1 {
        theorem_no_thread_is_missed(entries.drop_last(), pid, i);
        let k = choose|k: int| 0 <= k < before.len() && before[k] == name;
        assert(names[k] == name);
    } else {
        assert(names[names.len() - 1] == name);
    }
}

/// Digits are no white space, so that trimming leaves them as they are.
proof fn lemma_trim_keeps_digits(s: Seq<char>)
    requires
        number::all_digits(s),
    ensures
        text::trimmed(s) == s,
{
    if s.len() > 0 {
        assert(number::is_digit(s[0]));
        assert(number::is_digit(s[s.len() - 1]));
    }
}

/// Every entry with a numeric name, other than that of the process, is listed as it is. The
/// entry of the process itself is left out.
pub proof fn theorem_numeric_entries(name: Seq<char>, pid: Pid)
    requires
        number::all_digits(name),
    ensures
        name != number::decimal_i32(pid) ==> thread_of(name, pid) == Some(name),
        name == number::decimal_i32(pid) ==> thread_of(name, pid) is None,
{
    lemma_trim_keeps_digits(name);
}

/// The threads of two lists of entries are those of the first, followed by those of the second.
/// One entry stands for one thread at most.
pub proof fn theorem_threads_of_parts(
    first: Seq<Seq<u8>>,
    second: Seq<Seq<u8>>,
    e: Seq<u8>,
    pid: Pid,
)
    ensures
        threads_of(first + second, pid) == threads_of(first, pid) + threads_of(second, pid),
        threads_of(seq![], pid) == Seq::<Seq<char>>::empty(),
        thread_of(outside::lossy_text(e), pid) matches Some(name) ==> threads_of(seq![e], pid)
            == seq![name],
        thread_of(outside::lossy_text(e), pid) is None ==> threads_of(seq![e], pid) == Seq::<
            Seq<char>,
        >::empty(),
    decreases second.len(),
{
    assert(seq![e].drop_last() =~= Seq::<Seq<u8>>::empty());
    assert(threads_of(seq![e].drop_last(), pid) == Seq::<Seq<char>>::empty());
    if second.len() == 0 {
        assert(first + second =~= first);
        assert(threads_of(first, pid) + threads_of(second, pid) =~= threads_of(first, pid));
    } else {
        theorem_threads_of_parts(first, second.drop_last(), e, pid);
        assert((first + second).drop_last() =~= first + second.drop_last());
        assert((first + second).last() == second.last());
        assert(threads_of(first + second, pid) =~= threads_of(first, pid) + threads_of(second, pid));
    }
}

proof fn lemma_thread_has_entry(entries: Seq<Seq<u8>>, pid: Pid, k: int) -> (i: int)
    requires
        0 <= k < threads_of(entries, pid).len(),
    ensures
        0 <= i < entries.len(),
        thread_of(outside::lossy_text(entries[i]), pid) == Some(threads_of(entries, pid)[k]),
    decreases entries.len(),
{
    let before = threads_of(entries.drop_last(), pid);
    if k < before.len() {
        let i = lemma_thread_has_entry(entries.drop_last(), pid, k);
        assert(entries.drop_last()[i] == entries[i]);
        assert(threads_of(entries, pid)[k] == before[k]);
        i
    } else {
        entries.len() - 1
    }
}

/// Where no two entries stand for the same thread, no thread is listed twice.
pub proof fn theorem_threads_are_distinct(entries: Seq<Seq<u8>>, pid: Pid)
    requires
        forall|i: int, j: int|
            0 <= i < j < entries.len() && thread_of(
                outside::lossy_text(#[trigger] entries[i]),
                pid,
            ) is Some ==> thread_of(outside::lossy_text(entries[i]), pid) != thread_of(
                outside::lossy_text(#[trigger] entries[j]),
                pid,
            ),
    ensures
        threads_of(entries, pid).no_duplicates(),
        threads_of(entries, pid).len() <= entries.len(),
    decreases entries.len(),
{
    if entries.len() > 0 {
        let n = entries.len() - 1;
        let shorter = entries.drop_last();
        let before = threads_of(shorter, pid);
        let names = threads_of(entries, pid);
        assert forall|i: int, j: int|
            0 <= i < j < shorter.len() && thread_of(
                outside::lossy_text(#[trigger] shorter[i]),
                pid,
            ) is Some implies thread_of(outside::lossy_text(shorter[i]), pid) != thread_of(
            outside::lossy_text(#[trigger] shorter[j]),
            pid,
        ) by {
            assert(shorter[i] == entries[i] && shorter[j] == entries[j]);
        }
        theorem_threads_are_distinct(shorter, pid);
        if thread_of(outside::lossy_text(entries[n]), pid) is Some {
            let name = thread_of(outside::lossy_text(entries[n]), pid)->0;
            assert(names == before.push(name));
            assert forall|k: int| 0 <= k < before.len() implies before[k] != name by {
                let i = lemma_thread_has_entry(shorter, pid, k);
                assert(shorter[i] == entries[i]);
                assert(entries[n] == entries.last());
            }
        }
    }
}

/// An entry stands for the thread whose name it has between white space, where that holds
/// nothing but digits and is not the identifier of the process in decimal notation. Any other
/// entry stands for none.
pub proof fn theorem_thread_of(before: Seq<char>, core: Seq<char>, after: Seq<char>, pid: Pid)
    requires
        text::all_spaces(before),
        text::all_spaces(after),
        core.len() == 0 || (!text::is_space(core[0]) && !text::is_space(core.last())),
    ensures
        number::all_digits(core) && core != number::decimal_i32(pid) ==> thread_of(
            before + core + after,
            pid,
        ) == Some(core),
        !number::all_digits(core) || core == number::decimal_i32(pid) ==> thread_of(
            before + core + after,
            pid,
        ) is None,
{
    text::theorem_trimmed(before, core, after);
}

/// Lists of names and of entries are taken item by item.
pub proof fn theorem_items(entries: Seq<Vec<u8>>, names: Seq<String>, i: int)
    ensures
        bytes_of(entries).len() == entries.len(),
        texts(names).len() == names.len(),
        0 <= i < entries.len() ==> bytes_of(entries)[i] == entries[i]@,
        0 <= i < names.len() ==> texts(names)[i] == names[i]@,
{
}

/// Every call lists the threads that the entries stand for.
pub proof fn theorem_threads_listed(entries: &Vec<Vec<u8>>, pid: Pid, r: Vec<String>)
    requires
        call_ensures(threads, (entries, pid), r),
    ensures
        r@.len() == threads_of(bytes_of(entries@), pid).len(),
        forall|k: int|
            0 <= k < r@.len() ==> #[trigger] r@[k]@ == threads_of(bytes_of(entries@), pid)[k],
{
    assert forall|k: int| 0 <= k < r@.len() implies #[trigger] r@[k]@ == threads_of(
        bytes_of(entries@),
        pid,
    )[k] by {
        assert(texts(r@)[k] == r@[k]@);
    }
}

} // verus!
