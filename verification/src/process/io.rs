//! `/proc/<PID>/io`.

use crate::lines;
use crate::lines::Contents;
use crate::number;
use crate::number::ParseIntError;
use crate::text;
use vstd::prelude::*;

verus! {

/// What is read of `/proc/<PID>/io`.
#[derive(Debug, Clone, Copy, PartialEq, Eq, Structural)]
pub struct Io {
    /// The bytes that the process caused to be fetched from storage.
    pub read_bytes: u64,
    /// The bytes that the process caused to be sent to storage.
    pub write_bytes: u64,
}

/// The number of values at which the reading stops. The values are counted before they are
/// held against it, so that only a line before the first value can end the reading.
pub const NUM_FIELDS: u16 = 0;

/// What a line of the file is.
#[derive(Debug, Clone, Copy)]
pub enum IoLine {
    /// White space alone.
    Blank,
    /// A field that is not read.
    Other,
    /// The name of a field that is read, without a value.
    Bare,
    /// `read_bytes` and its value.
    ReadBytes(Result<u64, ParseIntError>),
    /// `write_bytes` and its value.
    WriteBytes(Result<u64, ParseIntError>),
}

/// What a line of the file is: its first word names the field, and the second is the value.
pub open spec fn io_line(line: Seq<char>) -> IoLine {
    match text::first_word(line) {
        None => IoLine::Blank,
        Some((name, rest)) => if name != "read_bytes:"@ && name != "write_bytes:"@ {
            IoLine::Other
        } else {
            match text::first_word(rest) {
                None => IoLine::Bare,
                Some((value, _)) => if name == "read_bytes:"@ {
                    IoLine::ReadBytes(number::u64_of(value))
                } else {
                    IoLine::WriteBytes(number::u64_of(value))
                },
            }
        },
    }
}

/// The number of values that the lines hold.
pub open spec fn values_in(lines: Seq<Seq<char>>) -> nat
    decreases lines.len(),
{
    if lines.len() == 0 {
        0
    } else {
        let before = values_in(lines.drop_last());
        match io_line(lines.last()) {
            IoLine::ReadBytes(Ok(_)) => before + 1,
            IoLine::WriteBytes(Ok(_)) => before + 1,
            _ => before,
        }
    }
}

/// The last value of `read_bytes`, or zero.
pub open spec fn last_read_bytes(lines: Seq<Seq<char>>) -> u64
    decreases lines.len(),
{
    if lines.len() == 0 {
        0
    } else {
        match io_line(lines.last()) {
            IoLine::ReadBytes(Ok(v)) => v,
            _ => last_read_bytes(lines.drop_last()),
        }
    }
}

/// The last value of `write_bytes`, or zero.
pub open spec fn last_write_bytes(lines: Seq<Seq<char>>) -> u64
    decreases lines.len(),
{
    if lines.len() == 0 {
        0
    } else {
        match io_line(lines.last()) {
            IoLine::WriteBytes(Ok(v)) => v,
            _ => last_write_bytes(lines.drop_last()),
        }
    }
}

/// What is wrong with the value in the last of the lines.
pub open spec fn last_error(lines: Seq<Seq<char>>) -> Option<ParseIntError> {
    if lines.len() == 0 {
        None
    } else {
        match io_line(lines.last()) {
            IoLine::ReadBytes(Err(e)) => Some(e),
            IoLine::WriteBytes(Err(e)) => Some(e),
            _ => None,
        }
    }
}

/// Whether the reading ends with the lines that were read: at a value that is no number, and
/// where the number of values is `NUM_FIELDS`. The line of another field never ends it.
pub open spec fn reading_ends() -> spec_fn(Seq<Seq<char>>) -> bool {
    |read: Seq<Seq<char>>|
        read.len() > 0 && io_line(read.last()) != IoLine::Other && (last_error(read) is Some
            || values_in(read) == NUM_FIELDS)
}

/// What the lines of `/proc/<PID>/io` say, as far as they are read. `None` where the values
/// are more than a `u16` can count.
pub open spec fn io_of(lines: Seq<Seq<char>>) -> Option<Result<Io, ParseIntError>> {
    let used = lines::lines_used(lines, reading_ends());
    if values_in(used) > u16::MAX {
        None
    } else {
        match last_error(used) {
            Some(e) => Some(Err(e)),
            None => Some(
                Ok(
                    Io {
                        read_bytes: last_read_bytes(used),
                        write_bytes: last_write_bytes(used),
                    },
                ),
            ),
        }
    }
}

/// Tells what a line of the file is.
pub fn read_io_line(line: &[char]) -> (r: IoLine)
    ensures
        r == io_line(line@),
{
    match text::next_word(line) {
        None => IoLine::Blank,
        Some((name, rest)) => {
            let is_read: bool = text::same_text(name, text::chars_of("read_bytes:").as_slice());
            let is_write: bool = text::same_text(name, text::chars_of("write_bytes:").as_slice());
            if !is_read && !is_write {
                return IoLine::Other;
            }
            match text::next_word(rest) {
                None => IoLine::Bare,
                Some((value, _)) => if is_read {
                    IoLine::ReadBytes(number::parse_u64(value))
                } else {
                    IoLine::WriteBytes(number::parse_u64(value))
                },
            }
        },
    }
}

impl Io {
    /// Reads the contents of `/proc/<PID>/io`. A line that cannot be read ends the reading,
    /// and what was found before it stands. Gives `None` where the values are more than a
    /// `u16` can count.
    pub fn from_file(contents: &Contents) -> (r: Option<Result<Io, ParseIntError>>)
        ensures
            r == io_of(contents.lines()),
    {
        let lines = contents.read_lines();
        let ghost all = contents.lines();
        let ghost ends = reading_ends();
        let mut values: u16 = 0;
        let mut read_bytes: u64 = 0;
        let mut write_bytes: u64 = 0;
        let mut i: usize = 0;
        assert(all.take(0) =~= Seq::<Seq<char>>::empty());
        while i < lines.len()
            invariant
                i <= lines@.len(),
                all == contents.lines(),
                all == lines::views(lines@),
                ends == reading_ends(),
                values == values_in(all.take(i as int)),
                read_bytes == last_read_bytes(all.take(i as int)),
                write_bytes == last_write_bytes(all.take(i as int)),
                lines::lines_used(all.take(i as int), ends) == all.take(i as int),
                !ends(all.take(i as int)),
            decreases lines@.len() - i,
        {
            let ghost read = all.take(i + 1);
            let ghost more = all.skip(i + 1);
            proof {
                assert(read.drop_last() =~= all.take(i as int));
                assert(read + more =~= all);
                assert(lines::lines_used(read, ends) == read);
                if ends(read) {
                    lines::theorem_lines_after_enough(read, more, ends);
                }
            }
            let line = lines[i].as_slice();
            assert(read.last() == line@);
            match read_io_line(line) {
                IoLine::Other => {
                    i += 1;
                    continue;
                },
                IoLine::ReadBytes(Err(e)) => {
                    return Some(Err(e));
                },
                IoLine::WriteBytes(Err(e)) => {
                    return Some(Err(e));
                },
                IoLine::ReadBytes(Ok(v)) => {
                    if values == u16::MAX {
                        proof {
                            lemma_values_grow(all, i + 1);
                        }
                        return None;
                    }
                    read_bytes = v;
                    values += 1;
                },
                IoLine::WriteBytes(Ok(v)) => {
                    if values == u16::MAX {
                        proof {
                            lemma_values_grow(all, i + 1);
                        }
                        return None;
                    }
                    write_bytes = v;
                    values += 1;
                },
                IoLine::Blank => {},
                IoLine::Bare => {},
            }
            if values == NUM_FIELDS {
                return Some(Ok(Io { read_bytes, write_bytes }));
            }
            i += 1;
        }
        proof {
            assert(all.take(i as int) =~= all);
        }
        Some(Ok(Io { read_bytes, write_bytes }))
    }
}

/// Reading on never makes the number of values smaller.
proof fn lemma_values_grow(lines: Seq<Seq<char>>, n: int)
    requires
        0 <= n <= lines.len(),
        lines::lines_used(lines.take(n), reading_ends()) == lines.take(n),
    ensures
        values_in(lines.take(n)) <= values_in(lines::lines_used(lines, reading_ends())),
    decreases lines.len(),
{
    let ends = reading_ends();
    if n == lines.len() {
        assert(lines.take(n) =~= lines);
    } else {
        let shorter = lines.drop_last();
        assert(shorter.take(n) =~= lines.take(n));
        lemma_values_grow(shorter, n);
        lines::theorem_lines_used(shorter, ends);
    }
}

/// The line of a field that is not read has no influence on the values.
proof fn lemma_values_other_line(before: Seq<Seq<char>>, line: Seq<char>, after: Seq<Seq<char>>)
    requires
        io_line(line) == IoLine::Other,
    ensures
        values_in(before.push(line) + after) == values_in(before + after),
        last_read_bytes(before.push(line) + after) == last_read_bytes(before + after),
        last_write_bytes(before.push(line) + after) == last_write_bytes(before + after),
    decreases after.len(),
{
    if after.len() == 0 {
        assert(before.push(line) + after =~= before.push(line));
        assert(before.push(line).drop_last() =~= before);
        assert(before + after =~= before);
    } else {
        lemma_values_other_line(before, line, after.drop_last());
        assert((before.push(line) + after).drop_last() =~= before.push(line) + after.drop_last());
        assert((before + after).drop_last() =~= before + after.drop_last());
    }
}

proof fn lemma_used_other_line(before: Seq<Seq<char>>, line: Seq<char>, after: Seq<Seq<char>>)
    requires
        io_line(line) == IoLine::Other,
    ensures
        ({
            let with = lines::lines_used(before.push(line) + after, reading_ends());
            let without = lines::lines_used(before + after, reading_ends());
            &&& values_in(with) == values_in(without)
            &&& last_read_bytes(with) == last_read_bytes(without)
            &&& last_write_bytes(with) == last_write_bytes(without)
            &&& last_error(with) == last_error(without)
            &&& reading_ends()(with) == reading_ends()(without)
        }),
    decreases after.len(),
{
    let ends = reading_ends();
    let with = before.push(line) + after;
    let without = before + after;
    lemma_values_other_line(before, line, after);
    if after.len() == 0 {
        assert(with =~= before.push(line));
        assert(without =~= before);
        assert(with.drop_last() =~= before);
        lines::theorem_lines_used(before, ends);
    } else {
        lemma_used_other_line(before, line, after.drop_last());
        assert(with.drop_last() =~= before.push(line) + after.drop_last());
        assert(without.drop_last() =~= before + after.drop_last());
        assert(with.last() == after.last());
        assert(without.last() == after.last());
    }
}

/// The lines of fields that are not read make no difference, wherever they stand.
pub proof fn theorem_io_ignores_other_lines(
    before: Seq<Seq<char>>,
    line: Seq<char>,
    after: Seq<Seq<char>>,
)
    requires
        io_line(line) == IoLine::Other,
    ensures
        io_of(before.push(line) + after) == io_of(before + after),
{
    lemma_used_other_line(before, line, after);
}

/// A file that holds a value, and none that is no number, is read to its end.
pub proof fn theorem_io_reads_to_the_end(lines: Seq<Seq<char>>)
    requires
        values_in(lines::lines_used(lines, reading_ends())) > 0,
        last_error(lines::lines_used(lines, reading_ends())) is None,
    ensures
        lines::lines_used(lines, reading_ends()) == lines,
{
    lines::theorem_lines_used(lines, reading_ends());
}

/// A line made of the name of a field, white space, a number in decimal notation and, after
/// white space, anything else, states that number for the field.
pub proof fn theorem_io_line(gap: Seq<char>, n: u64, rest: Seq<char>)
    requires
        gap.len() > 0,
        text::all_spaces(gap),
        rest.len() == 0 || text::is_space(rest[0]),
    ensures
        io_line("read_bytes:"@ + gap + number::decimal(n as nat) + rest) == IoLine::ReadBytes(Ok(n)),
        io_line("write_bytes:"@ + gap + number::decimal(n as nat) + rest) == IoLine::WriteBytes(
            Ok(n),
        ),
{
    reveal_strlit("read_bytes:");
    reveal_strlit("write_bytes:");
    assert("read_bytes:"@ != "write_bytes:"@) by {
        assert("read_bytes:"@[0] != "write_bytes:"@[0]);
    }
    lemma_io_value("read_bytes:"@, gap, n, rest);
    lemma_io_value("write_bytes:"@, gap, n, rest);
}

proof fn lemma_io_value(name: Seq<char>, gap: Seq<char>, n: u64, rest: Seq<char>)
    requires
        name.len() > 0,
        text::no_spaces(name),
        gap.len() > 0,
        text::all_spaces(gap),
        rest.len() == 0 || text::is_space(rest[0]),
    ensures
        ({
            let d = number::decimal(n as nat);
            &&& text::first_word(name + gap + d + rest) == Some((name, gap + d + rest))
            &&& text::first_word(gap + d + rest) == Some((d, rest))
            &&& number::u64_of(d) == Ok::<u64, ParseIntError>(n)
        }),
{
    let d = number::decimal(n as nat);
    number::lemma_decimal(n as nat);
    assert forall|i: int| 0 <= i < d.len() implies !text::is_space(#[trigger] d[i]) by {
        assert(number::is_digit(d[i]));
    }
    number::theorem_parse_decimal(n);
    text::theorem_first_word(gap, d, rest);
    let after = gap + d + rest;
    assert(after[0] == gap[0]);
    assert(Seq::<char>::empty() + name + after =~= name + gap + d + rest);
    text::theorem_first_word(Seq::empty(), name, after);
}

/// Whether a line is that of another field, or holds a value that is a number.
pub open spec fn sound(line: Seq<char>) -> bool {
    match io_line(line) {
        IoLine::Other => true,
        IoLine::ReadBytes(Ok(_)) => true,
        IoLine::WriteBytes(Ok(_)) => true,
        _ => false,
    }
}

proof fn lemma_sound_lines_are_used(lines: Seq<Seq<char>>)
    requires
        forall|k: int| 0 <= k < lines.len() ==> sound(#[trigger] lines[k]),
    ensures
        lines::lines_used(lines, reading_ends()) == lines,
        !reading_ends()(lines),
        last_error(lines) is None,
    decreases lines.len(),
{
    if lines.len() > 0 {
        let shorter = lines.drop_last();
        assert forall|k: int| 0 <= k < shorter.len() implies sound(#[trigger] shorter[k]) by {
            assert(shorter[k] == lines[k]);
        }
        lemma_sound_lines_are_used(shorter);
        assert(sound(lines[lines.len() - 1]));
    }
}

/// A file of other fields and of values that are numbers is read whole, and its last values
/// count.
pub proof fn theorem_sound_io_is_read(lines: Seq<Seq<char>>)
    requires
        forall|k: int| 0 <= k < lines.len() ==> sound(#[trigger] lines[k]),
        values_in(lines) <= u16::MAX,
    ensures
        io_of(lines) == Some(
            Ok::<Io, ParseIntError>(
                Io { read_bytes: last_read_bytes(lines), write_bytes: last_write_bytes(lines) },
            ),
        ),
{
    lemma_sound_lines_are_used(lines);
}

/// Whether a line holds a value that is a number.
pub open spec fn holds_value(line: Seq<char>) -> bool {
    io_line(line) matches IoLine::ReadBytes(Ok(_)) || io_line(line) matches IoLine::WriteBytes(
        Ok(_),
    )
}

/// The values are counted one for each line that holds one.
pub proof fn theorem_values_in(before: Seq<Seq<char>>, line: Seq<char>, after: Seq<Seq<char>>)
    ensures
        values_in(Seq::empty()) == 0,
        values_in(seq![line]) == if holds_value(line) {
            1nat
        } else {
            0nat
        },
        values_in(before + after) == values_in(before) + values_in(after),
    decreases after.len(),
{
    assert(seq![line].drop_last() =~= Seq::<Seq<char>>::empty());
    assert(values_in(seq![line].drop_last()) == 0);
    if after.len() == 0 {
        assert(before + after =~= before);
    } else {
        theorem_values_in(before, line, after.drop_last());
        assert((before + after).drop_last() =~= before + after.drop_last());
        assert((before + after).last() == after.last());
    }
}

/// Whether the lines can be read one after the other to the last: no value is wrong, and a
/// line that names no field, or one without its value, comes only after a line with a value.
pub open spec fn readable(lines: Seq<Seq<char>>) -> bool {
    forall|k: int|
        0 <= k < lines.len() ==> match io_line(#[trigger] lines[k]) {
            IoLine::ReadBytes(Err(_)) => false,
            IoLine::WriteBytes(Err(_)) => false,
            IoLine::Blank => exists|j: int| 0 <= j < k && #[trigger] holds_value(lines[j]),
            IoLine::Bare => exists|j: int| 0 <= j < k && #[trigger] holds_value(lines[j]),
            _ => true,
        }
}

/// Whether `v` is the value of `read_bytes` that the lines state last, or zero without any.
pub open spec fn reads(lines: Seq<Seq<char>>, v: u64) -> bool {
    ||| exists|k: int|
        {
            &&& 0 <= k < lines.len()
            &&& #[trigger] io_line(lines[k]) == IoLine::ReadBytes(Ok(v))
            &&& forall|j: int| k < j < lines.len() ==> !(#[trigger] io_line(lines[j]) is ReadBytes)
        }
    ||| v == 0 && forall|j: int|
        0 <= j < lines.len() ==> !(#[trigger] io_line(lines[j]) is ReadBytes)
}

/// Whether `v` is the value of `write_bytes` that the lines state last, or zero without any.
pub open spec fn writes(lines: Seq<Seq<char>>, v: u64) -> bool {
    ||| exists|k: int|
        {
            &&& 0 <= k < lines.len()
            &&& #[trigger] io_line(lines[k]) == IoLine::WriteBytes(Ok(v))
            &&& forall|j: int| k < j < lines.len() ==> !(#[trigger] io_line(lines[j]) is WriteBytes)
        }
    ||| v == 0 && forall|j: int|
        0 <= j < lines.len() ==> !(#[trigger] io_line(lines[j]) is WriteBytes)
}

proof fn lemma_readable_shorter(lines: Seq<Seq<char>>)
    requires
        lines.len() > 0,
        readable(lines),
    ensures
        readable(lines.drop_last()),
{
    let shorter = lines.drop_last();
    assert forall|k: int| 0 <= k < shorter.len() implies match io_line(#[trigger] shorter[k]) {
        IoLine::ReadBytes(Err(_)) => false,
        IoLine::WriteBytes(Err(_)) => false,
        IoLine::Blank => exists|j: int| 0 <= j < k && #[trigger] holds_value(shorter[j]),
        IoLine::Bare => exists|j: int| 0 <= j < k && #[trigger] holds_value(shorter[j]),
        _ => true,
    } by {
        let line = io_line(lines[k]);
        assert(shorter[k] == lines[k]);
        if line is Blank || line is Bare {
            let j = choose|j: int| 0 <= j < k && #[trigger] holds_value(lines[j]);
            assert(holds_value(shorter[j]));
        }
    }
}

proof fn lemma_value_is_counted(lines: Seq<Seq<char>>, j: int)
    requires
        0 <= j < lines.len(),
        holds_value(lines[j]),
    ensures
        values_in(lines) > 0,
    decreases lines.len(),
{
    if j < lines.len() - 1 {
        assert(lines.drop_last()[j] == lines[j]);
        lemma_value_is_counted(lines.drop_last(), j);
    }
}

proof fn lemma_readable_is_used(lines: Seq<Seq<char>>)
    requires
        readable(lines),
    ensures
        lines::lines_used(lines, reading_ends()) == lines,
        !reading_ends()(lines),
        last_error(lines) is None,
    decreases lines.len(),
{
    if lines.len() > 0 {
        let n = lines.len() - 1;
        lemma_readable_shorter(lines);
        lemma_readable_is_used(lines.drop_last());
        let line = io_line(lines[n]);
        assert(lines.last() == lines[n]);
        if line is Blank || line is Bare {
            let j = choose|j: int| 0 <= j < n && #[trigger] holds_value(lines[j]);
            lemma_value_is_counted(lines, j);
        } else if line !is Other {
            assert(holds_value(lines[n]));
            lemma_value_is_counted(lines, n);
        }
    }
}

proof fn lemma_last_values(lines: Seq<Seq<char>>, r: u64, w: u64)
    requires
        readable(lines),
    ensures
        reads(lines, r) ==> last_read_bytes(lines) == r,
        writes(lines, w) ==> last_write_bytes(lines) == w,
    decreases lines.len(),
{
    if lines.len() > 0 {
        let n = lines.len() - 1;
        let shorter = lines.drop_last();
        lemma_readable_shorter(lines);
        lemma_last_values(shorter, r, w);
        let line = io_line(lines[n]);
        assert(lines.last() == lines[n]);
        assert forall|k: int| 0 <= k < n implies #[trigger] io_line(shorter[k]) == io_line(
            lines[k],
        ) by {}
        if reads(lines, r) && !(line is ReadBytes) {
            if exists|k: int|
                {
                    &&& 0 <= k < lines.len()
                    &&& #[trigger] io_line(lines[k]) == IoLine::ReadBytes(Ok(r))
                    &&& forall|j: int|
                        k < j < lines.len() ==> !(#[trigger] io_line(lines[j]) is ReadBytes)
                } {
                let k = choose|k: int|
                    {
                        &&& 0 <= k < lines.len()
                        &&& #[trigger] io_line(lines[k]) == IoLine::ReadBytes(Ok(r))
                        &&& forall|j: int|
                            k < j < lines.len() ==> !(#[trigger] io_line(lines[j]) is ReadBytes)
                    };
                assert(io_line(shorter[k]) == IoLine::ReadBytes(Ok(r)));
            }
            assert(reads(shorter, r));
        }
        if writes(lines, w) && !(line is WriteBytes) {
            if exists|k: int|
                {
                    &&& 0 <= k < lines.len()
                    &&& #[trigger] io_line(lines[k]) == IoLine::WriteBytes(Ok(w))
                    &&& forall|j: int|
                        k < j < lines.len() ==> !(#[trigger] io_line(lines[j]) is WriteBytes)
                } {
                let k = choose|k: int|
                    {
                        &&& 0 <= k < lines.len()
                        &&& #[trigger] io_line(lines[k]) == IoLine::WriteBytes(Ok(w))
                        &&& forall|j: int|
                            k < j < lines.len() ==> !(#[trigger] io_line(lines[j]) is WriteBytes)
                    };
                assert(io_line(shorter[k]) == IoLine::WriteBytes(Ok(w)));
            }
            assert(writes(shorter, w));
        }
    }
}

/// A file that can be read to its last line gives the value that it states last for each of
/// the two fields, as it is, and zero for a field without a value. Only where a `u16` cannot
/// count the values does it give nothing.
pub proof fn theorem_io_last_values(lines: Seq<Seq<char>>, r: u64, w: u64)
    requires
        readable(lines),
        reads(lines, r),
        writes(lines, w),
    ensures
        values_in(lines) <= 0xffff ==> io_of(lines) == Some(
            Ok::<Io, ParseIntError>(Io { read_bytes: r, write_bytes: w }),
        ),
        values_in(lines) > 0xffff ==> io_of(lines) is None,
{
    lemma_readable_is_used(lines);
    lemma_last_values(lines, r, w);
}

/// The first value that is no number makes the file unusable, whatever follows.
pub proof fn theorem_io_first_error(
    before: Seq<Seq<char>>,
    line: Seq<char>,
    after: Seq<Seq<char>>,
    e: ParseIntError,
)
    requires
        readable(before),
        values_in(before) <= 0xffff,
        io_line(line) == IoLine::ReadBytes(Err(e)) || io_line(line) == IoLine::WriteBytes(Err(e)),
    ensures
        io_of(before.push(line) + after) == Some(Err::<Io, _>(e)),
{
    let read = before.push(line);
    let ends = reading_ends();
    lemma_readable_is_used(before);
    assert(read.drop_last() =~= before);
    assert(lines::lines_used(read, ends) == read);
    assert(ends(read));
    lines::theorem_lines_after_enough(read, after, ends);
}

/// A line without a field, or without its value, ends the reading where only other fields came
/// before it. Nothing has been read until there.
pub proof fn theorem_io_ends_before_first_value(
    before: Seq<Seq<char>>,
    line: Seq<char>,
    after: Seq<Seq<char>>,
)
    requires
        forall|k: int| 0 <= k < before.len() ==> io_line(#[trigger] before[k]) is Other,
        io_line(line) is Blank || io_line(line) is Bare,
    ensures
        io_of(before.push(line) + after) == Some(
            Ok::<Io, ParseIntError>(Io { read_bytes: 0, write_bytes: 0 }),
        ),
{
    let read = before.push(line);
    let ends = reading_ends();
    lemma_readable_is_used(before);
    lemma_no_values(before);
    lemma_last_values(before, 0, 0);
    assert forall|j: int| 0 <= j < before.len() implies #[trigger] io_line(before[j]) is Other by {
        assert(io_line(before[j]) is Other);
    }
    assert(read.drop_last() =~= before);
    assert(lines::lines_used(read, ends) == read);
    assert(ends(read));
    lines::theorem_lines_after_enough(read, after, ends);
}

proof fn lemma_no_values(lines: Seq<Seq<char>>)
    requires
        forall|k: int| 0 <= k < lines.len() ==> io_line(#[trigger] lines[k]) is Other,
    ensures
        values_in(lines) == 0,
    decreases lines.len(),
{
    if lines.len() > 0 {
        let shorter = lines.drop_last();
        assert forall|k: int| 0 <= k < shorter.len() implies io_line(
            #[trigger] shorter[k],
        ) is Other by {
            assert(shorter[k] == lines[k]);
        }
        lemma_no_values(shorter);
        assert(io_line(lines[lines.len() - 1]) is Other);
    }
}

/// What a line is rests on its first two words: the name of a field and its value.
pub proof fn theorem_io_words(
    before: Seq<char>,
    name: Seq<char>,
    gap: Seq<char>,
    word: Seq<char>,
    rest: Seq<char>,
)
    requires
        text::all_spaces(before),
        text::no_spaces(name),
        name.len() > 0,
        gap.len() > 0,
        text::all_spaces(gap),
        text::no_spaces(word),
        word.len() > 0,
        rest.len() == 0 || text::is_space(rest[0]),
    ensures
        ({
            let line = before + name + (gap + word + rest);
            &&& name == "read_bytes:"@ ==> io_line(line) == IoLine::ReadBytes(number::u64_of(word))
            &&& name == "write_bytes:"@ ==> io_line(line) == IoLine::WriteBytes(
                number::u64_of(word),
            )
            &&& name != "read_bytes:"@ && name != "write_bytes:"@ ==> io_line(line) is Other
        }),
{
    let after = gap + word + rest;
    reveal_strlit("read_bytes:");
    reveal_strlit("write_bytes:");
    assert("read_bytes:"@[0] != "write_bytes:"@[0]);
    assert(after[0] == gap[0]);
    text::theorem_first_word(before, name, after);
    text::theorem_first_word(gap, word, rest);
}

/// A line of one word names a field without a value, and white space alone names none.
pub proof fn theorem_io_short_lines(before: Seq<char>, name: Seq<char>, gap: Seq<char>)
    requires
        text::all_spaces(before),
        text::no_spaces(name),
        name.len() > 0,
        text::all_spaces(gap),
    ensures
        name == "read_bytes:"@ || name == "write_bytes:"@ ==> io_line(before + name + gap) is Bare,
        name != "read_bytes:"@ && name != "write_bytes:"@ ==> io_line(before + name + gap) is Other,
        io_line(before) is Blank,
{
    if gap.len() > 0 {
        assert(text::is_space(gap[0]));
    }
    text::theorem_first_word(before, name, gap);
    text::theorem_no_word(gap);
    text::theorem_no_word(before);
}

/// Every call gives what the lines of the file state.
pub proof fn theorem_io_from_file(contents: &Contents, r: Option<Result<Io, ParseIntError>>)
    requires
        call_ensures(Io::from_file, (contents,), r),
    ensures
        r == io_of(lines::lines_of(contents.bytes@, contents.complete)),
{
}

} // verus!
