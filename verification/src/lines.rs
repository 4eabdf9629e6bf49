//! Reading the contents of a file line by line.

use crate::outside::from_utf8;
use crate::text::chars_of;
use vstd::prelude::*;
use vstd::slice::slice_subrange;
use vstd::utf8::*;

verus! {

/// What reading a file gave.
#[derive(Debug)]
pub struct Contents {
    /// The bytes up to the end of the file, or up to the read that failed.
    pub bytes: Vec<u8>,
    /// Whether the end of the file was reached.
    pub complete: bool,
}

/// The byte that ends a line.
pub const NEWLINE: u8 = 10;

/// The number of bytes of the first line, its newline counted, if a newline ends it.
pub open spec fn line_len(bytes: Seq<u8>) -> Option<int>
    decreases bytes.len(),
{
    if bytes.len() == 0 {
        None
    } else if bytes[0] == NEWLINE {
        Some(1)
    } else {
        match line_len(bytes.drop_first()) {
            Some(n) => Some(n + 1),
            None => None,
        }
    }
}

/// The lines of a file that can be read one after the other, each with the newline that
/// ends it. Reading stops at a line that is not UTF-8, and where the file could not be read
/// on.
pub open spec fn lines_of(bytes: Seq<u8>, complete: bool) -> Seq<Seq<char>>
    decreases bytes.len(),
    via lines_of_decreases
{
    match line_len(bytes) {
        Some(n) => if valid_utf8(bytes.take(n)) {
            seq![decode_utf8(bytes.take(n))] + lines_of(bytes.skip(n), complete)
        } else {
            seq![]
        },
        None => if bytes.len() > 0 && complete && valid_utf8(bytes) {
            seq![decode_utf8(bytes)]
        } else {
            seq![]
        },
    }
}

#[via_fn]
proof fn lines_of_decreases(bytes: Seq<u8>, complete: bool) {
    lemma_line_len(bytes);
}

/// A line ends with its first newline.
proof fn lemma_line_len(bytes: Seq<u8>)
    ensures
        line_len(bytes) matches Some(n) ==> 0 < n <= bytes.len() && bytes[n - 1] == NEWLINE
            && forall|j: int| 0 <= j < n - 1 ==> bytes[j] != NEWLINE,
        line_len(bytes) is None ==> forall|j: int| 0 <= j < bytes.len() ==> bytes[j] != NEWLINE,
    decreases bytes.len(),
{
    if bytes.len() > 0 && bytes[0] != NEWLINE {
        let rest = bytes.drop_first();
        lemma_line_len(rest);
        assert forall|j: int| 0 < j < bytes.len() implies bytes[j] == rest[j - 1] by {}
    }
}

/// The contents of each of `lines`.
pub open spec fn views(lines: Seq<Vec<char>>) -> Seq<Seq<char>> {
    Seq::new(lines.len(), |i: int| lines[i]@)
}

impl Contents {
    /// The lines that can be read one after the other.
    pub open spec fn lines(&self) -> Seq<Seq<char>> {
        lines_of(self.bytes@, self.complete)
    }

    /// Reads the lines, each with the newline that ends it.
    pub fn read_lines(&self) -> (r: Vec<Vec<char>>)
        ensures
            views(r@) == self.lines(),
    {
        let mut out: Vec<Vec<char>> = Vec::new();
        let mut rest: &[u8] = self.bytes.as_slice();
        assert(views(out@) + lines_of(rest@, self.complete) =~= self.lines());
        loop
            invariant
                views(out@) + lines_of(rest@, self.complete) == self.lines(),
            decreases rest@.len(),
        {
            let ghost before = out@;
            proof {
                lemma_line_len(rest@);
            }
            let len: usize = rest.len();
            match first_line(rest) {
                Some(n) => {
                    let line = slice_subrange(rest, 0, n);
                    let tail = slice_subrange(rest, n, len);
                    assert(line@ =~= rest@.take(n as int));
                    assert(tail@ =~= rest@.skip(n as int));
                    match from_utf8(line) {
                        Some(text) => {
                            out.push(chars_of(text));
                            assert(views(out@) =~= views(before).push(text@));
                            assert(views(out@) + lines_of(tail@, self.complete) =~= views(before)
                                + (seq![text@] + lines_of(tail@, self.complete)));
                            rest = tail;
                        },
                        None => {
                            assert(views(out@) + Seq::<Seq<char>>::empty() =~= views(out@));
                            return out;
                        },
                    }
                },
                None => {
                    if len > 0 && self.complete {
                        if let Some(text) = from_utf8(rest) {
                            out.push(chars_of(text));
                            assert(views(out@) =~= views(before) + seq![text@]);
                            return out;
                        }
                    }
                    assert(views(out@) + Seq::<Seq<char>>::empty() =~= views(out@));
                    return out;
                },
            }
        }
    }
}

/// The number of bytes of the first line, if a newline ends it.
fn first_line(bytes: &[u8]) -> (r: Option<usize>)
    ensures
        match r {
            Some(n) => line_len(bytes@) == Some(n as int),
            None => line_len(bytes@) is None,
        },
{
    proof {
        lemma_line_len(bytes@);
    }
    let len: usize = bytes.len();
    let mut i: usize = 0;
    while i < len
        invariant
            i <= len == bytes@.len(),
            forall|j: int| 0 <= j < i ==> bytes@[j] != NEWLINE,
            line_len(bytes@) matches Some(n) ==> 0 < n <= bytes@.len() && bytes@[n - 1] == NEWLINE
                && forall|j: int| 0 <= j < n - 1 ==> bytes@[j] != NEWLINE,
            line_len(bytes@) is None ==> forall|j: int|
                0 <= j < bytes@.len() ==> bytes@[j] != NEWLINE,
        decreases len - i,
    {
        if bytes[i] == NEWLINE {
            return Some(i + 1);
        }
        i += 1;
    }
    None
}

/// The lines that are read where reading stops as soon as `enough` holds of what was read:
/// the shortest beginning of `lines` of which it holds, or all of them.
pub open spec fn lines_used(
    lines: Seq<Seq<char>>,
    enough: spec_fn(Seq<Seq<char>>) -> bool,
) -> Seq<Seq<char>>
    decreases lines.len(),
{
    if lines.len() == 0 {
        lines
    } else {
        let before = lines_used(lines.drop_last(), enough);
        if enough(before) {
            before
        } else {
            lines
        }
    }
}

/// Once what was read is enough, the lines that follow make no difference.
pub proof fn theorem_lines_after_enough(
    lines: Seq<Seq<char>>,
    more: Seq<Seq<char>>,
    enough: spec_fn(Seq<Seq<char>>) -> bool,
)
    requires
        enough(lines_used(lines, enough)),
    ensures
        lines_used(lines + more, enough) == lines_used(lines, enough),
    decreases more.len(),
{
    if more.len() == 0 {
        assert(lines + more =~= lines);
    } else {
        assert((lines + more).drop_last() =~= lines + more.drop_last());
        theorem_lines_after_enough(lines, more.drop_last(), enough);
    }
}

/// What is read is a beginning of the lines, and all of them where it is not enough.
pub proof fn theorem_lines_used(
    lines: Seq<Seq<char>>,
    enough: spec_fn(Seq<Seq<char>>) -> bool,
)
    ensures
        lines_used(lines, enough).is_prefix_of(lines),
        !enough(lines_used(lines, enough)) ==> lines_used(lines, enough) == lines,
        forall|n: int|
            0 <= n < lines_used(lines, enough).len() ==> !enough(#[trigger] lines.take(n)),
    decreases lines.len(),
{
    let used = lines_used(lines, enough);
    if lines.len() == 0 {
        assert(used.is_prefix_of(lines));
    } else {
        let shorter = lines.drop_last();
        theorem_lines_used(shorter, enough);
        let before = lines_used(shorter, enough);
        if enough(before) {
            assert(before =~= lines.subrange(0, before.len() as int));
            assert forall|n: int| 0 <= n < used.len() implies !enough(#[trigger] lines.take(n)) by {
                assert(shorter.take(n) =~= lines.take(n));
            }
        } else {
            assert(lines =~= lines.subrange(0, lines.len() as int));
            assert forall|n: int| 0 <= n < used.len() implies !enough(#[trigger] lines.take(n)) by {
                assert(shorter.take(n) =~= lines.take(n));
                if n == shorter.len() {
                    assert(shorter.take(n) =~= shorter);
                }
            }
        }
    }
}

/// A line splits UTF-8 in two: no character reaches over its newline.
proof fn lemma_utf8_splits_after_newline(bytes: Seq<u8>, n: int)
    requires
        valid_utf8(bytes),
        0 < n <= bytes.len(),
        bytes[n - 1] == NEWLINE,
    ensures
        valid_utf8(bytes.take(n)),
        valid_utf8(bytes.skip(n)),
{
    let head = bytes.subrange(0, n - 1);
    let tail = bytes.subrange(n - 1, bytes.len() as int);
    is_char_boundary_iff_not_is_continuation_byte(bytes, n - 1);
    valid_utf8_split(bytes, n - 1);
    assert(tail[0] == NEWLINE);
    assert(pop_first_scalar(tail) =~= bytes.skip(n));
    let newline = seq![NEWLINE];
    assert(valid_utf8(newline)) by {
        reveal_with_fuel(valid_utf8, 2);
        assert(decode_first_codepoint(newline) == decode_first_codepoint(tail));
    }
    valid_utf8_concat(head, newline);
    assert(bytes.take(n) =~= head + newline);
}

/// The first line is found without regard to what follows it.
proof fn lemma_line_len_prefix(x: Seq<u8>, y: Seq<u8>)
    requires
        line_len(x) is Some,
    ensures
        line_len(x + y) == line_len(x),
{
    lemma_line_len(x);
    lemma_line_len(x + y);
    let n = line_len(x)->0;
    assert((x + y)[n - 1] == NEWLINE);
    assert forall|j: int| 0 <= j < n - 1 implies (x + y)[j] != NEWLINE by {
        assert((x + y)[j] == x[j]);
    }
}

/// Whole lines that are UTF-8 are read before, and without regard to, what follows them.
pub proof fn theorem_lines_of_parts(x: Seq<u8>, y: Seq<u8>, complete: bool)
    requires
        valid_utf8(x),
        x.len() == 0 || x.last() == NEWLINE,
    ensures
        lines_of(x + y, complete) == lines_of(x, true) + lines_of(y, complete),
    decreases x.len(),
{
    lemma_line_len(x);
    if x.len() == 0 {
        assert(x + y =~= y);
        assert(lines_of(x, true) =~= Seq::<Seq<char>>::empty());
    } else {
        assert(line_len(x) is Some);
        let n = line_len(x)->0;
        let tail = x.skip(n);
        lemma_line_len_prefix(x, y);
        lemma_utf8_splits_after_newline(x, n);
        theorem_lines_of_parts(tail, y, complete);
        assert((x + y).take(n) =~= x.take(n));
        assert((x + y).skip(n) =~= tail + y);
        let first = seq![decode_utf8(x.take(n))];
        assert(first + (lines_of(tail, true) + lines_of(y, complete)) =~= (first + lines_of(
            tail,
            true,
        )) + lines_of(y, complete));
    }
}

/// A line that is not UTF-8 ends the reading: what came before it stands, and nothing that
/// follows it is read.
pub proof fn theorem_bad_line_ends_reading(
    x: Seq<u8>,
    bad: Seq<u8>,
    y: Seq<u8>,
    complete: bool,
)
    requires
        valid_utf8(x),
        x.len() == 0 || x.last() == NEWLINE,
        line_len(bad) == Some(bad.len() as int),
        !valid_utf8(bad),
    ensures
        lines_of(x + (bad + y), complete) == lines_of(x, true),
{
    theorem_lines_of_parts(x, bad + y, complete);
    lemma_line_len_prefix(bad, y);
    assert((bad + y).take(bad.len() as int) =~= bad);
    assert(lines_of(x, true) + Seq::<Seq<char>>::empty() =~= lines_of(x, true));
}

/// A read that fails in the middle of a line loses that line, and what came before it stands.
pub proof fn theorem_failed_read_keeps_lines(x: Seq<u8>, partial: Seq<u8>)
    requires
        valid_utf8(x),
        x.len() == 0 || x.last() == NEWLINE,
        line_len(partial) is None,
    ensures
        lines_of(x + partial, false) == lines_of(x, true),
{
    theorem_lines_of_parts(x, partial, false);
    assert(lines_of(x, true) + Seq::<Seq<char>>::empty() =~= lines_of(x, true));
}

/// A line is what stands before a newline, with the newline. What follows the last newline is
/// a line too where the file was read to its end.
pub proof fn theorem_one_line(x: Seq<u8>, complete: bool)
    requires
        forall|i: int| 0 <= i < x.len() ==> x[i] != 10u8,
    ensures
        lines_of(seq![], complete) == Seq::<Seq<char>>::empty(),
        valid_utf8(x) ==> lines_of(x.push(10u8), complete) == seq![decode_utf8(x.push(10u8))],
        x.len() > 0 && valid_utf8(x) ==> lines_of(x, true) == seq![decode_utf8(x)],
        !valid_utf8(x) ==> lines_of(x, true) == Seq::<Seq<char>>::empty(),
        lines_of(x, false) == Seq::<Seq<char>>::empty(),
{
    let line = x.push(10u8);
    let n = line.len() as int;
    lemma_line_len(x);
    lemma_line_len(line);
    lemma_line_len(Seq::empty());
    assert(line[n - 1] == 10u8);
    assert forall|j: int| 0 <= j < n - 1 implies line[j] != 10u8 by {
        assert(line[j] == x[j]);
    }
    assert(line_len(line) == Some(n));
    assert(line.take(n) =~= line);
    assert(line.skip(n) =~= Seq::<u8>::empty());
    assert(seq![decode_utf8(line)] + Seq::<Seq<char>>::empty() =~= seq![decode_utf8(line)]);
    if valid_utf8(x) {
        let newline = seq![10u8];
        assert(valid_utf8(newline)) by {
            reveal_with_fuel(valid_utf8, 2);
            assert(decode_first_codepoint(newline) == 10) by {
                assert(10u8 & 0x7f == 10) by (bit_vector);
            }
        }
        valid_utf8_concat(x, newline);
        assert(line =~= x + newline);
    }
}

/// The lines of a file are those of its bytes.
pub proof fn theorem_lines_of_contents(contents: Contents)
    ensures
        contents.lines() == lines_of(contents.bytes@, contents.complete),
        NEWLINE == 10,
{
}

/// The contents of lines are those of each, in their order.
pub proof fn theorem_views(lines: Seq<Vec<char>>, i: int)
    requires
        0 <= i < lines.len(),
    ensures
        views(lines).len() == lines.len(),
        views(lines)[i] == lines[i]@,
{
}

} // verus!
