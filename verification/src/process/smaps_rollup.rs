//! `/proc/<PID>/smaps_rollup`.

use crate::fields;
use crate::lines;
use crate::lines::Contents;
use vstd::prelude::*;

verus! {

/// What is read of `/proc/<PID>/smaps_rollup`.
///
/// `Pss` is the share of the resident pages that falls to the process, and `SwapPss` the
/// same of the pages that were swapped out. Reading the file takes the owner of the process
/// or the capability `CAP_SYS_PTRACE`.
#[derive(Debug, Clone, Copy, PartialEq, Eq, Structural)]
pub struct SmapsRollup {
    /// The proportional set size, in bytes.
    pub pss_bytes: u64,
    /// The proportional share of the swapped pages, in bytes.
    pub swap_pss_bytes: u64,
}

/// What the lines of `/proc/<PID>/smaps_rollup` say, as far as they are read: until there is
/// an entry for both sizes. A size that is missing or no number is zero.
pub open spec fn smaps_rollup_of(lines: Seq<Seq<char>>) -> SmapsRollup {
    let used = fields::lines_for_pair(lines, "Pss:"@, "SwapPss:"@, false);
    SmapsRollup {
        pss_bytes: fields::bytes_or_zero(fields::last_entry(used, "Pss:"@)),
        swap_pss_bytes: fields::bytes_or_zero(fields::last_entry(used, "SwapPss:"@)),
    }
}

impl SmapsRollup {
    /// Reads the contents of `/proc/<PID>/smaps_rollup`. A line that cannot be read ends the
    /// reading, and what was found before it stands.
    pub fn from_file(contents: &Contents) -> (r: SmapsRollup)
        ensures
            r == smaps_rollup_of(contents.lines()),
    {
        let lines = contents.read_lines();
        let (pss, swap_pss) = fields::read_pair(&lines, "Pss:", "SwapPss:", false);
        SmapsRollup {
            pss_bytes: fields::entry_bytes(pss),
            swap_pss_bytes: fields::entry_bytes(swap_pss),
        }
    }

    /// The memory that the process is accountable for, be it resident or swapped out.
    pub fn footprint_bytes(&self) -> (r: u64)
        ensures
            r as int == if self.pss_bytes + self.swap_pss_bytes <= u64::MAX {
                self.pss_bytes + self.swap_pss_bytes
            } else {
                u64::MAX as int
            },
    {
        self.pss_bytes.saturating_add(self.swap_pss_bytes)
    }
}

/// A line counts for one of the two sizes at most: `SwapPss` is never taken for `Pss`.
pub proof fn theorem_pss_is_not_swap_pss(line: Seq<char>)
    ensures
        !("Pss:"@.is_prefix_of(line) && "SwapPss:"@.is_prefix_of(line)),
        fields::entry(line, "Pss:"@) is None || fields::entry(line, "SwapPss:"@) is None,
{
    reveal_strlit("Pss:");
    reveal_strlit("SwapPss:");
    if "Pss:"@.is_prefix_of(line) && "SwapPss:"@.is_prefix_of(line) {
        assert("Pss:"@[0] == line.subrange(0, "Pss:"@.len() as int)[0]);
        assert("SwapPss:"@[0] == line.subrange(0, "SwapPss:"@.len() as int)[0]);
    }
}

/// The lines of other fields make no difference.
pub proof fn theorem_smaps_rollup_ignores_other_lines(
    before: Seq<Seq<char>>,
    line: Seq<char>,
    after: Seq<Seq<char>>,
)
    requires
        fields::entry(line, "Pss:"@) is None,
        fields::entry(line, "SwapPss:"@) is None,
    ensures
        smaps_rollup_of(before.push(line) + after) == smaps_rollup_of(before + after),
{
    fields::theorem_other_lines_ignored(before, line, after, "Pss:"@, "SwapPss:"@, false);
}

/// The values are settled as soon as both sizes were read.
pub proof fn theorem_smaps_rollup_stops_with_both(lines: Seq<Seq<char>>, more: Seq<Seq<char>>)
    requires
        ({
            let used = fields::lines_for_pair(lines, "Pss:"@, "SwapPss:"@, false);
            &&& fields::last_entry(used, "Pss:"@) is Some
            &&& fields::last_entry(used, "SwapPss:"@) is Some
        }),
    ensures
        smaps_rollup_of(lines + more) == smaps_rollup_of(lines),
{
    fields::theorem_stops_with_both(lines, more, "Pss:"@, "SwapPss:"@, false);
}

/// Where the lines say one number for each of the two sizes, these are the sizes.
pub proof fn theorem_smaps_rollup_is_read(lines: Seq<Seq<char>>, pss: u64, swap_pss: u64)
    requires
        fields::states(lines, "Pss:"@, pss),
        fields::states(lines, "SwapPss:"@, swap_pss),
    ensures
        smaps_rollup_of(lines) == (SmapsRollup {
            pss_bytes: fields::kilobytes(pss),
            swap_pss_bytes: fields::kilobytes(swap_pss),
        }),
        pss * 1024 <= u64::MAX ==> smaps_rollup_of(lines).pss_bytes == pss * 1024,
        pss * 1024 > u64::MAX ==> smaps_rollup_of(lines).pss_bytes == u64::MAX,
        swap_pss * 1024 <= u64::MAX ==> smaps_rollup_of(lines).swap_pss_bytes == swap_pss * 1024,
        swap_pss * 1024 > u64::MAX ==> smaps_rollup_of(lines).swap_pss_bytes == u64::MAX,
{
    fields::theorem_pair_is_read(lines, "Pss:"@, "SwapPss:"@, false, pss, swap_pss);
}

/// Where the reading ends after `n` lines, each size is what the last of these lines with its
/// key amounts to, and zero where none has it.
pub proof fn theorem_smaps_rollup_latest_counts(lines: Seq<Seq<char>>, n: int)
    requires
        fields::reading_ends_at(lines, "Pss:"@, "SwapPss:"@, false, n),
    ensures
        forall|i: int| #[trigger]
            fields::latest(lines, "Pss:"@, n, i) ==> fields::amounts_to(
                fields::entry(lines[i], "Pss:"@),
                smaps_rollup_of(lines).pss_bytes,
            ),
        forall|j: int| #[trigger]
            fields::latest(lines, "SwapPss:"@, n, j) ==> fields::amounts_to(
                fields::entry(lines[j], "SwapPss:"@),
                smaps_rollup_of(lines).swap_pss_bytes,
            ),
        fields::lacks(lines.take(n), "Pss:"@) ==> smaps_rollup_of(lines).pss_bytes == 0,
        fields::lacks(lines.take(n), "SwapPss:"@) ==> smaps_rollup_of(lines).swap_pss_bytes == 0,
{
    fields::theorem_latest_counts(lines, "Pss:"@, "SwapPss:"@, false, n, "Pss:"@);
    fields::theorem_latest_counts(lines, "Pss:"@, "SwapPss:"@, false, n, "SwapPss:"@);
}

/// Every call gives the sum of the two sizes, or the greatest `u64` where it is more.
pub proof fn theorem_footprint_bytes(s: &SmapsRollup, r: u64)
    requires
        call_ensures(SmapsRollup::footprint_bytes, (s,), r),
    ensures
        s.pss_bytes + s.swap_pss_bytes <= 0xffff_ffff_ffff_ffff ==> r == s.pss_bytes + s.swap_pss_bytes,
        s.pss_bytes + s.swap_pss_bytes > 0xffff_ffff_ffff_ffff ==> r == 0xffff_ffff_ffff_ffffu64,
{
}

/// Every call gives what the lines of the file state.
pub proof fn theorem_smaps_rollup_from_file(contents: &Contents, r: SmapsRollup)
    requires
        call_ensures(SmapsRollup::from_file, (contents,), r),
    ensures
        r == smaps_rollup_of(lines::lines_of(contents.bytes@, contents.complete)),
{
}

} // verus!
