//! `/proc/<PID>/status`.

use crate::fields;
use crate::lines;
use crate::lines::Contents;
use vstd::prelude::*;

verus! {

/// What is read of `/proc/<PID>/status`.
///
/// `VmData` and `VmStk` together approximate what the process is charged against
/// `Committed_AS`: its private commit.
#[derive(Debug, Clone, Copy, PartialEq, Eq, Structural)]
pub struct Status {
    /// The size of the data segment, the heap and the private anonymous mappings, in bytes.
    pub vm_data_bytes: u64,
    /// The size of the stack, in bytes.
    pub vm_stk_bytes: u64,
}

/// What the lines of `/proc/<PID>/status` say, as far as they are read: until there is an
/// entry for both sizes. A size that is missing or no number is zero.
pub open spec fn status_of(lines: Seq<Seq<char>>) -> Status {
    let used = fields::lines_for_pair(lines, "VmData:"@, "VmStk:"@, false);
    Status {
        vm_data_bytes: fields::bytes_or_zero(fields::last_entry(used, "VmData:"@)),
        vm_stk_bytes: fields::bytes_or_zero(fields::last_entry(used, "VmStk:"@)),
    }
}

impl Status {
    /// Reads the contents of `/proc/<PID>/status`. A line that cannot be read ends the
    /// reading, and what was found before it stands.
    pub fn from_file(contents: &Contents) -> (r: Status)
        ensures
            r == status_of(contents.lines()),
    {
        let lines = contents.read_lines();
        let (vm_data, vm_stk) = fields::read_pair(&lines, "VmData:", "VmStk:", false);
        Status {
            vm_data_bytes: fields::entry_bytes(vm_data),
            vm_stk_bytes: fields::entry_bytes(vm_stk),
        }
    }

    /// The estimated private commit: the private writable address space, whether or not it
    /// has been faulted in.
    pub fn private_commit_bytes(&self) -> (r: u64)
        ensures
            r as int == if self.vm_data_bytes + self.vm_stk_bytes <= u64::MAX {
                self.vm_data_bytes + self.vm_stk_bytes
            } else {
                u64::MAX as int
            },
    {
        self.vm_data_bytes.saturating_add(self.vm_stk_bytes)
    }
}

/// The lines of other fields make no difference to the status.
pub proof fn theorem_status_ignores_other_lines(
    before: Seq<Seq<char>>,
    line: Seq<char>,
    after: Seq<Seq<char>>,
)
    requires
        fields::entry(line, "VmData:"@) is None,
        fields::entry(line, "VmStk:"@) is None,
    ensures
        status_of(before.push(line) + after) == status_of(before + after),
{
    fields::theorem_other_lines_ignored(before, line, after, "VmData:"@, "VmStk:"@, false);
}

/// The status is settled as soon as both sizes were read.
pub proof fn theorem_status_stops_with_both(lines: Seq<Seq<char>>, more: Seq<Seq<char>>)
    requires
        ({
            let used = fields::lines_for_pair(lines, "VmData:"@, "VmStk:"@, false);
            &&& fields::last_entry(used, "VmData:"@) is Some
            &&& fields::last_entry(used, "VmStk:"@) is Some
        }),
    ensures
        status_of(lines + more) == status_of(lines),
{
    fields::theorem_stops_with_both(lines, more, "VmData:"@, "VmStk:"@, false);
}

/// Where the lines say one number for each of the two sizes, these are the sizes.
pub proof fn theorem_status_is_read(lines: Seq<Seq<char>>, vm_data: u64, vm_stk: u64)
    requires
        fields::states(lines, "VmData:"@, vm_data),
        fields::states(lines, "VmStk:"@, vm_stk),
    ensures
        status_of(lines) == (Status {
            vm_data_bytes: fields::kilobytes(vm_data),
            vm_stk_bytes: fields::kilobytes(vm_stk),
        }),
        vm_data * 1024 <= u64::MAX ==> status_of(lines).vm_data_bytes == vm_data * 1024,
        vm_data * 1024 > u64::MAX ==> status_of(lines).vm_data_bytes == u64::MAX,
        vm_stk * 1024 <= u64::MAX ==> status_of(lines).vm_stk_bytes == vm_stk * 1024,
        vm_stk * 1024 > u64::MAX ==> status_of(lines).vm_stk_bytes == u64::MAX,
{
    fields::theorem_pair_is_read(lines, "VmData:"@, "VmStk:"@, false, vm_data, vm_stk);
}

/// Where the reading ends after `n` lines, each size is what the last of these lines with its
/// key amounts to, and zero where none has it.
pub proof fn theorem_status_latest_counts(lines: Seq<Seq<char>>, n: int)
    requires
        fields::reading_ends_at(lines, "VmData:"@, "VmStk:"@, false, n),
    ensures
        forall|i: int| #[trigger]
            fields::latest(lines, "VmData:"@, n, i) ==> fields::amounts_to(
                fields::entry(lines[i], "VmData:"@),
                status_of(lines).vm_data_bytes,
            ),
        forall|j: int| #[trigger]
            fields::latest(lines, "VmStk:"@, n, j) ==> fields::amounts_to(
                fields::entry(lines[j], "VmStk:"@),
                status_of(lines).vm_stk_bytes,
            ),
        fields::lacks(lines.take(n), "VmData:"@) ==> status_of(lines).vm_data_bytes == 0,
        fields::lacks(lines.take(n), "VmStk:"@) ==> status_of(lines).vm_stk_bytes == 0,
{
    fields::theorem_latest_counts(lines, "VmData:"@, "VmStk:"@, false, n, "VmData:"@);
    fields::theorem_latest_counts(lines, "VmData:"@, "VmStk:"@, false, n, "VmStk:"@);
}

/// Every call gives the sum of the two sizes, or the greatest `u64` where it is more.
pub proof fn theorem_private_commit_bytes(s: &Status, r: u64)
    requires
        call_ensures(Status::private_commit_bytes, (s,), r),
    ensures
        s.vm_data_bytes + s.vm_stk_bytes <= 0xffff_ffff_ffff_ffff ==> r == s.vm_data_bytes + s.vm_stk_bytes,
        s.vm_data_bytes + s.vm_stk_bytes > 0xffff_ffff_ffff_ffff ==> r == 0xffff_ffff_ffff_ffffu64,
{
}

/// Every call gives what the lines of the file state.
pub proof fn theorem_status_from_file(contents: &Contents, r: Status)
    requires
        call_ensures(Status::from_file, (contents,), r),
    ensures
        r == status_of(lines::lines_of(contents.bytes@, contents.complete)),
{
}

} // verus!
