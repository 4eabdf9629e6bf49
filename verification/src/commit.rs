//! The commit charge of the system.
//!
//! Under `vm.overcommit_memory=2` the ratio of `Committed_AS` to `CommitLimit` is what the
//! kernel checks before it grants a mapping, however much memory is free.

use crate::fields;
use crate::lines;
use crate::lines::Contents;
use vstd::prelude::*;

verus! {

/// How much of some memory is in use.
#[derive(Debug, Clone, Copy, PartialEq, Eq, Structural)]
pub struct MemData {
    /// The bytes in use.
    pub used_bytes: u64,
    /// The bytes there are. Never zero.
    pub total_bytes: u64,
}

impl MemData {
    /// A gauge is drawn only for memory that there is.
    pub open spec fn wf(&self) -> bool {
        self.total_bytes != 0
    }
}

/// The commit charge that the lines of `/proc/meminfo` state, as far as they are read: until
/// both fields are found. A field that is missing or no number and a limit of zero leave the
/// charge unknown, and so does a read that fails before both are found.
pub open spec fn commit_usage_of(lines: Seq<Seq<char>>) -> Option<MemData> {
    let used = fields::lines_for_pair(lines, "CommitLimit:"@, "Committed_AS:"@, true);
    match (fields::last_entry(used, "CommitLimit:"@), fields::last_entry(used, "Committed_AS:"@)) {
        (Some(Ok(limit)), Some(Ok(committed))) => if limit == 0 {
            None
        } else {
            Some(
                MemData {
                    used_bytes: fields::kilobytes(committed),
                    total_bytes: fields::kilobytes(limit),
                },
            )
        },
        _ => None,
    }
}

/// Reads `CommitLimit` and `Committed_AS` from the contents of `/proc/meminfo`, which are
/// `None` where the file could not be opened.
pub fn get_commit_usage(meminfo: Option<&Contents>) -> (r: Option<MemData>)
    ensures
        match meminfo {
            Some(contents) => r == commit_usage_of(contents.lines()),
            None => r is None,
        },
        r matches Some(usage) ==> usage.wf(),
{
    match meminfo {
        Some(contents) => {
            let lines = contents.read_lines();
            let (limit, committed) = fields::read_pair(
                &lines,
                "CommitLimit:",
                "Committed_AS:",
                true,
            );
            match (limit, committed) {
                (Some(Ok(limit)), Some(Ok(committed))) => {
                    let total: u64 = fields::from_kilobytes(limit);
                    if total == 0 {
                        None
                    } else {
                        Some(
                            MemData {
                                used_bytes: fields::from_kilobytes(committed),
                                total_bytes: total,
                            },
                        )
                    }
                },
                _ => None,
            }
        },
        None => None,
    }
}

/// The lines of other fields make no difference to the commit charge.
pub proof fn theorem_commit_ignores_other_lines(
    before: Seq<Seq<char>>,
    line: Seq<char>,
    after: Seq<Seq<char>>,
)
    requires
        fields::entry(line, "CommitLimit:"@) is None,
        fields::entry(line, "Committed_AS:"@) is None,
    ensures
        commit_usage_of(before.push(line) + after) == commit_usage_of(before + after),
{
    fields::theorem_other_lines_ignored(
        before,
        line,
        after,
        "CommitLimit:"@,
        "Committed_AS:"@,
        true,
    );
}

/// The commit charge is settled as soon as it is known.
pub proof fn theorem_commit_stops_when_known(lines: Seq<Seq<char>>, more: Seq<Seq<char>>)
    requires
        commit_usage_of(lines) is Some,
    ensures
        commit_usage_of(lines + more) == commit_usage_of(lines),
{
    fields::theorem_stops_with_both(lines, more, "CommitLimit:"@, "Committed_AS:"@, true);
}

/// Where the lines say one number for each of the two fields, the limit not zero, the charge
/// is made of these numbers.
pub proof fn theorem_commit_is_read(lines: Seq<Seq<char>>, limit: u64, committed: u64)
    requires
        fields::states(lines, "CommitLimit:"@, limit),
        fields::states(lines, "Committed_AS:"@, committed),
        limit != 0,
    ensures
        commit_usage_of(lines) == Some(
            MemData {
                used_bytes: fields::kilobytes(committed),
                total_bytes: fields::kilobytes(limit),
            },
        ),
        committed * 1024 <= u64::MAX ==> commit_usage_of(lines)->0.used_bytes == committed * 1024,
        committed * 1024 > u64::MAX ==> commit_usage_of(lines)->0.used_bytes == u64::MAX,
        limit * 1024 <= u64::MAX ==> commit_usage_of(lines)->0.total_bytes == limit * 1024,
        limit * 1024 > u64::MAX ==> commit_usage_of(lines)->0.total_bytes == u64::MAX,
{
    fields::theorem_pair_is_read(
        lines,
        "CommitLimit:"@,
        "Committed_AS:"@,
        true,
        limit,
        committed,
    );
}

/// Where one of the two fields is missing, the charge is unknown rather than zero.
pub proof fn theorem_commit_needs_both(lines: Seq<Seq<char>>)
    requires
        fields::lacks(lines, "CommitLimit:"@) || fields::lacks(lines, "Committed_AS:"@),
    ensures
        commit_usage_of(lines) is None,
{
    let (a, b) = ("CommitLimit:"@, "Committed_AS:"@);
    if fields::lacks(lines, a) {
        fields::theorem_missing_is_not_read(lines, a, b, true, a);
    } else {
        fields::theorem_missing_is_not_read(lines, a, b, true, b);
    }
}

/// Where the reading ends after `n` lines, the charge is made of what the last of these lines
/// with each key state, where both are numbers and the limit is not zero.
pub proof fn theorem_commit_latest_counts(lines: Seq<Seq<char>>, n: int, i: int, j: int)
    requires
        fields::reading_ends_at(lines, "CommitLimit:"@, "Committed_AS:"@, true, n),
        fields::latest(lines, "CommitLimit:"@, n, i),
        fields::latest(lines, "Committed_AS:"@, n, j),
    ensures
        match (
            fields::entry(lines[i], "CommitLimit:"@),
            fields::entry(lines[j], "Committed_AS:"@),
        ) {
            (Some(Ok(limit)), Some(Ok(committed))) => if limit == 0 {
                commit_usage_of(lines) is None
            } else {
                commit_usage_of(lines) matches Some(usage) && fields::amounts_to(
                    Some(Ok(limit)),
                    usage.total_bytes,
                ) && fields::amounts_to(Some(Ok(committed)), usage.used_bytes)
            },
            _ => commit_usage_of(lines) is None,
        },
{
    let (a, b) = ("CommitLimit:"@, "Committed_AS:"@);
    fields::theorem_latest_counts(lines, a, b, true, n, a);
    fields::theorem_latest_counts(lines, a, b, true, n, b);
}

/// Every call gives what the lines of the file state, and nothing without the file.
pub proof fn theorem_commit_from_file(contents: &Contents, r: Option<MemData>)
    ensures
        call_ensures(get_commit_usage, (Some(contents),), r) ==> r == commit_usage_of(
            lines::lines_of(contents.bytes@, contents.complete),
        ),
        call_ensures(get_commit_usage, (None,), r) ==> r is None,
{
}

} // verus!
