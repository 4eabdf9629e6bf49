//! `/proc/<PID>/stat`.

use crate::lines::Contents;
use crate::number;
use crate::number::ParseIntError;
use crate::outside;
use crate::text;
use vstd::prelude::*;
use vstd::slice::slice_subrange;

verus! {

/// The identifier of a process.
pub type Pid = i32;

/// What is read of `/proc/<PID>/stat`.
#[derive(Debug)]
pub struct Stat {
    /// The filename of the executable without parentheses.
    pub comm: String,
    /// The state of the process.
    pub state: char,
    /// The identifier of the parent process.
    pub ppid: Pid,
    /// The time for which the process was scheduled in user mode, in clock ticks.
    pub utime: u64,
    /// The time for which the process was scheduled in kernel mode, in clock ticks.
    pub stime: u64,
    /// The number of pages that the process has in real memory.
    pub rss: u64,
    /// The size of the virtual memory, in bytes.
    pub vsize: u64,
    /// The time at which the process started, in clock ticks.
    pub start_time: u64,
    /// Whether this is a thread of the kernel.
    pub is_kernel_thread: bool,
    /// The scheduling priority.
    pub priority: i32,
    /// The nice value.
    pub nice: i32,
}

/// Why a stat line cannot be used.
#[derive(Debug, Clone, Copy, PartialEq, Eq, Structural)]
pub enum StatError {
    /// The file could not be read to its end.
    Read,
    /// There is no opening parenthesis.
    StartParenMissing,
    /// There is no closing parenthesis.
    EndParenMissing,
    /// The line has too few fields.
    MissingField,
    /// The field of the process state is empty.
    MissingState,
    /// A field is not a number of its type.
    Number(ParseIntError),
}

/// What a [`Stat`] holds.
pub ghost struct StatModel {
    pub comm: Seq<char>,
    pub state: char,
    pub ppid: Pid,
    pub utime: u64,
    pub stime: u64,
    pub rss: u64,
    pub vsize: u64,
    pub start_time: u64,
    pub is_kernel_thread: bool,
    pub priority: i32,
    pub nice: i32,
}

impl View for Stat {
    type V = StatModel;

    open spec fn view(&self) -> StatModel {
        StatModel {
            comm: self.comm@,
            state: self.state,
            ppid: self.ppid,
            utime: self.utime,
            stime: self.stime,
            rss: self.rss,
            vsize: self.vsize,
            start_time: self.start_time,
            is_kernel_thread: self.is_kernel_thread,
            priority: self.priority,
            nice: self.nice,
        }
    }
}

/// The flag that marks a thread of the kernel (`PF_KTHREAD`).
pub const KERNEL_THREAD_FLAG: u32 = 0x0020_0000;

/// Whether the name and the fields of a stat line can be told apart: the first closing
/// parenthesis comes after the first opening one, and an ASCII character follows it. A line
/// that lacks one of the parentheses has nothing to tell apart.
pub open spec fn separable(text: Seq<char>) -> bool {
    let line = text::trimmed(text);
    match (text::position(line, '('), text::position(line, ')')) {
        (Some(start), Some(end)) => start < end && end + 1 < line.len() && line[end + 1] < '\u{80}',
        _ => true,
    }
}

/// The field at index `i`.
pub open spec fn field(parts: Seq<Seq<char>>, i: int) -> Result<Seq<char>, StatError> {
    if i < parts.len() {
        Ok(parts[i])
    } else {
        Err(StatError::MissingField)
    }
}

/// The field at index `i` as an `i32`.
pub open spec fn i32_field(parts: Seq<Seq<char>>, i: int) -> Result<i32, StatError> {
    match field(parts, i) {
        Ok(part) => match number::i32_of(part) {
            Ok(v) => Ok(v),
            Err(e) => Err(StatError::Number(e)),
        },
        Err(e) => Err(e),
    }
}

/// The field at index `i` as a `u32`.
pub open spec fn u32_field(parts: Seq<Seq<char>>, i: int) -> Result<u32, StatError> {
    match field(parts, i) {
        Ok(part) => match number::u32_of(part) {
            Ok(v) => Ok(v),
            Err(e) => Err(StatError::Number(e)),
        },
        Err(e) => Err(e),
    }
}

/// The field at index `i` as a `u64`.
pub open spec fn u64_field(parts: Seq<Seq<char>>, i: int) -> Result<u64, StatError> {
    match field(parts, i) {
        Ok(part) => match number::u64_of(part) {
            Ok(v) => Ok(v),
            Err(e) => Err(StatError::Number(e)),
        },
        Err(e) => Err(e),
    }
}

/// The first character of the field at index `i`.
pub open spec fn char_field(parts: Seq<Seq<char>>, i: int) -> Result<char, StatError> {
    match field(parts, i) {
        Ok(part) => if part.len() > 0 {
            Ok(part[0])
        } else {
            Err(StatError::MissingState)
        },
        Err(e) => Err(e),
    }
}

/// The error of the first of the fields, in the order of the line, that cannot be used.
pub open spec fn first_error(parts: Seq<Seq<char>>) -> Option<StatError> {
    if let Err(e) = char_field(parts, 0) {
        Some(e)
    } else if let Err(e) = i32_field(parts, 1) {
        Some(e)
    } else if let Err(e) = u32_field(parts, 6) {
        Some(e)
    } else if let Err(e) = u64_field(parts, 11) {
        Some(e)
    } else if let Err(e) = u64_field(parts, 12) {
        Some(e)
    } else if let Err(e) = i32_field(parts, 15) {
        Some(e)
    } else if let Err(e) = i32_field(parts, 16) {
        Some(e)
    } else if let Err(e) = u64_field(parts, 19) {
        Some(e)
    } else if let Err(e) = u64_field(parts, 20) {
        Some(e)
    } else if let Err(e) = u64_field(parts, 21) {
        Some(e)
    } else {
        None
    }
}

/// What the name of a process and the fields that follow it state.
pub open spec fn stat_of_fields(comm: Seq<char>, parts: Seq<Seq<char>>) -> Result<
    StatModel,
    StatError,
> {
    match first_error(parts) {
        Some(e) => Err(e),
        None => Ok(
            StatModel {
                comm,
                state: char_field(parts, 0)->Ok_0,
                ppid: i32_field(parts, 1)->Ok_0,
                is_kernel_thread: u32_field(parts, 6)->Ok_0 & KERNEL_THREAD_FLAG != 0,
                utime: u64_field(parts, 11)->Ok_0,
                stime: u64_field(parts, 12)->Ok_0,
                priority: i32_field(parts, 15)->Ok_0,
                nice: i32_field(parts, 16)->Ok_0,
                start_time: u64_field(parts, 19)->Ok_0,
                vsize: u64_field(parts, 20)->Ok_0,
                rss: u64_field(parts, 21)->Ok_0,
            },
        ),
    }
}

/// What a stat line states: the name stands between the first opening and the first closing
/// parenthesis, and the fields, which single spaces separate, begin two characters after it.
pub open spec fn stat_of(text: Seq<char>) -> Result<StatModel, StatError> {
    let line = text::trimmed(text);
    match (text::position(line, '('), text::position(line, ')')) {
        (None, _) => Err(StatError::StartParenMissing),
        (Some(_), None) => Err(StatError::EndParenMissing),
        (Some(start), Some(end)) => stat_of_fields(
            line.subrange(start + 1, end),
            text::pieces(line.skip(end + 2), ' '),
        ),
    }
}

/// What the contents of `/proc/<PID>/stat` state. `None` where the name and the fields
/// cannot be told apart.
pub open spec fn stat_of_file(bytes: Seq<u8>, complete: bool) -> Option<
    Result<StatModel, StatError>,
> {
    if !complete {
        Some(Err(StatError::Read))
    } else if !separable(outside::lossy_text(bytes)) {
        None
    } else {
        Some(stat_of(outside::lossy_text(bytes)))
    }
}

/// The number of bytes in `pages` pages, where a `u64` can hold it.
pub open spec fn pages_in_bytes(pages: u64, page_size: usize) -> Option<u64> {
    if pages * page_size <= u64::MAX {
        Some((pages * page_size) as u64)
    } else {
        None
    }
}

/// The field at index `i`.
fn part_at<'a>(parts: &Vec<&'a [char]>, i: usize) -> (r: Result<&'a [char], StatError>)
    ensures
        match r {
            Ok(part) => field(text::contents_of(parts@), i as int) == Ok::<Seq<char>, StatError>(
                part@,
            ),
            Err(e) => field(text::contents_of(parts@), i as int) == Err::<Seq<char>, StatError>(e),
        },
{
    if i < parts.len() {
        Ok(parts[i])
    } else {
        Err(StatError::MissingField)
    }
}

/// The field at index `i` as an `i32`.
fn i32_at(parts: &Vec<&[char]>, i: usize) -> (r: Result<i32, StatError>)
    ensures
        r == i32_field(text::contents_of(parts@), i as int),
{
    match number::parse_i32(part_at(parts, i)?) {
        Ok(v) => Ok(v),
        Err(e) => Err(StatError::Number(e)),
    }
}

/// The field at index `i` as a `u32`.
fn u32_at(parts: &Vec<&[char]>, i: usize) -> (r: Result<u32, StatError>)
    ensures
        r == u32_field(text::contents_of(parts@), i as int),
{
    match number::parse_u32(part_at(parts, i)?) {
        Ok(v) => Ok(v),
        Err(e) => Err(StatError::Number(e)),
    }
}

/// The field at index `i` as a `u64`.
fn u64_at(parts: &Vec<&[char]>, i: usize) -> (r: Result<u64, StatError>)
    ensures
        r == u64_field(text::contents_of(parts@), i as int),
{
    match number::parse_u64(part_at(parts, i)?) {
        Ok(v) => Ok(v),
        Err(e) => Err(StatError::Number(e)),
    }
}

/// The first character of the field at index `i`.
fn char_at(parts: &Vec<&[char]>, i: usize) -> (r: Result<char, StatError>)
    ensures
        r == char_field(text::contents_of(parts@), i as int),
{
    let part = part_at(parts, i)?;
    if part.len() > 0 {
        Ok(part[0])
    } else {
        Err(StatError::MissingState)
    }
}

impl Stat {
    /// Whether the name and the fields of a stat line can be told apart.
    pub fn is_separable(text: &str) -> (r: bool)
        ensures
            r == separable(text@),
    {
        let chars = text::chars_of(text);
        let line = text::trim(chars.as_slice());
        proof {
            text::lemma_position(line@, ')');
        }
        match (text::find(line, '('), text::find(line, ')')) {
            (Some(start), Some(end)) => start < end && end < line.len() - 1 && line[end + 1]
                < '\u{80}',
            _ => true,
        }
    }

    /// Reads a stat line.
    pub fn from_line(text: &str) -> (r: Result<Stat, StatError>)
        requires
            separable(text@),
        ensures
            match r {
                Ok(stat) => stat_of(text@) == Ok::<StatModel, StatError>(stat@),
                Err(e) => stat_of(text@) == Err::<StatModel, StatError>(e),
            },
    {
        let chars = text::chars_of(text);
        let (from, to) = text::trim_bounds(chars.as_slice());
        let line = slice_subrange(chars.as_slice(), from, to);
        proof {
            text::lemma_position(line@, '(');
            text::lemma_position(line@, ')');
        }
        let start: usize = match text::find(line, '(') {
            Some(i) => i,
            None => return Err(StatError::StartParenMissing),
        };
        let end: usize = match text::find(line, ')') {
            Some(i) => i,
            None => return Err(StatError::EndParenMissing),
        };
        let comm = text::substring(text, from + start + 1, from + end);
        assert(comm@ =~= line@.subrange(start + 1, end as int));
        let rest = slice_subrange(line, end + 2, line.len());
        assert(rest@ =~= line@.skip(end + 2));
        let parts = text::split(rest, ' ');

        let state = char_at(&parts, 0)?;
        let ppid = i32_at(&parts, 1)?;
        // The process group, the session, the terminal and its process group come between.
        let flags = u32_at(&parts, 6)?;
        // The four counts of page faults come between.
        let utime = u64_at(&parts, 11)?;
        let stime = u64_at(&parts, 12)?;
        // The times of the children that were waited for come between.
        let priority = i32_at(&parts, 15)?;
        let nice = i32_at(&parts, 16)?;
        // The number of threads and a field that is no longer kept up come between.
        let start_time = u64_at(&parts, 19)?;
        let vsize = u64_at(&parts, 20)?;
        let rss = u64_at(&parts, 21)?;
        Ok(
            Stat {
                comm,
                state,
                ppid,
                utime,
                stime,
                rss,
                vsize,
                start_time,
                is_kernel_thread: flags & KERNEL_THREAD_FLAG != 0,
                priority,
                nice,
            },
        )
    }

    /// Reads the contents of `/proc/<PID>/stat`. The name may hold bytes that are not UTF-8:
    /// they are replaced, while a file that is UTF-8 throughout is read as the text that it
    /// encodes. Gives `None` where the name and the fields cannot be told apart.
    pub fn from_file(contents: &Contents) -> (r: Option<Result<Stat, StatError>>)
        ensures
            match r {
                Some(Ok(stat)) => stat_of_file(contents.bytes@, contents.complete) == Some(
                    Ok::<StatModel, StatError>(stat@),
                ),
                Some(Err(e)) => stat_of_file(contents.bytes@, contents.complete) == Some(
                    Err::<StatModel, StatError>(e),
                ),
                None => stat_of_file(contents.bytes@, contents.complete) is None,
            },
            contents.complete ==> outside::text_is_decoded(contents.bytes@),
    {
        if !contents.complete {
            return Some(Err(StatError::Read));
        }
        let text = outside::to_string_lossy(contents.bytes.as_slice());
        if Stat::is_separable(text.as_str()) {
            Some(Stat::from_line(text.as_str()))
        } else {
            None
        }
    }

    /// The resident set size in bytes, for pages of the given size. Gives `None` where a
    /// `u64` cannot hold it.
    pub fn rss_bytes_for(&self, page_size: usize) -> (r: Option<u64>)
        ensures
            r == pages_in_bytes(self@.rss, page_size),
    {
        self.rss.checked_mul(page_size as u64)
    }

    /// The resident set size in bytes, for the pages of the running system. Gives `None`
    /// where a `u64` cannot hold it.
    pub fn rss_bytes(&self) -> (r: Option<u64>)
        ensures
            exists|page_size: usize|
                outside::is_page_size(page_size) && r == #[trigger] pages_in_bytes(
                    self@.rss,
                    page_size,
                ),
            self@.rss == 0 ==> r == Some(0u64),
    {
        let page_size: usize = outside::page_size();
        self.rss_bytes_for(page_size)
    }
}

/// The name of a process stands between a pair of parentheses of the line, and no closing
/// parenthesis is in it.
pub proof fn theorem_comm_stands_in_parentheses(text: Seq<char>)
    requires
        separable(text),
        stat_of(text) is Ok,
    ensures
        ({
            let line = text::trimmed(text);
            let comm = stat_of(text)->Ok_0.comm;
            &&& !comm.contains(')')
            &&& exists|start: int|
                0 <= start && start + 1 + comm.len() < line.len() && line[start] == '(' && line[start
                    + 1 + comm.len()] == ')' && #[trigger] line.subrange(
                    start + 1,
                    start + 1 + comm.len(),
                ) == comm
        }),
{
    let line = text::trimmed(text);
    text::lemma_position(line, '(');
    text::lemma_position(line, ')');
    let start = text::position(line, '(')->0;
    let end = text::position(line, ')')->0;
    let comm = stat_of(text)->Ok_0.comm;
    assert(comm == line.subrange(start + 1, end));
    assert(line.subrange(start + 1, start + 1 + comm.len()) == comm);
    assert forall|i: int| 0 <= i < comm.len() implies comm[i] != ')' by {
        assert(comm[i] == line[start + 1 + i]);
    }
}

/// A line made of a number, a name in parentheses and fields after single spaces states what
/// the name and the fields state.
pub proof fn theorem_stat_line(number: Seq<char>, comm: Seq<char>, parts: Seq<Seq<char>>)
    requires
        number.len() > 0,
        !text::is_space(number[0]),
        !number.contains('('),
        !number.contains(')'),
        !comm.contains(')'),
        parts.len() > 0,
        forall|i: int| 0 <= i < parts.len() ==> !(#[trigger] parts[i]).contains(' '),
        parts.last().len() > 0,
        !text::is_space(parts.last().last()),
    ensures
        ({
            let line = number.push('(') + comm.push(')').push(' ') + text::joined(parts, ' ');
            separable(line) && stat_of(line) == stat_of_fields(comm, parts)
        }),
{
    let fields = text::joined(parts, ' ');
    let line = number.push('(') + comm.push(')').push(' ') + fields;
    let start = number.len() as int;
    let end = start + 1 + comm.len();
    lemma_joined_last(parts);
    assert(line[0] == number[0]);
    assert(line.last() == fields.last());
    assert(text::trimmed(line) == line);
    assert forall|j: int| 0 <= j < start implies line[j] != '(' && line[j] != ')' by {
        assert(line[j] == number[j]);
        assert(number.contains(number[j]));
    }
    assert(line[start] == '(');
    text::lemma_position_unique(line, '(', start);
    assert forall|j: int| 0 <= j < end implies line[j] != ')' by {
        if start < j {
            assert(line[j] == comm[j - start - 1]);
            assert(comm.contains(comm[j - start - 1]));
        }
    }
    assert(line[end] == ')');
    text::lemma_position_unique(line, ')', end);
    assert(line[end + 1] == ' ');
    assert(line.subrange(start + 1, end) =~= comm);
    assert(line.skip(end + 2) =~= fields);
    text::theorem_split_undoes_join(parts, ' ');
}

proof fn lemma_joined_last(parts: Seq<Seq<char>>)
    requires
        parts.len() > 0,
        parts.last().len() > 0,
    ensures
        text::joined(parts, ' ').len() > 0,
        text::joined(parts, ' ').last() == parts.last().last(),
    decreases parts.len(),
{
    if parts.len() > 1 {
        lemma_joined_last(parts.drop_first());
        assert(parts.drop_first().last() == parts.last());
    }
}

/// Where every field that is used can be read, each value is that of its own field, as it is,
/// and the flags alone tell a thread of the kernel. The other fields make no difference.
pub proof fn theorem_stat_fields(
    comm: Seq<char>,
    parts: Seq<Seq<char>>,
    ppid: i32,
    flags: u32,
    utime: u64,
    stime: u64,
    priority: i32,
    nice: i32,
    start_time: u64,
    vsize: u64,
    rss: u64,
)
    requires
        parts.len() >= 22,
        parts[0].len() > 0,
        number::i32_of(parts[1]) == Ok::<i32, ParseIntError>(ppid),
        number::u32_of(parts[6]) == Ok::<u32, ParseIntError>(flags),
        number::u64_of(parts[11]) == Ok::<u64, ParseIntError>(utime),
        number::u64_of(parts[12]) == Ok::<u64, ParseIntError>(stime),
        number::i32_of(parts[15]) == Ok::<i32, ParseIntError>(priority),
        number::i32_of(parts[16]) == Ok::<i32, ParseIntError>(nice),
        number::u64_of(parts[19]) == Ok::<u64, ParseIntError>(start_time),
        number::u64_of(parts[20]) == Ok::<u64, ParseIntError>(vsize),
        number::u64_of(parts[21]) == Ok::<u64, ParseIntError>(rss),
    ensures
        stat_of_fields(comm, parts) matches Ok(stat) && {
            &&& stat.comm == comm
            &&& stat.state == parts[0][0]
            &&& stat.ppid == ppid
            &&& stat.is_kernel_thread <==> flags & 0x0020_0000 != 0
            &&& stat.is_kernel_thread <==> (flags / 0x0020_0000) % 2 == 1
            &&& stat.utime == utime
            &&& stat.stime == stime
            &&& stat.priority == priority
            &&& stat.nice == nice
            &&& stat.start_time == start_time
            &&& stat.vsize == vsize
            &&& stat.rss == rss
        },
{
    assert(flags & 0x0020_0000 != 0 <==> (flags / 0x0020_0000) % 2 == 1) by (bit_vector);
}

/// The decimal notations of the values, in their fields, are read back as these values.
pub proof fn theorem_stat_decimal_fields(
    comm: Seq<char>,
    parts: Seq<Seq<char>>,
    ppid: i32,
    flags: u32,
    utime: u64,
    stime: u64,
    priority: i32,
    nice: i32,
    start_time: u64,
    vsize: u64,
    rss: u64,
)
    requires
        parts.len() >= 22,
        parts[0].len() > 0,
        parts[1] == number::decimal_i32(ppid),
        parts[6] == number::decimal(flags as nat),
        parts[11] == number::decimal(utime as nat),
        parts[12] == number::decimal(stime as nat),
        parts[15] == number::decimal_i32(priority),
        parts[16] == number::decimal_i32(nice),
        parts[19] == number::decimal(start_time as nat),
        parts[20] == number::decimal(vsize as nat),
        parts[21] == number::decimal(rss as nat),
    ensures
        stat_of_fields(comm, parts) == Ok::<StatModel, StatError>(
            StatModel {
                comm,
                state: parts[0][0],
                ppid,
                utime,
                stime,
                rss,
                vsize,
                start_time,
                is_kernel_thread: flags & 0x0020_0000 != 0,
                priority,
                nice,
            },
        ),
{
    number::theorem_write_then_parse(ppid);
    number::theorem_parse_decimal_small(flags);
    number::theorem_parse_decimal(utime);
    number::theorem_parse_decimal(stime);
    number::theorem_write_then_parse(priority);
    number::theorem_write_then_parse(nice);
    number::theorem_parse_decimal(start_time);
    number::theorem_parse_decimal(vsize);
    number::theorem_parse_decimal(rss);
    theorem_stat_fields(
        comm,
        parts,
        ppid,
        flags,
        utime,
        stime,
        priority,
        nice,
        start_time,
        vsize,
        rss,
    );
}

/// What is wrong with the field at index `i`, of those that are used.
pub open spec fn fault_at(parts: Seq<Seq<char>>, i: int) -> Option<StatError> {
    if parts.len() <= i {
        Some(StatError::MissingField)
    } else if i == 0 {
        if parts[0].len() == 0 {
            Some(StatError::MissingState)
        } else {
            None
        }
    } else if i == 1 || i == 15 || i == 16 {
        match number::i32_of(parts[i]) {
            Err(e) => Some(StatError::Number(e)),
            Ok(_) => None,
        }
    } else if i == 6 {
        match number::u32_of(parts[i]) {
            Err(e) => Some(StatError::Number(e)),
            Ok(_) => None,
        }
    } else {
        match number::u64_of(parts[i]) {
            Err(e) => Some(StatError::Number(e)),
            Ok(_) => None,
        }
    }
}

/// Whether the field at index `i` is one of those that are used.
pub open spec fn is_used(i: int) -> bool {
    i == 0 || i == 1 || i == 6 || i == 11 || i == 12 || i == 15 || i == 16 || 19 <= i <= 21
}

/// The first of the fields in use that is at fault tells the error, and without a fault there
/// is none.
pub proof fn theorem_stat_first_fault(comm: Seq<char>, parts: Seq<Seq<char>>, i: int)
    requires
        is_used(i),
        forall|j: int| 0 <= j < i && #[trigger] is_used(j) ==> fault_at(parts, j) is None,
    ensures
        fault_at(parts, i) matches Some(e) ==> stat_of_fields(comm, parts) == Err::<StatModel, _>(
            e,
        ),
        i == 21 && fault_at(parts, i) is None ==> stat_of_fields(comm, parts) is Ok,
{
    assert(is_used(0) && is_used(1) && is_used(6) && is_used(11) && is_used(12));
    assert(is_used(15) && is_used(16) && is_used(19) && is_used(20) && is_used(21));
}

/// White space around the line makes no difference. The first parenthesis of each kind cuts
/// it: the name lies between them, and the fields begin after one more character, which must be
/// an ASCII character.
pub proof fn theorem_stat_cut(
    before: Seq<char>,
    line: Seq<char>,
    after: Seq<char>,
    start: int,
    end: int,
)
    requires
        text::all_spaces(before),
        text::all_spaces(after),
        0 <= start < line.len(),
        0 <= end < line.len(),
        !text::is_space(line[0]),
        !text::is_space(line.last()),
        line[start] == '(',
        line[end] == ')',
        forall|j: int| 0 <= j < start ==> line[j] != '(',
        forall|j: int| 0 <= j < end ==> line[j] != ')',
    ensures
        separable(before + line + after) <==> start < end && end + 1 < line.len() && line[end + 1]
            as int <= 127,
        separable(before + line + after) ==> stat_of(before + line + after) == stat_of_fields(
            line.subrange(start + 1, end),
            text::pieces(line.subrange(end + 2, line.len() as int), ' '),
        ),
{
    text::theorem_trimmed(before, line, after);
    text::lemma_position_unique(line, '(', start);
    text::lemma_position_unique(line, ')', end);
    if end + 2 <= line.len() {
        assert(line.subrange(end + 2, line.len() as int) =~= line.skip(end + 2));
    }
}

/// Without an opening or a closing parenthesis there is no name, and the missing one tells the
/// error.
pub proof fn theorem_stat_without_parentheses(text: Seq<char>)
    ensures
        !text.contains('(') ==> separable(text) && stat_of(text) == Err::<StatModel, _>(
            StatError::StartParenMissing,
        ),
        text.contains('(') && !text.contains(')') ==> separable(text) && stat_of(text) == Err::<
            StatModel,
            _,
        >(StatError::EndParenMissing),
{
    let (before, after) = text::theorem_trimmed_is_core(text);
    let line = text::trimmed(text);
    let n = before.len() as int;
    text::lemma_position(line, '(');
    text::lemma_position(line, ')');
    assert forall|i: int| 0 <= i < line.len() implies text.contains(#[trigger] line[i]) by {
        assert(text[n + i] == line[i]);
    }
    if text.contains('(') {
        let i = choose|i: int| 0 <= i < text.len() && text[i] == '(';
        if i < n {
            assert(before[i] == text[i]);
        } else if i >= n + line.len() {
            assert(after[i - n - line.len()] == text[i]);
        } else {
            assert(line[i - n] == '(');
        }
    }
}

/// A line with a name and fields, and white space around it, is read as what these state,
/// whichever ASCII character follows the name.
pub proof fn theorem_stat_text(
    before: Seq<char>,
    number: Seq<char>,
    comm: Seq<char>,
    c: char,
    parts: Seq<Seq<char>>,
    after: Seq<char>,
)
    requires
        text::all_spaces(before),
        text::all_spaces(after),
        number.len() > 0,
        !text::is_space(number[0]),
        !number.contains('('),
        !number.contains(')'),
        !comm.contains(')'),
        c as int <= 127,
        parts.len() > 0,
        forall|i: int| 0 <= i < parts.len() ==> !(#[trigger] parts[i]).contains(' '),
        parts.last().len() > 0,
        !text::is_space(parts.last().last()),
    ensures
        ({
            let line = number.push('(') + comm.push(')').push(c) + text::joined(parts, ' ');
            let text = before + line + after;
            separable(text) && stat_of(text) == stat_of_fields(comm, parts)
        }),
{
    let fields = text::joined(parts, ' ');
    let line = number.push('(') + comm.push(')').push(c) + fields;
    let start = number.len() as int;
    let end = start + 1 + comm.len();
    lemma_joined_last(parts);
    assert(line[0] == number[0]);
    assert(line.last() == fields.last());
    assert forall|j: int| 0 <= j < start implies line[j] != '(' && line[j] != ')' by {
        assert(line[j] == number[j]);
        assert(number.contains(number[j]));
    }
    assert(line[start] == '(');
    assert forall|j: int| 0 <= j < end implies line[j] != ')' by {
        if start < j {
            assert(line[j] == comm[j - start - 1]);
            assert(comm.contains(comm[j - start - 1]));
        }
    }
    assert(line[end] == ')');
    assert(line[end + 1] == c);
    theorem_stat_cut(before, line, after, start, end);
    assert(line.subrange(start + 1, end) =~= comm);
    assert(line.subrange(end + 2, line.len() as int) =~= fields);
    text::theorem_split_undoes_join(parts, ' ');
}

/// A file that was read to its end is read as its text, and one that was not is an error.
pub proof fn theorem_stat_of_file(bytes: Seq<u8>)
    ensures
        stat_of_file(bytes, false) == Some(Err::<StatModel, _>(StatError::Read)),
        separable(outside::lossy_text(bytes)) ==> stat_of_file(bytes, true) == Some(
            stat_of(outside::lossy_text(bytes)),
        ),
        !separable(outside::lossy_text(bytes)) ==> stat_of_file(bytes, true) is None,
{
}

/// Each field of the model is the field itself.
pub proof fn theorem_stat_model(stat: Stat)
    ensures
        stat@.comm == stat.comm@,
        stat@.state == stat.state,
        stat@.ppid == stat.ppid,
        stat@.utime == stat.utime,
        stat@.stime == stat.stime,
        stat@.rss == stat.rss,
        stat@.vsize == stat.vsize,
        stat@.start_time == stat.start_time,
        stat@.is_kernel_thread == stat.is_kernel_thread,
        stat@.priority == stat.priority,
        stat@.nice == stat.nice,
{
}

/// Every call gives the product of the pages and the size of a page, where a `u64` can hold
/// it, and nothing otherwise.
pub proof fn theorem_rss_bytes_for(stat: &Stat, page_size: usize, r: Option<u64>)
    requires
        call_ensures(Stat::rss_bytes_for, (stat, page_size), r),
    ensures
        stat.rss * page_size <= 0xffff_ffff_ffff_ffff ==> (r matches Some(bytes) && bytes
            == stat.rss * page_size),
        stat.rss * page_size > 0xffff_ffff_ffff_ffff ==> r is None,
{
}

/// Every call gives the product of the pages and the page size of the system, where a `u64`
/// can hold it, and nothing otherwise.
pub proof fn theorem_rss_bytes(stat: &Stat, r: Option<u64>)
    requires
        call_ensures(Stat::rss_bytes, (stat,), r),
    ensures
        exists|page_size: usize| #[trigger]
            outside::is_page_size(page_size) && match r {
                Some(bytes) => bytes == stat.rss * page_size,
                None => stat.rss * page_size > 0xffff_ffff_ffff_ffff,
            },
{
}

/// Every call gives what the line, or the file, states.
pub proof fn theorem_stat_read(
    text: &str,
    contents: &Contents,
    line: Result<Stat, StatError>,
    file: Option<Result<Stat, StatError>>,
)
    ensures
        call_ensures(Stat::from_line, (text,), line) ==> match line {
            Ok(stat) => stat_of(text@) == Ok::<StatModel, StatError>(stat@),
            Err(e) => stat_of(text@) == Err::<StatModel, StatError>(e),
        },
        call_ensures(Stat::from_file, (contents,), file) ==> match file {
            Some(Ok(stat)) => stat_of_file(contents.bytes@, contents.complete) == Some(
                Ok::<StatModel, StatError>(stat@),
            ),
            Some(Err(e)) => stat_of_file(contents.bytes@, contents.complete) == Some(
                Err::<StatModel, StatError>(e),
            ),
            None => stat_of_file(contents.bytes@, contents.complete) is None,
        },
{
}

} // verus!
