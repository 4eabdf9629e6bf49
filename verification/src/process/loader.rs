//! Reading a process piece by piece.
//!
//! A [`Loader`] decides what is to be read next of `/proc/<PID>`, and makes a [`Process`] of
//! the replies. The caller does the reading.

use crate::lines;
use crate::lines::Contents;
use crate::number;
use crate::outside;
use crate::process::io;
use crate::process::io::Io;
use crate::process::smaps_rollup;
use crate::process::smaps_rollup::SmapsRollup;
use crate::process::stat;
use crate::process::stat::Pid;
use crate::process::stat::Stat;
use crate::process::stat::StatError;
use crate::process::stat::StatModel;
use crate::process::status;
use crate::process::status::Status;
use crate::process::threads;
use crate::text;
use vstd::prelude::*;
use vstd::utf8::*;

verus! {

/// What is known of a process.
///
/// The values are those of the time of the reading, and may be outdated soon.
#[derive(Debug)]
pub struct Process {
    /// The identifier.
    pub pid: Pid,
    /// The user that owns the process.
    pub uid: Option<u32>,
    /// What `/proc/<PID>/stat` says.
    pub stat: Stat,
    /// What `/proc/<PID>/status` says.
    pub status: Option<Status>,
    /// What `/proc/<PID>/smaps_rollup` says.
    pub smaps_rollup: Option<SmapsRollup>,
    /// What `/proc/<PID>/io` says.
    pub io: Option<Io>,
    /// What `/proc/<PID>/cmdline` says.
    pub cmdline: Option<String>,
}

/// What a [`Process`] holds.
pub ghost struct ProcessModel {
    pub pid: Pid,
    pub uid: Option<u32>,
    pub stat: StatModel,
    pub status: Option<Status>,
    pub smaps_rollup: Option<SmapsRollup>,
    pub io: Option<Io>,
    pub cmdline: Option<Seq<char>>,
}

impl View for Process {
    type V = ProcessModel;

    open spec fn view(&self) -> ProcessModel {
        ProcessModel {
            pid: self.pid,
            uid: self.uid,
            stat: self.stat@,
            status: self.status,
            smaps_rollup: self.smaps_rollup,
            io: self.io,
            cmdline: match self.cmdline {
                Some(s) => Some(s@),
                None => None,
            },
        }
    }
}

/// Why a process could not be read.
#[derive(Debug, Clone, Copy, PartialEq, Eq, Structural)]
pub enum LoadError {
    /// The directory of the process could not be opened.
    Open,
    /// Neither the name of the directory nor the target of the link is an identifier.
    PidNotFound,
    /// The file `stat` could not be opened.
    StatOpen,
    /// The file `stat` cannot be used.
    Stat(StatError),
    /// The name and the fields in the file `stat` cannot be told apart.
    StatNotSeparable,
    /// The file `io` holds more values than can be counted.
    IoTooManyValues,
}

/// The files of a process that are read.
#[derive(Debug, Clone, Copy, PartialEq, Eq, Structural)]
pub enum ProcFile {
    Stat,
    Status,
    SmapsRollup,
    Cmdline,
    Io,
}

impl ProcFile {
    /// The name of the file.
    pub open spec fn file_name(self) -> Seq<char> {
        match self {
            ProcFile::Stat => "stat"@,
            ProcFile::Status => "status"@,
            ProcFile::SmapsRollup => "smaps_rollup"@,
            ProcFile::Cmdline => "cmdline"@,
            ProcFile::Io => "io"@,
        }
    }

    /// The name of the file in the directory of the process.
    pub fn name(self) -> (r: &'static str)
        ensures
            r@ == self.file_name(),
    {
        match self {
            ProcFile::Stat => "stat",
            ProcFile::Status => "status",
            ProcFile::SmapsRollup => "smaps_rollup",
            ProcFile::Cmdline => "cmdline",
            ProcFile::Io => "io",
        }
    }
}

/// What is to be done next.
#[derive(Debug, Clone, Copy, PartialEq, Eq, Structural)]
pub enum Request {
    /// Open the directory of the process.
    OpenDir,
    /// Read the path of the process as a symbolic link.
    ReadLink,
    /// Tell who owns the directory.
    Owner,
    /// Open and read a file of the directory.
    Read(ProcFile),
    /// List the directory `task`.
    ListTasks,
}

/// What came of a [`Request`].
#[derive(Debug)]
pub enum Reply {
    /// Whether the directory was opened.
    Opened(bool),
    /// The target of the link, where there is one.
    Link(Option<Vec<u8>>),
    /// The owner, where it is known.
    Owner(Option<u32>),
    /// The contents of the file, where it could be opened.
    File(Option<Contents>),
    /// The names of the entries that could be read, where the directory could be listed.
    Tasks(Option<Vec<Vec<u8>>>),
}

/// The bytes that were read of a file and whether its end was reached, where it could be
/// opened.
pub type FileModel = Option<(Seq<u8>, bool)>;

/// What a [`Reply`] says.
pub ghost enum ReplyModel {
    Opened(bool),
    Link(Option<Seq<u8>>),
    Owner(Option<u32>),
    File(FileModel),
    Tasks(Option<Seq<Seq<u8>>>),
}

impl View for Reply {
    type V = ReplyModel;

    open spec fn view(&self) -> ReplyModel {
        match *self {
            Reply::Opened(opened) => ReplyModel::Opened(opened),
            Reply::Link(Some(target)) => ReplyModel::Link(Some(target@)),
            Reply::Link(None) => ReplyModel::Link(None),
            Reply::Owner(uid) => ReplyModel::Owner(uid),
            Reply::File(Some(contents)) => ReplyModel::File(
                Some((contents.bytes@, contents.complete)),
            ),
            Reply::File(None) => ReplyModel::File(None),
            Reply::Tasks(Some(entries)) => ReplyModel::Tasks(Some(threads::bytes_of(entries@))),
            Reply::Tasks(None) => ReplyModel::Tasks(None),
        }
    }
}

/// How far a [`Loader`] is, with what it has read.
pub ghost enum StageModel {
    Opening,
    Linking,
    Owner(Pid),
    Stat(Pid, Option<u32>),
    Status(ProcessModel),
    SmapsRollup(ProcessModel),
    Cmdline(ProcessModel),
    Io(ProcessModel),
    Tasks(ProcessModel),
    Loaded(ProcessModel, Seq<Seq<char>>),
    Failed(LoadError),
}

/// What a [`Loader`] holds: the last name of the path of the process, whether its threads
/// are wanted, and how far it is.
pub ghost struct LoaderModel {
    pub name: Option<Seq<u8>>,
    pub get_threads: bool,
    pub stage: StageModel,
}

/// The identifier that a name or a link target states.
pub open spec fn pid_of(name: Seq<char>) -> Option<Pid> {
    match number::i32_of(name) {
        Ok(pid) => Some(pid),
        Err(_) => None,
    }
}

/// The identifier that the bytes of a name or of a link target state.
pub open spec fn pid_of_bytes(name: Option<Seq<u8>>) -> Option<Pid> {
    match name {
        Some(bytes) => pid_of(outside::lossy_text(bytes)),
        None => None,
    }
}

/// The status, where the file could be opened.
pub open spec fn status_in(file: FileModel) -> Option<Status> {
    match file {
        Some((bytes, complete)) => Some(status::status_of(lines::lines_of(bytes, complete))),
        None => None,
    }
}

/// The proportional sizes, where the file could be opened.
pub open spec fn smaps_rollup_in(file: FileModel) -> Option<SmapsRollup> {
    match file {
        Some((bytes, complete)) => Some(
            smaps_rollup::smaps_rollup_of(lines::lines_of(bytes, complete)),
        ),
        None => None,
    }
}

/// The command line, where the file could be opened. It is empty where what was read is not
/// UTF-8.
pub open spec fn cmdline_in(file: FileModel) -> Option<Seq<char>> {
    match file {
        Some((bytes, _)) => if valid_utf8(bytes) {
            Some(decode_utf8(bytes))
        } else {
            Some(seq![])
        },
        None => None,
    }
}

/// The input and output, where the file could be opened and its values are numbers.
pub open spec fn io_in(file: FileModel) -> Option<Io> {
    match file {
        Some((bytes, complete)) => match io::io_of(lines::lines_of(bytes, complete)) {
            Some(Ok(io)) => Some(io),
            _ => None,
        },
        None => None,
    }
}

/// Whether the file holds more values than can be counted.
pub open spec fn io_overflows(file: FileModel) -> bool {
    match file {
        Some((bytes, complete)) => io::io_of(lines::lines_of(bytes, complete)) is None,
        None => false,
    }
}

/// The threads, where the directory could be listed.
pub open spec fn threads_in(tasks: Option<Seq<Seq<u8>>>, pid: Pid) -> Seq<Seq<char>> {
    match tasks {
        Some(entries) => threads::threads_of(entries, pid),
        None => seq![],
    }
}

/// A loader that has read nothing yet.
pub open spec fn started(name: Option<Seq<u8>>, get_threads: bool) -> LoaderModel {
    LoaderModel { name, get_threads, stage: StageModel::Opening }
}

/// What is to be done next, or `None` at the end.
pub open spec fn request_of(loader: LoaderModel) -> Option<Request> {
    match loader.stage {
        StageModel::Opening => Some(Request::OpenDir),
        StageModel::Linking => Some(Request::ReadLink),
        StageModel::Owner(_) => Some(Request::Owner),
        StageModel::Stat(_, _) => Some(Request::Read(ProcFile::Stat)),
        StageModel::Status(_) => Some(Request::Read(ProcFile::Status)),
        StageModel::SmapsRollup(_) => Some(Request::Read(ProcFile::SmapsRollup)),
        StageModel::Cmdline(_) => Some(Request::Read(ProcFile::Cmdline)),
        StageModel::Io(_) => Some(Request::Read(ProcFile::Io)),
        StageModel::Tasks(_) => Some(Request::ListTasks),
        StageModel::Loaded(_, _) => None,
        StageModel::Failed(_) => None,
    }
}

/// Whether a reply is one to the request.
pub open spec fn answers(reply: ReplyModel, request: Request) -> bool {
    match request {
        Request::OpenDir => reply is Opened,
        Request::ReadLink => reply is Link,
        Request::Owner => reply is Owner,
        Request::Read(_) => reply is File,
        Request::ListTasks => reply is Tasks,
    }
}

/// The stage after the file `stat`.
pub open spec fn after_stat(pid: Pid, uid: Option<u32>, file: FileModel) -> StageModel {
    match file {
        Some((bytes, complete)) => match stat::stat_of_file(bytes, complete) {
            Some(Ok(stat)) => StageModel::Status(
                ProcessModel {
                    pid,
                    uid,
                    stat,
                    status: None,
                    smaps_rollup: None,
                    io: None,
                    cmdline: None,
                },
            ),
            Some(Err(e)) => StageModel::Failed(LoadError::Stat(e)),
            None => StageModel::Failed(LoadError::StatNotSeparable),
        },
        None => StageModel::Failed(LoadError::StatOpen),
    }
}

/// The stage after the file `io`.
pub open spec fn after_io(process: ProcessModel, get_threads: bool, file: FileModel) -> StageModel {
    let process = ProcessModel { io: io_in(file), ..process };
    if io_overflows(file) {
        StageModel::Failed(LoadError::IoTooManyValues)
    } else if get_threads {
        StageModel::Tasks(process)
    } else {
        StageModel::Loaded(process, seq![])
    }
}

/// The stage after a reply.
pub open spec fn next_stage(loader: LoaderModel, reply: ReplyModel) -> StageModel {
    match (loader.stage, reply) {
        (StageModel::Opening, ReplyModel::Opened(opened)) => if !opened {
            StageModel::Failed(LoadError::Open)
        } else {
            match pid_of_bytes(loader.name) {
                Some(pid) => StageModel::Owner(pid),
                None => StageModel::Linking,
            }
        },
        (StageModel::Linking, ReplyModel::Link(target)) => match pid_of_bytes(target) {
            Some(pid) => StageModel::Owner(pid),
            None => StageModel::Failed(LoadError::PidNotFound),
        },
        (StageModel::Owner(pid), ReplyModel::Owner(uid)) => StageModel::Stat(pid, uid),
        (StageModel::Stat(pid, uid), ReplyModel::File(file)) => after_stat(pid, uid, file),
        (StageModel::Status(process), ReplyModel::File(file)) => StageModel::SmapsRollup(
            ProcessModel { status: status_in(file), ..process },
        ),
        (StageModel::SmapsRollup(process), ReplyModel::File(file)) => StageModel::Cmdline(
            ProcessModel { smaps_rollup: smaps_rollup_in(file), ..process },
        ),
        (StageModel::Cmdline(process), ReplyModel::File(file)) => StageModel::Io(
            ProcessModel { cmdline: cmdline_in(file), ..process },
        ),
        (StageModel::Io(process), ReplyModel::File(file)) => after_io(
            process,
            loader.get_threads,
            file,
        ),
        (StageModel::Tasks(process), ReplyModel::Tasks(tasks)) => StageModel::Loaded(
            process,
            threads_in(tasks, process.pid),
        ),
        (stage, _) => stage,
    }
}

/// The loader after a reply.
pub open spec fn advanced(loader: LoaderModel, reply: ReplyModel) -> LoaderModel {
    LoaderModel { stage: next_stage(loader, reply), ..loader }
}

/// Whether the text of a name or of a link target, where there is one, is decoded.
pub open spec fn name_is_decoded(name: Option<Seq<u8>>) -> bool {
    match name {
        Some(bytes) => outside::text_is_decoded(bytes),
        None => true,
    }
}

/// Whether the bytes that are taken for text after a reply are decoded: the name of an opened
/// directory, the target of a link, a file `stat` that was read to its end, and the names of
/// the entries of `task`.
pub open spec fn text_is_decoded(loader: LoaderModel, reply: ReplyModel) -> bool {
    match (loader.stage, reply) {
        (StageModel::Opening, ReplyModel::Opened(true)) => name_is_decoded(loader.name),
        (StageModel::Linking, ReplyModel::Link(target)) => name_is_decoded(target),
        (StageModel::Stat(_, _), ReplyModel::File(Some((bytes, true)))) => {
            outside::text_is_decoded(bytes)
        },
        (StageModel::Tasks(_), ReplyModel::Tasks(Some(entries))) => forall|k: int|
            0 <= k < entries.len() ==> outside::text_is_decoded(#[trigger] entries[k]),
        _ => true,
    }
}

/// The identifier that a name or a link target states.
pub fn parse_pid(name: &str) -> (r: Option<Pid>)
    ensures
        r == pid_of(name@),
{
    let chars = text::chars_of(name);
    match number::parse_i32(chars.as_slice()) {
        Ok(pid) => Some(pid),
        Err(_) => None,
    }
}

/// The identifier that the bytes of a name state.
fn parse_pid_bytes(name: &Option<Vec<u8>>) -> (r: Option<Pid>)
    ensures
        r == pid_of_bytes(
            match *name {
                Some(bytes) => Some(bytes@),
                None => None,
            },
        ),
        *name matches Some(bytes) ==> outside::text_is_decoded(bytes@),
{
    match name {
        Some(bytes) => {
            let name = outside::to_string_lossy(bytes.as_slice());
            parse_pid(name.as_str())
        },
        None => None,
    }
}

/// The command line, from the contents of `/proc/<PID>/cmdline`. It is empty where what was
/// read is not UTF-8.
pub fn cmdline(contents: &Contents) -> (r: String)
    ensures
        r@ == if valid_utf8(contents.bytes@) {
            decode_utf8(contents.bytes@)
        } else {
            seq![]
        },
{
    match outside::from_utf8(contents.bytes.as_slice()) {
        Some(s) => s.to_owned(),
        None => String::new(),
    }
}

/// How far a [`Loader`] is, with what it has read.
#[derive(Debug)]
enum Stage {
    Opening,
    Linking,
    Owner(Pid),
    Stat(Pid, Option<u32>),
    Status(Process),
    SmapsRollup(Process),
    Cmdline(Process),
    Io(Process),
    Tasks(Process),
    Loaded(Process, Vec<String>),
    Failed(LoadError),
}

impl View for Stage {
    type V = StageModel;

    closed spec fn view(&self) -> StageModel {
        match *self {
            Stage::Opening => StageModel::Opening,
            Stage::Linking => StageModel::Linking,
            Stage::Owner(pid) => StageModel::Owner(pid),
            Stage::Stat(pid, uid) => StageModel::Stat(pid, uid),
            Stage::Status(process) => StageModel::Status(process@),
            Stage::SmapsRollup(process) => StageModel::SmapsRollup(process@),
            Stage::Cmdline(process) => StageModel::Cmdline(process@),
            Stage::Io(process) => StageModel::Io(process@),
            Stage::Tasks(process) => StageModel::Tasks(process@),
            Stage::Loaded(process, names) => StageModel::Loaded(process@, threads::texts(names@)),
            Stage::Failed(e) => StageModel::Failed(e),
        }
    }
}

/// Reads a process piece by piece.
#[derive(Debug)]
pub struct Loader {
    name: Option<Vec<u8>>,
    get_threads: bool,
    stage: Stage,
}

impl View for Loader {
    type V = LoaderModel;

    closed spec fn view(&self) -> LoaderModel {
        LoaderModel {
            name: match self.name {
                Some(bytes) => Some(bytes@),
                None => None,
            },
            get_threads: self.get_threads,
            stage: self.stage@,
        }
    }
}

impl Process {
    /// Begins to read the process whose directory has a path with the given last name. The
    /// threads are listed where `get_threads` asks for them.
    pub fn from_path(name: Option<Vec<u8>>, get_threads: bool) -> (r: Loader)
        ensures
            r@ == started(
                match name {
                    Some(bytes) => Some(bytes@),
                    None => None,
                },
                get_threads,
            ),
    {
        Loader { name, get_threads, stage: Stage::Opening }
    }
}

impl Loader {
    /// What is to be done next, or `None` at the end.
    pub fn request(&self) -> (r: Option<Request>)
        ensures
            r == request_of(self@),
    {
        match self.stage {
            Stage::Opening => Some(Request::OpenDir),
            Stage::Linking => Some(Request::ReadLink),
            Stage::Owner(_) => Some(Request::Owner),
            Stage::Stat(_, _) => Some(Request::Read(ProcFile::Stat)),
            Stage::Status(_) => Some(Request::Read(ProcFile::Status)),
            Stage::SmapsRollup(_) => Some(Request::Read(ProcFile::SmapsRollup)),
            Stage::Cmdline(_) => Some(Request::Read(ProcFile::Cmdline)),
            Stage::Io(_) => Some(Request::Read(ProcFile::Io)),
            Stage::Tasks(_) => Some(Request::ListTasks),
            Stage::Loaded(_, _) => None,
            Stage::Failed(_) => None,
        }
    }

    /// Takes the reply to the request. Bytes that are UTF-8 throughout are taken for the text
    /// that they encode.
    pub fn advance(self, reply: Reply) -> (r: Loader)
        requires
            request_of(self@) matches Some(request) && answers(reply@, request),
        ensures
            r@ == advanced(self@, reply@),
            text_is_decoded(self@, reply@),
    {
        let Loader { name, get_threads, stage } = self;
        let stage = match (stage, reply) {
            (Stage::Opening, Reply::Opened(opened)) => if !opened {
                Stage::Failed(LoadError::Open)
            } else {
                match parse_pid_bytes(&name) {
                    Some(pid) => Stage::Owner(pid),
                    None => Stage::Linking,
                }
            },
            (Stage::Linking, Reply::Link(target)) => match parse_pid_bytes(&target) {
                Some(pid) => Stage::Owner(pid),
                None => Stage::Failed(LoadError::PidNotFound),
            },
            (Stage::Owner(pid), Reply::Owner(uid)) => Stage::Stat(pid, uid),
            (Stage::Stat(pid, uid), Reply::File(file)) => Self::read_stat(pid, uid, file),
            (Stage::Status(process), Reply::File(file)) => {
                let status = match file {
                    Some(contents) => Some(Status::from_file(&contents)),
                    None => None,
                };
                Stage::SmapsRollup(Process { status, ..process })
            },
            (Stage::SmapsRollup(process), Reply::File(file)) => {
                let smaps_rollup = match file {
                    Some(contents) => Some(SmapsRollup::from_file(&contents)),
                    None => None,
                };
                Stage::Cmdline(Process { smaps_rollup, ..process })
            },
            (Stage::Cmdline(process), Reply::File(file)) => {
                let cmdline = match file {
                    Some(contents) => Some(cmdline(&contents)),
                    None => None,
                };
                Stage::Io(Process { cmdline, ..process })
            },
            (Stage::Io(process), Reply::File(file)) => Self::read_io(process, get_threads, file),
            (Stage::Tasks(process), Reply::Tasks(tasks)) => {
                let names: Vec<String> = match tasks {
                    Some(entries) => threads::threads(&entries, process.pid),
                    None => Vec::new(),
                };
                assert(tasks is None ==> threads::texts(names@) =~= Seq::<Seq<char>>::empty());
                Stage::Loaded(process, names)
            },
            (stage, _) => stage,
        };
        Loader { name, get_threads, stage }
    }

    /// The stage after the file `stat`.
    fn read_stat(pid: Pid, uid: Option<u32>, file: Option<Contents>) -> (r: Stage)
        ensures
            r@ == after_stat(
                pid,
                uid,
                match file {
                    Some(contents) => Some((contents.bytes@, contents.complete)),
                    None => None,
                },
            ),
            file matches Some(contents) ==> contents.complete ==> outside::text_is_decoded(
                contents.bytes@,
            ),
    {
        match file {
            Some(contents) => match Stat::from_file(&contents) {
                Some(Ok(stat)) => Stage::Status(
                    Process {
                        pid,
                        uid,
                        stat,
                        status: None,
                        smaps_rollup: None,
                        io: None,
                        cmdline: None,
                    },
                ),
                Some(Err(e)) => Stage::Failed(LoadError::Stat(e)),
                None => Stage::Failed(LoadError::StatNotSeparable),
            },
            None => Stage::Failed(LoadError::StatOpen),
        }
    }

    /// The stage after the file `io`.
    fn read_io(process: Process, get_threads: bool, file: Option<Contents>) -> (r: Stage)
        ensures
            r@ == after_io(
                process@,
                get_threads,
                match file {
                    Some(contents) => Some((contents.bytes@, contents.complete)),
                    None => None,
                },
            ),
    {
        let io: Option<Io> = match file {
            Some(contents) => match Io::from_file(&contents) {
                Some(Ok(io)) => Some(io),
                Some(Err(_)) => None,
                None => return Stage::Failed(LoadError::IoTooManyValues),
            },
            None => None,
        };
        let process = Process { io, ..process };
        if get_threads {
            Stage::Tasks(process)
        } else {
            let names: Vec<String> = Vec::new();
            assert(threads::texts(names@) =~= Seq::<Seq<char>>::empty());
            Stage::Loaded(process, names)
        }
    }

    /// The process and the names of its threads, or why it could not be read. Gives `None`
    /// while there is still something to be done.
    pub fn finish(self) -> (r: Option<Result<(Process, Vec<String>), LoadError>>)
        ensures
            match r {
                Some(Ok((process, names))) => self@.stage == StageModel::Loaded(
                    process@,
                    threads::texts(names@),
                ),
                Some(Err(e)) => self@.stage == StageModel::Failed(e),
                None => request_of(self@) is Some,
            },
    {
        match self.stage {
            Stage::Loaded(process, names) => Some(Ok((process, names))),
            Stage::Failed(e) => Some(Err(e)),
            _ => None,
        }
    }
}

/// What the requests of a loader meet with: each file as it is read, whenever that is.
pub ghost struct Surroundings {
    pub opens: bool,
    pub link: Option<Seq<u8>>,
    pub owner: Option<u32>,
    pub stat: FileModel,
    pub status: FileModel,
    pub smaps_rollup: FileModel,
    pub cmdline: FileModel,
    pub io: FileModel,
    pub tasks: Option<Seq<Seq<u8>>>,
}

/// The reply to a request.
pub open spec fn reply_to(surroundings: Surroundings, request: Request) -> ReplyModel {
    match request {
        Request::OpenDir => ReplyModel::Opened(surroundings.opens),
        Request::ReadLink => ReplyModel::Link(surroundings.link),
        Request::Owner => ReplyModel::Owner(surroundings.owner),
        Request::Read(ProcFile::Stat) => ReplyModel::File(surroundings.stat),
        Request::Read(ProcFile::Status) => ReplyModel::File(surroundings.status),
        Request::Read(ProcFile::SmapsRollup) => ReplyModel::File(surroundings.smaps_rollup),
        Request::Read(ProcFile::Cmdline) => ReplyModel::File(surroundings.cmdline),
        Request::Read(ProcFile::Io) => ReplyModel::File(surroundings.io),
        Request::ListTasks => ReplyModel::Tasks(surroundings.tasks),
    }
}

/// The loader after its next `n` requests, or at the end where there are fewer.
pub open spec fn run(loader: LoaderModel, surroundings: Surroundings, n: nat) -> LoaderModel
    decreases n,
{
    match request_of(loader) {
        Some(request) => if n == 0 {
            loader
        } else {
            run(advanced(loader, reply_to(surroundings, request)), surroundings, (n - 1) as nat)
        },
        None => loader,
    }
}

/// The identifier of the process: that of its name, or else that of the link target.
pub open spec fn pid_found(name: Option<Seq<u8>>, link: Option<Seq<u8>>) -> Option<Pid> {
    match pid_of_bytes(name) {
        Some(pid) => Some(pid),
        None => pid_of_bytes(link),
    }
}

/// The process that is read in the given surroundings, with the names of its threads.
pub open spec fn process_of(
    name: Option<Seq<u8>>,
    get_threads: bool,
    surroundings: Surroundings,
) -> Result<(ProcessModel, Seq<Seq<char>>), LoadError> {
    if !surroundings.opens {
        Err(LoadError::Open)
    } else {
        match (pid_found(name, surroundings.link), surroundings.stat) {
            (None, _) => Err(LoadError::PidNotFound),
            (Some(_), None) => Err(LoadError::StatOpen),
            (Some(pid), Some((bytes, complete))) => match stat::stat_of_file(bytes, complete) {
                None => Err(LoadError::StatNotSeparable),
                Some(Err(e)) => Err(LoadError::Stat(e)),
                Some(Ok(stat)) => if io_overflows(surroundings.io) {
                    Err(LoadError::IoTooManyValues)
                } else {
                    Ok(
                        (
                            ProcessModel {
                                pid,
                                uid: surroundings.owner,
                                stat,
                                status: status_in(surroundings.status),
                                smaps_rollup: smaps_rollup_in(surroundings.smaps_rollup),
                                io: io_in(surroundings.io),
                                cmdline: cmdline_in(surroundings.cmdline),
                            },
                            if get_threads {
                                threads_in(surroundings.tasks, pid)
                            } else {
                                seq![]
                            },
                        ),
                    )
                },
            },
        }
    }
}

/// Every request of a loader is answered by a reply of its kind.
pub proof fn theorem_replies_answer(surroundings: Surroundings, request: Request)
    ensures
        answers(reply_to(surroundings, request), request),
{
}

/// Reading a process comes to its end after nine requests at most, and gives the process as
/// the surroundings have it.
pub proof fn theorem_loading(
    name: Option<Seq<u8>>,
    get_threads: bool,
    surroundings: Surroundings,
    n: nat,
)
    requires
        n >= 9,
    ensures
        run(started(name, get_threads), surroundings, n).stage == match process_of(
            name,
            get_threads,
            surroundings,
        ) {
            Ok((process, names)) => StageModel::Loaded(process, names),
            Err(e) => StageModel::Failed(e),
        },
{
    reveal_with_fuel(run, 10);
}

/// A process is read even where nothing but its directory, its identifier and a sound file
/// `stat` can be had. What could not be opened is left out.
pub proof fn theorem_only_stat_is_needed(
    name: Option<Seq<u8>>,
    get_threads: bool,
    surroundings: Surroundings,
)
    requires
        surroundings.opens,
        pid_found(name, surroundings.link) is Some,
        surroundings.stat matches Some((bytes, complete)) && stat::stat_of_file(
            bytes,
            complete,
        ) matches Some(Ok(_)),
        !io_overflows(surroundings.io),
    ensures
        process_of(name, get_threads, surroundings) matches Ok((process, names)) && {
            &&& surroundings.status is None <==> process.status is None
            &&& surroundings.smaps_rollup is None <==> process.smaps_rollup is None
            &&& surroundings.cmdline is None <==> process.cmdline is None
            &&& surroundings.io is None ==> process.io is None
            &&& !get_threads || surroundings.tasks is None ==> names.len() == 0
        },
{
}

/// A failure ends the reading: nothing further is asked for.
pub proof fn theorem_failure_is_final(loader: LoaderModel, surroundings: Surroundings, n: nat)
    requires
        loader.stage is Failed,
    ensures
        request_of(loader) is None,
        run(loader, surroundings, n) == loader,
{
}

/// The threads are listed only where they are wanted.
pub proof fn theorem_tasks_only_when_wanted(
    name: Option<Seq<u8>>,
    surroundings: Surroundings,
    n: nat,
)
    ensures
        request_of(run(started(name, false), surroundings, n)) != Some(Request::ListTasks),
{
    lemma_no_tasks(started(name, false), surroundings, n);
}

proof fn lemma_no_tasks(loader: LoaderModel, surroundings: Surroundings, n: nat)
    requires
        !loader.get_threads,
        !(loader.stage is Tasks),
    ensures
        request_of(run(loader, surroundings, n)) != Some(Request::ListTasks),
    decreases n,
{
    if let Some(request) = request_of(loader) {
        if n > 0 {
            lemma_no_tasks(
                advanced(loader, reply_to(surroundings, request)),
                surroundings,
                (n - 1) as nat,
            );
        }
    }
}

/// Every identifier is found in its decimal notation, and only a text that is such a number
/// states one.
pub proof fn theorem_pid_of(pid: Pid, name: Seq<char>)
    ensures
        pid_of(number::decimal_i32(pid)) == Some(pid),
        pid_of(name) == Some(pid) <==> number::i32_of(name) == Ok::<i32, number::ParseIntError>(
            pid,
        ),
        pid_of(name) is None <==> number::i32_of(name) is Err,
{
    number::theorem_write_then_parse(pid);
}

/// Whether a name or a link target states the identifier `pid`.
pub open spec fn states_pid(name: Option<Seq<u8>>, pid: Pid) -> bool {
    name matches Some(bytes) && number::i32_of(outside::lossy_text(bytes)) == Ok::<
        i32,
        number::ParseIntError,
    >(pid)
}

/// Whether a name or a link target states no identifier.
pub open spec fn states_no_pid(name: Option<Seq<u8>>) -> bool {
    name matches Some(bytes) ==> number::i32_of(outside::lossy_text(bytes)) is Err
}

/// The decimal notation of an identifier, as the bytes of a name, states it.
pub proof fn theorem_decimal_name(pid: Pid)
    requires
        outside::text_is_decoded(encode_utf8(number::decimal_i32(pid))),
    ensures
        states_pid(Some(encode_utf8(number::decimal_i32(pid))), pid),
{
    let d = number::decimal_i32(pid);
    encode_utf8_valid_utf8(d);
    encode_utf8_decode_utf8(d);
    number::theorem_write_then_parse(pid);
}

/// A directory that opens, an identifier in its name or else in its link, and a sound file
/// `stat` give the process with exactly that identifier. Each of its parts is what its own file
/// states, and is left out where that file could not be opened.
pub proof fn theorem_loaded_process(
    name: Option<Seq<u8>>,
    get_threads: bool,
    surroundings: Surroundings,
    n: nat,
    pid: Pid,
    bytes: Seq<u8>,
    stat: StatModel,
)
    requires
        n >= 9,
        surroundings.opens,
        states_pid(name, pid) || (states_no_pid(name) && states_pid(surroundings.link, pid)),
        surroundings.stat == Some((bytes, true)),
        stat::separable(outside::lossy_text(bytes)),
        stat::stat_of(outside::lossy_text(bytes)) == Ok::<StatModel, StatError>(stat),
        surroundings.io matches Some((io, complete)) ==> io::io_of(
            lines::lines_of(io, complete),
        ) is Some,
    ensures
        run(started(name, get_threads), surroundings, n).stage matches StageModel::Loaded(
            process,
            names,
        ) && {
            &&& process.pid == pid
            &&& process.uid == surroundings.owner
            &&& process.stat == stat
            &&& match surroundings.status {
                Some((b, c)) => process.status == Some(status::status_of(lines::lines_of(b, c))),
                None => process.status is None,
            }
            &&& match surroundings.smaps_rollup {
                Some((b, c)) => process.smaps_rollup == Some(
                    smaps_rollup::smaps_rollup_of(lines::lines_of(b, c)),
                ),
                None => process.smaps_rollup is None,
            }
            &&& match surroundings.cmdline {
                Some((b, _)) => process.cmdline == Some(
                    if valid_utf8(b) {
                        decode_utf8(b)
                    } else {
                        Seq::<char>::empty()
                    },
                ),
                None => process.cmdline is None,
            }
            &&& match surroundings.io {
                Some((b, c)) => match io::io_of(lines::lines_of(b, c)) {
                    Some(Ok(io)) => process.io == Some(io),
                    _ => process.io is None,
                },
                None => process.io is None,
            }
            &&& match surroundings.tasks {
                Some(entries) => get_threads ==> names == threads::threads_of(entries, pid),
                None => names == Seq::<Seq<char>>::empty(),
            }
            &&& !get_threads ==> names == Seq::<Seq<char>>::empty()
        },
{
    theorem_loading(name, get_threads, surroundings, n);
}

/// What keeps a process from being read, in the order in which it is met with.
pub proof fn theorem_load_failures(
    name: Option<Seq<u8>>,
    get_threads: bool,
    surroundings: Surroundings,
    n: nat,
    pid: Pid,
)
    requires
        n >= 9,
    ensures
        ({
            let stage = run(started(name, get_threads), surroundings, n).stage;
            let found = states_pid(name, pid) || (states_no_pid(name) && states_pid(
                surroundings.link,
                pid,
            ));
            &&& !surroundings.opens ==> stage == StageModel::Failed(LoadError::Open)
            &&& surroundings.opens && states_no_pid(name) && states_no_pid(surroundings.link)
                ==> stage == StageModel::Failed(LoadError::PidNotFound)
            &&& surroundings.opens && found ==> match surroundings.stat {
                None => stage == StageModel::Failed(LoadError::StatOpen),
                Some((_, false)) => stage == StageModel::Failed(LoadError::Stat(StatError::Read)),
                Some((bytes, true)) => {
                    let text = outside::lossy_text(bytes);
                    &&& !stat::separable(text) ==> stage == StageModel::Failed(
                        LoadError::StatNotSeparable,
                    )
                    &&& stat::separable(text) ==> (stat::stat_of(text) matches Err(e) ==> stage
                        == StageModel::Failed(LoadError::Stat(e)))
                    &&& stat::separable(text) && stat::stat_of(text) is Ok ==> (surroundings.io matches Some(
                        (io, complete),
                    ) && io::io_of(lines::lines_of(io, complete)) is None ==> stage
                        == StageModel::Failed(LoadError::IoTooManyValues))
                },
            }
        }),
{
    theorem_loading(name, get_threads, surroundings, n);
}

/// The directory is opened first. The link is read only where the name states no identifier.
/// The owner and the files follow in a fixed order, and last, where they are wanted, the
/// threads.
pub proof fn theorem_requests_in_order(
    name: Option<Seq<u8>>,
    get_threads: bool,
    surroundings: Surroundings,
    pid: Pid,
    bytes: Seq<u8>,
)
    requires
        surroundings.opens,
        states_pid(name, pid) || (states_no_pid(name) && states_pid(surroundings.link, pid)),
        surroundings.stat == Some((bytes, true)),
        stat::separable(outside::lossy_text(bytes)),
        stat::stat_of(outside::lossy_text(bytes)) is Ok,
        !io_overflows(surroundings.io),
    ensures
        ({
            let loader = started(name, get_threads);
            let k: nat = if states_pid(name, pid) {
                1
            } else {
                2
            };
            &&& request_of(loader) == Some(Request::OpenDir)
            &&& k == 2 ==> request_of(run(loader, surroundings, 1)) == Some(Request::ReadLink)
            &&& request_of(run(loader, surroundings, k)) == Some(Request::Owner)
            &&& request_of(run(loader, surroundings, k + 1)) == Some(Request::Read(ProcFile::Stat))
            &&& request_of(run(loader, surroundings, k + 2)) == Some(
                Request::Read(ProcFile::Status),
            )
            &&& request_of(run(loader, surroundings, k + 3)) == Some(
                Request::Read(ProcFile::SmapsRollup),
            )
            &&& request_of(run(loader, surroundings, k + 4)) == Some(
                Request::Read(ProcFile::Cmdline),
            )
            &&& request_of(run(loader, surroundings, k + 5)) == Some(Request::Read(ProcFile::Io))
            &&& request_of(run(loader, surroundings, k + 6)) == if get_threads {
                Some(Request::ListTasks)
            } else {
                None
            }
            &&& request_of(run(loader, surroundings, k + 7)) is None
        }),
{
    reveal_with_fuel(run, 10);
}

/// Each part of the model is the part itself.
pub proof fn theorem_process_model(process: Process)
    ensures
        process@.pid == process.pid,
        process@.uid == process.uid,
        process@.stat == process.stat@,
        process@.status == process.status,
        process@.smaps_rollup == process.smaps_rollup,
        process@.io == process.io,
        process.cmdline matches Some(s) ==> process@.cmdline == Some(s@),
        process.cmdline is None ==> process@.cmdline is None,
{
}

/// Each reply says what it holds.
pub proof fn theorem_reply_model(
    opened: bool,
    uid: Option<u32>,
    target: Vec<u8>,
    contents: Contents,
    entries: Vec<Vec<u8>>,
)
    ensures
        Reply::Opened(opened)@ == ReplyModel::Opened(opened),
        Reply::Owner(uid)@ == ReplyModel::Owner(uid),
        Reply::Link(Some(target))@ == ReplyModel::Link(Some(target@)),
        Reply::Link(None)@ == ReplyModel::Link(None),
        Reply::File(Some(contents))@ == ReplyModel::File(
            Some((contents.bytes@, contents.complete)),
        ),
        Reply::File(None)@ == ReplyModel::File(None),
        Reply::Tasks(Some(entries))@ == ReplyModel::Tasks(Some(threads::bytes_of(entries@))),
        Reply::Tasks(None)@ == ReplyModel::Tasks(None),
{
}

/// Every call gives the identifier that the name states, or the command line that the bytes
/// encode, which is empty where they are not UTF-8.
pub proof fn theorem_small_readers(
    name: &str,
    contents: &Contents,
    pid: Option<Pid>,
    line: String,
)
    ensures
        call_ensures(parse_pid, (name,), pid) ==> match number::i32_of(name@) {
            Ok(v) => pid == Some(v),
            Err(_) => pid is None,
        },
        call_ensures(cmdline, (contents,), line) && valid_utf8(contents.bytes@) ==> line@
            == decode_utf8(contents.bytes@),
        call_ensures(cmdline, (contents,), line) && !valid_utf8(contents.bytes@) ==> line@.len()
            == 0,
{
}

/// A loader begins with the name and the wish that it was given, and at its end hands out the
/// process and the threads that it has, or its failure.
pub proof fn theorem_begin_and_end(
    name: Vec<u8>,
    get_threads: bool,
    loader: Loader,
    r: Option<Result<(Process, Vec<String>), LoadError>>,
)
    ensures
        call_ensures(Process::from_path, (Some(name), get_threads), loader) ==> loader@ == started(
            Some(name@),
            get_threads,
        ),
        call_ensures(Process::from_path, (None, get_threads), loader) ==> loader@ == started(
            None,
            get_threads,
        ),
        call_ensures(Loader::finish, (loader,), r) ==> match loader@.stage {
            StageModel::Loaded(process, names) => r matches Some(Ok((p, t))) && p@ == process
                && threads::texts(t@) == names,
            StageModel::Failed(e) => r matches Some(Err(f)) && f == e,
            _ => r is None,
        },
{
}

/// Every call asks for what comes next, and takes the reply as the model does. The files go by
/// their names under `/proc/<PID>`.
pub proof fn theorem_steps(
    loader: Loader,
    reply: Reply,
    next: Loader,
    request: Option<Request>,
    file: ProcFile,
    name: &'static str,
)
    ensures
        call_ensures(Loader::request, (&loader,), request) ==> request == request_of(loader@),
        call_ensures(Loader::advance, (loader, reply), next) ==> next@ == advanced(loader@, reply@)
            && next@.name == loader@.name && next@.get_threads == loader@.get_threads,
        call_ensures(ProcFile::name, (file,), name) ==> name@ == match file {
            ProcFile::Stat => "stat"@,
            ProcFile::Status => "status"@,
            ProcFile::SmapsRollup => "smaps_rollup"@,
            ProcFile::Cmdline => "cmdline"@,
            ProcFile::Io => "io"@,
        },
{
}

} // verus!
