//! The files of a process, and a process read piece by piece.

use procmetrics::lines::Contents;
use procmetrics::number::ParseIntError;
use procmetrics::process::io::{read_io_line, Io, IoLine};
use procmetrics::process::loader::{
    cmdline, parse_pid, LoadError, Loader, ProcFile, Process, Reply, Request,
};
use procmetrics::process::stat::{Stat, StatError};
use procmetrics::process::threads::{thread_name, threads};

fn file(text: &str) -> Contents {
    Contents { bytes: text.as_bytes().to_vec(), complete: true }
}

fn chars(s: &str) -> Vec<char> {
    s.chars().collect()
}

const LINE: &str = "1234 (my prog) S 1 1234 1233 34816 1300 4194304 5000 6000 7 8 91 92 93 94 20 -5 3 0 8765 10240000 321 18446744073709551615 1 1\n";

#[test]
fn stat_of_a_process() {
    let stat = Stat::from_line(LINE).unwrap();
    assert_eq!(stat.comm, "my prog");
    assert_eq!(stat.state, 'S');
    assert_eq!(stat.ppid, 1);
    assert_eq!(stat.utime, 91);
    assert_eq!(stat.stime, 92);
    assert_eq!(stat.priority, 20);
    assert_eq!(stat.nice, -5);
    assert_eq!(stat.start_time, 8765);
    assert_eq!(stat.vsize, 10240000);
    assert_eq!(stat.rss, 321);
    assert!(!stat.is_kernel_thread);
}

#[test]
fn stat_of_a_kernel_thread() {
    let line = "2 (kthreadd) S 0 0 0 0 -1 2129984 0 0 0 0 0 11 0 0 20 0 1 0 2 0 0";
    let stat = Stat::from_line(line).unwrap();
    assert!(stat.is_kernel_thread);
    assert_eq!(stat.comm, "kthreadd");
    assert_eq!(stat.rss, 0);
}

fn stat_error(line: &str) -> StatError {
    assert!(Stat::is_separable(line));
    Stat::from_line(line).unwrap_err()
}

#[test]
fn each_error_of_a_stat_line() {
    assert_eq!(stat_error(""), StatError::StartParenMissing);
    assert_eq!(stat_error("1 a) S"), StatError::StartParenMissing);
    assert_eq!(stat_error("1 (a S"), StatError::EndParenMissing);
    assert_eq!(stat_error("1 (a) S"), StatError::MissingField);
    assert_eq!(stat_error("1 (a)  S 1"), StatError::MissingState);
    assert_eq!(stat_error("1 (a) S x"), StatError::Number(ParseIntError::InvalidDigit));
    assert_eq!(stat_error("1 (a) S 2147483648"), StatError::Number(ParseIntError::PosOverflow));
    assert_eq!(
        stat_error("1 (a) S 1 0 0 0 0  0"),
        StatError::Number(ParseIntError::Empty)
    );
    assert_eq!(
        stat_error("1 (a) S 1 0 0 0 0 0 0 0 0 0 1 1 0 0 -2147483649"),
        StatError::Number(ParseIntError::NegOverflow)
    );
    assert_eq!(
        stat_error("1 (a) S 1 0 0 0 0 0 0 0 0 0 1 1 0 0 20 0 1 0 5 6"),
        StatError::MissingField
    );
}

#[test]
fn the_name_ends_at_the_first_closing_parenthesis() {
    let line = "9 (a(b) R 1 0 0 0 0 0 0 0 0 0 1 2 0 0 20 0 1 0 5 6 7";
    assert_eq!(Stat::from_line(line).unwrap().comm, "a(b");
    assert_eq!(stat_error("9 ((sd-pam)) S 1 9"), StatError::MissingState);
}

#[test]
fn a_line_that_cannot_be_cut() {
    assert!(!Stat::is_separable("1 )a( S 1"));
    assert!(!Stat::is_separable("1 (a)"));
    assert!(!Stat::is_separable("1 (a)\u{e9} S"));
    assert!(Stat::is_separable("1 (a)x"));
    assert!(Stat::is_separable("1 (a"));
    assert!(Stat::from_file(&file("1 (a)\n")).is_none());
}

#[test]
fn stat_from_a_file() {
    let stat = Stat::from_file(&file(LINE)).unwrap().unwrap();
    assert_eq!(stat.comm, "my prog");
    assert_eq!(stat.rss, 321);
    let failed = Contents { bytes: LINE.as_bytes().to_vec(), complete: false };
    assert_eq!(Stat::from_file(&failed).unwrap().unwrap_err(), StatError::Read);
}

#[test]
fn a_name_may_hold_any_bytes() {
    let mut bytes = b"5 (x\xffy) S 1 0 0 0 0 0 0 0 0 0 1 2 0 0 20 0 1 0 5 6 7".to_vec();
    bytes.push(b'\n');
    let stat = Stat::from_file(&Contents { bytes, complete: true }).unwrap().unwrap();
    assert_eq!(stat.comm, "x\u{fffd}y");
    assert_eq!(stat.rss, 7);
}

#[test]
fn a_name_in_utf8_is_kept() {
    let line = LINE.replace("my prog", "caf\u{e9} \u{1f600}");
    let stat = Stat::from_file(&file(&line)).unwrap().unwrap();
    assert_eq!(stat.comm, "caf\u{e9} \u{1f600}");
    assert_eq!(stat.rss, 321);
}

#[test]
fn no_pages_are_no_bytes() {
    let line = LINE.replace(" 321 ", " 0 ");
    assert_eq!(Stat::from_line(&line).unwrap().rss_bytes(), Some(0));
}

#[test]
fn resident_set_size_in_bytes() {
    let stat = Stat::from_line(LINE).unwrap();
    assert_eq!(stat.rss_bytes_for(4096), Some(1314816));
    assert_eq!(stat.rss_bytes_for(usize::MAX), None);
    assert_eq!(stat.rss_bytes(), Some(321 * rustix::param::page_size() as u64));
    let huge = LINE.replace(" 321 ", " 18446744073709551615 ");
    assert_eq!(Stat::from_line(&huge).unwrap().rss_bytes(), None);
}

#[test]
fn lines_of_an_io_file() {
    assert!(matches!(read_io_line(&chars("read_bytes: 4096\n")), IoLine::ReadBytes(Ok(4096))));
    assert!(matches!(read_io_line(&chars(" write_bytes:\t7 B")), IoLine::WriteBytes(Ok(7))));
    assert!(matches!(
        read_io_line(&chars("read_bytes: -1\n")),
        IoLine::ReadBytes(Err(ParseIntError::InvalidDigit))
    ));
    assert!(matches!(read_io_line(&chars("read_bytes:\n")), IoLine::Bare));
    assert!(matches!(read_io_line(&chars("read_bytes:4096\n")), IoLine::Other));
    assert!(matches!(read_io_line(&chars("cancelled_write_bytes: 1\n")), IoLine::Other));
    assert!(matches!(read_io_line(&chars(" \n")), IoLine::Blank));
}

fn io(text: &str) -> Option<Result<Io, ParseIntError>> {
    Io::from_file(&file(text))
}

#[test]
fn io_of_a_process() {
    let text = "rchar: 1\nwchar: 2\nsyscr: 3\nsyscw: 4\nread_bytes: 4096\nwrite_bytes: 8192\ncancelled_write_bytes: 0\n";
    assert_eq!(io(text), Some(Ok(Io { read_bytes: 4096, write_bytes: 8192 })));
    assert_eq!(io(""), Some(Ok(Io { read_bytes: 0, write_bytes: 0 })));
}

#[test]
fn io_of_sound_lines_is_made_of_the_last_values() {
    assert_eq!(
        io("read_bytes: 1\nrchar: 2\nread_bytes: 3\nwrite_bytes: 4\n"),
        Some(Ok(Io { read_bytes: 3, write_bytes: 4 }))
    );
}

#[test]
fn io_may_hold_any_number_of_other_lines() {
    let text = format!("{}read_bytes: 3\nwrite_bytes: 4\n", "rchar: 1\n".repeat(65536));
    assert_eq!(io(&text), Some(Ok(Io { read_bytes: 3, write_bytes: 4 })));
}

#[test]
fn io_ignores_other_lines() {
    assert_eq!(io("read_bytes: 1\nrchar: x\nwrite_bytes: 2\n"), io("read_bytes: 1\nwrite_bytes: 2\n"));
}

#[test]
fn io_is_read_to_its_end_after_a_value() {
    assert_eq!(
        io("read_bytes: 1\nwrite_bytes: 2\n\nread_bytes:\nread_bytes: 3\n"),
        Some(Ok(Io { read_bytes: 3, write_bytes: 2 }))
    );
}

#[test]
fn io_ends_at_a_line_without_a_value_before_the_first() {
    assert_eq!(io("rchar: 1\n\nread_bytes: 1\n"), Some(Ok(Io { read_bytes: 0, write_bytes: 0 })));
    assert_eq!(io("write_bytes:\nread_bytes: 1\n"), Some(Ok(Io { read_bytes: 0, write_bytes: 0 })));
}

#[test]
fn io_refuses_a_value_that_is_no_number() {
    assert_eq!(io("read_bytes: 1\nwrite_bytes: x\n"), Some(Err(ParseIntError::InvalidDigit)));
    assert_eq!(io("read_bytes: 18446744073709551616\n"), Some(Err(ParseIntError::PosOverflow)));
}

#[test]
fn io_counts_its_values() {
    assert_eq!(
        io(&"read_bytes: 1\n".repeat(65535)),
        Some(Ok(Io { read_bytes: 1, write_bytes: 0 }))
    );
    assert_eq!(io(&"read_bytes: 1\n".repeat(65536)), None);
}

#[test]
fn threads_of_a_process() {
    let entries: Vec<Vec<u8>> = [".", "..", "17", "18", "x1", "017", "1"]
        .iter()
        .map(|name| name.as_bytes().to_vec())
        .collect();
    assert_eq!(threads(&entries, 17), vec!["18", "017", "1"]);
    assert_eq!(threads(&vec![vec![0xff, b'1']], 17), Vec::<String>::new());
    assert_eq!(threads(&vec![b" 19\n".to_vec()], 17), vec!["19"]);
}

#[test]
fn the_own_thread_is_left_out() {
    assert_eq!(thread_name("17", 17), None);
    assert_eq!(thread_name("18", 17), Some("18".to_string()));
    assert_eq!(thread_name("\t18 ", 17), Some("18".to_string()));
    assert_eq!(thread_name("-17", 17), None);
}

#[test]
fn identifiers_of_processes() {
    assert_eq!(parse_pid("123"), Some(123));
    assert_eq!(parse_pid("self"), None);
    assert_eq!(parse_pid(" 123"), None);
    assert_eq!(parse_pid("4294967296"), None);
}

#[test]
fn command_line_of_a_process() {
    assert_eq!(cmdline(&file("ls\0-l\0")), "ls\0-l\0");
    assert_eq!(cmdline(&Contents { bytes: b"ls\xff".to_vec(), complete: true }), "");
    assert_eq!(cmdline(&Contents { bytes: b"ls".to_vec(), complete: false }), "ls");
}

struct Machine {
    opens: bool,
    link: Option<&'static str>,
    owner: Option<u32>,
    stat: Option<&'static str>,
    others: bool,
    tasks: Option<Vec<&'static str>>,
}

impl Machine {
    fn reply(&self, request: Request) -> Reply {
        match request {
            Request::OpenDir => Reply::Opened(self.opens),
            Request::ReadLink => Reply::Link(self.link.map(|s| s.as_bytes().to_vec())),
            Request::Owner => Reply::Owner(self.owner),
            Request::Read(ProcFile::Stat) => Reply::File(self.stat.map(file)),
            Request::Read(which) => {
                if !self.others {
                    return Reply::File(None);
                }
                Reply::File(Some(match which.name() {
                    "status" => file("VmData: 2 kB\nVmStk: 1 kB\n"),
                    "smaps_rollup" => file("Pss: 3 kB\nSwapPss: 4 kB\n"),
                    "cmdline" => file("prog\0-x\0"),
                    "io" => file("read_bytes: 5\nwrite_bytes: 6\n"),
                    name => panic!("{}", name),
                }))
            }
            Request::ListTasks => Reply::Tasks(self.tasks.as_ref().map(|names| {
                names.iter().map(|name| name.as_bytes().to_vec()).collect()
            })),
        }
    }

    fn load(
        &self,
        name: &str,
        get_threads: bool,
    ) -> (Result<(Process, Vec<String>), LoadError>, Vec<Request>) {
        let mut loader: Loader = Process::from_path(Some(name.as_bytes().to_vec()), get_threads);
        let mut requests: Vec<Request> = Vec::new();
        while let Some(request) = loader.request() {
            requests.push(request);
            loader = loader.advance(self.reply(request));
        }
        (loader.finish().unwrap(), requests)
    }
}

fn machine() -> Machine {
    Machine {
        opens: true,
        link: None,
        owner: Some(1000),
        stat: Some(LINE),
        others: true,
        tasks: Some(vec!["1234", "1235"]),
    }
}

#[test]
fn a_process_is_read() {
    let (result, requests) = machine().load("1234", true);
    let (process, names) = result.unwrap();
    assert_eq!(process.pid, 1234);
    assert_eq!(process.uid, Some(1000));
    assert_eq!(process.stat.comm, "my prog");
    assert_eq!(process.status.unwrap().private_commit_bytes(), 3072);
    assert_eq!(process.smaps_rollup.unwrap().footprint_bytes(), 7168);
    assert_eq!(process.io, Some(Io { read_bytes: 5, write_bytes: 6 }));
    assert_eq!(process.cmdline, Some("prog\0-x\0".to_string()));
    assert_eq!(names, vec!["1235"]);
    assert_eq!(
        requests,
        vec![
            Request::OpenDir,
            Request::Owner,
            Request::Read(ProcFile::Stat),
            Request::Read(ProcFile::Status),
            Request::Read(ProcFile::SmapsRollup),
            Request::Read(ProcFile::Cmdline),
            Request::Read(ProcFile::Io),
            Request::ListTasks,
        ]
    );
}

#[test]
fn threads_are_listed_only_when_wanted() {
    let (result, requests) = machine().load("1234", false);
    assert_eq!(result.unwrap().1, Vec::<String>::new());
    assert!(!requests.contains(&Request::ListTasks));
}

#[test]
fn only_stat_is_needed() {
    let machine = Machine { owner: None, others: false, tasks: None, ..machine() };
    let (process, names) = machine.load("1234", true).0.unwrap();
    assert_eq!(process.uid, None);
    assert!(process.status.is_none());
    assert!(process.smaps_rollup.is_none());
    assert!(process.io.is_none());
    assert!(process.cmdline.is_none());
    assert!(names.is_empty());
}

#[test]
fn the_link_gives_the_identifier_where_the_name_does_not() {
    let with_link = Machine { link: Some("77"), ..machine() };
    let (result, requests) = with_link.load("self", false);
    assert_eq!(result.unwrap().0.pid, 77);
    assert_eq!(requests[1], Request::ReadLink);
    let (result, requests) = machine().load("self", false);
    assert_eq!(result.unwrap_err(), LoadError::PidNotFound);
    assert_eq!(requests, vec![Request::OpenDir, Request::ReadLink]);
}

#[test]
fn each_failure_ends_the_reading() {
    let (result, requests) = Machine { opens: false, ..machine() }.load("1234", true);
    assert_eq!(result.unwrap_err(), LoadError::Open);
    assert_eq!(requests.len(), 1);
    let (result, requests) = Machine { stat: None, ..machine() }.load("1234", true);
    assert_eq!(result.unwrap_err(), LoadError::StatOpen);
    assert_eq!(requests.len(), 3);
    let (result, _) = Machine { stat: Some("1234"), ..machine() }.load("1234", true);
    assert_eq!(result.unwrap_err(), LoadError::Stat(StatError::StartParenMissing));
    let (result, _) = Machine { stat: Some("1 )("), ..machine() }.load("1234", true);
    assert_eq!(result.unwrap_err(), LoadError::StatNotSeparable);
}

#[test]
fn too_many_values_in_io_are_an_error() {
    let mut loader = Process::from_path(Some(b"1234".to_vec()), false);
    while let Some(request) = loader.request() {
        let reply = if request == Request::Read(ProcFile::Io) {
            Reply::File(Some(file(&"read_bytes: 1\n".repeat(65536))))
        } else {
            machine().reply(request)
        };
        loader = loader.advance(reply);
    }
    assert_eq!(loader.finish().unwrap().unwrap_err(), LoadError::IoTooManyValues);
}

#[test]
fn a_loader_that_is_not_done_has_no_result() {
    assert!(Process::from_path(None, true).finish().is_none());
}

#[test]
fn names_of_the_files() {
    assert_eq!(ProcFile::Stat.name(), "stat");
    assert_eq!(ProcFile::Status.name(), "status");
    assert_eq!(ProcFile::SmapsRollup.name(), "smaps_rollup");
    assert_eq!(ProcFile::Cmdline.name(), "cmdline");
    assert_eq!(ProcFile::Io.name(), "io");
}
