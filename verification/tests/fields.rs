//! Files made of keys and numbers.

use procmetrics::commit::{get_commit_usage, MemData};
use procmetrics::fields::{entry_bytes, from_kilobytes, read_entry, read_pair};
use procmetrics::lines::Contents;
use procmetrics::number::ParseIntError;
use procmetrics::process::smaps_rollup::SmapsRollup;
use procmetrics::process::status::Status;
use std::io::BufRead;

fn file(text: &str) -> Contents {
    Contents { bytes: text.as_bytes().to_vec(), complete: true }
}

fn chars(s: &str) -> Vec<char> {
    s.chars().collect()
}

const STATUS: &str = "Name:\tbash\nUmask:\t0022\nVmPeak:\t   10000 kB\nVmData:\t     560 kB\nVmStk:\t     132 kB\nVmExe:\t     900 kB\n";

#[test]
fn lines_keep_their_newline() {
    let lines = file("a\n\nb").read_lines();
    assert_eq!(lines, vec![chars("a\n"), chars("\n"), chars("b")]);
    assert_eq!(file("").read_lines(), Vec::<Vec<char>>::new());
    assert_eq!(file("a\n").read_lines(), vec![chars("a\n")]);
}

#[test]
fn lines_are_those_of_a_buffered_reader() {
    let inputs: [&[u8]; 6] =
        [b"", b"\n", b"a\nb\n", b"a\n\xc3\xa9\nc", b"a\n\xff\nb\n", b"a\nb\xc3"];
    for bytes in inputs {
        let mut expected: Vec<Vec<char>> = Vec::new();
        let mut reader = bytes;
        let mut line = String::new();
        while let Ok(n) = reader.read_line(&mut line) {
            if n == 0 {
                break;
            }
            expected.push(chars(&line));
            line.clear();
        }
        let contents = Contents { bytes: bytes.to_vec(), complete: true };
        assert_eq!(contents.read_lines(), expected);
    }
}

#[test]
fn a_read_that_failed_loses_the_line_it_was_in() {
    let contents = Contents { bytes: b"a\nb".to_vec(), complete: false };
    assert_eq!(contents.read_lines(), vec![chars("a\n")]);
}

#[test]
fn an_entry_is_the_first_word_after_the_key() {
    assert_eq!(read_entry(&chars("VmStk:\t 132 kB\n"), "VmStk:"), Some(Ok(132)));
    assert_eq!(read_entry(&chars("VmStk:132"), "VmStk:"), Some(Ok(132)));
    assert_eq!(
        read_entry(&chars("VmStk: 132kB\n"), "VmStk:"),
        Some(Err(ParseIntError::InvalidDigit))
    );
    assert_eq!(read_entry(&chars("VmStk:\n"), "VmStk:"), None);
    assert_eq!(read_entry(&chars(" VmStk: 1\n"), "VmStk:"), None);
}

#[test]
fn kilobytes_saturate() {
    assert_eq!(from_kilobytes(0), 0);
    assert_eq!(from_kilobytes(3), 3072);
    assert_eq!(from_kilobytes(u64::MAX / 1024), u64::MAX / 1024 * 1024);
    assert_eq!(from_kilobytes(u64::MAX / 1024 + 1), u64::MAX);
    assert_eq!(entry_bytes(Some(Ok(2))), 2048);
    assert_eq!(entry_bytes(Some(Err(ParseIntError::Empty))), 0);
    assert_eq!(entry_bytes(None), 0);
}

#[test]
fn the_pair_is_read_until_both_are_there() {
    let lines = file("b: 1\nb: 2\na: 3\nb: 4\n").read_lines();
    assert_eq!(read_pair(&lines, "a:", "b:", false), (Some(Ok(3)), Some(Ok(2))));
    let lines = file("b: x\na: 3\nb: 4\na: 5\n").read_lines();
    assert_eq!(
        read_pair(&lines, "a:", "b:", false),
        (Some(Ok(3)), Some(Err(ParseIntError::InvalidDigit)))
    );
    assert_eq!(read_pair(&lines, "a:", "b:", true), (Some(Ok(3)), Some(Ok(4))));
}

#[test]
fn status_of_a_process() {
    let status = Status::from_file(&file(STATUS));
    assert_eq!(status, Status { vm_data_bytes: 573440, vm_stk_bytes: 135168 });
    assert_eq!(status.private_commit_bytes(), 708608);
}

#[test]
fn status_of_a_kernel_thread_has_no_sizes() {
    let status = Status::from_file(&file("Name:\tkthreadd\nThreads:\t1\n"));
    assert_eq!(status, Status { vm_data_bytes: 0, vm_stk_bytes: 0 });
}

#[test]
fn status_stops_with_both() {
    let more = format!("{}VmData: 1 kB\nVmStk: 1 kB\n", STATUS);
    assert_eq!(Status::from_file(&file(&more)), Status::from_file(&file(STATUS)));
}

#[test]
fn status_ignores_other_lines() {
    let without = Status::from_file(&file("VmData: 560 kB\nVmStk: 132 kB\n"));
    assert_eq!(Status::from_file(&file(STATUS)), without);
}

#[test]
fn status_counts_what_is_no_number_as_zero() {
    let status = Status::from_file(&file("VmData: many kB\nVmStk: 2 kB\nVmData: 7 kB\n"));
    assert_eq!(status, Status { vm_data_bytes: 0, vm_stk_bytes: 2048 });
}

#[test]
fn status_keeps_what_was_found_before_a_bad_line() {
    let contents =
        Contents { bytes: b"VmData: 1 kB\n\xff\nVmStk: 1 kB\n".to_vec(), complete: true };
    assert_eq!(
        Status::from_file(&contents),
        Status { vm_data_bytes: 1024, vm_stk_bytes: 0 }
    );
}

#[test]
fn private_commit_saturates() {
    let status = Status { vm_data_bytes: u64::MAX, vm_stk_bytes: 1 };
    assert_eq!(status.private_commit_bytes(), u64::MAX);
}

#[test]
fn footprint_of_a_process() {
    let text = "55d0-7ffe ---p 00000000 00:00 0    [rollup]\nRss:  900 kB\nPss:  300 kB\nPss_Dirty: 7 kB\nSwap: 9 kB\nSwapPss:  40 kB\nLocked: 0 kB\n";
    let rollup = SmapsRollup::from_file(&file(text));
    assert_eq!(rollup, SmapsRollup { pss_bytes: 307200, swap_pss_bytes: 40960 });
    assert_eq!(rollup.footprint_bytes(), 348160);
}

#[test]
fn swap_pss_is_not_pss() {
    let rollup = SmapsRollup::from_file(&file("SwapPss: 5 kB\nPss\nPss : 3 kB\n"));
    assert_eq!(rollup, SmapsRollup { pss_bytes: 0, swap_pss_bytes: 5120 });
    let rollup = SmapsRollup::from_file(&file("SwapPss: 5 kB\nPss: 3 kB\nSwapPss: 9 kB\n"));
    assert_eq!(rollup, SmapsRollup { pss_bytes: 3072, swap_pss_bytes: 5120 });
}

#[test]
fn smaps_rollup_ignores_other_lines_and_stops() {
    let plain = SmapsRollup::from_file(&file("Pss: 3 kB\nSwapPss: 5 kB\n"));
    let mixed = SmapsRollup::from_file(&file("Rss: 1 kB\nPss: 3 kB\nSwap: 2 kB\nSwapPss: 5 kB\nPss: 9 kB\n"));
    assert_eq!(plain, mixed);
}

#[test]
fn footprint_saturates() {
    let rollup = SmapsRollup { pss_bytes: u64::MAX - 1, swap_pss_bytes: 2 };
    assert_eq!(rollup.footprint_bytes(), u64::MAX);
}

#[test]
fn commit_usage_of_the_system() {
    let text = "MemTotal: 32 kB\nCommitLimit:    20000000 kB\nCommitted_AS:    5000000 kB\nVmallocTotal: 1 kB\n";
    assert_eq!(
        get_commit_usage(Some(&file(text))),
        Some(MemData { used_bytes: 5120000000, total_bytes: 20480000000 })
    );
}

#[test]
fn commit_usage_is_absent_without_its_fields() {
    assert_eq!(get_commit_usage(None), None);
    assert_eq!(get_commit_usage(Some(&file(""))), None);
    assert_eq!(get_commit_usage(Some(&file("CommitLimit: 1 kB\n"))), None);
    assert_eq!(get_commit_usage(Some(&file("Committed_AS: 1 kB\n"))), None);
    assert_eq!(get_commit_usage(Some(&file("CommitLimit: 0 kB\nCommitted_AS: 1 kB\n"))), None);
    assert_eq!(get_commit_usage(Some(&file("CommitLimit: x kB\nCommitted_AS: 1 kB\n"))), None);
}

#[test]
fn commit_usage_takes_a_later_entry_for_one_that_is_no_number() {
    let text = "CommitLimit: x kB\nCommitted_AS: 1 kB\nCommitLimit: 2 kB\nCommitLimit: 3 kB\n";
    assert_eq!(
        get_commit_usage(Some(&file(text))),
        Some(MemData { used_bytes: 1024, total_bytes: 2048 })
    );
    let text = "CommitLimit: 2 kB\nCommitLimit: x kB\nCommitted_AS: 1 kB\n";
    assert_eq!(get_commit_usage(Some(&file(text))), None);
}

#[test]
fn commit_usage_needs_both_before_a_failure() {
    let failed = |text: &str| Contents { bytes: text.as_bytes().to_vec(), complete: false };
    let usage = Some(MemData { used_bytes: 1024, total_bytes: 2048 });
    assert_eq!(get_commit_usage(Some(&failed("CommitLimit: 2 kB\nCommitted_AS: 1 kB\nx"))), usage);
    assert_eq!(get_commit_usage(Some(&failed("CommitLimit: 2 kB\nCommitted_AS: 1 kB"))), None);
}

#[test]
fn commit_usage_ignores_other_lines_and_stops() {
    let plain = get_commit_usage(Some(&file("CommitLimit: 2 kB\nCommitted_AS: 1 kB\n")));
    let mixed = get_commit_usage(Some(&file(
        "MemFree: 7 kB\nCommitLimit: 2 kB\n\nCommitted_AS: 1 kB\nCommitted_AS: 8 kB\n",
    )));
    assert_eq!(plain, mixed);
    assert_eq!(plain, Some(MemData { used_bytes: 1024, total_bytes: 2048 }));
}

#[test]
fn the_order_of_the_two_fields_does_not_matter() {
    let usage = Some(MemData { used_bytes: 1024, total_bytes: 2048 });
    assert_eq!(get_commit_usage(Some(&file("Committed_AS: 1 kB\nCommitLimit: 2 kB\n"))), usage);
    let status = Status::from_file(&file("VmStk: 1 kB\nVmPeak: 9 kB\nVmData: 2 kB\n"));
    assert_eq!(status, Status { vm_data_bytes: 2048, vm_stk_bytes: 1024 });
    let rollup = SmapsRollup::from_file(&file("SwapPss: 1 kB\nPss: 2 kB\n"));
    assert_eq!(rollup, SmapsRollup { pss_bytes: 2048, swap_pss_bytes: 1024 });
}

#[test]
fn whole_lines_are_read_before_what_follows_them() {
    let whole = "caf\u{e9}: 1\n\nb: 2\n";
    let before = file(whole).read_lines();
    for rest in ["", "c: 3\n", "c: 3\nd"] {
        let mut expected = before.clone();
        expected.extend(file(rest).read_lines());
        assert_eq!(file(&format!("{}{}", whole, rest)).read_lines(), expected);
    }
    let mut bytes = whole.as_bytes().to_vec();
    bytes.extend_from_slice(b"\xffx\nc: 3\n");
    assert_eq!(Contents { bytes, complete: true }.read_lines(), before);
    let mut bytes = whole.as_bytes().to_vec();
    bytes.extend_from_slice(b"c: 3");
    assert_eq!(Contents { bytes, complete: false }.read_lines(), before);
}
