use procstat::error::{CpuField, ParseError};
use procstat::stat::{Stat, StatCpu};

const SAMPLE: &str = "\
cpu  17501 2 6293 8212469 20141 1955 805 0 0 0
cpu0 4713 0 1720 2049410 8036 260 255 0 0 0
cpu1 3866 0 1325 2054893 3673 928 307 0 0 0
cpu2 4966 1 1988 2051243 5596 516 141 0 0 0
cpu3 3955 0 1258 2056922 2835 250 100 0 0 0
intr 1015182 8 8252 0 0 0 0 0 0 1 113449 0 0 198907 0 0 0 18494 0 0 1 0 0 0 29 22 7171 46413 13 0 413 167 528 0 0 0 0 0 0 0 0 0 0 0 0 0 0 0 0 0 0 0 0 0 0 0 0 0 0 0 0 0 0 0 0 0 0 0 0 0 0 0 0 0 0 0 0 0 0 0 0 0 0 0 0 0 0 0 0 0 0 0 0 0 0 0 0 0 0 0 0 0 0 0 0 0 0 0 0 0 0 0 0 0 0 0 0 0 0 0 0 0 0 0 0 0 0 0 0 0 0 0 0 0 0 0 0 0 0 0 0 0 0 0 0 0 0 0 0 0 0 0 0 0 0 0 0 0 0 0 0 0 0 0 0 0 0 0 0 0 0 0 0 0 0 0 0 0 0 0 0 0 0 0 0 0 0 0 0 0 0 0 0 0 0 0 0 0 0 0 0 0 0 0 0 0 0 0 0 0 0 0 0 0 0 0 0 0 0 0 0 0 0 0 0 0 0 0 0 0 0 0 0 0 0 0 0 0 0 0 0 0 0 0 0 0 0 0 0 0 0 0 0 0 0 0 0 0 0 0 0 0 0 0 0 0 0 0 0 0 0 0 0 0 0 0 0 0 0 0 0 0 0 0 0 0 0 0 0 0 0 0 0 0 0 0 0 0 0 0 0 0 0 0 0 0 0 0 0 0 0 0 0 0 0 0 0 0 0 0 0 0 0 0 0 0 0 0 0 0 0 0 0 0 0 0 0 0 0 0 0 0 0 0 0 0 0 0 0 0 0 0 0 0 0 0 0 0 0 0 0 0 0 0 0 0 0 0 0 0 0 0 0 0 0 0 0 0 0 0 0 0 0 0 0 0 0 0 0 0 0 0 0 0 0 0 0 0 0 0 0 0 0 0 0 0 0 0 0 0 0 0 0 0 0 0 0 0 0 0 0 0 0 0 0 0 0 0 0 0 0 0 0 0 0 0 0 0 0 0 0 0 0 0 0 0 0 0 0 0 0 0 0 0 0 0 0 0 0 0 0 0 0 0 0 0 0 0 0 0 0 0 0 0 0 0 0 0
ctxt 2238717
btime 1535128607
processes 2453
procs_running 1
procs_blocked 0
softirq 4257581 64 299604 69 2986 36581 0 3497229 283111 0 137937
";

#[test]
fn test_stat() {
    let raw = SAMPLE;
    let _stat = Stat::from_reader(raw.as_bytes()).unwrap();
}

#[test]
fn sample_yields_expected_values() {
    let stat = Stat::from_reader(SAMPLE.as_bytes()).unwrap();
    assert_eq!(stat.cpu_totals.user, 17501);
    assert_eq!(stat.cpus.len(), 4);
    assert_eq!(stat.context_switches, 2238717);
    assert_eq!(stat.boot_time, 1535128607);
    assert_eq!(stat.processes, 2453);
    assert_eq!(stat.procs_running, 1);
    assert_eq!(stat.procs_blocked, 0);
    assert_eq!(stat.cpus[1].system, 1325);
    assert_eq!(stat.cpus[3].user, 3955);
    assert_eq!(stat.cpu_totals.steal, Some(0));
}

#[test]
fn cpu_line_with_seven_fields() {
    let cpu = StatCpu::from_str(b"cpu0 1 2 3 4 5 6 7").unwrap();
    assert_eq!(cpu.user, 1);
    assert_eq!(cpu.nice, 2);
    assert_eq!(cpu.system, 3);
    assert_eq!(cpu.idle, 4);
    assert_eq!(cpu.iowait, 5);
    assert_eq!(cpu.irq, 6);
    assert_eq!(cpu.softirq, 7);
    assert_eq!(cpu.steal, None);
    assert_eq!(cpu.guest, None);
    assert_eq!(cpu.guest_nice, None);
}

#[test]
fn cpu_line_with_eight_fields() {
    let cpu = StatCpu::from_str(b"cpu0 1 2 3 4 5 6 7 8").unwrap();
    assert_eq!(cpu.steal, Some(8));
    assert_eq!(cpu.guest, None);
    assert_eq!(cpu.guest_nice, None);
}

#[test]
fn cpu_line_with_nine_fields() {
    let cpu = StatCpu::from_str(b"cpu0 1 2 3 4 5 6 7 8 9").unwrap();
    assert_eq!(cpu.steal, Some(8));
    assert_eq!(cpu.guest, Some(9));
    assert_eq!(cpu.guest_nice, None);
}

#[test]
fn cpu_line_with_ten_fields() {
    let cpu = StatCpu::from_str(b"cpu0 1 2 3 4 5 6 7 8 9 10").unwrap();
    assert_eq!(cpu.steal, Some(8));
    assert_eq!(cpu.guest, Some(9));
    assert_eq!(cpu.guest_nice, Some(10));
}

#[test]
fn explicit_zero_differs_from_absent() {
    let with_zero = StatCpu::from_str(b"cpu 1 2 3 4 5 6 7 0").unwrap();
    let absent = StatCpu::from_str(b"cpu 1 2 3 4 5 6 7").unwrap();
    assert_eq!(with_zero.steal, Some(0));
    assert_eq!(absent.steal, None);
    assert_ne!(with_zero, absent);
}

#[test]
fn cpu_line_ignores_extra_columns() {
    let cpu = StatCpu::from_str(b"cpu0 1 2 3 4 5 6 7 8 9 10 11 12 junk").unwrap();
    assert_eq!(cpu.guest_nice, Some(10));
}

#[test]
fn cpu_line_missing_mandatory_field() {
    let err = StatCpu::from_str(b"cpu 1 2 3").unwrap_err();
    assert_eq!(err, ParseError::MissingField { field: CpuField::Idle });
}

#[test]
fn cpu_line_bad_label() {
    let err = StatCpu::from_str(b"foo 1 2 3 4 5 6 7").unwrap_err();
    assert_eq!(err, ParseError::BadCpuLabel { actual: b"foo".to_vec() });
}

#[test]
fn cpu_line_empty() {
    let err = StatCpu::from_str(b"   ").unwrap_err();
    assert_eq!(err, ParseError::MissingToken);
}

#[test]
fn cpu_line_oversized_number_is_missing_field() {
    // 2^64 does not fit in u64, so the `user` column fails to parse.
    let err = StatCpu::from_str(b"cpu 18446744073709551616 2 3 4 5 6 7").unwrap_err();
    assert_eq!(err, ParseError::MissingField { field: CpuField::User });
}

#[test]
fn cpu_line_u64_max_value() {
    let cpu = StatCpu::from_str(b"cpu 18446744073709551615 2 3 4 5 6 7").unwrap();
    assert_eq!(cpu.user, u64::MAX);
}

#[test]
fn cpu_line_tabs_and_repeated_spaces() {
    let cpu = StatCpu::from_str(b"cpu\t1  2 \t 3 4 5 6 7").unwrap();
    assert_eq!(cpu.user, 1);
    assert_eq!(cpu.nice, 2);
    assert_eq!(cpu.system, 3);
}

#[test]
fn total_sums_present_fields() {
    let cpu = StatCpu::from_str(b"cpu 1 2 3 4 5 6 7 8").unwrap();
    assert_eq!(cpu.total(), 36);
    assert_eq!(cpu.checked_total(), Some(36));
}

#[test]
fn total_counts_absent_optionals_as_zero() {
    let seven = StatCpu::from_str(b"cpu 1 2 3 4 5 6 7").unwrap();
    let padded = StatCpu::from_str(b"cpu 1 2 3 4 5 6 7 0 0 0").unwrap();
    assert_eq!(seven.total(), 28);
    assert_eq!(padded.total(), 28);
}

#[test]
fn total_overflow_is_detected() {
    let cpu = StatCpu {
        user: u64::MAX,
        nice: 1,
        system: 0,
        idle: 0,
        iowait: 0,
        irq: 0,
        softirq: 0,
        steal: None,
        guest: None,
        guest_nice: None,
    };
    assert_eq!(cpu.checked_total(), None);
}

#[test]
fn total_overflow_from_optional_field() {
    let cpu = StatCpu {
        user: u64::MAX,
        nice: 0,
        system: 0,
        idle: 0,
        iowait: 0,
        irq: 0,
        softirq: 0,
        steal: Some(1),
        guest: None,
        guest_nice: None,
    };
    assert_eq!(cpu.checked_total(), None);
}

#[test]
fn label_mismatch_names_both_labels() {
    let raw = "\
cpu 1 2 3 4 5 6 7
intr 0
wrong 5
btime 1
processes 1
procs_running 1
procs_blocked 0
";
    let err = Stat::from_reader(raw.as_bytes()).unwrap_err();
    assert_eq!(
        err,
        ParseError::LabelMismatch { expected: b"ctxt".to_vec(), actual: b"wrong".to_vec() }
    );
}

#[test]
fn label_mismatch_on_procs_blocked() {
    let raw = "\
cpu 1 2 3 4 5 6 7
intr 0
ctxt 5
btime 1
processes 1
procs_running 1
procs_stopped 0
";
    let err = Stat::from_reader(raw.as_bytes()).unwrap_err();
    assert_eq!(
        err,
        ParseError::LabelMismatch {
            expected: b"procs_blocked".to_vec(),
            actual: b"procs_stopped".to_vec(),
        }
    );
}

#[test]
fn trailing_content_is_rejected() {
    let raw = "\
cpu 1 2 3 4 5 6 7
intr 0
ctxt 5 junk
btime 1
processes 1
procs_running 1
procs_blocked 0
";
    let err = Stat::from_reader(raw.as_bytes()).unwrap_err();
    assert_eq!(err, ParseError::TrailingContent { label: b"ctxt".to_vec() });
}

#[test]
fn trailing_whitespace_is_tolerated() {
    let raw = "cpu 1 2 3 4 5 6 7\nintr 0\nctxt 5 \t \nbtime 1\nprocesses 1\nprocs_running 1\nprocs_blocked 0\n";
    let stat = Stat::from_reader(raw.as_bytes()).unwrap();
    assert_eq!(stat.context_switches, 5);
}

#[test]
fn missing_value_on_single_value_line() {
    let raw = "\
cpu 1 2 3 4 5 6 7
intr 0
ctxt
btime 1
processes 1
procs_running 1
procs_blocked 0
";
    let err = Stat::from_reader(raw.as_bytes()).unwrap_err();
    assert_eq!(err, ParseError::MissingValue { label: b"ctxt".to_vec() });
}

#[test]
fn truncated_stream_is_unexpected_eof() {
    let raw = "\
cpu 1 2 3 4 5 6 7
intr 0
ctxt 5
btime 1
processes 1
procs_running 1
";
    let err = Stat::from_reader(raw.as_bytes()).unwrap_err();
    assert_eq!(err, ParseError::UnexpectedEof);
}

#[test]
fn empty_input_is_unexpected_eof() {
    let err = Stat::from_reader(b"").unwrap_err();
    assert_eq!(err, ParseError::UnexpectedEof);
}

#[test]
fn zero_cpu_lines_yield_empty_cpus() {
    let raw = "\
cpu 1 2 3 4 5 6 7
intr 0
ctxt 5
btime 6
processes 7
procs_running 8
procs_blocked 9
";
    let stat = Stat::from_reader(raw.as_bytes()).unwrap();
    assert_eq!(stat.cpus.len(), 0);
    assert_eq!(stat.cpu_totals.user, 1);
    assert_eq!(stat.context_switches, 5);
    assert_eq!(stat.boot_time, 6);
    assert_eq!(stat.processes, 7);
    assert_eq!(stat.procs_running, 8);
    assert_eq!(stat.procs_blocked, 9);
}

#[test]
fn content_after_procs_blocked_is_ignored() {
    let raw = "\
cpu 1 2 3 4 5 6 7
intr 0
ctxt 5
btime 6
processes 7
procs_running 8
procs_blocked 9
softirq complete nonsense here
even more nonsense
";
    let stat = Stat::from_reader(raw.as_bytes()).unwrap();
    assert_eq!(stat.procs_blocked, 9);
}

#[test]
fn missing_newline_after_last_line_is_accepted() {
    let raw = "\
cpu 1 2 3 4 5 6 7
intr 0
ctxt 5
btime 6
processes 7
procs_running 8
procs_blocked 9";
    let stat = Stat::from_reader(raw.as_bytes()).unwrap();
    assert_eq!(stat.procs_blocked, 9);
}
