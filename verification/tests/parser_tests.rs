use strace_converter::syscall_parser::{
    format_ts, make_signal_struct, make_syscall_struct, match_line, parse, parse_args, parse_duration,
    parse_pid_pidname_timestamp, record_matched_line, try_parse, CallCaptures, CallType, Config, LineError,
    SyscallPatterns, SystemCall,
};

fn parse_line(line: &str, parse_args_flag: bool) -> (Result<SystemCall, LineError>, usize, usize) {
    let patterns = SyscallPatterns::new().unwrap();
    let config = Config { arg_parse_val: parse_args_flag };
    let mut resumed = 0;
    let mut unfinished = 0;
    let r = parse(&patterns, &config, line, &mut resumed, &mut unfinished);
    (r, resumed, unfinished)
}

fn arg(call: &SystemCall, key: &str) -> Option<String> {
    call.args.as_ref().unwrap().get(key).cloned()
}

#[test]
fn timestamp_in_microseconds() {
    assert_eq!(format_ts("328512.584321"), Ok(328512584321));
    assert_eq!(format_ts("1773146848.562631"), Ok(1773146848562631));
    assert_eq!(format_ts("1.5"), Ok(1_500_000));
    assert_eq!(format_ts("0.000001"), Ok(1));
    // nanosecond timestamps keep their microseconds
    assert_eq!(format_ts("328512.584321045"), Ok(328512584321));
}

#[test]
fn timestamp_edge_cases() {
    // no fraction separator counts as zero
    assert_eq!(format_ts("12"), Ok(0));
    // fraction digits after the sixth are below a microsecond and dropped
    assert_eq!(format_ts("1.584321045"), Ok(1_584_321));
    assert_eq!(format_ts("1.999999999"), Ok(1_999_999));
    // a sign before the fraction digits
    assert_eq!(format_ts("1.+123456"), Ok(1_123_456));
    assert_eq!(format_ts("1.+1234567"), Ok(1_123_456));
    assert_eq!(format_ts("1.+12"), Ok(1_012_000));
    // an empty fraction pads to zero
    assert_eq!(format_ts("7."), Ok(7_000_000));
    assert_eq!(format_ts("x.1"), Err(LineError::InvalidTimestamp));
    assert_eq!(format_ts(".1"), Err(LineError::InvalidTimestamp));
    assert_eq!(format_ts("1.x"), Err(LineError::InvalidTimestamp));
    assert_eq!(format_ts("18446744073709.1"), Ok(18446744073709100000));
    assert_eq!(format_ts("18446744073710.1"), Err(LineError::TimestampOverflow));
}

#[test]
fn duration_in_microseconds() {
    assert_eq!(parse_duration("0.000372"), Some(372));
    assert_eq!(parse_duration("2.5"), Some(2_500_000));
    assert_eq!(parse_duration("3"), Some(3_000_000));
    assert_eq!(parse_duration(".25"), Some(250_000));
    assert_eq!(parse_duration("1.0000019"), Some(1_000_001));
    // rounded to whole nanoseconds before the microseconds are taken
    assert_eq!(parse_duration("0.00000099999"), Some(1));
    assert_eq!(parse_duration("0.0000009994"), Some(0));
    assert_eq!(parse_duration("0.0000019995"), Some(2));
    assert_eq!(parse_duration(""), None);
    assert_eq!(parse_duration("."), None);
    assert_eq!(parse_duration("1.2.3"), None);
}

#[test]
fn line_prefix_fields() {
    let (pid, ts, rest, name) =
        parse_pid_pidname_timestamp("84321<curl> 328512.584321 openat(AT_FDCWD) = 3 <0.000012>").unwrap();
    assert_eq!(pid, 84321);
    assert_eq!(ts, 328512584321);
    assert_eq!(rest, "openat(AT_FDCWD) = 3 <0.000012>");
    assert_eq!(name, "curl");
    let (_, _, rest, name) = parse_pid_pidname_timestamp("7<IPC I/O Child>   1.5   x").unwrap();
    assert_eq!(rest, "x");
    assert_eq!(name, "IPC I/O Child");
}

#[test]
fn line_prefix_errors() {
    assert_eq!(parse_pid_pidname_timestamp("no process").unwrap_err(), LineError::MissingProcessNameEnd);
    assert_eq!(parse_pid_pidname_timestamp("12 curl> 1.0 x").unwrap_err(), LineError::MissingProcessNameStart);
    assert_eq!(parse_pid_pidname_timestamp("x<curl> 1.0 y").unwrap_err(), LineError::InvalidPid);
    assert_eq!(parse_pid_pidname_timestamp("1<curl>   ").unwrap_err(), LineError::MissingTimestamp);
    assert_eq!(parse_pid_pidname_timestamp("1<curl> a.b x").unwrap_err(), LineError::InvalidTimestamp);
}

#[test]
fn argument_names_are_split() {
    let m = parse_args("fd=3, buf=\"a,b\", count=5").unwrap();
    assert_eq!(m.get("fd").unwrap(), "3");
    assert_eq!(m.get(" buf").unwrap(), "\"a,b\"");
    assert_eq!(m.get(" count").unwrap(), "5");
    assert_eq!(m.pairs().len(), 3);
}

#[test]
fn nested_arguments_keep_their_commas() {
    let m = parse_args("argv=[\"a\", \"b\"], envp=0x1").unwrap();
    assert_eq!(m.get("argv").unwrap(), "\"a\", \"b\"");
    // the separator after a nested value starts the next name
    assert_eq!(m.get(", envp").unwrap(), "0x1");
}

#[test]
fn argument_scan_edge_cases() {
    assert_eq!(parse_args("x").unwrap().pairs().len(), 0);
    assert_eq!(parse_args("").unwrap().pairs().len(), 0);
    // a trailing separator stores an empty value over the one just stored
    assert_eq!(parse_args("a=1,").unwrap().get("a").unwrap(), "");
    // a quote in first position opens a quoted part
    assert_eq!(parse_args("\"abc\", 3").unwrap().pairs().len(), 0);
    assert_eq!(parse_args("\"a=b\", c=1").unwrap().get("\"a=b\", c").unwrap(), "1");
    // a name without value stops the scan
    assert!(parse_args("a=").is_none());
}

#[test]
fn regular_call_is_read() {
    let (r, resumed, unfinished) = parse_line(
        "84321<curl> 328512.584321 openat(AT_FDCWD, \"/etc/ld.so.cache\", O_RDONLY|O_CLOEXEC) = 3 <0.000012>",
        false,
    );
    let c = r.unwrap();
    assert_eq!(c.call_type, CallType::RegularSyscall);
    assert_eq!(c.name, "openat");
    assert_eq!(c.pid, 84321);
    assert_eq!(c.procname, "curl");
    assert_eq!(c.timestamp, 328512584321);
    assert_eq!(c.ret.as_deref(), Some("3"));
    assert_eq!(c.dur, Some(12));
    assert_eq!(c.successful, "successful");
    assert_eq!(c.args_string.as_deref(), Some("AT_FDCWD, \"/etc/ld.so.cache\", O_RDONLY|O_CLOEXEC"));
    assert_eq!(arg(&c, "args").as_deref(), Some("AT_FDCWD, \"/etc/ld.so.cache\", O_RDONLY|O_CLOEXEC"));
    assert_eq!((resumed, unfinished), (0, 0));
}

#[test]
fn regular_call_with_named_arguments() {
    let (r, _, _) = parse_line(
        "10<curl> 1.000000 read(fd=3, buf=\"x\", count=4) = -1 EAGAIN (Resource temporarily unavailable) <0.000003>",
        true,
    );
    let c = r.unwrap();
    assert_eq!(arg(&c, "fd").as_deref(), Some("3"));
    assert_eq!(arg(&c, " count").as_deref(), Some("4"));
    assert_eq!(c.successful, "unsuccessful");
    assert_eq!(c.dur, Some(3));
}

#[test]
fn unfinished_and_resumed_calls_are_counted() {
    let (r, resumed, unfinished) = parse_line("84322<curl> 1.000001 read(3<socket:[1]>, <unfinished ...>", false);
    let c = r.unwrap();
    assert_eq!(c.call_type, CallType::UnfinishedCall);
    assert_eq!(c.name, "read");
    assert_eq!(c.args_string.as_deref(), Some("3<socket:[1]>,"));
    assert_eq!(c.ret, None);
    assert_eq!(c.successful, "unknown");
    assert_eq!((resumed, unfinished), (0, 1));

    let (r, resumed, unfinished) =
        parse_line("84322<curl> 1.000050 <... read resumed>\"data\", 4096) = 4 <0.000040>", false);
    let c = r.unwrap();
    assert_eq!(c.call_type, CallType::ResumedCallWithArgs);
    assert_eq!(c.name, "read");
    assert_eq!(c.args_string.as_deref(), Some("data\", 4096)"));
    assert_eq!(c.ret.as_deref(), Some("4"));
    assert_eq!(c.dur, Some(40));
    assert_eq!((resumed, unfinished), (1, 0));

    let (r, resumed, _) = parse_line("5<a> 1.0 <... rseq resumed>) = 0 <0.000015>", false);
    let c = r.unwrap();
    assert_eq!(c.call_type, CallType::ResumedCallWithoutArgs);
    assert_eq!(c.dur, Some(15));
    assert_eq!(resumed, 1);

    let (r, resumed, _) = parse_line("5<a> 1.0 <... exit resumed>) = ?", false);
    let c = r.unwrap();
    assert_eq!(c.call_type, CallType::ResumedWithoutDur);
    assert_eq!(c.ret.as_deref(), Some("?"));
    assert_eq!(c.successful, "unknown");
    assert_eq!(resumed, 1);

    let (r, resumed, unfinished) = parse_line("130929<x> 0.5 <... ppoll resumed> <unfinished ...>) = ?", false);
    let c = r.unwrap();
    assert_eq!(c.call_type, CallType::UnfResCall);
    assert_eq!(c.name, "ppoll");
    assert_eq!((resumed, unfinished), (1, 1));
}

#[test]
fn calls_without_duration_and_signals() {
    let (r, _, _) = parse_line("5<a> 2.0 exit_group(status=0) = ?", false);
    let c = r.unwrap();
    assert_eq!(c.call_type, CallType::CallWithoutArgsNoDur);
    assert_eq!(c.name, "exit_group");
    assert_eq!(c.dur, None);

    let (r, _, _) = parse_line("5<a> 3.0 +++ exited with 0 +++", false);
    let c = r.unwrap();
    assert_eq!(c.call_type, CallType::SignalOrInformational);
    assert_eq!(c.name, "Signal");
    assert_eq!(arg(&c, "text").as_deref(), Some("exited with 0"));
    assert_eq!(c.ret, None);

    let (r, _, _) = parse_line("5<a> 3.0 --- SIGCHLD {si_signo=SIGCHLD, si_code=CLD_EXITED} ---", false);
    let c = r.unwrap();
    assert_eq!(arg(&c, "text").as_deref(), Some("SIGCHLD {si_signo=SIGCHLD, si_code=CLD_EXITED}"));
}

#[test]
fn call_without_arguments_is_read() {
    let (r, resumed, unfinished) = parse_line("5<a> 2.0 getpid()       = 118315 <0.000002>", true);
    let c = r.unwrap();
    assert_eq!(c.call_type, CallType::CallWithoutArgs);
    assert_eq!(c.name, "getpid");
    assert!(c.args.is_none());
    assert_eq!(c.args_string, None);
    assert_eq!(c.ret.as_deref(), Some("118315"));
    assert_eq!(c.dur, Some(2));
    assert_eq!(c.successful, "successful");
    assert_eq!((resumed, unfinished), (0, 0));
}

#[test]
fn unreadable_lines_are_errors() {
    let (r, resumed, unfinished) = parse_line("5<a> 2.0 something odd", false);
    assert_eq!(r.unwrap_err(), LineError::NoPatternMatched);
    assert_eq!((resumed, unfinished), (0, 0));
    let (r, _, _) = parse_line("garbage", false);
    assert_eq!(r.unwrap_err(), LineError::MissingProcessNameEnd);
    let (r, _, _) = parse_line("5<a> 2.0 f(a=) = 0 <0.1>", true);
    assert_eq!(r.unwrap_err(), LineError::InvalidArguments);
    let (r, _, _) = parse_line("5<a> 2.0 f(1) = 0 <>", false);
    assert_eq!(r.unwrap_err(), LineError::InvalidDuration);
}

#[test]
fn records_from_captured_groups() {
    let config = Config { arg_parse_val: false };
    let caps = CallCaptures {
        call: Some("write".to_string()),
        args: Some("1, \"hi\", 2".to_string()),
        ret: Some("-1".to_string()),
        dur: Some("0.5".to_string()),
    };
    let c = make_syscall_struct(&config, 9, 10, "sh".to_string(), &caps, CallType::RegularSyscall).unwrap();
    assert_eq!(c.successful, "unsuccessful");
    assert_eq!(c.dur, Some(500_000));
    assert_eq!(arg(&c, "args").as_deref(), Some("1, \"hi\", 2"));

    let no_name = CallCaptures { call: None, args: None, ret: None, dur: None };
    assert_eq!(
        make_syscall_struct(&config, 9, 10, "sh".to_string(), &no_name, CallType::RegularSyscall).unwrap_err(),
        LineError::MissingCallName
    );
    let bad_dur = CallCaptures { call: Some("f".to_string()), args: None, ret: None, dur: Some("".to_string()) };
    assert_eq!(
        make_syscall_struct(&config, 9, 10, "sh".to_string(), &bad_dur, CallType::RegularSyscall).unwrap_err(),
        LineError::InvalidDuration
    );

    let s = make_signal_struct(1, 2, "p".to_string(), &Some("killed".to_string())).unwrap();
    assert_eq!(s.name, "Signal");
    assert_eq!(arg(&s, "text").as_deref(), Some("killed"));
    assert_eq!(make_signal_struct(1, 2, "p".to_string(), &None).unwrap_err(), LineError::MissingSignalText);
}

#[test]
fn lines_are_matched_by_kind() {
    let patterns = SyscallPatterns::new().unwrap();
    let m = match_line(&patterns, "getpid() = 1 <0.000002>");
    assert_eq!(m.kind, Some(CallType::CallWithoutArgs));
    assert_eq!(m.caps.call.as_deref(), Some("getpid"));
    assert_eq!(m.caps.args, None);
    assert_eq!(m.caps.dur.as_deref(), Some("0.000002"));
    let m = match_line(&patterns, "close(3) = 0 <0.000004>");
    assert_eq!(m.kind, Some(CallType::RegularSyscall));
    assert_eq!(m.caps.args.as_deref(), Some("3"));
    assert_eq!(m.caps.ret.as_deref(), Some("0"));
    let m = match_line(&patterns, "+++ killed by SIGKILL +++");
    assert_eq!(m.kind, Some(CallType::SignalOrInformational));
    assert_eq!(m.text.as_deref(), Some("killed by SIGKILL"));
    let m = match_line(&patterns, "nothing to see");
    assert_eq!(m.kind, None);
}

#[test]
fn records_from_match_results() {
    let config = Config { arg_parse_val: true };
    let caps = CallCaptures {
        call: Some("read".to_string()),
        args: Some("\"x\", 4)".to_string()),
        ret: Some("4".to_string()),
        dur: Some("0.000040".to_string()),
    };
    let mut resumed = 3;
    let mut unfinished = 5;
    let c = record_matched_line(
        &config,
        1,
        2,
        "p".to_string(),
        Some(CallType::ResumedCallWithArgs),
        &caps,
        &None,
        &mut resumed,
        &mut unfinished,
    )
    .unwrap();
    assert_eq!(c.call_type, CallType::ResumedCallWithArgs);
    assert_eq!(c.dur, Some(40));
    assert_eq!(c.args.as_ref().unwrap().pairs().len(), 0);
    assert_eq!((resumed, unfinished), (4, 5));

    let c = record_matched_line(
        &config,
        1,
        2,
        "p".to_string(),
        Some(CallType::UnfResCall),
        &caps,
        &None,
        &mut resumed,
        &mut unfinished,
    )
    .unwrap();
    assert_eq!(c.call_type, CallType::UnfResCall);
    assert_eq!((resumed, unfinished), (5, 6));

    let text = Some("exited with 1".to_string());
    let s = record_matched_line(
        &config,
        1,
        2,
        "p".to_string(),
        Some(CallType::SignalOrInformational),
        &caps,
        &text,
        &mut resumed,
        &mut unfinished,
    )
    .unwrap();
    assert_eq!(s.name, "Signal");
    assert_eq!(arg(&s, "text").as_deref(), Some("exited with 1"));
    assert_eq!((resumed, unfinished), (5, 6));

    let e = record_matched_line(&config, 1, 2, "p".to_string(), None, &caps, &text, &mut resumed, &mut unfinished);
    assert_eq!(e.unwrap_err(), LineError::NoPatternMatched);
    assert_eq!((resumed, unfinished), (5, 6));
}

#[test]
fn parsed_arguments_come_from_the_list() {
    // names and values are pieces of the list, no more names than `=` signs
    let list = "a=1, b={x=2, y=3}, c=4";
    let m = parse_args(list).unwrap();
    assert!(m.pairs().len() <= list.matches('=').count());
    for (k, v) in m.pairs() {
        assert!(list.contains(k.as_str()));
        assert!(list.contains(v.as_str()));
    }
}

#[test]
fn argument_pairs_are_sorted_by_name() {
    let m = parse_args("b=1, a=2, c=3").unwrap();
    let names: Vec<&str> = m.pairs().iter().map(|(k, _)| k.as_str()).collect();
    assert_eq!(names, vec![" a", " c", "b"]);
}

#[test]
fn counters_at_their_limit_refuse_only_lines_that_count() {
    let patterns = SyscallPatterns::new().unwrap();
    let config = Config { arg_parse_val: false };
    let mut resumed = usize::MAX;
    let mut unfinished = usize::MAX;
    let r = try_parse(&patterns, &config, "5<a> 2.0 close(3) = 0 <0.000001>", &mut resumed, &mut unfinished);
    assert_eq!(r.unwrap().name, "close");
    let r = try_parse(&patterns, &config, "5<a> 2.0 read(3, <unfinished ...>", &mut resumed, &mut unfinished);
    assert_eq!(r.unwrap_err(), LineError::CounterOverflow);
    assert_eq!((resumed, unfinished), (usize::MAX, usize::MAX));
    let mut resumed = 0;
    let r = try_parse(&patterns, &config, "5<a> 2.0 read(3, <unfinished ...>", &mut resumed, &mut unfinished);
    assert_eq!(r.unwrap_err(), LineError::CounterOverflow);
    let mut unfinished = 7;
    let r = try_parse(&patterns, &config, "5<a> 2.0 read(3, <unfinished ...>", &mut resumed, &mut unfinished);
    assert_eq!(r.unwrap().call_type, CallType::UnfinishedCall);
    assert_eq!((resumed, unfinished), (0, 8));
    let r = try_parse(&patterns, &config, "garbage", &mut resumed, &mut unfinished);
    assert_eq!(r.unwrap_err(), LineError::MissingProcessNameEnd);
}
