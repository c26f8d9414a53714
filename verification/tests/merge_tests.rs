use strace_converter::arg_map::ArgMap;
use strace_converter::syscall_parser::{
    make_syscall_struct, parse, CallCaptures, CallType, Config, SyscallPatterns, SystemCall,
};
use strace_converter::tef_converter::{
    build_trace_event_format, check_storage, handle_partial_system_call, merge_overflows, next_record_to_write,
};

fn read(line: &str) -> SystemCall {
    let patterns = SyscallPatterns::new().unwrap();
    let config = Config { arg_parse_val: false };
    let mut resumed = 0;
    let mut unfinished = 0;
    parse(&patterns, &config, line, &mut resumed, &mut unfinished).unwrap()
}

#[test]
fn unfinished_call_is_merged_with_its_continuation() {
    let mut store = Vec::new();
    let mut merges = 0;
    let u = read("84322<curl> 1.000001 read(3<socket:[1]>, <unfinished ...>");
    let out = handle_partial_system_call(&mut store, u, &mut merges);
    assert_eq!(out.call_type, CallType::UnfinishedCall);
    assert_eq!(store.len(), 1);

    let r = read("84322<curl> 1.000050 <... read resumed>\"data\", 4096) = 4 <0.000040>");
    let m = handle_partial_system_call(&mut store, r, &mut merges);
    assert_eq!(store.len(), 0);
    assert_eq!(merges, 1);
    assert_eq!(m.call_type, CallType::RegularSyscall);
    assert_eq!(m.timestamp, 1000001);
    assert_eq!(m.ret.as_deref(), Some("4"));
    assert_eq!(m.dur, Some(40));
    assert_eq!(m.successful, "successful");
    assert_eq!(m.args_string.as_deref(), Some("3<socket:[1]>,"));
    let e = build_trace_event_format(&m);
    assert_eq!(e.ph, "X");
    assert_eq!(e.ts, 1000001);
    assert_eq!(e.dur, Some(40));
}

#[test]
fn continuation_without_duration_stays_instant() {
    let mut store = Vec::new();
    let mut merges = 0;
    handle_partial_system_call(&mut store, read("7<a> 1.0 recvmsg(5, <unfinished ...>"), &mut merges);
    let m = handle_partial_system_call(&mut store, read("7<a> 2.0 <... recvmsg resumed>) = ?"), &mut merges);
    assert_eq!(m.call_type, CallType::ResumedWithoutDur);
    assert_eq!(m.timestamp, 1_000_000);
    assert_eq!(merges, 1);
    assert_eq!(build_trace_event_format(&m).ph, "i");
}

#[test]
fn continuation_needs_same_process_name_and_earlier_start() {
    let mut store = Vec::new();
    let mut merges = 0;
    handle_partial_system_call(&mut store, read("7<a> 5.0 read(5, <unfinished ...>"), &mut merges);
    // other process
    let r = handle_partial_system_call(&mut store, read("8<a> 6.0 <... read resumed>) = 0 <0.1>"), &mut merges);
    assert_eq!(r.call_type, CallType::ResumedCallWithoutArgs);
    // other call
    let r = handle_partial_system_call(&mut store, read("7<a> 6.0 <... write resumed>) = 0 <0.1>"), &mut merges);
    assert_eq!(r.call_type, CallType::ResumedCallWithoutArgs);
    // earlier continuation
    let r = handle_partial_system_call(&mut store, read("7<a> 4.0 <... read resumed>) = 0 <0.1>"), &mut merges);
    assert_eq!(r.call_type, CallType::ResumedCallWithoutArgs);
    assert_eq!(store.len(), 1);
    assert_eq!(merges, 0);
    let r = check_storage(&mut store, read("7<a> 6.0 <... read resumed>) = 0 <0.1>"), &mut merges);
    assert_eq!(r.call_type, CallType::RegularSyscall);
    assert_eq!(store.len(), 0);
    assert_eq!(merges, 1);
}

#[test]
fn other_records_pass_unchanged() {
    let mut store = Vec::new();
    let mut merges = 0;
    let r = handle_partial_system_call(&mut store, read("7<a> 1.0 close(3) = 0 <0.000001>"), &mut merges);
    assert_eq!(r.call_type, CallType::RegularSyscall);
    assert_eq!(r.name, "close");
    assert!(store.is_empty());
    assert_eq!(merges, 0);
}

#[test]
fn complete_event_for_regular_call() {
    let c = read("84321<curl> 328512.584321 openat(AT_FDCWD, \"/etc/x\", O_RDONLY) = 3 <0.000012>");
    let e = build_trace_event_format(&c);
    assert_eq!(e.ph, "X");
    assert_eq!(e.name, "openat");
    assert_eq!(e.cat, "successful");
    assert_eq!(e.ts, 328512584321);
    assert_eq!(e.pid, 84321);
    assert_eq!(e.tid, 84321);
    assert_eq!(e.dur, Some(12));
    let args = e.args.unwrap();
    assert_eq!(args.get("ret").unwrap(), "3");
    assert_eq!(args.get("args").unwrap(), "AT_FDCWD, \"/etc/x\", O_RDONLY");
}

#[test]
fn instant_events_for_the_rest() {
    let u = read("7<a> 1.0 read(5, <unfinished ...>");
    let e = build_trace_event_format(&u);
    assert_eq!(e.ph, "i");
    assert!(e.args.as_ref().unwrap().get("ret").is_none());
    let s = read("7<a> 1.0 +++ exited with 0 +++");
    let e = build_trace_event_format(&s);
    assert_eq!(e.ph, "i");
    assert_eq!(e.name, "Signal");
    assert_eq!(e.dur, None);
    let d = read("7<a> 2.0 exit_group(status=0) = ?");
    let e = build_trace_event_format(&d);
    assert_eq!(e.ph, "i");
    assert_eq!(e.args.as_ref().unwrap().get("ret").unwrap(), "?");
}

#[test]
fn argument_map_replaces_values() {
    let mut m = ArgMap::new();
    m.insert("a".to_string(), "1".to_string());
    m.insert("b".to_string(), "2".to_string());
    m.insert("a".to_string(), "3".to_string());
    assert_eq!(m.get("a").unwrap(), "3");
    assert_eq!(m.get("b").unwrap(), "2");
    assert!(m.get("c").is_none());
    assert_eq!(m.pairs().len(), 2);
    let copy = m.clone();
    assert_eq!(copy.get("a").unwrap(), "3");
}

#[test]
fn complete_kind_without_duration_is_instant() {
    let caps = CallCaptures { call: Some("f".to_string()), args: None, ret: Some("0".to_string()), dur: None };
    let config = Config { arg_parse_val: false };
    let c = make_syscall_struct(&config, 1, 5, "p".to_string(), &caps, CallType::RegularSyscall).unwrap();
    let e = build_trace_event_format(&c);
    assert_eq!(e.ph, "i");
    assert_eq!(e.dur, None);
}

#[test]
fn unfinished_records_wait_for_their_continuation() {
    let mut store = Vec::new();
    let mut merges = 0;
    let u = read("9<a> 1.0 read(3, <unfinished ...>");
    assert!(next_record_to_write(&mut store, u, &mut merges).is_none());
    assert_eq!(store.len(), 1);
    let o = read("9<a> 1.5 close(4) = 0 <0.000001>");
    let w = next_record_to_write(&mut store, o, &mut merges).unwrap();
    assert_eq!(w.name, "close");
    assert_eq!(store.len(), 1);
    let r = read("9<a> 2.0 <... read resumed>\"x\", 1) = 1 <0.000007>");
    let w = next_record_to_write(&mut store, r, &mut merges).unwrap();
    assert_eq!(w.call_type, CallType::RegularSyscall);
    assert_eq!(w.timestamp, 1_000_000);
    assert_eq!(w.dur, Some(7));
    assert_eq!(store.len(), 0);
    assert_eq!(merges, 1);
}

#[test]
fn merge_counter_limit_matters_only_for_merges() {
    let mut store = Vec::new();
    let mut merges = 0;
    let u = read("9<a> 1.0 read(3, <unfinished ...>");
    assert!(!merge_overflows(&store, &u, usize::MAX));
    handle_partial_system_call(&mut store, u, &mut merges);
    let other = read("9<a> 2.0 <... write resumed>) = 1 <0.000001>");
    assert!(!merge_overflows(&store, &other, usize::MAX));
    let r = read("9<a> 2.0 <... read resumed>) = 1 <0.000001>");
    assert!(merge_overflows(&store, &r, usize::MAX));
    assert!(!merge_overflows(&store, &r, usize::MAX - 1));
}
