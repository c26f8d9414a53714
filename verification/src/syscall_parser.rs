//! Parsing of one strace log line into a `SystemCall`.
//!
//! A line reads `PID<process name> SECONDS.FRACTION CALL...`; the call part is
//! matched against a fixed list of regular expressions, tried in order, and the
//! first one that matches decides what kind of record the line is.

use vstd::prelude::*;

use crate::arg_map::ArgMap;
use vstd::string::StringExecFns;
use crate::pattern::{capture_groups, opt_view, regex_capture, regex_compiles, Pattern};
use crate::text::{
    chars_of, find_char, index_of, lemma_index_of_from, lemma_scan_ws, parse_u64_in, parse_unsigned,
    parse_usize_in, scan_whitespace, scan_ws, parse_digits_in, all_digits_in, all_digits, is_digit,
    digits_value, digit_value, lemma_digits_value_bound, lemma_digits_value_lt_pow10, pow10,
};
use vstd::string::StrSliceExecFns;

verus! {

/// The kind of a log line, each read by its own pattern.
#[derive(Debug, Clone, Copy, PartialEq, Eq, Structural)]
pub enum CallType {
    RegularSyscall,
    UnfinishedCall,
    ResumedCallWithArgs,
    ResumedCallWithoutArgs,
    CallWithoutArgs,
    CallWithoutArgsNoDur,
    SignalOrInformational,
    ResumedWithoutDur,
    UnfResCall,
}

/// Options that change how a line is read.
#[derive(Debug, Clone, Copy, PartialEq, Eq, Structural)]
pub struct Config {
    /// Split the argument list into named arguments; otherwise the whole list
    /// is stored under the name `args`.
    pub arg_parse_val: bool,
}

/// Why a line could not be read.
#[derive(Debug, Clone, Copy, PartialEq, Eq, Structural)]
pub enum LineError {
    /// The line holds no `>` closing the process name.
    MissingProcessNameEnd,
    /// No `<` opens the process name before the first `>`.
    MissingProcessNameStart,
    /// The text before `<` is not a process id.
    InvalidPid,
    /// Nothing follows the process name.
    MissingTimestamp,
    /// A part of the timestamp is not a number.
    InvalidTimestamp,
    /// The timestamp in microseconds does not fit in a `u64`.
    TimestampOverflow,
    /// No pattern matches the call part of the line.
    NoPatternMatched,
    /// The matched pattern gave no call name.
    MissingCallName,
    /// The argument list cannot be split into named arguments.
    InvalidArguments,
    /// The duration is not a decimal number of seconds.
    InvalidDuration,
    /// A signal or informational line gave no text.
    MissingSignalText,
    /// The line would count one more resumed or unfinished call than a
    /// `usize` holds.
    CounterOverflow,
}

/// One record of the log.
#[derive(Debug, Clone)]
pub struct SystemCall {
    /// Microseconds since the epoch.
    pub timestamp: u64,
    pub pid: usize,
    pub name: String,
    pub args: Option<ArgMap>,
    /// The argument list as it appears in the line.
    pub args_string: Option<String>,
    /// Duration in microseconds.
    pub dur: Option<u128>,
    pub ret: Option<String>,
    pub call_type: CallType,
    /// `successful`, `unsuccessful` or `unknown`.
    pub successful: String,
    pub procname: String,
}

/// The model of a `SystemCall`: its strings as character sequences and its
/// arguments as a map.
pub struct SystemCallView {
    pub timestamp: u64,
    pub pid: usize,
    pub name: Seq<char>,
    pub args: Option<Map<Seq<char>, Seq<char>>>,
    pub args_string: Option<Seq<char>>,
    pub dur: Option<u128>,
    pub ret: Option<Seq<char>>,
    pub call_type: CallType,
    pub successful: Seq<char>,
    pub procname: Seq<char>,
}

/// The view of optional arguments.
pub open spec fn args_view(a: Option<ArgMap>) -> Option<Map<Seq<char>, Seq<char>>> {
    match a {
        Some(m) => Some(m@),
        None => None,
    }
}

impl View for SystemCall {
    type V = SystemCallView;

    open spec fn view(&self) -> SystemCallView {
        SystemCallView {
            timestamp: self.timestamp,
            pid: self.pid,
            name: self.name@,
            args: args_view(self.args),
            args_string: opt_view(self.args_string),
            dur: self.dur,
            ret: opt_view(self.ret),
            call_type: self.call_type,
            successful: self.successful@,
            procname: self.procname@,
        }
    }
}

/// A copy of an optional string.
pub fn copy_opt_string(o: &Option<String>) -> (r: Option<String>)
    ensures
        opt_view(r) == opt_view(*o),
{
    match o {
        Some(s) => Some(s.clone()),
        None => None,
    }
}

impl SystemCall {
    /// A copy of this record.
    pub fn duplicate(&self) -> (r: SystemCall)
        ensures
            r@ == self@,
    {
        SystemCall {
            timestamp: self.timestamp,
            pid: self.pid,
            name: self.name.clone(),
            args: match &self.args {
                Some(m) => Some(m.duplicate()),
                None => None,
            },
            args_string: copy_opt_string(&self.args_string),
            dur: self.dur,
            ret: copy_opt_string(&self.ret),
            call_type: self.call_type,
            successful: self.successful.clone(),
            procname: self.procname.clone(),
        }
    }
}

/// The view of a parse result.
pub open spec fn result_view(r: Result<SystemCall, LineError>) -> Result<SystemCallView, LineError> {
    match r {
        Ok(c) => Ok(c@),
        Err(e) => Err(e),
    }
}

/// `s` padded on the right with `0` to at least `w` characters.
pub open spec fn pad_to(s: Seq<char>, w: nat) -> Seq<char> {
    if s.len() < w {
        s + Seq::new((w - s.len()) as nat, |i: int| '0')
    } else {
        s
    }
}

/// `s` padded on the right with `0` to at least six characters.
pub open spec fn pad6(s: Seq<char>) -> Seq<char> {
    pad_to(s, 6)
}

/// The six characters of a timestamp fraction that give its microseconds: a
/// fraction of at most six characters padded with `0` to six; a longer one
/// cut to its first six digits, after an optional `+` sign, as the digits
/// after the sixth are below a microsecond.
pub open spec fn micro_digits(f: Seq<char>) -> Seq<char> {
    if f.len() <= 6 {
        pad6(f)
    } else if f[0] == '+' {
        f.drop_first().take(6)
    } else {
        f.take(6)
    }
}

/// The microseconds of a timestamp `SECONDS.FRACTION`: the seconds times one
/// million plus the fraction read as microseconds (`micro_digits`). The
/// fraction padded to six characters must read as a number as a whole. A
/// timestamp without `.` counts as zero.
pub open spec fn timestamp_spec(t: Seq<char>) -> Result<u64, LineError> {
    match index_of(t, '.') {
        None => Ok(0),
        Some(p) => match parse_unsigned(t.take(p), u64::MAX as nat) {
            None => Err(LineError::InvalidTimestamp),
            Some(secs) => if secs * 1_000_000 > u64::MAX {
                Err(LineError::TimestampOverflow)
            } else if parse_unsigned(pad6(t.skip(p + 1)), u64::MAX as nat) is None {
                Err(LineError::InvalidTimestamp)
            } else {
                match parse_unsigned(micro_digits(t.skip(p + 1)), u64::MAX as nat) {
                    None => Err(LineError::InvalidTimestamp),
                    Some(us) => if secs * 1_000_000 + us > u64::MAX {
                        Err(LineError::TimestampOverflow)
                    } else {
                        Ok((secs * 1_000_000 + us) as u64)
                    },
                }
            },
        },
    }
}

/// The characters `v[lo..hi]` padded on the right with `0` to at least `w`.
fn padded_fraction(v: &Vec<char>, lo: usize, hi: usize, w: usize) -> (us: Vec<char>)
    requires
        lo <= hi <= v.len(),
    ensures
        us@ == pad_to(v@.subrange(lo as int, hi as int), w as nat),
{
    let mut us: Vec<char> = Vec::new();
    let mut k = lo;
    while k < hi
        invariant
            lo <= k <= hi <= v.len(),
            us@ == v@.subrange(lo as int, k as int),
        decreases hi - k,
    {
        us.push(v[k]);
        k = k + 1;
    }
    let ghost frac = us@;
    while us.len() < w
        invariant
            us@ == frac + Seq::new((us@.len() - frac.len()) as nat, |i: int| '0'),
            us@.len() >= frac.len(),
            frac.len() < w ==> us@.len() <= w,
            frac.len() >= w ==> us@.len() == frac.len(),
        decreases w - us.len(),
    {
        us.push('0');
        assert(us@ =~= frac + Seq::new((us@.len() - frac.len()) as nat, |i: int| '0'));
    }
    assert(us@ =~= pad_to(frac, w as nat));
    us
}

/// The timestamp `v[lo..hi]` in microseconds.
fn format_ts_in(v: &Vec<char>, lo: usize, hi: usize) -> (r: Result<u64, LineError>)
    requires
        lo <= hi <= v.len(),
    ensures
        r == timestamp_spec(v@.subrange(lo as int, hi as int)),
{
    let ghost t = v@.subrange(lo as int, hi as int);
    let dot = match find_char(v, '.', lo) {
        Some(d) if d < hi => d,
        _ => {
            proof {
                lemma_index_of_from(v@, '.', lo as int);
                lemma_index_of_from(t, '.', 0);
                if let Some(j) = index_of(t, '.') {
                    assert(v@[lo + j] == '.');
                }
            }
            return Ok(0);
        },
    };
    proof {
        lemma_index_of_from(v@, '.', lo as int);
        lemma_index_of_from(t, '.', 0);
        assert(t[dot - lo] == '.');
        if let Some(j) = index_of(t, '.') {
            assert(v@[lo + j] == '.');
        }
        assert(index_of(t, '.') == Some(dot - lo));
        assert(t.take(dot - lo) =~= v@.subrange(lo as int, dot as int));
    }
    let secs = match parse_u64_in(v, lo, dot) {
        Some(s) => s,
        None => {
            return Err(LineError::InvalidTimestamp);
        },
    };
    if secs > u64::MAX / 1_000_000 {
        return Err(LineError::TimestampOverflow);
    }
    let secs_in_us = secs * 1_000_000;
    let us = padded_fraction(v, dot + 1, hi, 6);
    assert(t.skip(dot - lo + 1) =~= v@.subrange(dot + 1, hi as int));
    let len = us.len();
    if parse_u64_in(&us, 0, len).is_none() {
        assert(us@.subrange(0, len as int) =~= us@);
        return Err(LineError::InvalidTimestamp);
    }
    assert(us@.subrange(0, len as int) =~= us@);
    let ghost frac = v@.subrange(dot + 1, hi as int);
    let (m_lo, m_hi): (usize, usize) = if hi - (dot + 1) <= 6 {
        (0, len)
    } else if v[dot + 1] == '+' {
        (dot + 2, dot + 8)
    } else {
        (dot + 1, dot + 7)
    };
    let parsed = if hi - (dot + 1) <= 6 {
        parse_u64_in(&us, m_lo, m_hi)
    } else {
        proof {
            if v@[dot + 1] == '+' {
                assert(frac.drop_first().take(6) =~= v@.subrange(m_lo as int, m_hi as int));
            } else {
                assert(frac.take(6) =~= v@.subrange(m_lo as int, m_hi as int));
            }
        }
        parse_u64_in(v, m_lo, m_hi)
    };
    let micro = match parsed {
        Some(m) => m,
        None => {
            return Err(LineError::InvalidTimestamp);
        },
    };
    if micro > u64::MAX - secs_in_us {
        return Err(LineError::TimestampOverflow);
    }
    Ok(secs_in_us + micro)
}

/// The timestamp `timestamp` (`SECONDS.FRACTION`) in microseconds.
pub fn format_ts(timestamp: &str) -> (r: Result<u64, LineError>)
    ensures
        r == timestamp_spec(timestamp@),
{
    let v = chars_of(timestamp);
    let n = v.len();
    assert(v@.subrange(0, n as int) =~= v@);
    format_ts_in(&v, 0, n)
}


/// The fields in front of the call: the process id before `<`, the process
/// name between `<` and the first `>`, the first whitespace-separated word
/// after it as the timestamp, and what follows that word, without leading
/// whitespace, as the rest of the line.
pub open spec fn line_prefix_spec(l: Seq<char>) -> Result<(usize, u64, Seq<char>, Seq<char>), LineError> {
    match index_of(l, '>') {
        None => Err(LineError::MissingProcessNameEnd),
        Some(g) => match index_of(l.take(g), '<') {
            None => Err(LineError::MissingProcessNameStart),
            Some(a) => match parse_unsigned(l.take(a), usize::MAX as nat) {
                None => Err(LineError::InvalidPid),
                Some(pid) => {
                    let t0 = scan_ws(l, g + 1, false);
                    if t0 >= l.len() {
                        Err(LineError::MissingTimestamp)
                    } else {
                        let t1 = scan_ws(l, t0, true);
                        match timestamp_spec(l.subrange(t0, t1)) {
                            Err(e) => Err(e),
                            Ok(ts) => Ok(
                                (
                                    pid as usize,
                                    ts,
                                    l.subrange(scan_ws(l, t1, false), l.len() as int),
                                    l.subrange(a + 1, g),
                                ),
                            ),
                        }
                    }
                },
            },
        },
    }
}

/// Splits a log line into process id, timestamp, the rest of the line and the
/// process name.
pub fn parse_pid_pidname_timestamp(log_line: &str) -> (r: Result<(usize, u64, String, String), LineError>)
    ensures
        match line_prefix_spec(log_line@) {
            Ok((pid, ts, rest, name)) => r matches Ok((p, t, rs, n)) && p == pid && t == ts && rs@
                == rest && n@ == name,
            Err(e) => r == Err::<(usize, u64, String, String), LineError>(e),
        },
{
    let v = chars_of(log_line);
    let ghost l = v@;
    proof {
        lemma_index_of_from(l, '>', 0);
    }
    let g = match find_char(&v, '>', 0) {
        Some(g) => g,
        None => {
            return Err(LineError::MissingProcessNameEnd);
        },
    };
    proof {
        lemma_index_of_from(l.take(g as int), '<', 0);
        lemma_index_of_from(l, '<', 0);
        match index_of(l.take(g as int), '<') {
            Some(j) => {
                assert(l[j] == '<');
            },
            None => {},
        }
    }
    let a = match find_char(&v, '<', 0) {
        Some(a) if a < g => a,
        _ => {
            proof {
                if let Some(j) = index_of(l.take(g as int), '<') {
                    assert(l[j] == '<');
                }
            }
            return Err(LineError::MissingProcessNameStart);
        },
    };
    proof {
        assert(l.take(g as int)[a as int] == '<');
        assert(index_of(l.take(g as int), '<') == Some(a as int));
        assert(l.take(a as int) =~= l.subrange(0, a as int));
    }
    let pid = match parse_usize_in(&v, 0, a) {
        Some(p) => p,
        None => {
            return Err(LineError::InvalidPid);
        },
    };
    let t0 = scan_whitespace(&v, g + 1, false);
    if t0 >= v.len() {
        return Err(LineError::MissingTimestamp);
    }
    let t1 = scan_whitespace(&v, t0, true);
    let timestamp = match format_ts_in(&v, t0, t1) {
        Ok(t) => t,
        Err(e) => {
            return Err(e);
        },
    };
    let r0 = scan_whitespace(&v, t1, false);
    let n = v.len();
    let rest = log_line.substring_char(r0, n).to_owned();
    let name = log_line.substring_char(a + 1, g).to_owned();
    Ok((pid, timestamp, rest, name))
}


/// The seconds and the fraction of a decimal number of seconds: the parts
/// before and after the first `.`.
pub open spec fn split_seconds(d: Seq<char>) -> (Seq<char>, Seq<char>) {
    match index_of(d, '.') {
        Some(p) => (d.take(p), d.skip(p + 1)),
        None => (d, Seq::<char>::empty()),
    }
}

/// A duration in nanoseconds: the seconds times 10^9 plus the first nine
/// digits of the fraction, rounded up when the tenth digit is 5 or more.
pub open spec fn duration_nanos(secs: Seq<char>, frac: Seq<char>) -> nat {
    digits_value(secs) * 1_000_000_000 + digits_value(pad_to(frac, 9).take(9)) + (if frac.len() > 9
        && digit_value(frac[9]) >= 5 {
        1nat
    } else {
        0nat
    })
}

/// A duration `SECONDS.FRACTION` (either part may be empty, not both, and both
/// are decimal digits) in whole microseconds: the duration rounded to the
/// nearest nanosecond, then the whole microseconds of that. The text is read
/// as an exact decimal. Reading it as a 64-bit floating-point number and
/// converting that with `Duration::from_secs_f64` gives the same result up to
/// the precision of that floating-point reading: exactly the same for every
/// duration of at most nine fraction digits below 4 500 000 seconds, which
/// covers what strace writes; past the ninth digit the two may differ by one
/// nanosecond at a half-nanosecond boundary, and forms such as `1e-3`, which
/// strace does not write, are refused here.
pub open spec fn duration_spec(d: Seq<char>) -> Option<u128> {
    let secs = split_seconds(d).0;
    let frac = split_seconds(d).1;
    if (secs.len() > 0 || frac.len() > 0) && all_digits(secs) && all_digits(frac) && digits_value(secs)
        <= u64::MAX {
        Some((duration_nanos(secs, frac) / 1000) as u128)
    } else {
        None
    }
}

/// The duration `d` in microseconds.
pub fn parse_duration(d: &str) -> (r: Option<u128>)
    ensures
        r == duration_spec(d@),
{
    let v = chars_of(d);
    let n = v.len();
    proof {
        lemma_index_of_from(v@, '.', 0);
    }
    let (secs_hi, frac_lo) = match find_char(&v, '.', 0) {
        Some(p) => (p, p + 1),
        None => (n, n),
    };
    let ghost secs = v@.subrange(0, secs_hi as int);
    let ghost frac = v@.subrange(frac_lo as int, n as int);
    assert(secs =~= split_seconds(v@).0);
    assert(frac =~= split_seconds(v@).1);
    if secs_hi == 0 && frac_lo >= n {
        return None;
    }
    let secs_val = match parse_digits_in(&v, 0, secs_hi) {
        Some(s) => s,
        None => {
            return None;
        },
    };
    if !all_digits_in(&v, frac_lo, n) {
        return None;
    }
    let ns = padded_fraction(&v, frac_lo, n, 9);
    proof {
        assert forall|i: int| 0 <= i < 9 implies is_digit(#[trigger] ns@.take(9)[i]) by {
            if i < frac.len() {
                assert(ns@[i] == frac[i]);
            }
        }
        assert(ns@.subrange(0, 9) =~= ns@.take(9));
        lemma_digits_value_lt_pow10(ns@.take(9));
        assert(pow10(9) == 1_000_000_000) by {
            reveal_with_fuel(pow10, 10);
        }
    }
    let frac_val = match parse_digits_in(&ns, 0, 9) {
        Some(f) => f,
        None => {
            return None;
        },
    };
    let mut round: u128 = 0;
    if n - frac_lo > 9 && v[frac_lo + 9] >= '5' {
        assert(v@[frac_lo + 9] == frac[9]);
        round = 1;
    }
    proof {
        if n - frac_lo > 9 {
            assert(v@[frac_lo + 9] == frac[9]);
            assert(is_digit(frac[9]));
        }
    }
    let total = secs_val as u128 * 1_000_000_000 + frac_val as u128 + round;
    Some(total / 1000)
}


/// The state of the argument scanner between two characters.
pub struct ArgScan {
    pub in_quotes: bool,
    pub start: int,
    pub key: Seq<char>,
    pub is_nested: bool,
    pub stored: bool,
    pub map: Map<Seq<char>, Seq<char>>,
}

/// The scanner before the first character.
pub open spec fn arg_scan_init() -> ArgScan {
    ArgScan {
        in_quotes: false,
        start: 0,
        key: Seq::empty(),
        is_nested: false,
        stored: false,
        map: Map::empty(),
    }
}

/// A `"` not preceded by `\` opens or closes a quoted part; a `"` in first
/// position has nothing before it and does so too.
pub open spec fn quote_step(s: Seq<char>, st: ArgScan, i: int) -> bool {
    if s[i] == '"' && (i == 0 || s[i - 1] != '\\') {
        !st.in_quotes
    } else {
        st.in_quotes
    }
}

/// Outside a nested value, `=` ends an argument name: the text since the last
/// separator becomes the name, and a following `{` or `[` opens a nested
/// value. A `=` in last position stops the scan.
pub open spec fn name_step(s: Seq<char>, st: ArgScan, i: int) -> Option<ArgScan> {
    if s[i] == '=' && !st.is_nested {
        if i + 1 >= s.len() || st.start > i {
            None
        } else {
            Some(
                ArgScan {
                    in_quotes: st.in_quotes,
                    start: i + 1,
                    key: s.subrange(st.start, i),
                    is_nested: s[i + 1] == '{' || s[i + 1] == '[',
                    stored: true,
                    map: st.map,
                },
            )
        }
    } else {
        Some(st)
    }
}

/// Once a name is held: `,` outside a nested value stores the value since the
/// name; `]` or `}` followed by `,` closes a nested value and stores it without
/// its opening bracket; the last character stores the value up to the end.
pub open spec fn value_step(s: Seq<char>, st: ArgScan, i: int) -> Option<ArgScan> {
    let c = s[i];
    let a = if c == ',' && !st.is_nested {
        if st.start > i {
            None
        } else {
            Some(
                ArgScan {
                    in_quotes: st.in_quotes,
                    start: i + 1,
                    key: st.key,
                    is_nested: st.is_nested,
                    stored: false,
                    map: st.map.insert(st.key, s.subrange(st.start, i)),
                },
            )
        }
    } else {
        Some(st)
    };
    match a {
        None => None,
        Some(a) => {
            let b = if (c == ']' || c == '}') && i != s.len() - 1 && a.is_nested && s[i + 1] == ',' {
                if a.start + 1 > i {
                    None
                } else {
                    Some(
                        ArgScan {
                            in_quotes: a.in_quotes,
                            start: i + 1,
                            key: a.key,
                            is_nested: false,
                            stored: false,
                            map: a.map.insert(a.key, s.subrange(a.start + 1, i)),
                        },
                    )
                }
            } else {
                Some(a)
            };
            match b {
                None => None,
                Some(b) => if i == s.len() - 1 {
                    if b.start > i + 1 {
                        None
                    } else {
                        Some(
                            ArgScan {
                                in_quotes: b.in_quotes,
                                start: b.start,
                                key: b.key,
                                is_nested: b.is_nested,
                                stored: false,
                                map: b.map.insert(b.key, s.subrange(b.start, i + 1)),
                            },
                        )
                    }
                } else {
                    Some(b)
                },
            }
        },
    }
}

/// One character of the scan; `None` when the scan stops.
pub open spec fn arg_step(s: Seq<char>, st: ArgScan, i: int) -> Option<ArgScan> {
    let q = quote_step(s, st, i);
    let st0 = ArgScan {
        in_quotes: q,
        start: st.start,
        key: st.key,
        is_nested: st.is_nested,
        stored: st.stored,
        map: st.map,
    };
    if q {
        Some(st0)
    } else {
        match name_step(s, st0, i) {
            None => None,
            Some(st1) => if st1.stored {
                value_step(s, st1, i)
            } else {
                Some(st1)
            },
        }
    }
}

/// The arguments found from character `i` on, starting in state `st`.
pub open spec fn arg_scan(s: Seq<char>, st: ArgScan, i: int) -> Option<Map<Seq<char>, Seq<char>>>
    decreases s.len() - i,
{
    if i < 0 {
        None
    } else if i >= s.len() {
        Some(st.map)
    } else {
        match arg_step(s, st, i) {
            None => None,
            Some(n) => arg_scan(s, n, i + 1),
        }
    }
}

/// The named arguments of an argument list; a list of at most one character
/// has none. `None` where the scan stops: a `=` in last position outside
/// quotes and nested values.
pub open spec fn parse_args_spec(s: Seq<char>) -> Option<Map<Seq<char>, Seq<char>>> {
    if s.len() > 1 {
        arg_scan(s, arg_scan_init(), 0)
    } else {
        Some(Map::empty())
    }
}

/// Splits an argument list into named arguments: `name=value` pairs separated
/// by `,`, where values in `{}` or `[]` may hold `,` and `=`, and quoted text
/// is taken as is.
pub fn parse_args(arg_str: &str) -> (r: Option<ArgMap>)
    ensures
        match parse_args_spec(arg_str@) {
            Some(m) => r matches Some(a) && a@ == m,
            None => r is None,
        },
{
    let v = chars_of(arg_str);
    let n = v.len();
    let mut map = ArgMap::new();
    if n <= 1 {
        return Some(map);
    }
    let ghost s = v@;
    let mut in_quotes = false;
    let mut start: usize = 0;
    let mut key = String::new();
    let mut is_nested = false;
    let mut stored = false;
    let mut i: usize = 0;
    while i < n
        invariant
            n == v@.len(),
            s == v@,
            s == arg_str@,
            n > 1,
            0 <= i <= n,
            start <= i,
            arg_scan(
                s,
                ArgScan { in_quotes, start: start as int, key: key@, is_nested, stored, map: map@ },
                i as int,
            ) == parse_args_spec(s),
        decreases n - i,
    {
        let ghost st = ArgScan {
            in_quotes,
            start: start as int,
            key: key@,
            is_nested,
            stored,
            map: map@,
        };
        let c = v[i];
        if c == '"' && (i == 0 || v[i - 1] != '\\') {
            in_quotes = !in_quotes;
        }
        assert(quote_step(s, st, i as int) == in_quotes);
        if !in_quotes {
            if c == '=' && !is_nested {
                if i + 1 >= n {
                    return None;
                }
                if v[i + 1] == '{' || v[i + 1] == '[' {
                    is_nested = true;
                }
                key = arg_str.substring_char(start, i).to_owned();
                stored = true;
                start = i + 1;
            }
            let ghost st1 = ArgScan {
                in_quotes,
                start: start as int,
                key: key@,
                is_nested,
                stored,
                map: map@,
            };
            if stored {
                if c == ',' && !is_nested {
                    map.insert(key.clone(), arg_str.substring_char(start, i).to_owned());
                    stored = false;
                    start = i + 1;
                }
                if (c == ']' || c == '}') && i != n - 1 && is_nested && v[i + 1] == ',' {
                    if start + 1 > i {
                        return None;
                    }
                    map.insert(key.clone(), arg_str.substring_char(start + 1, i).to_owned());
                    stored = false;
                    is_nested = false;
                    start = i + 1;
                }
                if i == n - 1 {
                    map.insert(key.clone(), arg_str.substring_char(start, i + 1).to_owned());
                    stored = false;
                }
                assert(value_step(s, st1, i as int) == Some(
                    ArgScan { in_quotes, start: start as int, key: key@, is_nested, stored, map: map@ },
                ));
            }
        }
        assert(arg_step(s, st, i as int) == Some(
            ArgScan { in_quotes, start: start as int, key: key@, is_nested, stored, map: map@ },
        ));
        i = i + 1;
    }
    Some(map)
}


/// Whether `t` stands somewhere in `s`.
pub open spec fn is_substring(t: Seq<char>, s: Seq<char>) -> bool {
    exists|lo: int, hi: int| 0 <= lo <= hi <= s.len() && s.subrange(lo, hi) == t
}

/// How often `c` occurs in `s`.
pub open spec fn char_count(s: Seq<char>, c: char) -> nat
    decreases s.len(),
{
    if s.len() == 0 {
        0
    } else {
        char_count(s.drop_last(), c) + if s.last() == c {
            1nat
        } else {
            0nat
        }
    }
}

/// The names found so far, and the held name when it is not stored yet.
spec fn names_held(st: ArgScan) -> int {
    st.map.dom().len() + if st.stored && !st.map.dom().contains(st.key) {
        1int
    } else {
        0int
    }
}

/// What holds of the scanner before character `i`: its names and values stand
/// in `s`, and it has met at least one `=` for each name.
spec fn scan_bounded(s: Seq<char>, st: ArgScan, i: int) -> bool {
    &&& 0 <= st.start <= i
    &&& st.map.dom().finite()
    &&& names_held(st) <= char_count(s.take(i), '=')
    &&& is_substring(st.key, s)
    &&& forall|k: Seq<char>| #[trigger]
        st.map.dom().contains(k) ==> is_substring(k, s) && is_substring(st.map[k], s)
}

/// `s.subrange(lo, hi)` stands in `s`.
proof fn lemma_subrange_is_substring(s: Seq<char>, lo: int, hi: int)
    requires
        0 <= lo <= hi <= s.len(),
    ensures
        is_substring(s.subrange(lo, hi), s),
{
}

/// Inserting a name and value that stand in `s` keeps the scanner bounded
/// when the name was the held one or already stored.
proof fn lemma_insert_bounded(s: Seq<char>, st: ArgScan, lo: int, hi: int, i: int)
    requires
        scan_bounded(s, st, i),
        st.stored,
        0 <= lo <= hi <= s.len(),
    ensures
        ({
            let m = st.map.insert(st.key, s.subrange(lo, hi));
            &&& m.dom().finite()
            &&& m.dom().len() <= names_held(st)
            &&& forall|k: Seq<char>| #[trigger]
                m.dom().contains(k) ==> is_substring(k, s) && is_substring(m[k], s)
        }),
{
    lemma_subrange_is_substring(s, lo, hi);
    let m = st.map.insert(st.key, s.subrange(lo, hi));
    assert(m.dom() == st.map.dom().insert(st.key));
}

/// One step of the scan keeps it bounded.
proof fn lemma_step_bounded(s: Seq<char>, st: ArgScan, i: int)
    requires
        0 <= i < s.len(),
        scan_bounded(s, st, i),
        arg_step(s, st, i) is Some,
    ensures
        scan_bounded(s, arg_step(s, st, i)->0, i + 1),
{
    let q = quote_step(s, st, i);
    let st0 = ArgScan {
        in_quotes: q,
        start: st.start,
        key: st.key,
        is_nested: st.is_nested,
        stored: st.stored,
        map: st.map,
    };
    assert(s.take(i + 1).drop_last() =~= s.take(i));
    let cnt = char_count(s.take(i), '=');
    assert(char_count(s.take(i + 1), '=') == cnt + if s[i] == '=' {
        1nat
    } else {
        0nat
    });
    if q {
        return;
    }
    let st1 = name_step(s, st0, i)->0;
    if s[i] == '=' && !st0.is_nested {
        lemma_subrange_is_substring(s, st0.start, i);
        assert(names_held(st1) <= st.map.dom().len() + 1);
    }
    if !st1.stored {
        return;
    }
    let c = s[i];
    let a = if c == ',' && !st1.is_nested {
        lemma_insert_bounded(s, st1, st1.start, i, i + 1);
        ArgScan {
            in_quotes: st1.in_quotes,
            start: i + 1,
            key: st1.key,
            is_nested: st1.is_nested,
            stored: false,
            map: st1.map.insert(st1.key, s.subrange(st1.start, i)),
        }
    } else {
        st1
    };
    let b = if (c == ']' || c == '}') && i != s.len() - 1 && a.is_nested && s[i + 1] == ',' {
        lemma_insert_bounded(s, a, a.start + 1, i, i + 1);
        ArgScan {
            in_quotes: a.in_quotes,
            start: i + 1,
            key: a.key,
            is_nested: false,
            stored: false,
            map: a.map.insert(a.key, s.subrange(a.start + 1, i)),
        }
    } else {
        a
    };
    if i == s.len() - 1 {
        let m = b.map.insert(b.key, s.subrange(b.start, i + 1));
        lemma_subrange_is_substring(s, b.start, i + 1);
        assert(m.dom() == b.map.dom().insert(b.key));
    }
}

/// The scan from character `i` on, started bounded, ends with names and
/// values that stand in `s` and no more names than `=` in `s`.
proof fn lemma_scan_bounded(s: Seq<char>, st: ArgScan, i: int)
    requires
        0 <= i <= s.len(),
        scan_bounded(s, st, i),
    ensures
        arg_scan(s, st, i) matches Some(m) ==> {
            &&& m.dom().finite()
            &&& m.dom().len() <= char_count(s, '=')
            &&& forall|k: Seq<char>| #[trigger]
                m.dom().contains(k) ==> is_substring(k, s) && is_substring(m[k], s)
        },
    decreases s.len() - i,
{
    if i >= s.len() {
        assert(s.take(i) =~= s);
    } else {
        match arg_step(s, st, i) {
            None => {},
            Some(n) => {
                lemma_step_bounded(s, st, i);
                lemma_scan_bounded(s, n, i + 1);
            },
        }
    }
}

/// Every name and value that `parse_args` finds is a piece of the argument
/// list, and there are no more named arguments than `=` signs in it.
pub proof fn lemma_args_from_input(s: Seq<char>)
    ensures
        parse_args_spec(s) matches Some(m) ==> {
            &&& m.dom().finite()
            &&& m.dom().len() <= char_count(s, '=')
            &&& forall|k: Seq<char>| #[trigger]
                m.dom().contains(k) ==> is_substring(k, s) && is_substring(m[k], s)
        },
{
    if s.len() > 1 {
        assert(s.subrange(0, 0) =~= Seq::<char>::empty());
        assert(s.take(0) =~= Seq::<char>::empty());
        lemma_scan_bounded(s, arg_scan_init(), 0);
    } else {
        assert(Map::<Seq<char>, Seq<char>>::empty().dom() =~= Set::empty());
    }
}

/// A scan through characters that leave the scanner as it is.
proof fn lemma_scan_idle(s: Seq<char>, st: ArgScan, i: int, j: int)
    requires
        0 <= i <= j <= s.len(),
        forall|k: int| i <= k < j ==> #[trigger] arg_step(s, st, k) == Some(st),
    ensures
        arg_scan(s, st, i) == arg_scan(s, st, j),
    decreases j - i,
{
    if i < j {
        assert(arg_step(s, st, i) == Some(st));
        lemma_scan_idle(s, st, i + 1, j);
    }
}

/// With no name held and no `=` from character `i` on, the scan finds no
/// further argument.
proof fn lemma_scan_no_more_names(s: Seq<char>, st: ArgScan, i: int)
    requires
        0 <= i <= s.len(),
        !st.stored,
        forall|k: int| i <= k < s.len() ==> s[k] != '=',
    ensures
        arg_scan(s, st, i) == Some(st.map),
    decreases s.len() - i,
{
    if i < s.len() {
        let q = quote_step(s, st, i);
        let st0 = ArgScan {
            in_quotes: q,
            start: st.start,
            key: st.key,
            is_nested: st.is_nested,
            stored: st.stored,
            map: st.map,
        };
        assert(arg_step(s, st, i) == Some(st0));
        lemma_scan_no_more_names(s, st0, i + 1);
    }
}

/// A value in braces or brackets right after a name's `=` is kept whole: for
/// a list that starts with a name `n` (no `=` or `"` in it), `=`, an opening
/// `{` or `[`, a value `b` (no `"`, and no closing bracket followed by `,`), a
/// closing `}` or `]` and `,`, the scan holds exactly `n` mapped to `b` when it
/// reaches the rest `q`, no name taken from inside `b`; the rest is scanned
/// from the `,` on. With no `=` in the rest, `n` mapped to `b` is the whole
/// result.
pub proof fn lemma_nested_value_kept_whole(n: Seq<char>, open: char, b: Seq<char>, close: char, q: Seq<char>)
    requires
        open == '{' || open == '[',
        close == '}' || close == ']',
        forall|i: int| 0 <= i < n.len() ==> n[i] != '=' && n[i] != '"',
        forall|i: int| 0 <= i < b.len() ==> b[i] != '"',
        forall|i: int|
            0 <= i < b.len() - 1 && (#[trigger] b[i] == '}' || b[i] == ']') ==> b[i + 1] != ',',
    ensures
        ({
            let pre = n + seq!['=', open] + b + seq![close, ','];
            let s = pre + q;
            &&& parse_args_spec(s) == arg_scan(
                s,
                ArgScan {
                    in_quotes: false,
                    start: pre.len() - 1,
                    key: n,
                    is_nested: false,
                    stored: false,
                    map: Map::empty().insert(n, b),
                },
                pre.len() as int,
            )
            &&& (forall|i: int| 0 <= i < q.len() ==> q[i] != '=') ==> parse_args_spec(s) == Some(
                Map::<Seq<char>, Seq<char>>::empty().insert(n, b),
            )
        }),
{
    let pre = n + seq!['=', open] + b + seq![close, ','];
    let s = pre + q;
    let l = n.len() as int;
    let c = l + 2 + b.len();
    assert(s.len() == c + 2 + q.len());
    assert forall|k: int| 0 <= k < l implies s[k] == n[k] by {}
    assert(s[l] == '=');
    assert(s[l + 1] == open);
    assert forall|k: int| l + 2 <= k < c implies s[k] == b[k - l - 2] by {}
    assert(s[c] == close);
    assert(s[c + 1] == ',');
    let st0 = arg_scan_init();
    assert forall|k: int| 0 <= k < l implies #[trigger] arg_step(s, st0, k) == Some(st0) by {
        assert(s[k] == n[k]);
    }
    lemma_scan_idle(s, st0, 0, l);
    assert(s.subrange(0, l) =~= n);
    let st1 = ArgScan {
        in_quotes: false,
        start: l + 1,
        key: n,
        is_nested: true,
        stored: true,
        map: Map::empty(),
    };
    assert(arg_step(s, st0, l) == Some(st1));
    assert(arg_step(s, st1, l + 1) == Some(st1));
    assert forall|k: int| l + 2 <= k < c implies #[trigger] arg_step(s, st1, k) == Some(st1) by {
        assert(s[k] == b[k - l - 2]);
        if k + 1 < c {
            assert(s[k + 1] == b[k + 1 - l - 2]);
        } else {
            assert(s[k + 1] == close);
        }
    }
    lemma_scan_idle(s, st1, l + 2, c);
    assert(s.subrange(l + 2, c) =~= b);
    let st2 = ArgScan {
        in_quotes: false,
        start: c + 1,
        key: n,
        is_nested: false,
        stored: false,
        map: Map::empty().insert(n, b),
    };
    assert(arg_step(s, st1, c) == Some(st2));
    assert(arg_step(s, st2, c + 1) == Some(st2));
    assert(pre.len() == c + 2);
    assert(parse_args_spec(s) == arg_scan(s, st0, 0));
    assert(arg_scan(s, st0, l) == arg_scan(s, st1, l + 1));
    assert(arg_scan(s, st1, l + 1) == arg_scan(s, st1, l + 2));
    assert(arg_scan(s, st1, c) == arg_scan(s, st2, c + 1));
    assert(arg_scan(s, st2, c + 1) == arg_scan(s, st2, c + 2));
    if forall|i: int| 0 <= i < q.len() ==> q[i] != '=' {
        assert forall|k: int| c + 2 <= k < s.len() implies s[k] != '=' by {
            assert(s[k] == q[k - c - 2]);
        }
        lemma_scan_no_more_names(s, st2, c + 2);
    }
}

/// A system call with arguments, return value and duration.
pub const REGULAR_SYSCALL: &'static str = r"^(?<call>\S+?)\((?<args>.*?)\)\s*=\s*(?<ret>.*) <(?<dur>[\d.]*)>";

/// A call whose result comes on a later line.
pub const UNFINISHED_CALL: &'static str = r"^(?<call>\S+?)\((?<args>.*?)\s<unfinished\s\.\.\.>";

/// The continuation of an unfinished call, with further arguments.
pub const RESUMED_WITH_ARGS: &'static str = r"<\.\.\. (?<call>\S*) resumed>.(?<args>.*\)) = (?<ret>.*) <(?<dur>[\d.]*)>";

/// The continuation of an unfinished call, without further arguments.
pub const RESUMED_WITHOUT_ARGS: &'static str = r"<\.\.\. (?<call>\S*) resumed>\)\s= (?<ret>.*) <(?<dur>[\d.]*)>";

/// A call without arguments.
pub const CALL_WITHOUT_ARGS: &'static str = r"^(?<call>\S*)\(\)\s*= (?<ret>.*) <(?<dur>[\d.]*)>";

/// A call without duration.
pub const CALL_WITHOUT_DURATION: &'static str = r"(?<call>\S+?)\((?<args>.*?)\)\s=\s*(?<ret>.*)";

/// A signal or an informational message of strace.
pub const SIGNAL_OR_INFO: &'static str = r"^[+-]{3} (?<text>.*) [+-]{3}";

/// The continuation of an unfinished call, without duration and arguments.
pub const RESUMED_WITHOUT_DURATION: &'static str = r"<\.\.\. (?<call>\S*) resumed>\)\s= (?<ret>.*)";

/// A continuation that is itself interrupted.
pub const UNFINISHED_RESUMED_CALL: &'static str = r"<\.\.\. (?<call>\S*) resumed>\s*<unfinished \.\.\.>\) = (?<ret>.*)";

/// Every line pattern compiles.
pub open spec fn line_patterns_compile() -> bool {
    &&& regex_compiles(REGULAR_SYSCALL@)
    &&& regex_compiles(UNFINISHED_CALL@)
    &&& regex_compiles(RESUMED_WITH_ARGS@)
    &&& regex_compiles(RESUMED_WITHOUT_ARGS@)
    &&& regex_compiles(CALL_WITHOUT_ARGS@)
    &&& regex_compiles(CALL_WITHOUT_DURATION@)
    &&& regex_compiles(SIGNAL_OR_INFO@)
    &&& regex_compiles(RESUMED_WITHOUT_DURATION@)
    &&& regex_compiles(UNFINISHED_RESUMED_CALL@)
}

/// The compiled line patterns.
#[derive(Debug)]
pub struct SyscallPatterns {
    regular: Pattern,
    unfinished: Pattern,
    resumed_args: Pattern,
    resumed_without_args: Pattern,
    without_args: Pattern,
    without_args_and_duration: Pattern,
    signals_informational: Pattern,
    resumed_without_dur: Pattern,
    unf_res_call: Pattern,
}

impl SyscallPatterns {
    #[verifier::type_invariant]
    closed spec fn compiled_from_constants(self) -> bool {
        &&& self.regular.source() == REGULAR_SYSCALL@
        &&& self.unfinished.source() == UNFINISHED_CALL@
        &&& self.resumed_args.source() == RESUMED_WITH_ARGS@
        &&& self.resumed_without_args.source() == RESUMED_WITHOUT_ARGS@
        &&& self.without_args.source() == CALL_WITHOUT_ARGS@
        &&& self.without_args_and_duration.source() == CALL_WITHOUT_DURATION@
        &&& self.signals_informational.source() == SIGNAL_OR_INFO@
        &&& self.resumed_without_dur.source() == RESUMED_WITHOUT_DURATION@
        &&& self.unf_res_call.source() == UNFINISHED_RESUMED_CALL@
    }

    /// Compiles the line patterns; `None` exactly when one of them does not compile.
    pub fn new() -> (r: Option<SyscallPatterns>)
        ensures
            r is Some <==> line_patterns_compile(),
    {
        let regular = Pattern::new(REGULAR_SYSCALL)?;
        let unfinished = Pattern::new(UNFINISHED_CALL)?;
        let resumed_args = Pattern::new(RESUMED_WITH_ARGS)?;
        let resumed_without_args = Pattern::new(RESUMED_WITHOUT_ARGS)?;
        let without_args = Pattern::new(CALL_WITHOUT_ARGS)?;
        let without_args_and_duration = Pattern::new(CALL_WITHOUT_DURATION)?;
        let signals_informational = Pattern::new(SIGNAL_OR_INFO)?;
        let resumed_without_dur = Pattern::new(RESUMED_WITHOUT_DURATION)?;
        let unf_res_call = Pattern::new(UNFINISHED_RESUMED_CALL)?;
        Some(
            SyscallPatterns {
                regular,
                unfinished,
                resumed_args,
                resumed_without_args,
                without_args,
                without_args_and_duration,
                signals_informational,
                resumed_without_dur,
                unf_res_call,
            },
        )
    }
}


/// The named groups a call pattern captures.
#[derive(Debug, Clone)]
pub struct CallCaptures {
    pub call: Option<String>,
    pub args: Option<String>,
    pub ret: Option<String>,
    pub dur: Option<String>,
}

/// Whether a return value reports success: `-` first means failure, `?`
/// first means unknown, anything else success.
pub open spec fn success_of(ret: Option<Seq<char>>) -> Seq<char> {
    match ret {
        None => "unknown"@,
        Some(r) => if r.len() > 0 && r[0] == '-' {
            "unsuccessful"@
        } else if r.len() > 0 && r[0] == '?' {
            "unknown"@
        } else {
            "successful"@
        },
    }
}

/// The arguments and the argument text of a record: with `arg_parse_val` the
/// argument list split into named arguments, otherwise the whole list under
/// the name `args`.
pub open spec fn args_parts(config: Config, args: Option<Seq<char>>) -> Result<
    (Option<Map<Seq<char>, Seq<char>>>, Option<Seq<char>>),
    LineError,
> {
    match args {
        None => Ok((None, None)),
        Some(a) => if config.arg_parse_val {
            match parse_args_spec(a) {
                None => Err(LineError::InvalidArguments),
                Some(m) => Ok((Some(m), Some(a))),
            }
        } else {
            Ok((Some(Map::empty().insert("args"@, a)), Some(a)))
        },
    }
}

/// The record of a call from its captured groups.
pub open spec fn syscall_spec(
    config: Config,
    pid: usize,
    timestamp: u64,
    procname: Seq<char>,
    call: Option<Seq<char>>,
    args: Option<Seq<char>>,
    ret: Option<Seq<char>>,
    dur: Option<Seq<char>>,
    call_type: CallType,
) -> Result<SystemCallView, LineError> {
    match call {
        None => Err(LineError::MissingCallName),
        Some(name) => match args_parts(config, args) {
            Err(e) => Err(e),
            Ok((a, astr)) => {
                let d = match dur {
                    Some(d) => duration_spec(d),
                    None => None,
                };
                if dur is Some && d is None {
                    Err(LineError::InvalidDuration)
                } else {
                    Ok(
                        SystemCallView {
                            timestamp,
                            pid,
                            name,
                            args: a,
                            args_string: astr,
                            dur: d,
                            ret,
                            call_type,
                            successful: success_of(ret),
                            procname,
                        },
                    )
                }
            },
        },
    }
}

/// Builds the record of a call from the groups its pattern captured.
pub fn make_syscall_struct(
    config: &Config,
    pid: usize,
    timestamp: u64,
    procname: String,
    caps: &CallCaptures,
    call_type: CallType,
) -> (r: Result<SystemCall, LineError>)
    ensures
        result_view(r) == syscall_spec(
            *config,
            pid,
            timestamp,
            procname@,
            opt_view(caps.call),
            opt_view(caps.args),
            opt_view(caps.ret),
            opt_view(caps.dur),
            call_type,
        ),
{
    let name = match &caps.call {
        Some(c) => c.clone(),
        None => {
            return Err(LineError::MissingCallName);
        },
    };
    let mut args: Option<ArgMap> = None;
    let mut args_string: Option<String> = None;
    if let Some(arg_str) = &caps.args {
        if config.arg_parse_val {
            match parse_args(arg_str.as_str()) {
                Some(m) => {
                    args = Some(m);
                },
                None => {
                    return Err(LineError::InvalidArguments);
                },
            }
        } else {
            let mut map = ArgMap::new();
            map.insert("args".to_owned(), arg_str.clone());
            args = Some(map);
        }
        args_string = Some(arg_str.clone());
    }
    let mut successful = "unknown".to_owned();
    let mut ret: Option<String> = None;
    if let Some(ret_str) = &caps.ret {
        let rv = chars_of(ret_str.as_str());
        if rv.len() > 0 && rv[0] == '-' {
            successful = "unsuccessful".to_owned();
        } else if !(rv.len() > 0 && rv[0] == '?') {
            successful = "successful".to_owned();
        }
        ret = Some(ret_str.clone());
    }
    let mut dur: Option<u128> = None;
    if let Some(d) = &caps.dur {
        match parse_duration(d.as_str()) {
            Some(us) => {
                dur = Some(us);
            },
            None => {
                return Err(LineError::InvalidDuration);
            },
        }
    }
    Ok(
        SystemCall {
            timestamp,
            pid,
            name,
            args,
            args_string,
            dur,
            ret,
            call_type,
            successful,
            procname,
        },
    )
}

/// The outcome of a call is decided by the first character of its return
/// text alone: `unsuccessful` exactly when it is `-`, `unknown` when it is `?`
/// or there is no return text, and `successful` for anything else, such as a
/// return value that starts with a digit, whatever follows it. The return text
/// is kept as it was captured.
pub proof fn lemma_outcome_from_first_character(
    config: Config,
    pid: usize,
    timestamp: u64,
    procname: Seq<char>,
    call: Option<Seq<char>>,
    args: Option<Seq<char>>,
    ret: Option<Seq<char>>,
    dur: Option<Seq<char>>,
    call_type: CallType,
)
    ensures
        syscall_spec(config, pid, timestamp, procname, call, args, ret, dur, call_type) matches Ok(v)
            ==> {
            &&& call == Some(v.name)
            &&& v.pid == pid
            &&& v.timestamp == timestamp
            &&& v.procname == procname
            &&& v.args_string == args
            &&& (!config.arg_parse_val ==> v.args == match args {
                Some(a) => Some(Map::<Seq<char>, Seq<char>>::empty().insert(seq!['a', 'r', 'g', 's'], a)),
                None => None,
            })
            &&& (args is None ==> v.args is None)
            &&& (dur is None ==> v.dur is None)
            &&& (dur is Some ==> v.dur is Some)
            &&& v.ret == ret
            &&& v.call_type == call_type
            &&& (v.successful == seq!['u', 'n', 's', 'u', 'c', 'c', 'e', 's', 's', 'f', 'u', 'l'] <==> (
            ret matches Some(r) && r.len() > 0 && r[0] == '-'))
            &&& match ret {
                None => v.successful == seq!['u', 'n', 'k', 'n', 'o', 'w', 'n'],
                Some(r) => if r.len() > 0 && r[0] == '-' {
                    v.successful == seq!['u', 'n', 's', 'u', 'c', 'c', 'e', 's', 's', 'f', 'u', 'l']
                } else if r.len() > 0 && r[0] == '?' {
                    v.successful == seq!['u', 'n', 'k', 'n', 'o', 'w', 'n']
                } else {
                    v.successful == seq!['s', 'u', 'c', 'c', 'e', 's', 's', 'f', 'u', 'l']
                },
            }
        },
{
    reveal_strlit("unsuccessful");
    reveal_strlit("successful");
    reveal_strlit("unknown");
    reveal_strlit("args");
    assert("args"@ =~= seq!['a', 'r', 'g', 's']);
    assert("unsuccessful"@ =~= seq!['u', 'n', 's', 'u', 'c', 'c', 'e', 's', 's', 'f', 'u', 'l']);
    assert("successful"@ =~= seq!['s', 'u', 'c', 'c', 'e', 's', 's', 'f', 'u', 'l']);
    assert("unknown"@ =~= seq!['u', 'n', 'k', 'n', 'o', 'w', 'n']);
}

/// A signal or informational line with text `t` gives a record named
/// `Signal` that holds `t` as its only argument, under `text`, with no return
/// value, no duration and an unknown outcome, at the line's process and time.
pub proof fn lemma_signal_record(pid: usize, timestamp: u64, procname: Seq<char>, t: Seq<char>)
    ensures
        signal_spec(pid, timestamp, procname, Some(t)) matches Ok(v) && {
            &&& v.name == seq!['S', 'i', 'g', 'n', 'a', 'l']
            &&& v.args == Some(Map::<Seq<char>, Seq<char>>::empty().insert(seq!['t', 'e', 'x', 't'], t))
            &&& v.args_string is None
            &&& v.ret is None
            &&& v.dur is None
            &&& v.call_type == CallType::SignalOrInformational
            &&& v.successful == seq!['u', 'n', 'k', 'n', 'o', 'w', 'n']
            &&& v.pid == pid
            &&& v.timestamp == timestamp
            &&& v.procname == procname
        },
        signal_spec(pid, timestamp, procname, None) is Err,
{
    reveal_strlit("Signal");
    reveal_strlit("text");
    reveal_strlit("unknown");
    assert("Signal"@ =~= seq!['S', 'i', 'g', 'n', 'a', 'l']);
    assert("text"@ =~= seq!['t', 'e', 'x', 't']);
    assert("unknown"@ =~= seq!['u', 'n', 'k', 'n', 'o', 'w', 'n']);
}

/// The record of a signal or informational line from its captured text.
pub open spec fn signal_spec(pid: usize, timestamp: u64, procname: Seq<char>, text: Option<Seq<char>>) -> Result<
    SystemCallView,
    LineError,
> {
    match text {
        None => Err(LineError::MissingSignalText),
        Some(t) => Ok(
            SystemCallView {
                timestamp,
                pid,
                name: "Signal"@,
                args: Some(Map::empty().insert("text"@, t)),
                args_string: None,
                dur: None,
                ret: None,
                call_type: CallType::SignalOrInformational,
                successful: "unknown"@,
                procname,
            },
        ),
    }
}

/// Builds the record of a signal or informational line from its text.
pub fn make_signal_struct(pid: usize, timestamp: u64, procname: String, text: &Option<String>) -> (r: Result<
    SystemCall,
    LineError,
>)
    ensures
        result_view(r) == signal_spec(pid, timestamp, procname@, opt_view(*text)),
{
    let t = match text {
        Some(t) => t.clone(),
        None => {
            return Err(LineError::MissingSignalText);
        },
    };
    let mut map = ArgMap::new();
    map.insert("text".to_owned(), t);
    Ok(
        SystemCall {
            timestamp,
            pid,
            name: "Signal".to_owned(),
            args: Some(map),
            args_string: None,
            dur: None,
            ret: None,
            call_type: CallType::SignalOrInformational,
            successful: "unknown".to_owned(),
            procname,
        },
    )
}


/// The text a pattern captured for a group, if it matched and the group took part.
pub open spec fn group_of(pattern: Seq<char>, s: Seq<char>, group: Seq<char>) -> Option<Seq<char>> {
    match regex_capture(pattern, s, group) {
        Some(g) => g,
        None => None,
    }
}

/// Whether a call pattern matches.
pub open spec fn call_matches(pattern: Seq<char>, s: Seq<char>) -> bool {
    regex_capture(pattern, s, "call"@) is Some
}

/// The kind of the call part `s` of a line: the first pattern that matches, in
/// the order without arguments (`name() = ...`), regular, unfinished, resumed
/// with arguments, resumed without arguments, without duration, resumed
/// without duration, unfinished resumed, and last signal or informational.
pub open spec fn line_kind(s: Seq<char>) -> Option<CallType> {
    if call_matches(CALL_WITHOUT_ARGS@, s) {
        Some(CallType::CallWithoutArgs)
    } else if call_matches(REGULAR_SYSCALL@, s) {
        Some(CallType::RegularSyscall)
    } else if call_matches(UNFINISHED_CALL@, s) {
        Some(CallType::UnfinishedCall)
    } else if call_matches(RESUMED_WITH_ARGS@, s) {
        Some(CallType::ResumedCallWithArgs)
    } else if call_matches(RESUMED_WITHOUT_ARGS@, s) {
        Some(CallType::ResumedCallWithoutArgs)
    } else if call_matches(CALL_WITHOUT_DURATION@, s) {
        Some(CallType::CallWithoutArgsNoDur)
    } else if call_matches(RESUMED_WITHOUT_DURATION@, s) {
        Some(CallType::ResumedWithoutDur)
    } else if call_matches(UNFINISHED_RESUMED_CALL@, s) {
        Some(CallType::UnfResCall)
    } else if regex_capture(SIGNAL_OR_INFO@, s, "text"@) is Some {
        Some(CallType::SignalOrInformational)
    } else {
        None
    }
}

/// The pattern that reads a kind of line.
pub open spec fn kind_pattern(k: CallType) -> Seq<char> {
    match k {
        CallType::RegularSyscall => REGULAR_SYSCALL@,
        CallType::UnfinishedCall => UNFINISHED_CALL@,
        CallType::ResumedCallWithArgs => RESUMED_WITH_ARGS@,
        CallType::ResumedCallWithoutArgs => RESUMED_WITHOUT_ARGS@,
        CallType::CallWithoutArgs => CALL_WITHOUT_ARGS@,
        CallType::CallWithoutArgsNoDur => CALL_WITHOUT_DURATION@,
        CallType::SignalOrInformational => SIGNAL_OR_INFO@,
        CallType::ResumedWithoutDur => RESUMED_WITHOUT_DURATION@,
        CallType::UnfResCall => UNFINISHED_RESUMED_CALL@,
    }
}

/// The record of the call part `s` of a line.
pub open spec fn parse_syscall_spec(config: Config, pid: usize, timestamp: u64, s: Seq<char>, procname: Seq<char>) -> Result<
    SystemCallView,
    LineError,
> {
    match line_kind(s) {
        None => Err(LineError::NoPatternMatched),
        Some(k) => if k == CallType::SignalOrInformational {
            signal_spec(pid, timestamp, procname, group_of(SIGNAL_OR_INFO@, s, "text"@))
        } else {
            let p = kind_pattern(k);
            syscall_spec(
                config,
                pid,
                timestamp,
                procname,
                group_of(p, s, "call"@),
                group_of(p, s, "args"@),
                group_of(p, s, "ret"@),
                group_of(p, s, "dur"@),
                k,
            )
        },
    }
}

/// How much a kind of line adds to the count of resumed calls.
pub open spec fn resumed_increment(k: Option<CallType>) -> int {
    match k {
        Some(CallType::ResumedCallWithArgs) | Some(CallType::ResumedCallWithoutArgs) | Some(
            CallType::ResumedWithoutDur,
        ) | Some(CallType::UnfResCall) => 1,
        _ => 0,
    }
}

/// How much a kind of line adds to the count of unfinished calls.
pub open spec fn unfinished_increment(k: Option<CallType>) -> int {
    match k {
        Some(CallType::UnfinishedCall) | Some(CallType::UnfResCall) => 1,
        _ => 0,
    }
}

/// The groups a call pattern is read for, in the order of `CallCaptures`.
fn call_groups() -> (g: Vec<&'static str>)
    ensures
        g@.len() == 4,
        g@[0]@ == "call"@,
        g@[1]@ == "args"@,
        g@[2]@ == "ret"@,
        g@[3]@ == "dur"@,
{
    vec!["call", "args", "ret", "dur"]
}

/// Matches `pattern` against `s` and collects the call groups.
fn capture_call(pattern: &Pattern, s: &str) -> (r: Option<CallCaptures>)
    ensures
        match r {
            None => !call_matches(pattern.source(), s@),
            Some(c) => call_matches(pattern.source(), s@) && opt_view(c.call) == group_of(
                pattern.source(),
                s@,
                "call"@,
            ) && opt_view(c.args) == group_of(pattern.source(), s@, "args"@) && opt_view(c.ret)
                == group_of(pattern.source(), s@, "ret"@) && opt_view(c.dur) == group_of(
                pattern.source(),
                s@,
                "dur"@,
            ),
        },
{
    let groups = call_groups();
    match capture_groups(pattern, s, &groups) {
        None => {
            assert(regex_capture(pattern.source(), s@, groups@[0]@) is None);
            None
        },
        Some(v) => {
            assert(regex_capture(pattern.source(), s@, groups@[0]@) == Some(opt_view(v@[0])));
            assert(regex_capture(pattern.source(), s@, groups@[1]@) == Some(opt_view(v@[1])));
            assert(regex_capture(pattern.source(), s@, groups@[2]@) == Some(opt_view(v@[2])));
            assert(regex_capture(pattern.source(), s@, groups@[3]@) == Some(opt_view(v@[3])));
            Some(
                CallCaptures {
                    call: copy_opt_string(&v[0]),
                    args: copy_opt_string(&v[1]),
                    ret: copy_opt_string(&v[2]),
                    dur: copy_opt_string(&v[3]),
                },
            )
        },
    }
}

/// The record of a line whose kind is `kind` (`None`: no pattern matched),
/// from the groups its pattern captured: `text` for a signal or informational
/// line, the call groups otherwise.
pub open spec fn record_spec(
    config: Config,
    pid: usize,
    timestamp: u64,
    procname: Seq<char>,
    kind: Option<CallType>,
    call: Option<Seq<char>>,
    args: Option<Seq<char>>,
    ret: Option<Seq<char>>,
    dur: Option<Seq<char>>,
    text: Option<Seq<char>>,
) -> Result<SystemCallView, LineError> {
    match kind {
        None => Err(LineError::NoPatternMatched),
        Some(CallType::SignalOrInformational) => signal_spec(pid, timestamp, procname, text),
        Some(k) => syscall_spec(config, pid, timestamp, procname, call, args, ret, dur, k),
    }
}

/// What the patterns read of the call part of a line: its kind and the groups
/// of the pattern of that kind.
#[derive(Debug)]
pub struct LineMatch {
    pub kind: Option<CallType>,
    pub caps: CallCaptures,
    pub text: Option<String>,
}

/// The empty group set.
fn no_captures() -> (c: CallCaptures)
    ensures
        c.call is None,
        c.args is None,
        c.ret is None,
        c.dur is None,
{
    CallCaptures { call: None, args: None, ret: None, dur: None }
}

/// Whether a line kind counts as a resumed call.
fn counts_resumed(kind: &Option<CallType>) -> (b: bool)
    ensures
        b <==> resumed_increment(*kind) == 1,
{
    match kind {
        Some(CallType::ResumedCallWithArgs) | Some(CallType::ResumedCallWithoutArgs) | Some(
            CallType::ResumedWithoutDur,
        ) | Some(CallType::UnfResCall) => true,
        _ => false,
    }
}

/// Whether a line kind counts as an unfinished call.
fn counts_unfinished(kind: &Option<CallType>) -> (b: bool)
    ensures
        b <==> unfinished_increment(*kind) == 1,
{
    match kind {
        Some(CallType::UnfinishedCall) | Some(CallType::UnfResCall) => true,
        _ => false,
    }
}

/// Matches the call part `s` of a line against the patterns, in the order of
/// `line_kind`, and reads the groups of the first that matches.
pub fn match_line(patterns: &SyscallPatterns, s: &str) -> (m: LineMatch)
    ensures
        m.kind == line_kind(s@),
        match m.kind {
            Some(CallType::SignalOrInformational) => opt_view(m.text) == group_of(
                SIGNAL_OR_INFO@,
                s@,
                "text"@,
            ),
            Some(k) => {
                &&& opt_view(m.caps.call) == group_of(kind_pattern(k), s@, "call"@)
                &&& opt_view(m.caps.args) == group_of(kind_pattern(k), s@, "args"@)
                &&& opt_view(m.caps.ret) == group_of(kind_pattern(k), s@, "ret"@)
                &&& opt_view(m.caps.dur) == group_of(kind_pattern(k), s@, "dur"@)
            },
            None => true,
        },
{
    proof {
        use_type_invariant(patterns);
    }
    if let Some(caps) = capture_call(&patterns.without_args, s) {
        return LineMatch { kind: Some(CallType::CallWithoutArgs), caps, text: None };
    }
    if let Some(caps) = capture_call(&patterns.regular, s) {
        return LineMatch { kind: Some(CallType::RegularSyscall), caps, text: None };
    }
    if let Some(caps) = capture_call(&patterns.unfinished, s) {
        return LineMatch { kind: Some(CallType::UnfinishedCall), caps, text: None };
    }
    if let Some(caps) = capture_call(&patterns.resumed_args, s) {
        return LineMatch { kind: Some(CallType::ResumedCallWithArgs), caps, text: None };
    }
    if let Some(caps) = capture_call(&patterns.resumed_without_args, s) {
        return LineMatch { kind: Some(CallType::ResumedCallWithoutArgs), caps, text: None };
    }
    if let Some(caps) = capture_call(&patterns.without_args_and_duration, s) {
        return LineMatch { kind: Some(CallType::CallWithoutArgsNoDur), caps, text: None };
    }
    if let Some(caps) = capture_call(&patterns.resumed_without_dur, s) {
        return LineMatch { kind: Some(CallType::ResumedWithoutDur), caps, text: None };
    }
    if let Some(caps) = capture_call(&patterns.unf_res_call, s) {
        return LineMatch { kind: Some(CallType::UnfResCall), caps, text: None };
    }
    let groups = vec!["text"];
    match capture_groups(&patterns.signals_informational, s, &groups) {
        Some(v) => {
            assert(regex_capture(SIGNAL_OR_INFO@, s@, groups@[0]@) == Some(opt_view(v@[0])));
            LineMatch {
                kind: Some(CallType::SignalOrInformational),
                caps: no_captures(),
                text: copy_opt_string(&v[0]),
            }
        },
        None => {
            assert(regex_capture(SIGNAL_OR_INFO@, s@, groups@[0]@) is None);
            LineMatch { kind: None, caps: no_captures(), text: None }
        },
    }
}

/// Builds the record of a line from what its pattern read (`kind`, and the
/// groups `caps` or `text`), counting resumed and unfinished calls.
pub fn record_matched_line(
    config: &Config,
    pid: usize,
    timestamp: u64,
    procname: String,
    kind: Option<CallType>,
    caps: &CallCaptures,
    text: &Option<String>,
    resumed_call_cnt: &mut usize,
    unfinished_call_cnt: &mut usize,
) -> (r: Result<SystemCall, LineError>)
    requires
        resumed_increment(kind) == 1 ==> *old(resumed_call_cnt) < usize::MAX,
        unfinished_increment(kind) == 1 ==> *old(unfinished_call_cnt) < usize::MAX,
    ensures
        result_view(r) == record_spec(
            *config,
            pid,
            timestamp,
            procname@,
            kind,
            opt_view(caps.call),
            opt_view(caps.args),
            opt_view(caps.ret),
            opt_view(caps.dur),
            opt_view(*text),
        ),
        *final(resumed_call_cnt) == *old(resumed_call_cnt) + resumed_increment(kind),
        *final(unfinished_call_cnt) == *old(unfinished_call_cnt) + unfinished_increment(kind),
{
    if counts_resumed(&kind) {
        *resumed_call_cnt = *resumed_call_cnt + 1;
    }
    if counts_unfinished(&kind) {
        *unfinished_call_cnt = *unfinished_call_cnt + 1;
    }
    match kind {
        None => Err(LineError::NoPatternMatched),
        Some(CallType::SignalOrInformational) => make_signal_struct(pid, timestamp, procname, text),
        Some(k) => make_syscall_struct(config, pid, timestamp, procname, caps, k),
    }
}

/// Reads the call part `syscall_string` of a line with the first pattern that
/// matches it, counting resumed and unfinished calls.
pub fn parse_syscall(
    patterns: &SyscallPatterns,
    config: &Config,
    pid: usize,
    timestamp: u64,
    syscall_string: &str,
    procname: String,
    resumed_call_cnt: &mut usize,
    unfinished_call_cnt: &mut usize,
) -> (r: Result<SystemCall, LineError>)
    requires
        resumed_increment(line_kind(syscall_string@)) == 1 ==> *old(resumed_call_cnt) < usize::MAX,
        unfinished_increment(line_kind(syscall_string@)) == 1 ==> *old(unfinished_call_cnt) < usize::MAX,
    ensures
        result_view(r) == parse_syscall_spec(*config, pid, timestamp, syscall_string@, procname@),
        *final(resumed_call_cnt) == *old(resumed_call_cnt) + resumed_increment(line_kind(syscall_string@)),
        *final(unfinished_call_cnt) == *old(unfinished_call_cnt) + unfinished_increment(
            line_kind(syscall_string@),
        ),
{
    let m = match_line(patterns, syscall_string);
    record_matched_line(
        config,
        pid,
        timestamp,
        procname,
        m.kind,
        &m.caps,
        &m.text,
        resumed_call_cnt,
        unfinished_call_cnt,
    )
}

/// The record of a whole log line.
pub open spec fn parse_spec(config: Config, l: Seq<char>) -> Result<SystemCallView, LineError> {
    match line_prefix_spec(l) {
        Err(e) => Err(e),
        Ok((pid, ts, rest, name)) => parse_syscall_spec(config, pid, ts, rest, name),
    }
}

/// The kind of a whole log line, when its prefix can be read.
pub open spec fn parse_kind(l: Seq<char>) -> Option<CallType> {
    match line_prefix_spec(l) {
        Err(_) => None,
        Ok((_, _, rest, _)) => line_kind(rest),
    }
}

/// Reads one log line into a record, counting resumed and unfinished calls.
pub fn parse(
    patterns: &SyscallPatterns,
    config: &Config,
    log_line: &str,
    resumed_call_cnt: &mut usize,
    unfinished_call_cnt: &mut usize,
) -> (r: Result<SystemCall, LineError>)
    requires
        resumed_increment(parse_kind(log_line@)) == 1 ==> *old(resumed_call_cnt) < usize::MAX,
        unfinished_increment(parse_kind(log_line@)) == 1 ==> *old(unfinished_call_cnt) < usize::MAX,
    ensures
        result_view(r) == parse_spec(*config, log_line@),
        *final(resumed_call_cnt) == *old(resumed_call_cnt) + resumed_increment(parse_kind(log_line@)),
        *final(unfinished_call_cnt) == *old(unfinished_call_cnt) + unfinished_increment(
            parse_kind(log_line@),
        ),
{
    match parse_pid_pidname_timestamp(log_line) {
        Err(e) => Err(e),
        Ok((pid, timestamp, rest, name)) => parse_syscall(
            patterns,
            config,
            pid,
            timestamp,
            rest.as_str(),
            name,
            resumed_call_cnt,
            unfinished_call_cnt,
        ),
    }
}


/// Whether reading line `l` would count past the largest `usize`.
pub open spec fn counts_overflow(l: Seq<char>, resumed_call_cnt: usize, unfinished_call_cnt: usize) -> bool {
    ||| resumed_increment(parse_kind(l)) == 1 && resumed_call_cnt == usize::MAX
    ||| unfinished_increment(parse_kind(l)) == 1 && unfinished_call_cnt == usize::MAX
}

/// Reads one log line as `parse` does, for any counters: where the line would
/// count past the largest `usize`, it is refused with `CounterOverflow` and
/// the counters are left as they are.
pub fn try_parse(
    patterns: &SyscallPatterns,
    config: &Config,
    log_line: &str,
    resumed_call_cnt: &mut usize,
    unfinished_call_cnt: &mut usize,
) -> (r: Result<SystemCall, LineError>)
    ensures
        counts_overflow(log_line@, *old(resumed_call_cnt), *old(unfinished_call_cnt)) ==> {
            &&& r == Err::<SystemCall, LineError>(LineError::CounterOverflow)
            &&& *final(resumed_call_cnt) == *old(resumed_call_cnt)
            &&& *final(unfinished_call_cnt) == *old(unfinished_call_cnt)
        },
        !counts_overflow(log_line@, *old(resumed_call_cnt), *old(unfinished_call_cnt)) ==> {
            &&& result_view(r) == parse_spec(*config, log_line@)
            &&& *final(resumed_call_cnt) == *old(resumed_call_cnt) + resumed_increment(parse_kind(log_line@))
            &&& *final(unfinished_call_cnt) == *old(unfinished_call_cnt) + unfinished_increment(
                parse_kind(log_line@),
            )
        },
{
    match parse_pid_pidname_timestamp(log_line) {
        Err(e) => Err(e),
        Ok((pid, timestamp, rest, name)) => {
            let m = match_line(patterns, rest.as_str());
            if (counts_resumed(&m.kind) && *resumed_call_cnt == usize::MAX) || (counts_unfinished(&m.kind)
                && *unfinished_call_cnt == usize::MAX) {
                return Err(LineError::CounterOverflow);
            }
            record_matched_line(
                config,
                pid,
                timestamp,
                name,
                m.kind,
                &m.caps,
                &m.text,
                resumed_call_cnt,
                unfinished_call_cnt,
            )
        },
    }
}

/// In `secs` `.` `frac` with digits before the dot, the first `.` is the one
/// between them.
proof fn lemma_dot_index(secs: Seq<char>, frac: Seq<char>)
    requires
        all_digits(secs),
    ensures
        index_of(secs + seq!['.'] + frac, '.') == Some(secs.len() as int),
{
    let t = secs + seq!['.'] + frac;
    lemma_index_of_from(t, '.', 0);
    assert(t[secs.len() as int] == '.');
    match index_of(t, '.') {
        Some(j) => {
            if j < secs.len() {
                assert(t[j] == secs[j]);
                assert(is_digit(secs[j]));
            }
        },
        None => {},
    }
    assert(t.take(secs.len() as int) =~= secs);
}

/// A timestamp of decimal seconds, `.`, and six or more decimal digits reads
/// as the seconds times one million plus the first six of those digits, in
/// microseconds: further digits are below a microsecond and are dropped.
pub proof fn lemma_timestamp_microseconds(secs: Seq<char>, frac: Seq<char>)
    requires
        secs.len() > 0,
        all_digits(secs),
        frac.len() >= 6,
        all_digits(frac),
        digits_value(frac) <= u64::MAX,
        digits_value(secs) * 1_000_000 + digits_value(frac.take(6)) <= u64::MAX,
    ensures
        timestamp_spec(secs + seq!['.'] + frac) == Ok::<u64, LineError>(
            (digits_value(secs) * 1_000_000 + digits_value(frac.take(6))) as u64,
        ),
{
    let t = secs + seq!['.'] + frac;
    lemma_dot_index(secs, frac);
    let p = secs.len() as int;
    assert(t.take(p) =~= secs);
    assert(t.skip(p + 1) =~= frac);
    assert(pad6(frac) == frac);
    assert(is_digit(secs[0]));
    assert(is_digit(frac[0]));
    if frac.len() == 6 {
        assert(frac.take(6) =~= frac);
    }
    assert(micro_digits(frac) == frac.take(6));
    assert(all_digits(frac.take(6)));
    assert(frac.take(6)[0] == frac[0]);
}

/// A duration of decimal seconds, `.`, and six decimal digits reads as the
/// seconds times one million plus those six digits, in microseconds.
pub proof fn lemma_duration_microseconds(secs: Seq<char>, us: Seq<char>)
    requires
        all_digits(secs),
        us.len() == 6,
        all_digits(us),
        digits_value(secs) <= u64::MAX,
    ensures
        duration_spec(secs + seq!['.'] + us) == Some(
            (digits_value(secs) * 1_000_000 + digits_value(us)) as u128,
        ),
{
    let t = secs + seq!['.'] + us;
    lemma_dot_index(secs, us);
    let p = secs.len() as int;
    assert(t.take(p) =~= secs);
    assert(t.skip(p + 1) =~= us);
    lemma_append_zeros(us);
}

/// Appending three zeros to digits multiplies their value by a thousand.
proof fn lemma_append_zeros(us: Seq<char>)
    requires
        us.len() == 6,
        all_digits(us),
    ensures
        digits_value(pad_to(us, 9).take(9)) == digits_value(us) * 1000,
{
    let p = pad_to(us, 9);
    assert(p.take(9) =~= us.push('0').push('0').push('0'));
    assert(us.push('0').drop_last() =~= us);
    assert(us.push('0').push('0').drop_last() =~= us.push('0'));
    assert(us.push('0').push('0').push('0').drop_last() =~= us.push('0').push('0'));
    assert(digit_value('0') == 0);
    assert(digits_value(us.push('0')) == digits_value(us) * 10);
    assert(digits_value(us.push('0').push('0')) == digits_value(us) * 100);
    assert(digits_value(us.push('0').push('0').push('0')) == digits_value(us) * 1000);
}

} // verus!
