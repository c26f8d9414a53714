//! Merging of unfinished calls with their continuations, and conversion of
//! records into Trace Event Format events.

use vstd::prelude::*;

use crate::arg_map::ArgMap;
use crate::pattern::opt_view;
use crate::syscall_parser::{args_view, copy_opt_string, CallType, SystemCall, SystemCallView};

verus! {

/// The models of the records in a store.
pub open spec fn store_view(s: Seq<SystemCall>) -> Seq<SystemCallView> {
    s.map_values(|c: SystemCall| c@)
}

/// A stored unfinished call is continued by `resumed`: same process, same
/// call name, and it started earlier.
pub open spec fn continues(stored: SystemCallView, resumed: SystemCallView) -> bool {
    &&& stored.pid == resumed.pid
    &&& stored.timestamp < resumed.timestamp
    &&& stored.name == resumed.name
}

/// The first index at or after `i` of a stored call that `resumed` continues.
pub open spec fn first_continued_from(s: Seq<SystemCallView>, resumed: SystemCallView, i: int) -> Option<int>
    decreases s.len() - i,
{
    if i < 0 || i >= s.len() {
        None
    } else if continues(s[i], resumed) {
        Some(i)
    } else {
        first_continued_from(s, resumed, i + 1)
    }
}

/// The first stored call that `resumed` continues.
pub open spec fn first_continued(s: Seq<SystemCallView>, resumed: SystemCallView) -> Option<int> {
    first_continued_from(s, resumed, 0)
}

/// An unfinished call merged with its continuation: it keeps its own start
/// time, process, name and arguments, and takes the return value, duration and
/// outcome of the continuation; it becomes a regular call when the continuation
/// has a duration.
pub open spec fn merged(stored: SystemCallView, resumed: SystemCallView) -> SystemCallView {
    SystemCallView {
        timestamp: stored.timestamp,
        pid: stored.pid,
        name: stored.name,
        args: stored.args,
        args_string: stored.args_string,
        dur: resumed.dur,
        ret: resumed.ret,
        call_type: if resumed.dur is Some {
            CallType::RegularSyscall
        } else {
            CallType::ResumedWithoutDur
        },
        successful: resumed.successful,
        procname: stored.procname,
    }
}

/// Store, returned record and merge count after a continuation is looked up.
pub open spec fn check_storage_spec(store: Seq<SystemCallView>, resumed: SystemCallView, counter: nat) -> (
    Seq<SystemCallView>,
    SystemCallView,
    nat,
) {
    match first_continued(store, resumed) {
        Some(j) => (store.remove(j), merged(store[j], resumed), counter + 1),
        None => (store, resumed, counter),
    }
}

/// The kinds of line that continue an earlier unfinished call.
pub open spec fn is_resumed(k: CallType) -> bool {
    ||| k == CallType::ResumedCallWithArgs
    ||| k == CallType::ResumedCallWithoutArgs
    ||| k == CallType::ResumedWithoutDur
}

/// Store, returned record and merge count after a record is handled: an
/// unfinished call is stored and returned as is, a continuation is merged with
/// the call it continues, anything else passes unchanged.
pub open spec fn handle_partial_spec(store: Seq<SystemCallView>, call: SystemCallView, counter: nat) -> (
    Seq<SystemCallView>,
    SystemCallView,
    nat,
) {
    if call.call_type == CallType::UnfinishedCall {
        (store.push(call), call, counter)
    } else if is_resumed(call.call_type) {
        check_storage_spec(store, call, counter)
    } else {
        (store, call, counter)
    }
}

/// Looks up the unfinished call that `resumed_call` continues; when there is
/// one it leaves the store and is returned merged, and `counter` counts the
/// merge; otherwise `resumed_call` is returned as is.
pub fn check_storage(syscall_store: &mut Vec<SystemCall>, resumed_call: SystemCall, counter: &mut usize) -> (r:
    SystemCall)
    requires
        first_continued(store_view(old(syscall_store)@), resumed_call@) is Some ==> *old(counter) < usize::MAX,
    ensures
        (store_view(final(syscall_store)@), r@, *final(counter) as nat) == check_storage_spec(
            store_view(old(syscall_store)@),
            resumed_call@,
            *old(counter) as nat,
        ),
{
    let ghost sv = store_view(syscall_store@);
    let mut i: usize = 0;
    while i < syscall_store.len()
        invariant
            0 <= i <= syscall_store@.len(),
            syscall_store@ == old(syscall_store)@,
            sv == store_view(syscall_store@),
            *counter == *old(counter),
            first_continued(sv, resumed_call@) is Some ==> *old(counter) < usize::MAX,
            first_continued(sv, resumed_call@) == first_continued_from(sv, resumed_call@, i as int),
        decreases syscall_store@.len() - i,
    {
        assert(sv[i as int] == syscall_store@[i as int]@);
        if syscall_store[i].pid == resumed_call.pid && syscall_store[i].timestamp < resumed_call.timestamp
            && syscall_store[i].name == resumed_call.name {
            let mut merged_call = syscall_store.remove(i);
            merged_call.ret = copy_opt_string(&resumed_call.ret);
            merged_call.dur = resumed_call.dur;
            merged_call.successful = resumed_call.successful.clone();
            if resumed_call.dur.is_some() {
                merged_call.call_type = CallType::RegularSyscall;
            } else {
                merged_call.call_type = CallType::ResumedWithoutDur;
            }
            *counter = *counter + 1;
            assert(store_view(syscall_store@) =~= sv.remove(i as int));
            return merged_call;
        }
        i = i + 1;
    }
    resumed_call
}

/// Handles one record: unfinished calls are stored until their continuation
/// comes, continuations are merged with the call they continue, and anything
/// else is returned unchanged.
pub fn handle_partial_system_call(syscall_store: &mut Vec<SystemCall>, call: SystemCall, counter: &mut usize) -> (r:
    SystemCall)
    requires
        is_resumed(call.call_type) && first_continued(store_view(old(syscall_store)@), call@) is Some
            ==> *old(counter) < usize::MAX,
    ensures
        (store_view(final(syscall_store)@), r@, *final(counter) as nat) == handle_partial_spec(
            store_view(old(syscall_store)@),
            call@,
            *old(counter) as nat,
        ),
{
    if call.call_type == CallType::UnfinishedCall {
        let ghost sv = store_view(syscall_store@);
        syscall_store.push(call.duplicate());
        assert(store_view(syscall_store@) =~= sv.push(call@));
        return call;
    } else if call.call_type == CallType::ResumedCallWithArgs || call.call_type
        == CallType::ResumedCallWithoutArgs || call.call_type == CallType::ResumedWithoutDur {
        return check_storage(syscall_store, call, counter);
    }
    call
}


/// One step of reading a log: handles `event` as `handle_partial_system_call`
/// does and gives the record to write now, none when the handled record is an
/// unfinished call, which waits in the store for its continuation.
pub fn next_record_to_write(syscall_store: &mut Vec<SystemCall>, event: SystemCall, counter: &mut usize) -> (r:
    Option<SystemCall>)
    requires
        is_resumed(event.call_type) && first_continued(store_view(old(syscall_store)@), event@) is Some
            ==> *old(counter) < usize::MAX,
    ensures
        ({
            let (st, rec, c) = handle_partial_spec(
                store_view(old(syscall_store)@),
                event@,
                *old(counter) as nat,
            );
            &&& store_view(final(syscall_store)@) == st
            &&& *final(counter) as nat == c
            &&& match r {
                None => rec.call_type == CallType::UnfinishedCall,
                Some(w) => rec.call_type != CallType::UnfinishedCall && w@ == rec,
            }
        }),
{
    let handled = handle_partial_system_call(syscall_store, event, counter);
    if handled.call_type == CallType::UnfinishedCall {
        None
    } else {
        Some(handled)
    }
}

/// Whether handling `event` would count a merge past the largest `usize`:
/// it continues a stored call and `counter` is already at the largest value.
pub fn merge_overflows(syscall_store: &Vec<SystemCall>, event: &SystemCall, counter: usize) -> (b: bool)
    ensures
        b <==> (is_resumed(event.call_type) && first_continued(store_view(syscall_store@), event@) is Some
            && counter == usize::MAX),
{
    if counter < usize::MAX {
        return false;
    }
    if !(event.call_type == CallType::ResumedCallWithArgs || event.call_type == CallType::ResumedCallWithoutArgs
        || event.call_type == CallType::ResumedWithoutDur) {
        return false;
    }
    let ghost sv = store_view(syscall_store@);
    let mut i: usize = 0;
    while i < syscall_store.len()
        invariant
            0 <= i <= syscall_store@.len(),
            sv == store_view(syscall_store@),
            counter == usize::MAX,
            is_resumed(event.call_type),
            first_continued(sv, event@) == first_continued_from(sv, event@, i as int),
        decreases syscall_store@.len() - i,
    {
        assert(sv[i as int] == syscall_store@[i as int]@);
        if syscall_store[i].pid == event.pid && syscall_store[i].timestamp < event.timestamp
            && syscall_store[i].name == event.name {
            return true;
        }
        i = i + 1;
    }
    false
}

/// Appending a call that `resumed` continues to a store holding none makes
/// that call the first continued one.
proof fn lemma_first_continued_push(store: Seq<SystemCallView>, u: SystemCallView, r: SystemCallView, i: int)
    requires
        0 <= i <= store.len(),
        continues(u, r),
        first_continued_from(store, r, i) is None,
    ensures
        first_continued_from(store.push(u), r, i) == Some(store.len() as int),
    decreases store.len() - i,
{
    if i < store.len() {
        assert(store.push(u)[i] == store[i]);
        lemma_first_continued_push(store, u, r, i + 1);
    } else {
        assert(store.push(u)[i] == u);
    }
}

/// An unfinished call followed by the call that continues it, when nothing
/// stored before is continued by it, comes out once, merged: the unfinished
/// call is held back, then returned with its own start time and the
/// continuation's result, the store is back as it was, and one merge is counted.
pub proof fn lemma_unfinished_then_resumed(
    store: Seq<SystemCallView>,
    u: SystemCallView,
    r: SystemCallView,
    counter: nat,
)
    requires
        u.call_type == CallType::UnfinishedCall,
        is_resumed(r.call_type),
        continues(u, r),
        first_continued(store, r) is None,
    ensures
        ({
            let (s1, out1, c1) = handle_partial_spec(store, u, counter);
            let (s2, out2, c2) = handle_partial_spec(s1, r, c1);
            &&& s1 == store.push(u)
            &&& out1 == u
            &&& c1 == counter
            &&& s2 == store
            &&& out2 == merged(u, r)
            &&& out2.timestamp == u.timestamp
            &&& out2.ret == r.ret
            &&& out2.dur == r.dur
            &&& c2 == counter + 1
        }),
{
    lemma_first_continued_push(store, u, r, 0);
    assert(store.push(u).remove(store.len() as int) =~= store);
}

/// Where `first_continued_from` points.
proof fn lemma_first_continued_from(s: Seq<SystemCallView>, r: SystemCallView, i: int)
    requires
        0 <= i,
    ensures
        first_continued_from(s, r, i) matches Some(j) ==> i <= j < s.len() && continues(s[j], r),
    decreases s.len() - i,
{
    if i < s.len() && !continues(s[i], r) {
        lemma_first_continued_from(s, r, i + 1);
    }
}

/// Handling a record keeps three things: the store holds only unfinished
/// calls; a record comes out unfinished exactly when it went in unfinished
/// (those are held back until continued); and every merge takes one call out
/// of the store, so stored calls plus merges only grow by the unfinished
/// calls stored.
pub proof fn lemma_handle_partial_invariants(store: Seq<SystemCallView>, call: SystemCallView, counter: nat)
    requires
        forall|i: int| 0 <= i < store.len() ==> (#[trigger] store[i]).call_type == CallType::UnfinishedCall,
    ensures
        ({
            let (s1, out, c1) = handle_partial_spec(store, call, counter);
            &&& forall|i: int| 0 <= i < s1.len() ==> (#[trigger] s1[i]).call_type == CallType::UnfinishedCall
            &&& (out.call_type == CallType::UnfinishedCall <==> call.call_type == CallType::UnfinishedCall)
            &&& s1.len() + c1 == store.len() + counter + (if call.call_type == CallType::UnfinishedCall {
                1int
            } else {
                0int
            })
        }),
{
    lemma_first_continued_from(store, call, 0);
    if call.call_type == CallType::UnfinishedCall {
        assert forall|i: int| 0 <= i < store.push(call).len() implies (#[trigger] store.push(
            call,
        )[i]).call_type == CallType::UnfinishedCall by {
            if i < store.len() {
                assert(store.push(call)[i] == store[i]);
            }
        }
    } else if is_resumed(call.call_type) {
        if let Some(j) = first_continued(store, call) {
            assert forall|i: int| 0 <= i < store.remove(j).len() implies (#[trigger] store.remove(
                j,
            )[i]).call_type == CallType::UnfinishedCall by {
                if i < j {
                    assert(store.remove(j)[i] == store[i]);
                } else {
                    assert(store.remove(j)[i] == store[i + 1]);
                }
            }
        }
    }
}

/// A Trace Event Format event.
#[derive(Debug)]
pub struct TEFSystemCall<'a> {
    pub name: &'a str,
    /// The outcome of the call.
    pub cat: &'a str,
    /// `X` for a complete event, `i` for an instant event.
    pub ph: String,
    pub pid: usize,
    pub tid: usize,
    /// Start time in microseconds.
    pub ts: u64,
    /// Duration in microseconds.
    pub dur: Option<u128>,
    pub args: Option<ArgMap>,
}

/// The model of a Trace Event Format event.
pub struct TefView {
    pub name: Seq<char>,
    pub cat: Seq<char>,
    pub ph: Seq<char>,
    pub pid: usize,
    pub tid: usize,
    pub ts: u64,
    pub dur: Option<u128>,
    pub args: Option<Map<Seq<char>, Seq<char>>>,
}

impl<'a> View for TEFSystemCall<'a> {
    type V = TefView;

    open spec fn view(&self) -> TefView {
        TefView {
            name: self.name@,
            cat: self.cat@,
            ph: self.ph@,
            pid: self.pid,
            tid: self.tid,
            ts: self.ts,
            dur: self.dur,
            args: args_view(self.args),
        }
    }
}

/// The kinds of record that become complete events.
pub open spec fn is_complete(k: CallType) -> bool {
    ||| k == CallType::RegularSyscall
    ||| k == CallType::ResumedCallWithArgs
    ||| k == CallType::ResumedCallWithoutArgs
    ||| k == CallType::CallWithoutArgs
}

/// A record becomes a complete event: it is of a complete kind and has a
/// duration. Every record without a duration becomes an instant event.
pub open spec fn is_complete_event(e: SystemCallView) -> bool {
    is_complete(e.call_type) && e.dur is Some
}

/// The event of a record: a complete event (`X`) for regular calls, calls
/// without arguments and resumed calls that have a duration, an instant event
/// (`i`) for everything else; the record's arguments with its return value
/// added under `ret`; the process id as both process and thread id.
pub open spec fn tef_spec(e: SystemCallView) -> TefView {
    let base = match e.args {
        Some(m) => m,
        None => Map::empty(),
    };
    TefView {
        name: e.name,
        cat: e.successful,
        ph: if is_complete_event(e) {
            "X"@
        } else {
            "i"@
        },
        pid: e.pid,
        tid: e.pid,
        ts: e.timestamp,
        dur: e.dur,
        args: Some(
            match e.ret {
                Some(r) => base.insert("ret"@, r),
                None => base,
            },
        ),
    }
}

/// Converts a record into a Trace Event Format event. Complete events need a
/// return value.
pub fn build_trace_event_format(event: &SystemCall) -> (r: TEFSystemCall<'_>)
    requires
        is_complete_event(event@) ==> event.ret is Some,
    ensures
        r@ == tef_spec(event@),
{
    let mut arguments = match &event.args {
        Some(m) => m.duplicate(),
        None => ArgMap::new(),
    };
    if let Some(ret) = &event.ret {
        arguments.insert("ret".to_owned(), ret.clone());
    }
    let complete_kind = match event.call_type {
        CallType::RegularSyscall | CallType::ResumedCallWithArgs | CallType::ResumedCallWithoutArgs
        | CallType::CallWithoutArgs => true,
        CallType::SignalOrInformational | CallType::CallWithoutArgsNoDur | CallType::UnfinishedCall
        | CallType::ResumedWithoutDur | CallType::UnfResCall => false,
    };
    let ph = if complete_kind && event.dur.is_some() {
        "X".to_owned()
    } else {
        "i".to_owned()
    };
    TEFSystemCall {
        name: event.name.as_str(),
        cat: event.successful.as_str(),
        ph,
        ts: event.timestamp,
        pid: event.pid,
        tid: event.pid,
        args: Some(arguments),
        dur: event.dur,
    }
}


/// A record and its event share start time, process and name; the event is
/// an instant event exactly when the record is not of a complete kind or has
/// no duration, so every record without a duration is an instant event; and
/// it carries the record's return value under `ret`.
pub proof fn lemma_tef_fields(e: SystemCallView)
    ensures
        tef_spec(e).ts == e.timestamp,
        tef_spec(e).pid == e.pid,
        tef_spec(e).tid == e.pid,
        tef_spec(e).name == e.name,
        tef_spec(e).dur == e.dur,
        tef_spec(e).ph == "i"@ <==> !(is_complete(e.call_type) && e.dur is Some),
        e.dur is None ==> tef_spec(e).ph == "i"@,
        tef_spec(e).ph == seq!['X'] || tef_spec(e).ph == seq!['i'],
        tef_spec(e).ph == seq!['X'] <==> ((e.call_type == CallType::RegularSyscall || e.call_type
            == CallType::ResumedCallWithArgs || e.call_type == CallType::ResumedCallWithoutArgs
            || e.call_type == CallType::CallWithoutArgs) && e.dur is Some),
        tef_spec(e).cat == e.successful,
        e.ret matches Some(r) ==> tef_spec(e).args.unwrap().contains_key("ret"@) && tef_spec(e).args.unwrap()["ret"@] == r,
{
    reveal_strlit("i");
    reveal_strlit("X");
    assert("i"@[0] != "X"@[0]);
    assert("i"@ != "X"@);
    assert("i"@ =~= seq!['i']);
    assert("X"@ =~= seq!['X']);
}


/// A merged call becomes a complete event exactly when its continuation had a
/// duration; without one it stays an instant event.
pub proof fn lemma_merged_event_kind(stored: SystemCallView, resumed: SystemCallView)
    ensures
        tef_spec(merged(stored, resumed)).ph == "X"@ <==> resumed.dur is Some,
        tef_spec(merged(stored, resumed)).dur == resumed.dur,
        tef_spec(merged(stored, resumed)).ts == stored.timestamp,
{
    reveal_strlit("i");
    reveal_strlit("X");
    assert("i"@[0] != "X"@[0]);
}

/// A continuation merged with the stored call it continues gives back that
/// call as it was started (start time, process, name, arguments and argument
/// text, process name) with the continuation's return value, duration and
/// outcome; it is a regular call exactly when the continuation has a duration.
/// The call leaves the store and one merge is counted. A continuation that
/// continues nothing stored passes unchanged and changes nothing.
pub proof fn lemma_merge_keeps_the_call(store: Seq<SystemCallView>, resumed: SystemCallView, counter: nat)
    ensures
        match first_continued(store, resumed) {
            Some(j) => {
                let (st, r, c) = check_storage_spec(store, resumed, counter);
                &&& 0 <= j < store.len()
                &&& store[j].pid == resumed.pid
                &&& store[j].name == resumed.name
                &&& store[j].timestamp < resumed.timestamp
                &&& r.timestamp == store[j].timestamp
                &&& r.pid == store[j].pid
                &&& r.name == store[j].name
                &&& r.args == store[j].args
                &&& r.args_string == store[j].args_string
                &&& r.procname == store[j].procname
                &&& r.ret == resumed.ret
                &&& r.dur == resumed.dur
                &&& r.successful == resumed.successful
                &&& (resumed.dur is Some ==> r.call_type == CallType::RegularSyscall)
                &&& (resumed.dur is None ==> r.call_type == CallType::ResumedWithoutDur)
                &&& st.len() + 1 == store.len()
                &&& st == store.remove(j)
                &&& c == counter + 1
            },
            None => check_storage_spec(store, resumed, counter) == (store, resumed, counter),
        },
        match first_continued(store, resumed) {
            Some(j) => forall|i: int|
                0 <= i < j ==> !(#[trigger] store[i].pid == resumed.pid && store[i].name == resumed.name
                    && store[i].timestamp < resumed.timestamp),
            None => forall|i: int|
                0 <= i < store.len() ==> !(#[trigger] store[i].pid == resumed.pid && store[i].name
                    == resumed.name && store[i].timestamp < resumed.timestamp),
        },
        resumed.call_type == CallType::ResumedCallWithArgs || resumed.call_type
            == CallType::ResumedCallWithoutArgs || resumed.call_type == CallType::ResumedWithoutDur
            ==> handle_partial_spec(store, resumed, counter) == check_storage_spec(store, resumed, counter),
        resumed.call_type == CallType::UnfinishedCall ==> handle_partial_spec(store, resumed, counter) == (
        store.push(resumed), resumed, counter),
        !(resumed.call_type == CallType::ResumedCallWithArgs || resumed.call_type
            == CallType::ResumedCallWithoutArgs || resumed.call_type == CallType::ResumedWithoutDur
            || resumed.call_type == CallType::UnfinishedCall) ==> handle_partial_spec(store, resumed, counter)
            == (store, resumed, counter),
{
    lemma_first_continued_from(store, resumed, 0);
    lemma_first_continued_is_first(store, resumed, 0);
}

/// No stored call before the first continued one, and none at all where
/// there is no continued one, is continued.
proof fn lemma_first_continued_is_first(s: Seq<SystemCallView>, r: SystemCallView, i: int)
    requires
        0 <= i,
    ensures
        match first_continued_from(s, r, i) {
            Some(j) => forall|k: int| i <= k < j ==> !continues(#[trigger] s[k], r),
            None => forall|k: int| i <= k < s.len() ==> !continues(#[trigger] s[k], r),
        },
    decreases s.len() - i,
{
    if i < s.len() && !continues(s[i], r) {
        lemma_first_continued_is_first(s, r, i + 1);
    }
}

/// Every event carries the record's arguments, complete or instant: a name
/// other than `ret` is among the event's arguments exactly when it is among
/// the record's, with the same value; a record's return value stands under
/// `ret`.
pub proof fn lemma_tef_keeps_arguments(e: SystemCallView, k: Seq<char>)
    requires
        k != "ret"@,
    ensures
        tef_spec(e).args matches Some(a) && {
            &&& match e.args {
                Some(m) => (a.dom().contains(k) <==> m.dom().contains(k)) && (m.dom().contains(k) ==> a[k]
                    == m[k]),
                None => !a.dom().contains(k),
            }
            &&& match e.ret {
                Some(r) => a.dom().contains("ret"@) && a["ret"@] == r,
                None => true,
            }
        },
{
}

} // verus!
