//! The frontend control surface and the dump engine: ring allocation and
//! hand-over to the backend, and the conversion of the ring into the uftrace
//! data-directory contents (per-thread `.dat` payloads plus the `info`,
//! `task.txt` and `sid-NN.map` metadata). All outputs are produced as bytes;
//! writing them to disk is the embedding program's part.

use vstd::prelude::*;

verus! {

use vstd::utf8::encode_utf8;

use crate::backend::{
    Backend,
    BackendModel,
    backend_wf,
    rftrace_backend_disable,
    rftrace_backend_enable,
    rftrace_backend_get_events,
    rftrace_backend_get_events_index,
    rftrace_backend_init,
};
use crate::codec::{
    TraceRecord,
    append_dec,
    append_str,
    dec_digits,
    serialized,
    lemma_serialized_snoc,
    parse_records,
    lemma_record_round_trip,
    record_wf,
    u16_le,
    u32_le,
    u64_le,
    write_event,
    write_u16_le,
    write_u32_le,
    write_u64_le,
};
use crate::interface::{Event, MAX_STACK_HEIGHT};

/// Session feature flag: task and session metadata are present.
pub const FEAT_TASK_SESSION: u64 = 0x2;

/// Session feature flag: symbol addresses are relative to the load address.
pub const FEAT_SYM_REL_ADDR: u64 = 0x20;

/// Info flag: a `cmdline:` line is present.
pub const INFO_CMDLINE: u64 = 0x8;

/// Info flag: `taskinfo:` lines are present.
pub const INFO_TASKINFO: u64 = 0x80;

/// The process id written into the synthesized metadata; a convention, not a
/// discovery.
pub const TRACE_PID: u64 = 42;

/// Keeps track of the event buffer handed to the backend.
#[derive(Copy, Clone, Debug)]
pub struct Events {
    len: usize,
}

impl Events {
    /// The ring length this handle was created with.
    pub closed spec fn spec_len(&self) -> nat {
        self.len as nat
    }

    pub fn len(&self) -> (n: usize)
        ensures
            n == self.spec_len(),
    {
        self.len
    }
}

/// Enables tracing in the backend.
pub fn enable(backend: &mut Backend)
    ensures
        final(backend)@ == (BackendModel { enabled: true, ..old(backend)@ }),
{
    rftrace_backend_enable(backend);
}

/// Disables tracing in the backend.
pub fn disable(backend: &mut Backend)
    ensures
        final(backend)@ == (BackendModel { enabled: false, ..old(backend)@ }),
{
    rftrace_backend_disable(backend);
}

/// Initializes a new event buffer of `max_event_count` empty slots and hands
/// it to the backend. With `overwriting` the ring keeps only the most recent
/// events; otherwise recording stops when the ring is nearly full.
/// `max_event_count` must exceed the maximum shadow-stack height, since that
/// many trailing slots are reserved for in-flight returns. If the backend
/// already owns a ring, the first one stays active.
pub fn init(backend: &mut Backend, max_event_count: usize, overwriting: bool) -> (r: Events)
    requires
        backend_wf(old(backend)@),
        max_event_count > MAX_STACK_HEIGHT,
    ensures
        r.spec_len() == max_event_count,
        old(backend)@.events is Some ==> final(backend)@ == old(backend)@,
        old(backend)@.events is None ==> final(backend)@ == (BackendModel {
            events: Some(Seq::new(max_event_count as nat, |i: int| Event::Empty)),
            overwriting: overwriting,
            ..old(backend)@
        }),
        backend_wf(final(backend)@),
{
    let mut buf: Vec<Event> = Vec::new();
    while buf.len() < max_event_count
        invariant
            buf@.len() <= max_event_count,
            forall|i: int| 0 <= i < buf@.len() ==> buf@[i] == Event::Empty,
        decreases max_event_count - buf@.len(),
    {
        buf.push(Event::Empty);
    }
    proof {
        assert(buf@ =~= Seq::new(max_event_count as nat, |i: int| Event::Empty));
    }
    rftrace_backend_init(backend, buf, overwriting);
    Events { len: max_event_count }
}

/// The thread identifier as the metadata spells it: 0 stands for "unknown".
pub open spec fn tid_val(t: Option<u64>) -> u64 {
    match t {
        None => 0,
        Some(x) => x,
    }
}

fn tid_value(t: Option<u64>) -> (r: u64)
    ensures
        r == tid_val(t),
{
    match t {
        None => 0,
        Some(x) => x,
    }
}

fn tid_eq(a: Option<u64>, b: Option<u64>) -> (r: bool)
    ensures
        r == (a == b),
{
    match (a, b) {
        (None, None) => true,
        (Some(x), Some(y)) => x == y,
        _ => false,
    }
}

/// The ring contents in record order when reading begins at `start`.
pub open spec fn ring_at(events: Seq<Event>, start: int) -> Seq<Event>
    recommends
        0 <= start < events.len(),
{
    events.subrange(start, events.len() as int) + events.subrange(0, start)
}

/// The ring contents in record order: oldest surviving slot first, given the
/// monotonic write index.
pub open spec fn ring_view(events: Seq<Event>, index: nat) -> Seq<Event>
    recommends
        events.len() > 0,
{
    ring_at(events, (index % events.len()) as int)
}

/// Whether an event is emitted when dumping under a selector: `None` merges
/// every thread, `Some(t)` keeps only thread `t`. Empty slots are never
/// emitted.
pub open spec fn event_matches(e: Event, sel: Option<Option<u64>>) -> bool {
    match e {
        Event::Empty => false,
        Event::Entry(c) => match sel {
            None => true,
            Some(t) => c.tid == t,
        },
        Event::Exit(x) => match sel {
            None => true,
            Some(t) => x.tid == t,
        },
    }
}

/// The 16-byte record an event turns into: entries carry their callee entry
/// address, exits the entry address of the returning function.
pub open spec fn event_record(e: Event) -> TraceRecord
    recommends
        !(e is Empty),
{
    match e {
        Event::Empty => TraceRecord { time: 0, addr: 0, kind: 0 },
        Event::Entry(c) => TraceRecord { time: c.time, addr: c.to, kind: 0 },
        Event::Exit(x) => TraceRecord { time: x.time, addr: x.from, kind: 1 },
    }
}

/// The records a dump emits for `events` under a selector, in order.
pub open spec fn records_of(events: Seq<Event>, sel: Option<Option<u64>>) -> Seq<TraceRecord>
    decreases events.len(),
{
    if events.len() == 0 {
        Seq::empty()
    } else {
        let rest = records_of(events.drop_last(), sel);
        if event_matches(events.last(), sel) {
            rest.push(event_record(events.last()))
        } else {
            rest
        }
    }
}

/// The byte stream a dump emits for `events` under a selector.
pub open spec fn trace_bytes(events: Seq<Event>, sel: Option<Option<u64>>) -> Seq<u8> {
    serialized(records_of(events, sel))
}

/// The distinct thread identifiers of the non-empty events, in order of first
/// appearance.
pub open spec fn tids_of(events: Seq<Event>) -> Seq<Option<u64>>
    decreases events.len(),
{
    if events.len() == 0 {
        Seq::empty()
    } else {
        let prefix = tids_of(events.drop_last());
        match events.last() {
            Event::Empty => prefix,
            Event::Entry(c) => if prefix.contains(c.tid) {
                prefix
            } else {
                prefix.push(c.tid)
            },
            Event::Exit(x) => if prefix.contains(x.tid) {
                prefix
            } else {
                prefix.push(x.tid)
            },
        }
    }
}

fn tids_contains(tids: &Vec<Option<u64>>, t: Option<u64>) -> (r: bool)
    ensures
        r == tids@.contains(t),
{
    let mut i: usize = 0;
    while i < tids.len()
        invariant
            i <= tids@.len(),
            forall|k: int| 0 <= k < i ==> tids@[k] != t,
        decreases tids@.len() - i,
    {
        if tid_eq(tids[i], t) {
            return true;
        }
        i += 1;
    }
    false
}

/// Collects the distinct thread identifiers seen in the ring, in order of
/// first appearance from `start`.
fn collect_tids(events: &Vec<Event>, start: usize) -> (tids: Vec<Option<u64>>)
    requires
        start < events@.len(),
    ensures
        tids@ == tids_of(ring_at(events@, start as int)),
{
    let ghost ring = ring_at(events@, start as int);
    let len = events.len();
    let mut tids: Vec<Option<u64>> = Vec::new();
    let mut j: usize = 0;
    while j < len
        invariant
            len == events@.len(),
            start < len,
            j <= len,
            ring == ring_at(events@, start as int),
            tids@ == tids_of(ring.take(j as int)),
        decreases len - j,
    {
        let idx = if j < len - start {
            start + j
        } else {
            j - (len - start)
        };
        let e = events[idx];
        proof {
            assert(ring.len() == len);
            assert(ring[j as int] == events@[idx as int]);
            assert(ring.take(j as int + 1).drop_last() =~= ring.take(j as int));
            assert(ring.take(j as int + 1).last() == ring[j as int]);
        }
        match e {
            Event::Empty => (),
            Event::Entry(c) => {
                if !tids_contains(&tids, c.tid) {
                    tids.push(c.tid);
                }
            },
            Event::Exit(x) => {
                if !tids_contains(&tids, x.tid) {
                    tids.push(x.tid);
                }
            },
        }
        j += 1;
    }
    proof {
        assert(ring.take(len as int) =~= ring);
    }
    tids
}

/// Appends the records of the ring (read from `start`) that the selector
/// keeps, in ring order.
fn emit_trace(events: &Vec<Event>, start: usize, sel: Option<Option<u64>>, out: &mut Vec<u8>)
    requires
        start < events@.len(),
    ensures
        final(out)@ == old(out)@ + trace_bytes(ring_at(events@, start as int), sel),
{
    let ghost ring = ring_at(events@, start as int);
    let len = events.len();
    let mut j: usize = 0;
    while j < len
        invariant
            len == events@.len(),
            start < len,
            j <= len,
            ring == ring_at(events@, start as int),
            out@ == old(out)@ + serialized(records_of(ring.take(j as int), sel)),
        decreases len - j,
    {
        let idx = if j < len - start {
            start + j
        } else {
            j - (len - start)
        };
        let e = events[idx];
        proof {
            assert(ring.len() == len);
            assert(ring[j as int] == events@[idx as int]);
            assert(ring.take(j as int + 1).drop_last() =~= ring.take(j as int));
            assert(ring.take(j as int + 1).last() == ring[j as int]);
            if event_matches(ring[j as int], sel) {
                lemma_serialized_snoc(
                    records_of(ring.take(j as int), sel),
                    event_record(ring[j as int]),
                );
            }
        }
        match e {
            Event::Empty => (),
            Event::Entry(c) => {
                if sel_matches(sel, c.tid) {
                    write_event(out, c.time, c.to, 0);
                }
            },
            Event::Exit(x) => {
                if sel_matches(sel, x.tid) {
                    write_event(out, x.time, x.from, 1);
                }
            },
        }
        proof {
            assert(out@ =~= old(out)@ + serialized(records_of(ring.take(j as int + 1), sel)));
        }
        j += 1;
    }
    proof {
        assert(ring.take(len as int) =~= ring);
    }
}

fn sel_matches(sel: Option<Option<u64>>, tid: Option<u64>) -> (r: bool)
    ensures
        r == match sel {
            None => true,
            Some(t) => tid == t,
        },
{
    match sel {
        None => true,
        Some(t) => tid_eq(tid, t),
    }
}

/// Dumps the recorded events as one merged byte stream in ring order: the
/// packed-record format without any metadata. Tracing is disabled first, and
/// the ring is taken away from the backend.
pub fn dump_trace(backend: &mut Backend) -> (r: Vec<u8>)
    requires
        backend_wf(old(backend)@),
        old(backend)@.events is Some,
    ensures
        final(backend)@ == (BackendModel { enabled: false, events: None, ..old(backend)@ }),
        r@ == trace_bytes(
            ring_view(old(backend)@.events.unwrap(), old(backend)@.index),
            None::<Option<u64>>,
        ),
{
    disable(backend);
    let idx = rftrace_backend_get_events_index(backend);
    let events = rftrace_backend_get_events(backend).unwrap();
    let len = events.len();
    let start = (idx % (len as u64)) as usize;
    let mut out: Vec<u8> = Vec::new();
    emit_trace(&events, start, None, &mut out);
    out
}

/// An address whose meaningful bits fit the 48-bit field of the record
/// layout, as instruction pointers do on the target.
pub open spec fn event_fits(e: Event) -> bool {
    match e {
        Event::Empty => true,
        Event::Entry(c) => c.to <= 0xffff_ffff_ffffu64,
        Event::Exit(x) => x.from <= 0xffff_ffff_ffffu64,
    }
}

proof fn lemma_records_of_wf(events: Seq<Event>, sel: Option<Option<u64>>)
    requires
        forall|i: int| 0 <= i < events.len() ==> event_fits(#[trigger] events[i]),
    ensures
        forall|i: int|
            0 <= i < records_of(events, sel).len() ==> record_wf(
                #[trigger] records_of(events, sel)[i],
            ),
    decreases events.len(),
{
    if events.len() > 0 {
        assert(forall|i: int|
            0 <= i < events.drop_last().len() ==> event_fits(#[trigger] events.drop_last()[i]));
        lemma_records_of_wf(events.drop_last(), sel);
        assert(event_fits(events.last()));
        let rest = records_of(events.drop_last(), sel);
        if event_matches(events.last(), sel) {
            assert(record_wf(event_record(events.last())));
            assert(forall|i: int|
                0 <= i < rest.len() ==> rest.push(event_record(events.last()))[i] == rest[i]);
        }
    }
}

/// The file-format round trip: parsing the byte stream a dump emits, with
/// the documented record layout, yields exactly the records of the recorded
/// stream, under any thread selector.
pub proof fn lemma_trace_round_trip(events: Seq<Event>, sel: Option<Option<u64>>)
    requires
        forall|i: int| 0 <= i < events.len() ==> event_fits(#[trigger] events[i]),
    ensures
        parse_records(trace_bytes(events, sel)) == Some(records_of(events, sel)),
{
    lemma_records_of_wf(events, sel);
    lemma_record_round_trip(records_of(events, sel));
}

/// A thread identifier collected from the ring has at least one event, so
/// its per-thread trace is never empty.
pub proof fn lemma_tid_trace_nonempty(events: Seq<Event>, t: Option<u64>)
    requires
        tids_of(events).contains(t),
    ensures
        records_of(events, Some(t)).len() > 0,
    decreases events.len(),
{
    if events.len() == 0 {
        // tids_of is empty here, contradicting the requires.
    } else {
        let prefix = tids_of(events.drop_last());
        let last_tid: Option<Option<u64>> = match events.last() {
            Event::Empty => None,
            Event::Entry(c) => Some(c.tid),
            Event::Exit(x) => Some(x.tid),
        };
        match last_tid {
            None => {
                lemma_tid_trace_nonempty(events.drop_last(), t);
            },
            Some(lt) => {
                if lt == t {
                    assert(event_matches(events.last(), Some(t)));
                    assert(records_of(events, Some(t)).len() > 0);
                } else {
                    let s = tids_of(events);
                    if prefix.contains(lt) {
                        assert(s == prefix);
                    } else {
                        assert(s == prefix.push(lt));
                        let i = choose|i: int| 0 <= i < s.len() && s[i] == t;
                        assert(s[i] == t);
                        if i < prefix.len() {
                            assert(prefix[i] == t);
                        } else {
                            assert(s[i] == lt);
                            assert(false);
                        }
                    }
                    assert(prefix.contains(t));
                    lemma_tid_trace_nonempty(events.drop_last(), t);
                    assert(!event_matches(events.last(), Some(t)) ==> records_of(events, Some(t))
                        == records_of(events.drop_last(), Some(t)));
                }
            },
        }
    }
}

/// The header of the `info` file: magic, format version 4, header size 40,
/// little-endian marker, 64-bit ELF class, the feature and info flags, and
/// the zeroed mstack and reserved words.
pub open spec fn info_header() -> Seq<u8> {
    encode_utf8("Ftrace!\x00"@) + u32_le(4) + u16_le(40) + seq![1u8, 2u8] + u64_le(
        FEAT_TASK_SESSION | FEAT_SYM_REL_ADDR,
    ) + u64_le(INFO_CMDLINE | INFO_TASKINFO) + u16_le(0) + u16_le(0) + u16_le(0) + u16_le(0)
}

/// The `,t` continuation of the comma-separated thread-identifier list.
pub open spec fn tid_tail_bytes(tids: Seq<u64>) -> Seq<u8>
    decreases tids.len(),
{
    if tids.len() == 0 {
        Seq::empty()
    } else {
        encode_utf8(","@) + dec_digits(tids[0] as nat) + tid_tail_bytes(tids.skip(1))
    }
}

proof fn lemma_tid_tail_snoc(tids: Seq<u64>, t: u64)
    ensures
        tid_tail_bytes(tids.push(t)) == tid_tail_bytes(tids) + encode_utf8(","@) + dec_digits(
            t as nat,
        ),
    decreases tids.len(),
{
    if tids.len() == 0 {
        assert(tids.push(t)[0] == t);
        assert(tids.push(t).skip(1) =~= Seq::<u64>::empty());
        assert(tid_tail_bytes(tids.push(t)) == encode_utf8(","@) + dec_digits(t as nat)
            + tid_tail_bytes(tids.push(t).skip(1)));
        assert(tid_tail_bytes(tids.push(t).skip(1)) == Seq::<u8>::empty());
        assert(tid_tail_bytes(tids) == Seq::<u8>::empty());
        assert(tid_tail_bytes(tids.push(t)) =~= tid_tail_bytes(tids) + encode_utf8(","@)
            + dec_digits(t as nat));
    } else {
        assert(tids.push(t).skip(1) =~= tids.skip(1).push(t));
        lemma_tid_tail_snoc(tids.skip(1), t);
        assert(tids.push(t)[0] == tids[0]);
        assert(tid_tail_bytes(tids.push(t)) == encode_utf8(","@) + dec_digits(tids[0] as nat)
            + tid_tail_bytes(tids.skip(1).push(t)));
        assert(tid_tail_bytes(tids.skip(1).push(t)) == tid_tail_bytes(tids.skip(1)) + encode_utf8(
            ","@,
        ) + dec_digits(t as nat));
        assert(tid_tail_bytes(tids) == encode_utf8(","@) + dec_digits(tids[0] as nat)
            + tid_tail_bytes(tids.skip(1)));
        assert(tid_tail_bytes(tids.push(t)) =~= tid_tail_bytes(tids) + encode_utf8(","@)
            + dec_digits(t as nat));
    }
}

/// The fixed text between the header and the thread-identifier count.
pub open spec fn info_text_prefix() -> Seq<u8> {
    encode_utf8("cmdline:fakeuftrace\n"@) + encode_utf8("taskinfo:lines=2\n"@) + encode_utf8(
        "taskinfo:nr_tid="@,
    )
}

/// The text lines of the `info` file for a non-empty thread list.
pub open spec fn info_text_bytes(tids: Seq<u64>) -> Seq<u8>
    recommends
        tids.len() > 0,
{
    info_text_prefix() + dec_digits(tids.len()) + encode_utf8("\ntaskinfo:tids="@) + dec_digits(
        tids[0] as nat,
    ) + tid_tail_bytes(tids.skip(1)) + encode_utf8("\n"@)
}

/// Builds the `info` file: the binary header, then the cmdline and taskinfo
/// text lines naming every observed thread.
pub fn info_file_bytes(tids: &Vec<u64>) -> (r: Vec<u8>)
    requires
        tids@.len() > 0,
    ensures
        r@ == info_header() + info_text_bytes(tids@),
{
    let mut info: Vec<u8> = Vec::new();
    append_str(&mut info, "Ftrace!\x00");
    write_u32_le(&mut info, 4);
    write_u16_le(&mut info, 40);
    info.push(1);
    info.push(2);
    write_u64_le(&mut info, FEAT_TASK_SESSION | FEAT_SYM_REL_ADDR);
    write_u64_le(&mut info, INFO_CMDLINE | INFO_TASKINFO);
    write_u16_le(&mut info, 0);
    write_u16_le(&mut info, 0);
    write_u16_le(&mut info, 0);
    write_u16_le(&mut info, 0);
    proof {
        assert(info@ =~= info_header());
    }
    append_str(&mut info, "cmdline:fakeuftrace\n");
    append_str(&mut info, "taskinfo:lines=2\n");
    append_str(&mut info, "taskinfo:nr_tid=");
    append_dec(&mut info, tids.len() as u64);
    append_str(&mut info, "\ntaskinfo:tids=");
    append_dec(&mut info, tids[0]);
    let ghost listed = info_header() + info_text_prefix() + dec_digits(tids@.len()) + encode_utf8(
        "\ntaskinfo:tids="@,
    ) + dec_digits(tids@[0] as nat);
    proof {
        assert(info@ =~= listed + tid_tail_bytes(tids@.subrange(1, 1)));
        assert(tids@.subrange(1, 1) =~= Seq::<u64>::empty());
    }
    let mut i: usize = 1;
    while i < tids.len()
        invariant
            1 <= i <= tids@.len(),
            listed == info_header() + info_text_prefix() + dec_digits(tids@.len()) + encode_utf8(
                "\ntaskinfo:tids="@,
            ) + dec_digits(tids@[0] as nat),
            info@ == listed + tid_tail_bytes(tids@.subrange(1, i as int)),
        decreases tids@.len() - i,
    {
        append_str(&mut info, ",");
        append_dec(&mut info, tids[i]);
        proof {
            assert(tids@.subrange(1, i as int + 1) =~= tids@.subrange(1, i as int).push(
                tids@[i as int],
            ));
            lemma_tid_tail_snoc(tids@.subrange(1, i as int), tids@[i as int]);
            assert(info@ =~= listed + tid_tail_bytes(tids@.subrange(1, i as int + 1)));
        }
        i += 1;
    }
    append_str(&mut info, "\n");
    proof {
        assert(tids@.subrange(1, tids@.len() as int) =~= tids@.skip(1));
        assert(info@ =~= info_header() + info_text_bytes(tids@));
    }
    info
}

/// One `TASK` line of `task.txt`.
pub open spec fn task_line(t: u64, pid: u64) -> Seq<u8> {
    encode_utf8("TASK timestamp=0.0 tid="@) + dec_digits(t as nat) + encode_utf8(" pid="@)
        + dec_digits(pid as nat) + encode_utf8("\n"@)
}

/// The `TASK` lines of `task.txt`, one per observed thread.
pub open spec fn task_lines(tids: Seq<u64>, pid: u64) -> Seq<u8>
    decreases tids.len(),
{
    if tids.len() == 0 {
        Seq::empty()
    } else {
        task_line(tids[0], pid) + task_lines(tids.skip(1), pid)
    }
}

proof fn lemma_task_lines_snoc(tids: Seq<u64>, t: u64, pid: u64)
    ensures
        task_lines(tids.push(t), pid) == task_lines(tids, pid) + task_line(t, pid),
    decreases tids.len(),
{
    if tids.len() == 0 {
        assert(tids.push(t)[0] == t);
        assert(tids.push(t).skip(1) =~= Seq::<u64>::empty());
        assert(task_lines(tids.push(t), pid) == task_line(t, pid) + task_lines(
            tids.push(t).skip(1),
            pid,
        ));
        assert(task_lines(tids.push(t).skip(1), pid) == Seq::<u8>::empty());
        assert(task_line(t, pid) + Seq::<u8>::empty() =~= task_line(t, pid));
        assert(task_lines(tids, pid) == Seq::<u8>::empty());
        assert(Seq::<u8>::empty() + task_line(t, pid) =~= task_line(t, pid));
    } else {
        assert(tids.push(t).skip(1) =~= tids.skip(1).push(t));
        lemma_task_lines_snoc(tids.skip(1), t, pid);
        assert(tids.push(t)[0] == tids[0]);
        assert(task_lines(tids.push(t), pid) == task_line(tids[0], pid) + task_lines(
            tids.skip(1).push(t),
            pid,
        ));
        assert(task_lines(tids.skip(1).push(t), pid) == task_lines(tids.skip(1), pid) + task_line(
            t,
            pid,
        ));
        assert(task_lines(tids, pid) == task_line(tids[0], pid) + task_lines(tids.skip(1), pid));
        assert(task_line(tids[0], pid) + (task_lines(tids.skip(1), pid) + task_line(t, pid)) =~= (
        task_line(tids[0], pid) + task_lines(tids.skip(1), pid)) + task_line(t, pid));
        assert(task_lines(tids.push(t), pid) =~= task_lines(tids, pid) + task_line(t, pid));
    }
}

/// The whole `task.txt`: the `SESS` line, then one `TASK` line per thread.
pub open spec fn task_bytes(tids: Seq<u64>, pid: u64, sid: Seq<char>, exename: Seq<char>) -> Seq<
    u8,
> {
    encode_utf8("SESS timestamp=0.0 pid="@) + dec_digits(pid as nat) + encode_utf8(" sid="@)
        + encode_utf8(sid) + encode_utf8(" exename=\""@) + encode_utf8(exename) + encode_utf8(
        "\"\n"@,
    ) + task_lines(tids, pid)
}

/// Builds `task.txt` for the given threads, session id and executable name.
pub fn task_file_bytes(tids: &Vec<u64>, pid: u64, sid: &str, exename: &str) -> (r: Vec<u8>)
    ensures
        r@ == task_bytes(tids@, pid, sid@, exename@),
{
    let mut task: Vec<u8> = Vec::new();
    append_str(&mut task, "SESS timestamp=0.0 pid=");
    append_dec(&mut task, pid);
    append_str(&mut task, " sid=");
    append_str(&mut task, sid);
    append_str(&mut task, " exename=\"");
    append_str(&mut task, exename);
    append_str(&mut task, "\"\n");
    let ghost header = task@;
    proof {
        assert(task@ =~= header + task_lines(tids@.take(0), pid));
    }
    let mut i: usize = 0;
    while i < tids.len()
        invariant
            i <= tids@.len(),
            task@ == header + task_lines(tids@.take(i as int), pid),
        decreases tids@.len() - i,
    {
        append_str(&mut task, "TASK timestamp=0.0 tid=");
        append_dec(&mut task, tids[i]);
        append_str(&mut task, " pid=");
        append_dec(&mut task, pid);
        append_str(&mut task, "\n");
        proof {
            assert(tids@.take(i as int + 1) =~= tids@.take(i as int).push(tids@[i as int]));
            lemma_task_lines_snoc(tids@.take(i as int), tids@[i as int], pid);
            assert(task@ =~= header + task_lines(tids@.take(i as int + 1), pid));
        }
        i += 1;
    }
    proof {
        assert(tids@.take(tids@.len() as int) =~= tids@);
    }
    task
}

/// The synthetic memory map: the whole address space mapped executable under
/// the binary's name, plus a stack line. It stands in where a real map of
/// the process is not available and is meant to be hand-edited for symbol
/// resolution.
pub open spec fn map_bytes(name: Seq<char>) -> Seq<u8> {
    encode_utf8("000000000000-ffffffffffff r-xp 00000000 00:00 0                          "@)
        + encode_utf8(name) + encode_utf8("\n"@) + encode_utf8(
        "ffffffffffff-ffffffffffff rw-p 00000000 00:00 0                          [stack]\n"@,
    )
}

/// Builds the synthetic `sid-NN.map` contents.
pub fn fake_map_bytes(binary_name: &str) -> (r: Vec<u8>)
    ensures
        r@ == map_bytes(binary_name@),
{
    let mut m: Vec<u8> = Vec::new();
    append_str(
        &mut m,
        "000000000000-ffffffffffff r-xp 00000000 00:00 0                          ",
    );
    append_str(&mut m, binary_name);
    append_str(&mut m, "\n");
    append_str(
        &mut m,
        "ffffffffffff-ffffffffffff rw-p 00000000 00:00 0                          [stack]\n",
    );
    proof {
        assert(m@ =~= map_bytes(binary_name@));
    }
    m
}

/// One per-thread trace file: the identifier that names the `.dat` file and
/// its payload.
pub struct TidTrace {
    pub tid: u64,
    pub data: Vec<u8>,
}

/// Everything a uftrace data directory holds, as bytes: one `.dat` payload
/// per thread, the `info` file, `task.txt`, and the synthetic map file.
pub struct UftraceDump {
    pub dats: Vec<TidTrace>,
    pub info: Vec<u8>,
    pub task: Vec<u8>,
    pub map_file: Vec<u8>,
}

/// The per-thread payloads are exactly the ring's events demultiplexed by
/// thread, in ring order, one file per identifier in order of first
/// appearance.
pub open spec fn dats_ok(dats: Seq<TidTrace>, ring: Seq<Event>) -> bool {
    let tids = tids_of(ring);
    &&& dats.len() == tids.len()
    &&& forall|i: int|
        0 <= i < tids.len() ==> (#[trigger] dats[i]).tid == tid_val(tids[i]) && dats[i].data@
            == trace_bytes(ring, Some(tids[i]))
}

/// Converts the ring into a uftrace data directory: per-thread `.dat`
/// payloads plus the synthesized metadata, with the fixed pid and session id
/// the format expects. Returns `None` when no events were recorded. Tracing
/// is disabled first, and the ring is taken away from the backend.
pub fn dump_full_uftrace(backend: &mut Backend, binary_name: &str) -> (r: Option<UftraceDump>)
    requires
        backend_wf(old(backend)@),
        old(backend)@.events is Some,
    ensures
        final(backend)@ == (BackendModel { enabled: false, events: None, ..old(backend)@ }),
        ({
            let ring = ring_view(old(backend)@.events.unwrap(), old(backend)@.index);
            match r {
                None => tids_of(ring).len() == 0,
                Some(d) => {
                    &&& tids_of(ring).len() > 0
                    &&& dats_ok(d.dats@, ring)
                    &&& forall|i: int|
                        0 <= i < d.dats@.len() ==> (#[trigger] d.dats@[i]).data@.len() >= 16
                    &&& d.info@ == info_header() + info_text_bytes(
                        tids_of(ring).map_values(|t: Option<u64>| tid_val(t)),
                    )
                    &&& d.task@ == task_bytes(
                        tids_of(ring).map_values(|t: Option<u64>| tid_val(t)),
                        TRACE_PID,
                        "00"@,
                        binary_name@,
                    )
                    &&& d.map_file@ == map_bytes(binary_name@)
                },
            }
        }),
{
    disable(backend);
    let idx = rftrace_backend_get_events_index(backend);
    let events = rftrace_backend_get_events(backend).unwrap();
    let len = events.len();
    let start = (idx % (len as u64)) as usize;
    let ghost ring = ring_at(events@, start as int);
    let tids = collect_tids(&events, start);
    if tids.len() == 0 {
        return None;
    }
    let mut tidvals: Vec<u64> = Vec::new();
    let mut i: usize = 0;
    while i < tids.len()
        invariant
            i <= tids@.len(),
            tidvals@ == tids@.take(i as int).map_values(|t: Option<u64>| tid_val(t)),
        decreases tids@.len() - i,
    {
        tidvals.push(tid_value(tids[i]));
        proof {
            assert(tids@.take(i as int + 1).map_values(|t: Option<u64>| tid_val(t)) =~= tids@.take(
                i as int,
            ).map_values(|t: Option<u64>| tid_val(t)).push(tid_val(tids@[i as int])));
        }
        i += 1;
    }
    proof {
        assert(tids@.take(tids@.len() as int) =~= tids@);
    }
    let mut dats: Vec<TidTrace> = Vec::new();
    let mut i: usize = 0;
    while i < tids.len()
        invariant
            i <= tids@.len(),
            start < events@.len(),
            ring == ring_at(events@, start as int),
            tids@ == tids_of(ring),
            tidvals@ == tids@.map_values(|t: Option<u64>| tid_val(t)),
            dats@.len() == i,
            forall|k: int|
                0 <= k < i ==> (#[trigger] dats@[k]).tid == tid_val(tids@[k]) && dats@[k].data@
                    == trace_bytes(ring, Some(tids@[k])) && dats@[k].data@.len() >= 16,
        decreases tids@.len() - i,
    {
        let mut data: Vec<u8> = Vec::new();
        emit_trace(&events, start, Some(tids[i]), &mut data);
        proof {
            // The identifier came from the ring, so its trace holds at least
            // one 16-byte record.
            assert(tids@.contains(tids@[i as int]));
            lemma_tid_trace_nonempty(ring, tids@[i as int]);
        }
        dats.push(TidTrace { tid: tidvals[i], data });
        i += 1;
    }
    let info = info_file_bytes(&tidvals);
    let task = task_file_bytes(&tidvals, TRACE_PID, "00", binary_name);
    let map_file = fake_map_bytes(binary_name);
    Some(UftraceDump { dats, info, task, map_file })
}

} // verus!
