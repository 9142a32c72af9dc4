use rftrace::backend::{
    mcount_entry, mcount_return, record, rftrace_backend_get_events,
    rftrace_backend_get_events_index, rftrace_backend_init, Backend, CodeRange, RetStack,
    SavedRet, ThreadState,
};
use rftrace::frontend::{disable, dump_trace, enable, init};
use rftrace::codec::parse_trace;
use rftrace::interface::{Call, Event};

const REGION: CodeRange = CodeRange { lo: 0x70_0000, hi: 0x70_ffff };

fn entry(b: &mut Backend, t: &mut ThreadState, ps: u64, sv: u64, child: u64, now: u64) -> bool {
    mcount_entry(b, t, ps, Some(sv), child, REGION, now)
}

#[test]
fn single_thread_linear_calls() {
    // f -> g -> h on one thread: three entries, then three exits in LIFO
    // order, each exit labeled with the callee entry address.
    let mut b = Backend::new();
    let mut t = ThreadState::new();
    let f = 0x40_1000;
    let g = 0x40_2000;
    let h = 0x40_3000;
    init(&mut b, 2000, false);
    enable(&mut b);
    assert!(entry(&mut b, &mut t, 0x7fff_f000, 0x40_0100, f, 10));
    assert!(entry(&mut b, &mut t, 0x7fff_e000, f + 5, g, 20));
    assert!(entry(&mut b, &mut t, 0x7fff_d000, g + 5, h, 30));
    assert_eq!(mcount_return(&mut b, &mut t, 40), g + 5);
    assert_eq!(mcount_return(&mut b, &mut t, 50), f + 5);
    assert_eq!(mcount_return(&mut b, &mut t, 60), 0x40_0100);
    let bytes = dump_trace(&mut b);
    let recs = parse_trace(&bytes).expect("well-formed trace");
    assert_eq!(recs.len(), 6);
    let kinds: Vec<u64> = recs.iter().map(|r| r.kind).collect();
    assert_eq!(kinds, vec![0, 0, 0, 1, 1, 1]);
    let addrs: Vec<u64> = recs.iter().map(|r| r.addr).collect();
    assert_eq!(addrs, vec![f, g, h, h, g, f]);
    let times: Vec<u64> = recs.iter().map(|r| r.time).collect();
    assert_eq!(times, vec![10, 20, 30, 40, 50, 60]);
}

#[test]
fn overflow_halts_recording() {
    // Ring of 1100 in halting mode: the margin is 1100 - 1000 = 100. Once
    // the write index reaches 100, tracing turns itself off; in-flight
    // returns still land in the reserved tail.
    let mut b = Backend::new();
    let mut t = ThreadState::new();
    init(&mut b, 1100, false);
    enable(&mut b);
    let mut now: u64 = 0;
    // Three frames stay open throughout (indices 0, 1, 2).
    for d in 0..3u64 {
        assert!(entry(&mut b, &mut t, 0x7fff_0000 + d * 8, 0x40_0100 + d, 0x41_0000 + d, now));
        now += 1;
    }
    // Entry/exit pairs until the margin disables tracing.
    let mut hooked_calls = 0;
    for _ in 0..1000 {
        let hooked = entry(&mut b, &mut t, 0x7ffe_0000, 0x40_0900, 0x42_0000, now);
        now += 1;
        if hooked {
            hooked_calls += 1;
            mcount_return(&mut b, &mut t, now);
            now += 1;
        }
    }
    // Entries at indices 3, 5, 7, ... are hooked; the entry that drew index
    // 101 hit the margin (index 100 was an in-flight exit, which bypasses
    // it) and cleared the enable flag. That makes 49 completed pairs.
    assert_eq!(hooked_calls, 49);
    assert_eq!(rftrace_backend_get_events_index(&b), 102);
    // Disabled: further entries do not even advance the index.
    assert!(!entry(&mut b, &mut t, 0x7ffe_0000, 0x40_0900, 0x42_0000, now));
    assert_eq!(rftrace_backend_get_events_index(&b), 102);
    // The three in-flight returns still record their exits.
    for _ in 0..3 {
        mcount_return(&mut b, &mut t, now);
        now += 1;
    }
    assert_eq!(rftrace_backend_get_events_index(&b), 105);
    let bytes = dump_trace(&mut b);
    let recs = parse_trace(&bytes).expect("well-formed trace");
    // Indices 0..=100 were stored, 101 was abandoned, 102..=104 are the
    // in-flight exits: 104 records in all.
    assert_eq!(recs.len(), 104);
}

#[test]
fn overwriting_wraps_and_keeps_last_events() {
    // Ring of 1100 in overwriting mode, 3000 events: only the last 1100
    // survive, read in ring order starting at index mod 1100.
    let mut b = Backend::new();
    let mut t = ThreadState::new();
    init(&mut b, 1100, true);
    enable(&mut b);
    let mut now: u64 = 0;
    for _ in 0..1500 {
        assert!(entry(&mut b, &mut t, 0x7fff_0000, 0x40_0100, 0x41_0000, now));
        now += 1;
        mcount_return(&mut b, &mut t, now);
        now += 1;
    }
    assert_eq!(rftrace_backend_get_events_index(&b), 3000);
    let bytes = dump_trace(&mut b);
    let recs = parse_trace(&bytes).expect("well-formed trace");
    assert_eq!(recs.len(), 1100);
    // The timestamp equalled the write index, so the surviving window is
    // 1900..=2999 in order; even indices were entries.
    for (i, r) in recs.iter().enumerate() {
        assert_eq!(r.time, 1900 + i as u64);
        assert_eq!(r.kind, if r.time % 2 == 0 { 0 } else { 1 });
    }
}

#[test]
fn self_trace_cutoff_emits_synthetic_exit() {
    // A parent address inside the backend's own code region: the entry is
    // recorded, a synthetic exit follows 20 cycles later, and the return is
    // not diverted.
    let mut b = Backend::new();
    let mut t = ThreadState::new();
    init(&mut b, 2000, false);
    enable(&mut b);
    let child = 0x43_0000;
    let hooked = mcount_entry(&mut b, &mut t, 0x7fff_f000, Some(0x70_0010), child, REGION, 1000);
    assert!(!hooked);
    let bytes = dump_trace(&mut b);
    let recs = parse_trace(&bytes).expect("well-formed trace");
    assert_eq!(recs.len(), 2);
    assert_eq!((recs[0].time, recs[0].addr, recs[0].kind), (1000, child, 0));
    assert_eq!((recs[1].time, recs[1].addr, recs[1].kind), (1020, child, 1));
}

#[test]
fn init_is_idempotent() {
    // A second init leaves the first buffer active: the ring handed back is
    // the first one, and its halting mode still applies.
    let mut b = Backend::new();
    init(&mut b, 2000, false);
    let second = init(&mut b, 1500, true);
    assert_eq!(second.len(), 1500);
    let buf = rftrace_backend_get_events(&mut b).expect("ring installed");
    assert_eq!(buf.len(), 2000);
    assert!(buf.iter().all(|e| matches!(e, Event::Empty)));
}

#[test]
fn backend_init_rejects_nothing_silently_after_first() {
    // Through the backend's own entry point as well: re-init is a no-op.
    let mut b = Backend::new();
    rftrace_backend_init(&mut b, vec![Event::Empty; 1200], false);
    rftrace_backend_init(&mut b, vec![Event::Empty; 4000], true);
    let buf = rftrace_backend_get_events(&mut b).expect("ring installed");
    assert_eq!(buf.len(), 1200);
}

#[test]
fn recursion_to_exact_capacity() {
    // Depth exactly 1000: every entry is hooked and every exit is recorded.
    let mut b = Backend::new();
    let mut t = ThreadState::new();
    init(&mut b, 5000, false);
    enable(&mut b);
    let f = 0x44_0000;
    let mut now: u64 = 0;
    for d in 0..1000u64 {
        assert!(entry(&mut b, &mut t, 0x7fff_0000 - d * 8, f + 5, f, now));
        now += 1;
    }
    for _ in 0..1000 {
        assert_eq!(mcount_return(&mut b, &mut t, now), f + 5);
        now += 1;
    }
    let bytes = dump_trace(&mut b);
    let recs = parse_trace(&bytes).expect("well-formed trace");
    assert_eq!(recs.len(), 2000);
    assert_eq!(recs.iter().filter(|r| r.kind == 0).count(), 1000);
    assert_eq!(recs.iter().filter(|r| r.kind == 1).count(), 1000);
}

#[test]
fn recursion_past_capacity_truncates_deepest_frame() {
    // Depth 1001: the deepest frame gets an entry but its return is not
    // diverted, so it has no exit; the ancestors are unaffected.
    let mut b = Backend::new();
    let mut t = ThreadState::new();
    init(&mut b, 5000, false);
    enable(&mut b);
    let f = 0x44_0000;
    let deep = 0x45_0000;
    let mut now: u64 = 0;
    for d in 0..1000u64 {
        assert!(entry(&mut b, &mut t, 0x7fff_0000 - d * 8, f + 5, f, now));
        now += 1;
    }
    let hooked = entry(&mut b, &mut t, 0x7fff_0000 - 8000, f + 5, deep, now);
    now += 1;
    assert!(!hooked);
    for _ in 0..1000 {
        assert_eq!(mcount_return(&mut b, &mut t, now), f + 5);
        now += 1;
    }
    let bytes = dump_trace(&mut b);
    let recs = parse_trace(&bytes).expect("well-formed trace");
    assert_eq!(recs.len(), 2001);
    assert_eq!(recs.iter().filter(|r| r.kind == 0 && r.addr == deep).count(), 1);
    assert_eq!(recs.iter().filter(|r| r.kind == 1 && r.addr == deep).count(), 0);
    assert_eq!(recs.iter().filter(|r| r.kind == 1).count(), 1000);
}

#[test]
fn unreadable_parent_slot_records_placeholder() {
    // A synthesized task-entry frame leaves the return slot at a tiny
    // address: the entry is recorded with the placeholder parent and the
    // return is not hooked.
    let mut b = Backend::new();
    let mut t = ThreadState::new();
    init(&mut b, 2000, false);
    enable(&mut b);
    let child = 0x46_0000;
    let hooked = mcount_entry(&mut b, &mut t, 8, None, child, REGION, 5);
    assert!(!hooked);
    let buf = rftrace_backend_get_events(&mut b).expect("ring installed");
    match buf[0] {
        Event::Entry(c) => {
            assert_eq!(c.from, 0xd3ad_b33f);
            assert_eq!(c.to, child);
            assert_eq!(c.tid, Some(1));
        }
        ref other => panic!("expected an entry, got {:?}", other),
    }
    assert!(matches!(buf[1], Event::Empty));
}

#[test]
fn distinct_threads_get_distinct_stable_tids() {
    let mut b = Backend::new();
    let mut t1 = ThreadState::new();
    let mut t2 = ThreadState::new();
    init(&mut b, 2000, false);
    enable(&mut b);
    assert!(entry(&mut b, &mut t1, 0x7fff_f000, 0x40_0100, 0x41_0000, 1));
    assert!(entry(&mut b, &mut t2, 0x6fff_f000, 0x40_0200, 0x42_0000, 2));
    assert_eq!(t1.tid, Some(1));
    assert_eq!(t2.tid, Some(2));
    // More activity leaves both identifiers unchanged.
    assert!(entry(&mut b, &mut t1, 0x7fff_e000, 0x41_0005, 0x41_1000, 3));
    mcount_return(&mut b, &mut t1, 4);
    mcount_return(&mut b, &mut t2, 5);
    assert_eq!(t1.tid, Some(1));
    assert_eq!(t2.tid, Some(2));
}

#[test]
fn disabled_hook_is_inert_and_reenable_works() {
    let mut b = Backend::new();
    let mut t = ThreadState::new();
    init(&mut b, 2000, false);
    enable(&mut b);
    assert!(entry(&mut b, &mut t, 0x7fff_f000, 0x40_0100, 0x41_0000, 1));
    disable(&mut b);
    // Entries observe the flag and do nothing; the in-flight return still
    // records its exit.
    assert!(!entry(&mut b, &mut t, 0x7fff_e000, 0x41_0005, 0x41_1000, 2));
    assert_eq!(rftrace_backend_get_events_index(&b), 1);
    assert_eq!(mcount_return(&mut b, &mut t, 3), 0x40_0100);
    assert_eq!(rftrace_backend_get_events_index(&b), 2);
    enable(&mut b);
    assert!(entry(&mut b, &mut t, 0x7fff_f000, 0x40_0100, 0x41_0000, 4));
    assert_eq!(rftrace_backend_get_events_index(&b), 3);
}

#[test]
fn events_handle_reports_ring_length() {
    let mut b = Backend::new();
    let handle = init(&mut b, 2000, false);
    assert_eq!(handle.len(), 2000);
}

#[test]
fn retstack_push_pop_lifo_and_capacity() {
    let mut s = RetStack::new();
    for i in 0..1000u64 {
        let r = s.push(SavedRet { stackloc: i, retloc: 100 + i, childip: 200 + i });
        assert!(r.is_ok());
    }
    // Capacity reached: the push fails and the stack is unchanged.
    assert!(s.push(SavedRet { stackloc: 9, retloc: 9, childip: 9 }).is_err());
    assert_eq!(s.depth(), 1000);
    // LIFO order.
    for i in (0..1000u64).rev() {
        let sr = s.pop().expect("stack holds a frame");
        assert_eq!((sr.stackloc, sr.retloc, sr.childip), (i, 100 + i, 200 + i));
    }
    assert!(s.pop().is_none());
    // init resets to empty.
    s.push(SavedRet { stackloc: 1, retloc: 2, childip: 3 }).unwrap();
    s.init();
    assert!(s.pop().is_none());
}

#[test]
fn record_without_ring_stores_nothing() {
    let mut b = Backend::new();
    let e = Event::Entry(Call { time: 1, from: 2, to: 3, tid: None });
    assert!(!record(&mut b, e));
    assert_eq!(rftrace_backend_get_events_index(&b), 0);
    rftrace_backend_init(&mut b, vec![Event::Empty; 1200], false);
    assert!(record(&mut b, e));
    assert_eq!(rftrace_backend_get_events_index(&b), 1);
    let buf = rftrace_backend_get_events(&mut b).expect("ring installed");
    assert!(matches!(buf[0], Event::Entry(_)));
}
