use rftrace::backend::{
    mcount_entry, mcount_return, Backend, CodeRange, RetStack, SavedRet, ThreadState,
};
use rftrace::codec::parse_trace;
use rftrace::frontend::{
    dump_full_uftrace, enable, fake_map_bytes, info_file_bytes, init, task_file_bytes,
};

const REGION: CodeRange = CodeRange { lo: 0x70_0000, hi: 0x70_ffff };

fn entry(b: &mut Backend, t: &mut ThreadState, ps: u64, sv: u64, child: u64, now: u64) -> bool {
    mcount_entry(b, t, ps, Some(sv), child, REGION, now)
}

fn find(haystack: &[u8], needle: &[u8]) -> bool {
    haystack.windows(needle.len()).any(|w| w == needle)
}

#[test]
fn two_threads_demultiplex_into_two_dat_files() {
    // Threads 1 and 2 each call f -> g, interleaved; the dump produces one
    // .dat payload per thread whose records reconstruct that thread's
    // events in ring (time) order.
    let mut b = Backend::new();
    let mut t1 = ThreadState::new();
    let mut t2 = ThreadState::new();
    let f = 0x41_0000;
    let g = 0x42_0000;
    init(&mut b, 2000, false);
    enable(&mut b);
    assert!(entry(&mut b, &mut t1, 0x7fff_f000, 0x40_0100, f, 10));
    assert!(entry(&mut b, &mut t2, 0x6fff_f000, 0x40_0200, f, 11));
    assert!(entry(&mut b, &mut t1, 0x7fff_e000, f + 5, g, 12));
    assert!(entry(&mut b, &mut t2, 0x6fff_e000, f + 5, g, 13));
    mcount_return(&mut b, &mut t1, 14);
    mcount_return(&mut b, &mut t2, 15);
    mcount_return(&mut b, &mut t1, 16);
    mcount_return(&mut b, &mut t2, 17);
    let dump = dump_full_uftrace(&mut b, "mybin").expect("trace not empty");
    assert_eq!(dump.dats.len(), 2);
    assert_eq!(dump.dats[0].tid, 1);
    assert_eq!(dump.dats[1].tid, 2);
    let r1 = parse_trace(&dump.dats[0].data).expect("well-formed trace");
    let r2 = parse_trace(&dump.dats[1].data).expect("well-formed trace");
    assert_eq!(
        r1.iter().map(|r| (r.time, r.addr, r.kind)).collect::<Vec<_>>(),
        vec![(10, f, 0), (12, g, 0), (14, g, 1), (16, f, 1)]
    );
    assert_eq!(
        r2.iter().map(|r| (r.time, r.addr, r.kind)).collect::<Vec<_>>(),
        vec![(11, f, 0), (13, g, 0), (15, g, 1), (17, f, 1)]
    );
    // The concatenation sorted by time is exactly the interleave the ring
    // observed.
    let mut all: Vec<_> = r1.iter().chain(r2.iter()).map(|r| (r.time, r.addr, r.kind)).collect();
    all.sort();
    let times: Vec<u64> = all.iter().map(|r| r.0).collect();
    assert_eq!(times, (10..18).collect::<Vec<u64>>());
}

#[test]
fn empty_trace_dumps_nothing() {
    let mut b = Backend::new();
    init(&mut b, 2000, false);
    assert!(dump_full_uftrace(&mut b, "mybin").is_none());
}

#[test]
fn info_file_has_header_and_taskinfo() {
    let tids = vec![1u64, 2];
    let info = info_file_bytes(&tids);
    // Magic, version 4 (u32 le), header size 40 (u16 le), endianness 1,
    // ELF class 2.
    assert_eq!(&info[0..8], b"Ftrace!\x00");
    assert_eq!(&info[8..12], &[4, 0, 0, 0]);
    assert_eq!(&info[12..14], &[40, 0]);
    assert_eq!(info[14], 1);
    assert_eq!(info[15], 2);
    // feat_flags = TASK_SESSION | SYM_REL_ADDR = 0x22, info_flags =
    // CMDLINE | TASKINFO = 0x88, then mstack and three reserved zeros.
    assert_eq!(&info[16..24], &[0x22, 0, 0, 0, 0, 0, 0, 0]);
    assert_eq!(&info[24..32], &[0x88, 0, 0, 0, 0, 0, 0, 0]);
    assert_eq!(&info[32..40], &[0u8; 8]);
    let text = &info[40..];
    assert_eq!(
        text,
        b"cmdline:fakeuftrace\ntaskinfo:lines=2\ntaskinfo:nr_tid=2\ntaskinfo:tids=1,2\n"
    );
}

#[test]
fn info_file_single_tid_has_no_comma() {
    let info = info_file_bytes(&vec![7u64]);
    assert!(find(&info, b"taskinfo:nr_tid=1\ntaskinfo:tids=7\n"));
    assert!(!find(&info, b","));
}

#[test]
fn task_file_lists_session_and_tasks() {
    let task = task_file_bytes(&vec![1u64, 2], 42, "00", "mybin");
    assert_eq!(
        task,
        b"SESS timestamp=0.0 pid=42 sid=00 exename=\"mybin\"\n\
          TASK timestamp=0.0 tid=1 pid=42\n\
          TASK timestamp=0.0 tid=2 pid=42\n"
            .to_vec()
    );
}

#[test]
fn map_file_covers_address_space_and_stack() {
    let m = fake_map_bytes("mybin");
    let text = String::from_utf8(m).expect("ascii");
    let lines: Vec<&str> = text.lines().collect();
    assert_eq!(lines.len(), 2);
    assert_eq!(
        lines[0],
        "000000000000-ffffffffffff r-xp 00000000 00:00 0                          mybin"
    );
    assert_eq!(
        lines[1],
        "ffffffffffff-ffffffffffff rw-p 00000000 00:00 0                          [stack]"
    );
}

#[test]
fn dump_metadata_matches_observed_threads() {
    let mut b = Backend::new();
    let mut t1 = ThreadState::new();
    let mut t2 = ThreadState::new();
    init(&mut b, 2000, false);
    enable(&mut b);
    assert!(entry(&mut b, &mut t1, 0x7fff_f000, 0x40_0100, 0x41_0000, 1));
    assert!(entry(&mut b, &mut t2, 0x6fff_f000, 0x40_0200, 0x42_0000, 2));
    mcount_return(&mut b, &mut t1, 3);
    mcount_return(&mut b, &mut t2, 4);
    let dump = dump_full_uftrace(&mut b, "prog").expect("trace not empty");
    assert!(find(&dump.info, b"taskinfo:nr_tid=2\ntaskinfo:tids=1,2\n"));
    assert!(find(&dump.task, b"SESS timestamp=0.0 pid=42 sid=00 exename=\"prog\"\n"));
    assert!(find(&dump.task, b"TASK timestamp=0.0 tid=1 pid=42\n"));
    assert!(find(&dump.task, b"TASK timestamp=0.0 tid=2 pid=42\n"));
    assert!(find(&dump.map_file, b"prog\n"));
}

#[test]
fn unknown_tid_is_spelled_zero() {
    // An exit recorded before the thread was ever assigned an identifier
    // carries no tid; the dump spells that thread as 0.
    let mut b = Backend::new();
    init(&mut b, 2000, false);
    enable(&mut b);
    let mut stack = RetStack::new();
    stack
        .push(SavedRet { stackloc: 0x7fff_f000, retloc: 0x40_0100, childip: 0x41_0000 })
        .unwrap();
    let mut t = ThreadState { tid: None, retstack: stack };
    assert_eq!(mcount_return(&mut b, &mut t, 9), 0x40_0100);
    let dump = dump_full_uftrace(&mut b, "mybin").expect("trace not empty");
    assert_eq!(dump.dats.len(), 1);
    assert_eq!(dump.dats[0].tid, 0);
    assert!(find(&dump.info, b"taskinfo:nr_tid=1\ntaskinfo:tids=0\n"));
    assert!(find(&dump.task, b"TASK timestamp=0.0 tid=0 pid=42\n"));
}
