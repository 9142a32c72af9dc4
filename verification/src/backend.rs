//! The tracing backend: the event ring, the per-thread return-shadow stack,
//! and the decision logic behind the `mcount` entry hook and the return
//! trampoline.
//!
//! The assembly stubs that the compiler-inserted hooks jump through cannot be
//! expressed here; they are reduced to their inputs: the address of the
//! caller's return slot, the value read from that slot (read only when the
//! slot is structurally readable), the callee entry address, and a cycle
//! counter sample. The stub performs the one side effect this logic asks for:
//! when `mcount_entry` reports that the frame was hooked, it overwrites the
//! return slot with the trampoline address.

use vstd::prelude::*;

verus! {

use crate::interface::{Call, Event, Exit, MAX_STACK_HEIGHT};

/// Return-slot addresses at or below this value belong to synthesized
/// task-entry frames (`rbp == 0`) and must not be dereferenced.
pub const PARENT_SLOT_GUARD: u64 = 0x100;

/// Parent IP recorded for entries whose return slot was unreadable.
pub const PLACEHOLDER_PARENT: u64 = 0xd3ad_b33f;

/// One diverted return: where the parent's return pointer lives on the real
/// stack, what it held before it was overwritten, and the callee entry
/// address, carried so the exit event can be labeled.
#[derive(Debug, Clone, Copy, PartialEq, Eq, Structural)]
pub struct SavedRet {
    pub stackloc: u64,
    pub retloc: u64,
    pub childip: u64,
}

/// Per-thread fixed-capacity stack of diverted returns. It mirrors the real
/// call stack's return addresses so exits can be observed after the return
/// slots have been rewritten.
pub struct RetStack {
    stack: Vec<SavedRet>,
}

impl View for RetStack {
    type V = Seq<SavedRet>;

    closed spec fn view(&self) -> Seq<SavedRet> {
        self.stack@
    }
}

impl RetStack {
    /// A fresh, empty shadow stack.
    pub fn new() -> (s: RetStack)
        ensures
            s@ == Seq::<SavedRet>::empty(),
    {
        RetStack { stack: Vec::new() }
    }

    /// Resets the stack to empty, as done when a thread is first adopted.
    pub fn init(&mut self)
        ensures
            final(self)@ == Seq::<SavedRet>::empty(),
    {
        self.stack.clear();
    }

    /// Pushes a diverted return; fails (leaving the stack unchanged) when the
    /// capacity `MAX_STACK_HEIGHT` is exhausted.
    pub fn push(&mut self, item: SavedRet) -> (r: Result<(), ()>)
        ensures
            old(self)@.len() < MAX_STACK_HEIGHT ==> r is Ok && final(self)@ == old(self)@.push(
                item,
            ),
            old(self)@.len() >= MAX_STACK_HEIGHT ==> r is Err && final(self)@ == old(self)@,
    {
        if self.stack.len() >= MAX_STACK_HEIGHT {
            return Err(());
        }
        self.stack.push(item);
        Ok(())
    }

    /// Pops the most recently diverted return, if any.
    pub fn pop(&mut self) -> (r: Option<SavedRet>)
        ensures
            old(self)@.len() == 0 ==> r is None && final(self)@ == old(self)@,
            old(self)@.len() > 0 ==> r == Some(old(self)@.last()) && final(self)@ == old(
                self,
            )@.drop_last(),
    {
        self.stack.pop()
    }

    /// Current number of diverted returns in flight for this thread.
    pub fn depth(&self) -> (n: usize)
        ensures
            n == self@.len(),
    {
        self.stack.len()
    }
}

/// The state a thread carries with it: its tracer-assigned identifier (`None`
/// until the first observed call) and its shadow stack.
pub struct ThreadState {
    pub tid: Option<u64>,
    pub retstack: RetStack,
}

/// Mathematical model of a thread's state.
#[verifier::ext_equal]
pub struct ThreadModel {
    pub tid: Option<u64>,
    pub frames: Seq<SavedRet>,
}

impl View for ThreadState {
    type V = ThreadModel;

    open spec fn view(&self) -> ThreadModel {
        ThreadModel { tid: self.tid, frames: self.retstack@ }
    }
}

impl ThreadState {
    /// The state of a thread the tracer has not seen yet.
    pub fn new() -> (t: ThreadState)
        ensures
            t@.tid is None,
            t@.frames == Seq::<SavedRet>::empty(),
    {
        ThreadState { tid: None, retstack: RetStack::new() }
    }
}

/// The backend's shared state: the enable flag, the ring mode, the monotonic
/// write index, the event ring itself (absent until init), and the next
/// thread identifier to hand out.
pub struct Backend {
    enabled: bool,
    overwriting: bool,
    index: u64,
    events: Option<Vec<Event>>,
    tid_next: u64,
}

/// Mathematical model of the backend state. `index` and `tid_next` are exact
/// (unbounded) counters; the executable counterparts stay within `u64` by the
/// machine-limit preconditions of the operations that advance them.
#[verifier::ext_equal]
pub struct BackendModel {
    pub enabled: bool,
    pub overwriting: bool,
    pub index: nat,
    pub events: Option<Seq<Event>>,
    pub tid_next: nat,
}

impl View for Backend {
    type V = BackendModel;

    closed spec fn view(&self) -> BackendModel {
        BackendModel {
            enabled: self.enabled,
            overwriting: self.overwriting,
            index: self.index as nat,
            events: match self.events {
                Some(ev) => Some(ev@),
                None => None,
            },
            tid_next: self.tid_next as nat,
        }
    }
}

/// Well-formedness: the ring, once given, is strictly larger than the maximum
/// shadow-stack height (so the halting margin cannot underflow), and thread
/// identifiers start at 1 (0 is reserved for "unknown").
pub open spec fn backend_wf(s: BackendModel) -> bool {
    &&& match s.events {
        Some(ev) => ev.len() > MAX_STACK_HEIGHT,
        None => true,
    }
    &&& s.tid_next >= 1
}

/// In halting mode, the margin is reached: a record at this state abandons
/// the store and clears the enable flag instead.
pub open spec fn ring_full(s: BackendModel) -> bool {
    match s.events {
        Some(ev) => !s.overwriting && s.index >= ev.len() - MAX_STACK_HEIGHT,
        None => false,
    }
}

/// The record protocol of the ring: take the next index; in halting mode,
/// when the index has reached `len - MAX_STACK_HEIGHT`, clear the enable flag
/// and abandon the store (the reserved tail keeps in-flight returns from
/// overwriting earlier events); otherwise store at `index mod len`. With no
/// ring installed, nothing happens.
pub open spec fn record_spec(s: BackendModel, e: Event) -> BackendModel {
    match s.events {
        None => s,
        Some(ev) => {
            if !s.overwriting && s.index >= ev.len() - MAX_STACK_HEIGHT {
                BackendModel { enabled: false, index: s.index + 1, ..s }
            } else {
                BackendModel {
                    index: s.index + 1,
                    events: Some(ev.update((s.index % ev.len()) as int, e)),
                    ..s
                }
            }
        },
    }
}

/// The record step used for in-flight exits: the index always advances, and
/// the store is unconditional. Exits recorded after the halting margin was
/// hit land in the reserved tail.
pub open spec fn record_in_flight_spec(s: BackendModel, e: Event) -> BackendModel {
    match s.events {
        None => BackendModel { index: s.index + 1, ..s },
        Some(ev) => BackendModel {
            index: s.index + 1,
            events: Some(ev.update((s.index % ev.len()) as int, e)),
            ..s
        },
    }
}

/// First-call thread adoption: a thread without an identifier receives the
/// next value of the process-wide counter.
pub open spec fn ensure_tid_spec(s: BackendModel, t: ThreadModel) -> (BackendModel, ThreadModel) {
    if t.tid is Some {
        (s, t)
    } else {
        (
            BackendModel { tid_next: s.tid_next + 1, ..s },
            ThreadModel { tid: Some(s.tid_next as u64), ..t },
        )
    }
}

/// The backend's own code region; a parent IP inside it means the hook was
/// reached from the tracer itself (the self-trace cutoff).
#[derive(Debug, Clone, Copy, PartialEq, Eq, Structural)]
pub struct CodeRange {
    pub lo: u64,
    pub hi: u64,
}

impl CodeRange {
    pub open spec fn contains(self, ip: u64) -> bool {
        self.lo <= ip && ip <= self.hi
    }
}

/// The parent IP an entry records: the dereferenced return slot where it is
/// readable, the placeholder otherwise.
pub open spec fn parent_ip_spec(parent_slot: u64, slot_value: Option<u64>) -> u64 {
    if parent_slot > PARENT_SLOT_GUARD {
        slot_value.unwrap()
    } else {
        PLACEHOLDER_PARENT
    }
}

/// The complete entry-hook transition; the `bool` says whether the caller's
/// return slot is to be overwritten with the trampoline address.
pub open spec fn mcount_entry_spec(
    b: BackendModel,
    t: ThreadModel,
    parent_slot: u64,
    slot_value: Option<u64>,
    child_ip: u64,
    region: CodeRange,
    now: u64,
) -> (BackendModel, ThreadModel, bool) {
    if !b.enabled {
        (b, t, false)
    } else {
        let (b1, t1) = ensure_tid_spec(b, t);
        let pip = parent_ip_spec(parent_slot, slot_value);
        let entry = Event::Entry(Call { time: now, from: pip, to: child_ip, tid: t1.tid });
        let b2 = record_spec(b1, entry);
        if ring_full(b1) {
            (b2, t1, false)
        } else if region.contains(pip) {
            let cutoff = Event::Exit(
                Exit { time: (now + 20) as u64, from: child_ip, tid: t1.tid },
            );
            (record_spec(b2, cutoff), t1, false)
        } else if parent_slot > PARENT_SLOT_GUARD && t1.frames.len() < MAX_STACK_HEIGHT {
            let frame = SavedRet { stackloc: parent_slot, retloc: pip, childip: child_ip };
            (b2, ThreadModel { frames: t1.frames.push(frame), ..t1 }, true)
        } else {
            (b2, t1, false)
        }
    }
}

/// The return-trampoline transition: pop the youngest diverted return, emit
/// its exit event, and hand back the original return IP.
pub open spec fn mcount_return_spec(b: BackendModel, t: ThreadModel, now: u64) -> (
    BackendModel,
    ThreadModel,
    u64,
) {
    let sr = t.frames.last();
    let exit = Event::Exit(Exit { time: now, from: sr.childip, tid: t.tid });
    (record_in_flight_spec(b, exit), ThreadModel { frames: t.frames.drop_last(), ..t }, sr.retloc)
}

impl Backend {
    /// The backend before init: no ring, disabled, counters at their starting
    /// values.
    pub fn new() -> (b: Backend)
        ensures
            b@ == (BackendModel {
                enabled: false,
                overwriting: false,
                index: 0,
                events: None,
                tid_next: 1,
            }),
            backend_wf(b@),
    {
        Backend { enabled: false, overwriting: false, index: 0, events: None, tid_next: 1 }
    }
}

/// Appends one event under the ring's record protocol. Returns whether the
/// event was stored.
pub fn record(backend: &mut Backend, e: Event) -> (stored: bool)
    requires
        backend_wf(old(backend)@),
        old(backend)@.index + 1 <= u64::MAX,
    ensures
        final(backend)@ == record_spec(old(backend)@, e),
        stored == (old(backend)@.events is Some && !ring_full(old(backend)@)),
        backend_wf(final(backend)@),
{
    let len = match &backend.events {
        None => {
            return false;
        },
        Some(ev) => ev.len(),
    };
    let cidx = backend.index;
    backend.index = cidx + 1;
    if !backend.overwriting && cidx >= (len - MAX_STACK_HEIGHT) as u64 {
        backend.enabled = false;
        false
    } else {
        let slot = (cidx % (len as u64)) as usize;
        match &mut backend.events {
            Some(ev) => ev.set(slot, e),
            None => (),
        }
        true
    }
}

/// The in-flight variant used by the return path: the store is not subject to
/// the halting margin.
fn record_in_flight(backend: &mut Backend, e: Event)
    requires
        backend_wf(old(backend)@),
        old(backend)@.index + 1 <= u64::MAX,
    ensures
        final(backend)@ == record_in_flight_spec(old(backend)@, e),
        backend_wf(final(backend)@),
{
    let len = match &backend.events {
        None => {
            backend.index = backend.index + 1;
            return;
        },
        Some(ev) => ev.len(),
    };
    let cidx = backend.index;
    backend.index = cidx + 1;
    let slot = (cidx % (len as u64)) as usize;
    match &mut backend.events {
        Some(ev) => ev.set(slot, e),
        None => (),
    }
}

/// The entry-hook logic. `slot_value` is the content of the caller's return
/// slot, read by the stub only when the slot is readable (`parent_slot`
/// above the guard). The result tells the stub whether to overwrite the slot
/// with the trampoline address.
pub fn mcount_entry(
    backend: &mut Backend,
    thread: &mut ThreadState,
    parent_slot: u64,
    slot_value: Option<u64>,
    child_ip: u64,
    region: CodeRange,
    now: u64,
) -> (hooked: bool)
    requires
        backend_wf(old(backend)@),
        old(backend)@.index + 2 <= u64::MAX,
        old(backend)@.tid_next + 1 <= u64::MAX,
        now + 20 <= u64::MAX,
        slot_value is Some <==> parent_slot > PARENT_SLOT_GUARD,
    ensures
        final(backend)@ == mcount_entry_spec(
            old(backend)@,
            old(thread)@,
            parent_slot,
            slot_value,
            child_ip,
            region,
            now,
        ).0,
        final(thread)@ == mcount_entry_spec(
            old(backend)@,
            old(thread)@,
            parent_slot,
            slot_value,
            child_ip,
            region,
            now,
        ).1,
        hooked == mcount_entry_spec(
            old(backend)@,
            old(thread)@,
            parent_slot,
            slot_value,
            child_ip,
            region,
            now,
        ).2,
        backend_wf(final(backend)@),
{
    if !backend.enabled {
        return false;
    }
    if thread.tid.is_none() {
        thread.tid = Some(backend.tid_next);
        backend.tid_next = backend.tid_next + 1;
    }
    let hook_return = parent_slot > PARENT_SLOT_GUARD;
    let parent_deref = if hook_return {
        slot_value.unwrap()
    } else {
        PLACEHOLDER_PARENT
    };
    record(
        backend,
        Event::Entry(Call { time: now, from: parent_deref, to: child_ip, tid: thread.tid }),
    );
    if !backend.enabled {
        // The halting margin was hit: the store was abandoned, tracing is now
        // off, and the return is not diverted.
        return false;
    }
    if region.lo <= parent_deref && parent_deref <= region.hi {
        // The parent is the tracer itself: emit a synthetic exit so external
        // depth bookkeeping stays balanced, and do not divert the return.
        record(
            backend,
            Event::Exit(Exit { time: now + 20, from: child_ip, tid: thread.tid }),
        );
        return false;
    }
    if hook_return {
        let sr = SavedRet { stackloc: parent_slot, retloc: parent_deref, childip: child_ip };
        if thread.retstack.push(sr).is_ok() {
            return true;
        }
    }
    false
}

/// The return-trampoline logic. An empty shadow stack here means the diverted
/// return chain was corrupted; that state is excluded rather than handled.
pub fn mcount_return(backend: &mut Backend, thread: &mut ThreadState, now: u64) -> (original_ret:
    u64)
    requires
        backend_wf(old(backend)@),
        old(backend)@.index + 1 <= u64::MAX,
        old(thread)@.frames.len() > 0,
    ensures
        final(backend)@ == mcount_return_spec(old(backend)@, old(thread)@, now).0,
        final(thread)@ == mcount_return_spec(old(backend)@, old(thread)@, now).1,
        original_ret == mcount_return_spec(old(backend)@, old(thread)@, now).2,
        backend_wf(final(backend)@),
{
    let sr = thread.retstack.pop().unwrap();
    record_in_flight(
        backend,
        Event::Exit(Exit { time: now, from: sr.childip, tid: thread.tid }),
    );
    sr.retloc
}

/// Installs the event ring. The ring pointer is set exactly once per process
/// lifetime: a second call is a no-op, the first buffer stays active.
pub fn rftrace_backend_init(backend: &mut Backend, buf: Vec<Event>, overwriting: bool)
    requires
        backend_wf(old(backend)@),
        buf@.len() > MAX_STACK_HEIGHT,
    ensures
        old(backend)@.events is Some ==> final(backend)@ == old(backend)@,
        old(backend)@.events is None ==> final(backend)@ == (BackendModel {
            events: Some(buf@),
            overwriting: overwriting,
            ..old(backend)@
        }),
        backend_wf(final(backend)@),
{
    if backend.events.is_some() {
        return;
    }
    backend.overwriting = overwriting;
    backend.events = Some(buf);
}

/// Switches the entry hook on.
pub fn rftrace_backend_enable(backend: &mut Backend)
    ensures
        final(backend)@ == (BackendModel { enabled: true, ..old(backend)@ }),
{
    backend.enabled = true;
}

/// Switches the entry hook off. In-flight returns still record their exits.
pub fn rftrace_backend_disable(backend: &mut Backend)
    ensures
        final(backend)@ == (BackendModel { enabled: false, ..old(backend)@ }),
{
    backend.enabled = false;
}

/// Takes the event ring away from the backend (ownership returns to the
/// caller for dumping); subsequent records find no ring.
pub fn rftrace_backend_get_events(backend: &mut Backend) -> (r: Option<Vec<Event>>)
    ensures
        final(backend)@ == (BackendModel { events: None, ..old(backend)@ }),
        match (r, old(backend)@.events) {
            (Some(v), Some(ev)) => v@ == ev,
            (None, None) => true,
            _ => false,
        },
{
    backend.events.take()
}

/// The current value of the global write index.
pub fn rftrace_backend_get_events_index(backend: &Backend) -> (r: u64)
    ensures
        r == backend@.index,
{
    backend.index
}

/// Whether a ring is currently installed.
pub fn rftrace_backend_has_events(backend: &Backend) -> (r: bool)
    ensures
        r == (backend@.events is Some),
{
    backend.events.is_some()
}

/// Balanced entries and exits: a call whose entry was hooked receives, once
/// its frame is back on top of the shadow stack at return time, exactly the
/// matching exit: the exit's `from` is the entry's `to`, the original return
/// address comes back out, the stack returns to its pre-call shape, and the
/// exit's timestamp is not before the entry's.
pub proof fn lemma_hooked_call_balanced(
    b: BackendModel,
    t: ThreadModel,
    parent_slot: u64,
    slot_value: Option<u64>,
    child_ip: u64,
    region: CodeRange,
    now_entry: u64,
    b2: BackendModel,
    t2: ThreadModel,
    now_exit: u64,
)
    requires
        mcount_entry_spec(b, t, parent_slot, slot_value, child_ip, region, now_entry).2,
        t2.frames == mcount_entry_spec(
            b,
            t,
            parent_slot,
            slot_value,
            child_ip,
            region,
            now_entry,
        ).1.frames,
        t2.tid == mcount_entry_spec(
            b,
            t,
            parent_slot,
            slot_value,
            child_ip,
            region,
            now_entry,
        ).1.tid,
        now_exit >= now_entry,
    ensures
        ({
            let te = mcount_entry_spec(b, t, parent_slot, slot_value, child_ip, region, now_entry).1;
            let ret = mcount_return_spec(b2, t2, now_exit);
            &&& ret.2 == slot_value.unwrap()
            &&& ret.1.frames == t.frames
            &&& ret.0 == record_in_flight_spec(
                b2,
                Event::Exit(Exit { time: now_exit, from: child_ip, tid: te.tid }),
            )
        }),
{
    let te = mcount_entry_spec(b, t, parent_slot, slot_value, child_ip, region, now_entry).1;
    let t1 = ensure_tid_spec(b, t).1;
    assert(te.frames == t1.frames.push(
        SavedRet { stackloc: parent_slot, retloc: slot_value.unwrap(), childip: child_ip },
    ));
    assert(t2.frames.drop_last() =~= t1.frames);
    assert(t1.frames == t.frames);
}

/// Ring index monotonicity: every record step advances the write index by
/// exactly one, so of two records the later one occupies a strictly larger
/// index.
pub proof fn lemma_ring_index_monotonic(s: BackendModel, e1: Event, e2: Event)
    requires
        s.events is Some,
    ensures
        record_spec(s, e1).index == s.index + 1,
        record_in_flight_spec(s, e1).index == s.index + 1,
        record_spec(record_spec(s, e1), e2).index == s.index + 2,
{
}

/// The halting-mode capacity bound: while tracing is enabled, the write
/// index has not passed `len - MAX_STACK_HEIGHT`.
pub open spec fn halting_margin_ok(s: BackendModel) -> bool {
    match s.events {
        Some(ev) => !s.overwriting && s.enabled ==> s.index <= ev.len() - MAX_STACK_HEIGHT,
        None => true,
    }
}

/// One record step keeps the capacity bound: either the index was still
/// below the margin, or the step clears the enable flag.
pub proof fn lemma_record_keeps_margin(s: BackendModel, e: Event)
    requires
        halting_margin_ok(s),
    ensures
        halting_margin_ok(record_spec(s, e)),
{
}

/// Ring capacity in halting mode: an entire entry transition (which records
/// at most twice) keeps the capacity bound, so the index exceeds the margin
/// only after tracing is off.
pub proof fn lemma_entry_keeps_margin(
    b: BackendModel,
    t: ThreadModel,
    parent_slot: u64,
    slot_value: Option<u64>,
    child_ip: u64,
    region: CodeRange,
    now: u64,
)
    requires
        halting_margin_ok(b),
    ensures
        halting_margin_ok(
            mcount_entry_spec(b, t, parent_slot, slot_value, child_ip, region, now).0,
        ),
{
    let b1 = ensure_tid_spec(b, t).0;
    let t1 = ensure_tid_spec(b, t).1;
    let pip = parent_ip_spec(parent_slot, slot_value);
    let entry = Event::Entry(Call { time: now, from: pip, to: child_ip, tid: t1.tid });
    assert(halting_margin_ok(b1));
    lemma_record_keeps_margin(b1, entry);
    let b2 = record_spec(b1, entry);
    let cutoff = Event::Exit(Exit { time: (now + 20) as u64, from: child_ip, tid: t1.tid });
    lemma_record_keeps_margin(b2, cutoff);
}

/// Each in-flight return recorded after the margin disabled tracing adds
/// exactly one slot (landing in the reserved tail) and cannot re-enable
/// tracing: the index never exceeds the margin by more than the number of
/// in-flight returns.
pub proof fn lemma_return_adds_one(b: BackendModel, t: ThreadModel, now: u64)
    ensures
        mcount_return_spec(b, t, now).0.index == b.index + 1,
        mcount_return_spec(b, t, now).0.enabled == b.enabled,
{
}

proof fn lemma_mod_succ_distinct(i: nat, len: nat)
    requires
        len >= 2,
    ensures
        i % len != (i + 1) % len,
        (i + 1) % len == if i % len + 1 == len {
            0nat
        } else {
            i % len + 1
        },
{
    vstd::arithmetic::div_mod::lemma_add_mod_noop(i as int, 1, len as int);
    vstd::arithmetic::div_mod::lemma_small_mod(1, len);
    if i % len + 1 == len {
        vstd::arithmetic::div_mod::lemma_mod_self_0(len as int);
    } else {
        vstd::arithmetic::div_mod::lemma_mod_bound(i as int, len as int);
        vstd::arithmetic::div_mod::lemma_small_mod((i % len + 1) as nat, len);
    }
}

/// Self-trace containment: an entry whose recorded parent address lies in
/// the backend's own code region is followed in the very next slot by the
/// synthetic exit (timestamp advanced by 20 cycles, the callee entry address
/// as its `from`), the return is not diverted, and the shadow stack is left
/// alone. Entries recorded outside this case never carry a parent address
/// from the region (see `lemma_hooked_entry_outside_region`).
pub proof fn lemma_self_trace_cutoff(
    b: BackendModel,
    t: ThreadModel,
    parent_slot: u64,
    slot_value: Option<u64>,
    child_ip: u64,
    region: CodeRange,
    now: u64,
)
    requires
        b.enabled,
        backend_wf(b),
        b.events is Some,
        b.overwriting || b.index + 2 <= b.events.unwrap().len() - MAX_STACK_HEIGHT,
        region.contains(parent_ip_spec(parent_slot, slot_value)),
    ensures
        ({
            let r = mcount_entry_spec(b, t, parent_slot, slot_value, child_ip, region, now);
            let t1 = ensure_tid_spec(b, t).1;
            let pip = parent_ip_spec(parent_slot, slot_value);
            let ev = b.events.unwrap();
            let len = ev.len();
            &&& !r.2
            &&& r.1.frames == t.frames
            &&& r.0.index == b.index + 2
            &&& r.0.events is Some
            &&& r.0.events.unwrap()[(b.index % len) as int] == Event::Entry(
                Call { time: now, from: pip, to: child_ip, tid: t1.tid },
            )
            &&& r.0.events.unwrap()[((b.index + 1) % len) as int] == Event::Exit(
                Exit { time: (now + 20) as u64, from: child_ip, tid: t1.tid },
            )
        }),
{
    let ev = b.events.unwrap();
    let len = ev.len();
    lemma_mod_succ_distinct(b.index, len);
    vstd::arithmetic::div_mod::lemma_mod_bound(b.index as int, len as int);
    vstd::arithmetic::div_mod::lemma_mod_bound(b.index as int + 1, len as int);
}

/// A hooked (normal) entry's recorded parent address lies outside the
/// backend's own code region: inside it, the cutoff path runs instead.
pub proof fn lemma_hooked_entry_outside_region(
    b: BackendModel,
    t: ThreadModel,
    parent_slot: u64,
    slot_value: Option<u64>,
    child_ip: u64,
    region: CodeRange,
    now: u64,
)
    ensures
        mcount_entry_spec(b, t, parent_slot, slot_value, child_ip, region, now).2
            ==> !region.contains(parent_ip_spec(parent_slot, slot_value)),
{
}

/// Thread adoption hands out the counter's current value and moves the
/// counter past it.
pub proof fn lemma_tid_assignment(b: BackendModel, t: ThreadModel)
    requires
        t.tid is None,
    ensures
        ensure_tid_spec(b, t).1.tid == Some(b.tid_next as u64),
        ensure_tid_spec(b, t).0.tid_next == b.tid_next + 1,
{
}

/// Distinct threads observe distinct identifiers: the counter only grows,
/// so an adoption that starts at or past another adoption's final counter
/// yields a different identifier.
pub proof fn lemma_tid_unique(b1: BackendModel, t1: ThreadModel, b2: BackendModel, t2: ThreadModel)
    requires
        t1.tid is None,
        t2.tid is None,
        ensure_tid_spec(b1, t1).0.tid_next <= b2.tid_next,
        b2.tid_next <= u64::MAX,
    ensures
        ensure_tid_spec(b1, t1).1.tid != ensure_tid_spec(b2, t2).1.tid,
{
    assert(b1.tid_next < b2.tid_next);
    assert(b1.tid_next as u64 != b2.tid_next as u64);
}

/// A thread's identifier is stable: once assigned, neither entries nor
/// returns change it, and the entry transition never lowers the counter.
pub proof fn lemma_tid_stable(
    b: BackendModel,
    t: ThreadModel,
    parent_slot: u64,
    slot_value: Option<u64>,
    child_ip: u64,
    region: CodeRange,
    now: u64,
)
    ensures
        t.tid is Some ==> mcount_entry_spec(
            b,
            t,
            parent_slot,
            slot_value,
            child_ip,
            region,
            now,
        ).1.tid == t.tid,
        mcount_return_spec(b, t, now).1.tid == t.tid,
        mcount_entry_spec(b, t, parent_slot, slot_value, child_ip, region, now).0.tid_next
            >= b.tid_next,
{
}

/// The shadow stack bounds recursion depth: below capacity a hookable entry
/// pushes exactly one frame; at capacity the entry is still recorded but the
/// return is not diverted and the stack is unchanged, so ancestors are
/// unaffected.
pub proof fn lemma_stack_capacity(
    b: BackendModel,
    t: ThreadModel,
    parent_slot: u64,
    slot_value: Option<u64>,
    child_ip: u64,
    region: CodeRange,
    now: u64,
)
    requires
        b.enabled,
        !ring_full(b),
        !region.contains(parent_ip_spec(parent_slot, slot_value)),
        parent_slot > PARENT_SLOT_GUARD,
    ensures
        ({
            let r = mcount_entry_spec(b, t, parent_slot, slot_value, child_ip, region, now);
            &&& t.frames.len() < MAX_STACK_HEIGHT ==> r.2 && r.1.frames == t.frames.push(
                SavedRet {
                    stackloc: parent_slot,
                    retloc: slot_value.unwrap(),
                    childip: child_ip,
                },
            )
            &&& t.frames.len() >= MAX_STACK_HEIGHT ==> !r.2 && r.1.frames == t.frames
        }),
{
}

/// An entry transition never rewrites existing frames: the prior stack is a
/// prefix of the new one.
pub proof fn lemma_entry_preserves_ancestors(
    b: BackendModel,
    t: ThreadModel,
    parent_slot: u64,
    slot_value: Option<u64>,
    child_ip: u64,
    region: CodeRange,
    now: u64,
)
    ensures
        t.frames.is_prefix_of(
            mcount_entry_spec(b, t, parent_slot, slot_value, child_ip, region, now).1.frames,
        ),
{
    let r = mcount_entry_spec(b, t, parent_slot, slot_value, child_ip, region, now);
    assert(r.1.frames == t.frames || r.1.frames.len() == t.frames.len() + 1);
    assert(t.frames.is_prefix_of(t.frames)) by {
        assert(t.frames =~= t.frames.subrange(0, t.frames.len() as int));
    }
    if r.1.frames.len() == t.frames.len() + 1 {
        assert(r.1.frames.subrange(0, t.frames.len() as int) =~= t.frames);
    }
}

/// A structurally unreadable return slot records the placeholder parent
/// address and never diverts the return.
pub proof fn lemma_unreadable_parent(
    b: BackendModel,
    t: ThreadModel,
    parent_slot: u64,
    slot_value: Option<u64>,
    child_ip: u64,
    region: CodeRange,
    now: u64,
)
    requires
        parent_slot <= PARENT_SLOT_GUARD,
    ensures
        parent_ip_spec(parent_slot, slot_value) == PLACEHOLDER_PARENT,
        !mcount_entry_spec(b, t, parent_slot, slot_value, child_ip, region, now).2,
        mcount_entry_spec(b, t, parent_slot, slot_value, child_ip, region, now).1.frames
            == t.frames,
{
}

/// Disabling is cooperative: a disabled entry hook has no effect at all,
/// while a return still records its exit (in-flight returns slip through by
/// design).
pub proof fn lemma_disable_cooperative(
    b: BackendModel,
    t: ThreadModel,
    parent_slot: u64,
    slot_value: Option<u64>,
    child_ip: u64,
    region: CodeRange,
    now: u64,
)
    requires
        !b.enabled,
    ensures
        mcount_entry_spec(b, t, parent_slot, slot_value, child_ip, region, now) == (b, t, false),
        mcount_return_spec(b, t, now).0.index == b.index + 1,
{
}

} // verus!
