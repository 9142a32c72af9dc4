//! Laws about whole runs of the hook on a single thread: what a sequence of
//! entry and return transitions guarantees, beyond the single-step contracts
//! of the backend.

use vstd::prelude::*;

verus! {

use crate::backend::{
    lemma_entry_preserves_ancestors,
    mcount_entry_spec,
    mcount_return_spec,
    record_in_flight_spec,
    BackendModel,
    CodeRange,
    ThreadModel,
};
use crate::interface::{Event, Exit, MAX_STACK_HEIGHT};

/// One invocation of the backend's logic on a thread: an entry hook firing,
/// or a diverted return coming back through the trampoline.
#[derive(Debug, Clone, Copy, PartialEq, Eq, Structural)]
pub enum HookStep {
    Entry { parent_slot: u64, slot_value: Option<u64>, child_ip: u64, now: u64 },
    Return { now: u64 },
}

/// The timestamp a step samples.
pub open spec fn step_time(s: HookStep) -> u64 {
    match s {
        HookStep::Entry { now, .. } => now,
        HookStep::Return { now } => now,
    }
}

/// The state transition one step performs.
pub open spec fn step_spec(b: BackendModel, t: ThreadModel, s: HookStep, region: CodeRange) -> (
    BackendModel,
    ThreadModel,
) {
    match s {
        HookStep::Entry { parent_slot, slot_value, child_ip, now } => {
            let r = mcount_entry_spec(b, t, parent_slot, slot_value, child_ip, region, now);
            (r.0, r.1)
        },
        HookStep::Return { now } => {
            let r = mcount_return_spec(b, t, now);
            (r.0, r.1)
        },
    }
}

/// The state after a whole run of steps.
pub open spec fn run_spec(
    b: BackendModel,
    t: ThreadModel,
    steps: Seq<HookStep>,
    region: CodeRange,
) -> (BackendModel, ThreadModel)
    decreases steps.len(),
{
    if steps.len() == 0 {
        (b, t)
    } else {
        let prev = run_spec(b, t, steps.drop_last(), region);
        step_spec(prev.0, prev.1, steps.last(), region)
    }
}

/// A run is valid when every return finds a frame to pop: returns only come
/// through the trampoline, which only runs for diverted (pushed) frames.
pub open spec fn run_valid(
    b: BackendModel,
    t: ThreadModel,
    steps: Seq<HookStep>,
    region: CodeRange,
) -> bool
    decreases steps.len(),
{
    if steps.len() == 0 {
        true
    } else {
        &&& run_valid(b, t, steps.drop_last(), region)
        &&& (steps.last() is Return ==> run_spec(b, t, steps.drop_last(), region).1.frames.len()
            > 0)
    }
}

/// How many returns a run contains.
pub open spec fn count_returns(steps: Seq<HookStep>) -> nat
    decreases steps.len(),
{
    if steps.len() == 0 {
        0nat
    } else {
        count_returns(steps.drop_last()) + if steps.last() is Return {
            1nat
        } else {
            0nat
        }
    }
}

/// A frame stays untouched for as long as every state of the run keeps the
/// stack strictly deeper than its position: steps only push onto or pop off
/// the top of the shadow stack.
proof fn lemma_run_preserves_deep_frame(
    b: BackendModel,
    t: ThreadModel,
    steps: Seq<HookStep>,
    region: CodeRange,
    d: int,
)
    requires
        0 <= d,
        forall|i: int|
            0 <= i <= steps.len() ==> #[trigger] run_spec(b, t, steps.take(i), region).1.frames.len()
                > d,
    ensures
        run_spec(b, t, steps, region).1.frames[d] == t.frames[d],
    decreases steps.len(),
{
    if steps.len() == 0 {
        assert(steps.take(0) =~= steps);
    } else {
        let pre = steps.drop_last();
        assert(forall|i: int|
            0 <= i <= pre.len() ==> #[trigger] run_spec(b, t, pre.take(i), region).1.frames.len()
                > d) by {
            assert forall|i: int| 0 <= i <= pre.len() implies #[trigger] run_spec(
                b,
                t,
                pre.take(i),
                region,
            ).1.frames.len() > d by {
                assert(pre.take(i) =~= steps.take(i));
                assert(run_spec(b, t, steps.take(i), region).1.frames.len() > d);
            }
        }
        lemma_run_preserves_deep_frame(b, t, pre, region, d);
        let prev = run_spec(b, t, pre, region);
        assert(pre.take(pre.len() as int) =~= pre);
        assert(steps.take(pre.len() as int) =~= pre);
        assert(prev.1.frames.len() > d);
        assert(steps.take(steps.len() as int) =~= steps);
        let fin = run_spec(b, t, steps, region);
        assert(fin.1.frames.len() > d);
        match steps.last() {
            HookStep::Entry { parent_slot, slot_value, child_ip, now } => {
                lemma_entry_preserves_ancestors(
                    prev.0,
                    prev.1,
                    parent_slot,
                    slot_value,
                    child_ip,
                    region,
                    now,
                );
                assert(prev.1.frames =~= fin.1.frames.subrange(0, prev.1.frames.len() as int));
                assert(fin.1.frames[d] == prev.1.frames[d]);
            },
            HookStep::Return { now } => {
                assert(fin.1.frames == prev.1.frames.drop_last());
                assert(fin.1.frames[d] == prev.1.frames[d]);
            },
        }
    }
}

/// Balanced entries and exits over a whole run: take a call whose frame sits
/// on top of the stack, and a run during which the stack never gets
/// shallower than that frame until its very last step, which brings the
/// stack below it. Then that last step is a return, it pops exactly the
/// frame in question — which no step of the run has touched — it emits the
/// one exit that matches the call (the callee entry address the frame
/// carries), and control goes back to the saved return address.
pub proof fn lemma_completed_call_balanced(
    b: BackendModel,
    t: ThreadModel,
    steps: Seq<HookStep>,
    region: CodeRange,
)
    requires
        run_valid(b, t, steps, region),
        steps.len() > 0,
        t.frames.len() > 0,
        forall|i: int|
            0 <= i < steps.len() ==> #[trigger] run_spec(b, t, steps.take(i), region).1.frames.len()
                >= t.frames.len(),
        run_spec(b, t, steps, region).1.frames.len() == t.frames.len() - 1,
    ensures
        ({
            let fr = t.frames.last();
            let prev = run_spec(b, t, steps.drop_last(), region);
            let fin = run_spec(b, t, steps, region);
            &&& steps.last() is Return
            &&& prev.1.frames.len() == t.frames.len()
            &&& prev.1.frames.last() == fr
            &&& mcount_return_spec(prev.0, prev.1, step_time(steps.last())).2 == fr.retloc
            &&& fin.0 == record_in_flight_spec(
                prev.0,
                Event::Exit(
                    Exit { time: step_time(steps.last()), from: fr.childip, tid: prev.1.tid },
                ),
            )
            &&& fin.1.frames == prev.1.frames.drop_last()
        }),
{
    let d = t.frames.len() - 1;
    let pre = steps.drop_last();
    let prev = run_spec(b, t, pre, region);
    let fin = run_spec(b, t, steps, region);
    assert(pre.take(pre.len() as int) =~= pre);
    assert(steps.take(pre.len() as int) =~= pre);
    assert(prev.1.frames.len() >= t.frames.len());
    match steps.last() {
        HookStep::Entry { parent_slot, slot_value, child_ip, now } => {
            lemma_entry_preserves_ancestors(
                prev.0,
                prev.1,
                parent_slot,
                slot_value,
                child_ip,
                region,
                now,
            );
            assert(prev.1.frames =~= fin.1.frames.subrange(0, prev.1.frames.len() as int));
            assert(fin.1.frames.len() >= prev.1.frames.len());
            assert(false);
        },
        HookStep::Return { now } => {
            assert(fin.1.frames == prev.1.frames.drop_last());
            assert(prev.1.frames.len() == t.frames.len());
        },
    }
    assert(forall|i: int|
        0 <= i <= pre.len() ==> #[trigger] run_spec(b, t, pre.take(i), region).1.frames.len()
            > d) by {
        assert forall|i: int| 0 <= i <= pre.len() implies #[trigger] run_spec(
            b,
            t,
            pre.take(i),
            region,
        ).1.frames.len() > d by {
            assert(pre.take(i) =~= steps.take(i));
            assert(run_spec(b, t, steps.take(i), region).1.frames.len() >= t.frames.len());
        }
    }
    lemma_run_preserves_deep_frame(b, t, pre, region, d);
    assert(prev.1.frames[d] == t.frames[d]);
    assert(prev.1.frames.last() == t.frames.last());
}

/// Ring capacity over a whole run, in halting mode: starting from a freshly
/// initialized ring, the write index can pass the reserved margin
/// `len - MAX_STACK_HEIGHT` by at most one abandoned slot plus one slot per
/// return the run performs — the in-flight exits that land in the reserved
/// tail. While tracing is still enabled, even the abandoned slot is
/// excluded.
pub proof fn lemma_run_halting_capacity(
    b: BackendModel,
    t: ThreadModel,
    steps: Seq<HookStep>,
    region: CodeRange,
)
    requires
        run_valid(b, t, steps, region),
        !b.overwriting,
        b.events is Some,
        b.events.unwrap().len() > MAX_STACK_HEIGHT,
        b.index + 1 <= b.events.unwrap().len() - MAX_STACK_HEIGHT,
    ensures
        ({
            let fin = run_spec(b, t, steps, region).0;
            let len = b.events.unwrap().len();
            &&& fin.events is Some
            &&& fin.events.unwrap().len() == len
            &&& !fin.overwriting
            &&& fin.index <= len - MAX_STACK_HEIGHT + 1 + count_returns(steps)
            &&& (fin.enabled ==> fin.index <= len - MAX_STACK_HEIGHT + count_returns(steps))
        }),
    decreases steps.len(),
{
    if steps.len() > 0 {
        let pre = steps.drop_last();
        lemma_run_halting_capacity(b, t, pre, region);
        let prev = run_spec(b, t, pre, region);
        let len = b.events.unwrap().len();
        let margin = len - MAX_STACK_HEIGHT;
        match steps.last() {
            HookStep::Entry { parent_slot, slot_value, child_ip, now } => {
                // A disabled entry does nothing; an enabled one records once
                // or twice, and any record at or past the margin abandons the
                // store and clears the flag.
                assert(count_returns(steps) == count_returns(pre));
                assert(run_spec(b, t, steps, region).0.index <= margin + 1 + count_returns(steps));
            },
            HookStep::Return { now } => {
                assert(count_returns(steps) == count_returns(pre) + 1);
            },
        }
    }
}

} // verus!
