//! What each node of a blueprint does, from the step that starts it.

use std::time::Duration;
use vstd::prelude::*;

use crate::action::{Action, DataOp, Host, Id, Signal, Value, ValueView};
use crate::error::SysError;
use crate::idempotency::Keys;
use crate::interpreter::{Event, Outcome};
use crate::laws::{admitted, returning, running, then_step};
use crate::registry::{LinearView, RegistryView};
use crate::resource::{AccessMode, ResourceSet, ResourceView};
use crate::semantics::{
    ControlView, FrameView, GoalView, MachineView, RequestView, ResultView, StepView, WorldView,
};
use crate::syscall::UndoCapability;
use crate::undo::EntryView;

verus! {

/// The step that starts a node.
pub open spec fn start<B: Host>(
    m: MachineView<B>,
    w: WorldView<B::Undo>,
    k: Keys,
    action: Action<B>,
    depth: usize,
) -> StepView<B> {
    crate::semantics::transition(running(m, m.frames, action, depth), w, k, Event::Go)
}

/// The step that ends what runs above the frames that a step left: it has this
/// result, in this world and with these keys.
pub open spec fn end<B: Host>(
    s: StepView<B>,
    r: ResultView,
    w: WorldView<B::Undo>,
    k: Keys,
) -> StepView<B> {
    crate::semantics::transition(
        MachineView { control: ControlView::Return(r), ..s.machine },
        w,
        k,
        Event::Go,
    )
}

/// Whether a step hands a result to the frames, and has changed nothing.
pub open spec fn hands_on<B: Host>(
    s: StepView<B>,
    frames: Seq<FrameView<B>>,
    w: WorldView<B::Undo>,
    k: Keys,
    r: ResultView,
) -> bool {
    &&& s.machine.frames == frames
    &&& s.machine.control == ControlView::<B>::Return(r)
    &&& s.world == w
    &&& s.keys == k
    &&& s.request == RequestView::<B>::Continue
}

/// Whether a step asks for what follows a value, on these frames and at this depth.
pub open spec fn calls<B: Host>(
    s: StepView<B>,
    frames: Seq<FrameView<B>>,
    next: B::Next,
    v: ValueView,
    depth: usize,
) -> bool {
    &&& s.machine.frames == frames
    &&& s.machine.control == (ControlView::<B>::AwaitNext { depth })
    &&& s.request == RequestView::<B>::Call { next, value: v }
}

/// Whether a step goes on to run something, on these frames and at this depth.
pub open spec fn goes_to<B: Host>(
    s: StepView<B>,
    frames: Seq<FrameView<B>>,
    action: Action<B>,
    depth: int,
) -> bool {
    &&& s.machine.frames == frames
    &&& s.machine.control matches ControlView::Run { action: a, depth: d } && a == action && d
        == depth
}

/// The innermost timer tells whether what runs has timed out; where there is none,
/// whoever started the machine does.
pub proof fn law_innermost_timer_tells<B: Host>(frames: Seq<FrameView<B>>, outer: bool, i: int)
    requires
        -1 <= i < frames.len(),
        i >= 0 ==> frames[i] is Timer,
        forall|j: int| i < j < frames.len() ==> !(#[trigger] frames[j] is Timer),
    ensures
        crate::semantics::timed_out(frames, outer) == (if i >= 0 {
            frames[i]->Timer_expired
        } else {
            outer
        }),
    decreases frames.len(),
{
    if frames.len() > 0 {
        let rest = frames.drop_last();
        assert(forall|j: int| 0 <= j < rest.len() ==> rest[j] == frames[j]);
        if i < frames.len() - 1 {
            law_innermost_timer_tells(rest, outer, i);
        }
    }
}

/// Letting timers expire touches the timers from a level on and nothing else; then
/// whatever runs above one of them has timed out.
pub proof fn law_expiring_touches_timers_only<B: Host>(
    frames: Seq<FrameView<B>>,
    level: int,
    j: int,
    outer: bool,
)
    requires
        0 <= level,
        0 <= j < frames.len(),
    ensures
        ({
            let now = crate::semantics::expired_from(frames, level);
            &&& now.len() == frames.len()
            &&& match frames[j] {
                FrameView::Timer { on_timeout, mark, marks, expired, depth } => now[j]
                    == (FrameView::<B>::Timer {
                    on_timeout,
                    mark,
                    marks,
                    expired: expired || j >= level,
                    depth,
                }),
                f => now[j] == f,
            }
            &&& frames[j] is Timer && j >= level ==> crate::semantics::timed_out(now, outer)
        }),
{
    let now = crate::semantics::expired_from(frames, level);
    if frames[j] is Timer && j >= level {
        lemma_all_expired(now, j, level, outer);
    }
}

proof fn lemma_all_expired<B: Host>(frames: Seq<FrameView<B>>, j: int, level: int, outer: bool)
    requires
        0 <= level <= j < frames.len(),
        frames[j] is Timer,
        forall|i: int|
            level <= i < frames.len() ==> (#[trigger] frames[i] is Timer ==> frames[i]->Timer_expired),
    ensures
        crate::semantics::timed_out(frames, outer),
    decreases frames.len(),
{
    if frames.last() is Timer {
        assert(frames[frames.len() - 1]->Timer_expired);
    } else {
        let rest = frames.drop_last();
        assert(forall|i: int| 0 <= i < rest.len() ==> rest[i] == frames[i]);
        lemma_all_expired(rest, j, level, outer);
    }
}

/// An operation is run once its uses are marked, all of them or none. Without a
/// virtual clock that answers for the time, the driver is asked to run exactly this
/// operation. Where it succeeds, its cost is added once, its inverse is the next to
/// be undone, and the marks stay; where it fails, its own marks go.
pub proof fn law_operation<B: Host>(
    m: MachineView<B>,
    w: WorldView<B::Undo>,
    k: Keys,
    op: DataOp,
    resources: ResourceSet,
    next: B::Next,
    depth: usize,
    reg: RegistryView,
    k1: Keys,
    v: Value,
    capability: UndoCapability<B::Undo>,
    e: SysError,
)
    requires
        admitted(m, depth),
        !(op is GetTime && w.ctx.clock is Some),
    ensures
        ({
            let uses = crate::resource::usages(resources@);
            let s = start(m, w, k, Action::Syscall { op, resources, next }, depth);
            let after = crate::semantics::with_reg(s.world, reg);
            let good = crate::semantics::transition(
                s.machine,
                after,
                k1,
                Event::Executed(Ok((v, capability))),
            );
            let bad = crate::semantics::transition(
                s.machine,
                after,
                k1,
                Event::Executed(Err(e)),
            );
            match crate::registry::marked_all(w.reg, uses) {
                None => hands_on(s, m.frames, w, k, Err(SysError::InvalidInput)),
                Some(marked) => {
                    &&& s.request == RequestView::<B>::Execute { op }
                    &&& s.machine.frames == m.frames
                    &&& s.keys == k
                    &&& s.world.ctx == w.ctx && s.world.undo == w.undo && s.world.reg == marked
                    &&& calls(good, m.frames, next, v@, depth)
                    &&& good.keys == k1
                    &&& good.world.ctx == w.ctx
                    &&& good.world.reg == reg
                    &&& good.world.undo.accrued == crate::cost::cost_sum(
                        w.undo.accrued,
                        crate::cost::cost_of(op),
                    )
                    &&& good.world.undo.replacements == w.undo.replacements
                    &&& good.world.undo.irreversible == (w.undo.irreversible
                        || capability is NonInvertible)
                    &&& good.world.undo.ops == (match capability {
                        UndoCapability::Invertible(op) => w.undo.ops.push(EntryView::Op(op)),
                        _ => w.undo.ops,
                    })
                    &&& bad.machine.frames == m.frames
                    &&& bad.machine.control == ControlView::<B>::Return(Err(e))
                    &&& bad.keys == k1
                    &&& bad.world.ctx == w.ctx
                    &&& bad.world.undo == w.undo
                    &&& bad.world.reg.handles == reg.handles
                    &&& bad.world.reg.next_fd == reg.next_fd
                    &&& bad.world.reg.fork_region == reg.fork_region
                    &&& forall|x: ResourceView| #[trigger]
                        bad.world.reg.consumed.contains(x) <==> reg.consumed.contains(x) && !exists|
                            i: int,
                        |
                            0 <= i < uses.len() && (#[trigger] uses[i]).mode is Write
                                && uses[i].resource == x
                    &&& forall|x: ResourceView| #[trigger]
                        bad.world.reg.owned.contains(x) <==> reg.owned.contains(x) && !exists|i: int|
                            0 <= i < uses.len() && (#[trigger] uses[i]).mode is Own
                                && uses[i].resource == x
                },
            }
        }),
{
    let uses = crate::resource::usages(resources@);
    let s = start(m, w, k, Action::Syscall { op, resources, next }, depth);
    let after = crate::semantics::with_reg(s.world, reg);
    let bad = crate::semantics::transition(s.machine, after, k1, Event::Executed(Err(e)));
    if crate::registry::marked_all(w.reg, uses) is Some {
        assert forall|x: ResourceView| #[trigger]
            bad.world.reg.consumed.contains(x) <==> reg.consumed.contains(x) && !exists|i: int|
                0 <= i < uses.len() && (#[trigger] uses[i]).mode is Write && uses[i].resource
                    == x by {
            assert(forall|i: int|
                0 <= i < uses.len() ==> ((#[trigger] uses[i]).mode is Write <==> uses[i].mode
                    == AccessMode::Write));
        }
        assert forall|x: ResourceView| #[trigger]
            bad.world.reg.owned.contains(x) <==> reg.owned.contains(x) && !exists|i: int|
                0 <= i < uses.len() && (#[trigger] uses[i]).mode is Own && uses[i].resource
                    == x by {
            assert(forall|i: int|
                0 <= i < uses.len() ==> ((#[trigger] uses[i]).mode is Own <==> uses[i].mode
                    == AccessMode::Own));
        }
    }
}

/// With a virtual clock, asking for the time gives the clock's whole milliseconds.
/// Nothing is executed, and nothing is added to the cost.
pub proof fn law_time_of_the_virtual_clock<B: Host>(
    m: MachineView<B>,
    w: WorldView<B::Undo>,
    k: Keys,
    resources: ResourceSet,
    next: B::Next,
    depth: usize,
    now: nat,
    millis: nat,
)
    requires
        admitted(m, depth),
        w.ctx.clock == Some(now),
        millis * 1_000_000 <= now < (millis + 1) * 1_000_000,
        millis <= u64::MAX,
        crate::registry::marked_all(w.reg, crate::resource::usages(resources@)) is Some,
    ensures
        ({
            let s = start(m, w, k, Action::Syscall { op: DataOp::GetTime, resources, next }, depth);
            &&& calls(s, m.frames, next, ValueView::U64(millis as u64), depth)
            &&& s.world.undo == w.undo
            &&& s.world.ctx == w.ctx
            &&& Some(s.world.reg) == crate::registry::marked_all(
                w.reg,
                crate::resource::usages(resources@),
            )
            &&& s.keys == k
        }),
{
    assert(now / 1_000_000 == millis) by (nonlinear_arith)
        requires
            millis * 1_000_000 <= now < (millis + 1) * 1_000_000,
    ;
}

/// Allocating gives that many zero bytes, up to 64 MiB, and does nothing else.
pub proof fn law_allocation<B: Host>(
    m: MachineView<B>,
    w: WorldView<B::Undo>,
    k: Keys,
    len: usize,
    next: B::Next,
    depth: usize,
)
    requires
        admitted(m, depth),
    ensures
        ({
            let s = start(m, w, k, Action::Alloc { len, next }, depth);
            if len <= 67_108_864 {
                &&& s.world == w
                &&& s.keys == k
                &&& s.request matches RequestView::Call { next: n, value: ValueView::Bytes(bytes) }
                    && n == next && bytes.len() == len && forall|i: int|
                    0 <= i < len ==> bytes[i] == 0
                &&& s.machine.frames == m.frames
                &&& s.machine.control == (ControlView::<B>::AwaitNext { depth })
            } else {
                hands_on(s, m.frames, w, k, Err(SysError::InvalidInput))
            }
        }),
{
}

/// A foreign call is made with its captures as they are declared. Its value goes to
/// the continuation, its error is the result, and nothing is marked, added to the
/// cost or kept to be undone.
pub proof fn law_foreign_call<B: Host>(
    m: MachineView<B>,
    w: WorldView<B::Undo>,
    k: Keys,
    foreign_id: Id,
    captures: ResourceSet,
    yields: ResourceSet,
    deterministic: bool,
    next: B::Next,
    depth: usize,
    w1: WorldView<B::Undo>,
    k1: Keys,
    v: Value,
    e: SysError,
)
    requires
        admitted(m, depth),
    ensures
        ({
            let node = Action::Invoke { foreign_id, captures, yields, deterministic, next };
            let s = start(m, w, k, node, depth);
            let good = crate::semantics::transition(s.machine, w1, k1, Event::Replied(Ok(v)));
            let bad = crate::semantics::transition(s.machine, w1, k1, Event::Replied(Err(e)));
            &&& s.request == RequestView::<B>::Invoke {
                foreign_id,
                captures: crate::resource::usages(captures@),
                deterministic,
            }
            &&& s.machine.frames == m.frames && s.world == w && s.keys == k
            &&& calls(good, m.frames, next, v@, depth) && good.world == w1 && good.keys == k1
            &&& hands_on(bad, m.frames, w1, k1, Err(e))
        }),
{
}

/// Watching a signal asks for that signal and goes on with what comes of it.
pub proof fn law_watched_signal<B: Host>(
    m: MachineView<B>,
    w: WorldView<B::Undo>,
    k: Keys,
    signal: Signal,
    next: B::Next,
    depth: usize,
    w1: WorldView<B::Undo>,
    k1: Keys,
    v: Value,
    e: SysError,
)
    requires
        admitted(m, depth),
    ensures
        ({
            let s = start(m, w, k, Action::WatchSignal { signal, next }, depth);
            let good = crate::semantics::transition(s.machine, w1, k1, Event::Replied(Ok(v)));
            let bad = crate::semantics::transition(s.machine, w1, k1, Event::Replied(Err(e)));
            &&& s.request == RequestView::<B>::WatchSignal { signal }
            &&& s.machine.frames == m.frames && s.world == w && s.keys == k
            &&& calls(good, m.frames, next, v@, depth) && good.world == w1 && good.keys == k1
            &&& hands_on(bad, m.frames, w1, k1, Err(e))
        }),
{
}

/// Sleeping lets exactly its duration pass: on the virtual clock, which then shows
/// that much more, or really, where there is none. Sleeping for no time asks for
/// nothing. A clock that cannot show the time stops the run.
pub proof fn law_sleep<B: Host>(
    m: MachineView<B>,
    w: WorldView<B::Undo>,
    k: Keys,
    duration: Duration,
    next: B::Next,
    depth: usize,
    w1: WorldView<B::Undo>,
    k1: Keys,
)
    requires
        admitted(m, depth),
    ensures
        ({
            let nanos = crate::virtual_clock::duration_nanos(duration);
            let s = start(m, w, k, Action::Sleep { duration, next }, depth);
            let woken = crate::semantics::transition(s.machine, w1, k1, Event::Slept);
            &&& s.keys == k
            &&& s.world.undo == w.undo && s.world.reg == w.reg
            &&& s.world.ctx.cwd == w.ctx.cwd && s.world.ctx.env == w.ctx.env
            &&& s.machine.frames == m.frames
            &&& match w.ctx.clock {
                None => {
                    &&& s.world == w
                    &&& if nanos == 0 {
                        calls(s, m.frames, next, ValueView::Unit, depth)
                    } else {
                        &&& s.request == RequestView::<B>::Sleep { duration }
                        &&& calls(woken, m.frames, next, ValueView::Unit, depth)
                        &&& woken.world == w1
                        &&& woken.keys == k1
                    }
                },
                Some(now) => if nanos == 0 || now + nanos
                    <= 18_446_744_073_709_551_615_999_999_999 {
                    &&& calls(s, m.frames, next, ValueView::Unit, depth)
                    &&& s.world.ctx.clock == Some((now + nanos) as nat)
                } else {
                    &&& s.request == RequestView::<B>::Overflow
                    &&& s.world == w
                },
            }
        }),
{
}

/// A handler is called on an error, with the error, and what it makes runs one level
/// deeper than the node; a value passes by. What is watched runs one level deeper in
/// the world as it is.
pub proof fn law_handled<B: Host>(
    m: MachineView<B>,
    w: WorldView<B::Undo>,
    k: Keys,
    action: Action<B>,
    handler: B::Handler,
    depth: usize,
    w1: WorldView<B::Undo>,
    k1: Keys,
    v: ValueView,
    e: SysError,
    handling: Action<B>,
)
    requires
        admitted(m, depth),
    ensures
        ({
            let s = start(m, w, k, Action::Catch { action: Box::new(action), handler }, depth);
            let bad = end(s, Err(e), w1, k1);
            let then = then_step(bad, Event::Action(handling));
            &&& s.machine.control == (ControlView::<B>::Run { action, depth: (depth + 1) as usize })
            &&& s.machine.frames.len() == m.frames.len() + 1
            &&& s.world == w && s.keys == k
            &&& hands_on(end(s, Ok(v), w1, k1), m.frames, w1, k1, Ok(v))
            &&& bad.request == RequestView::<B>::Handle { handler, error: e }
            &&& bad.world == w1 && bad.keys == k1
            &&& goes_to(then, m.frames, handling, depth + 1)
            &&& then.world == w1 && then.keys == k1
        }),
{
    let s = start(m, w, k, Action::Catch { action: Box::new(action), handler }, depth);
    assert(s.machine.frames.drop_last() =~= m.frames);
}

/// A sequence runs its first part one level deeper, and what its continuation makes
/// of the value at its own depth. An error ends it.
pub proof fn law_sequence<B: Host>(
    m: MachineView<B>,
    w: WorldView<B::Undo>,
    k: Keys,
    current: Action<B>,
    next: B::Next,
    depth: usize,
    w1: WorldView<B::Undo>,
    k1: Keys,
    v: ValueView,
    e: SysError,
    following: Action<B>,
)
    requires
        admitted(m, depth),
    ensures
        ({
            let s = start(m, w, k, Action::Sequential { current: Box::new(current), next }, depth);
            let good = end(s, Ok(v), w1, k1);
            let then = then_step(good, Event::Action(following));
            &&& s.machine.control == (ControlView::<B>::Run {
                action: current,
                depth: (depth + 1) as usize,
            })
            &&& s.world == w && s.keys == k
            &&& calls(good, m.frames, next, v, depth) && good.world == w1 && good.keys == k1
            &&& goes_to(then, m.frames, following, depth as int)
            &&& then.world == w1 && then.keys == k1
            &&& hands_on(end(s, Err(e), w1, k1), m.frames, w1, k1, Err(e))
        }),
{
    let s = start(m, w, k, Action::Sequential { current: Box::new(current), next }, depth);
    assert(s.machine.frames.drop_last() =~= m.frames);
}

/// A scope hands its value to its continuation and its error on, in the directory
/// in which it started, and changes nothing else of the world.
pub proof fn law_scope<B: Host>(
    m: MachineView<B>,
    w: WorldView<B::Undo>,
    k: Keys,
    base: std::path::PathBuf,
    inner: Action<B>,
    next: B::Next,
    depth: usize,
    w1: WorldView<B::Undo>,
    k1: Keys,
    v: ValueView,
    e: SysError,
)
    requires
        admitted(m, depth),
    ensures
        ({
            let s = start(m, w, k, Action::Scope { base, inner: Box::new(inner), next }, depth);
            let good = end(s, Ok(v), w1, k1);
            let bad = end(s, Err(e), w1, k1);
            &&& s.machine.control == (ControlView::<B>::Run {
                action: inner,
                depth: (depth + 1) as usize,
            })
            &&& s.world.undo == w.undo && s.world.reg == w.reg && s.keys == k
            &&& s.world.ctx.env == w.ctx.env && s.world.ctx.clock == w.ctx.clock
            &&& s.world.ctx.cwd == crate::path::canonical(
                crate::path::path_text(base),
                w.ctx.cwd,
            )
            &&& calls(good, m.frames, next, v, depth)
            &&& bad.machine.frames == m.frames
            &&& bad.machine.control == ControlView::<B>::Return(Err(e))
            &&& good.world == bad.world && good.keys == k1 && bad.keys == k1
            &&& good.world.ctx.cwd == w.ctx.cwd
            &&& good.world.ctx.env == w1.ctx.env && good.world.ctx.clock == w1.ctx.clock
            &&& good.world.undo == w1.undo && good.world.reg == w1.reg
        }),
{
    let s = start(m, w, k, Action::Scope { base, inner: Box::new(inner), next }, depth);
    assert(s.machine.frames.drop_last() =~= m.frames);
}

/// What is left when the last frame is gone is the result of the run.
pub proof fn law_result_of_the_run<B: Host>(
    m: MachineView<B>,
    w: WorldView<B::Undo>,
    k: Keys,
    r: ResultView,
    event: Event<B>,
)
    requires
        m.frames.len() == 0,
        m.control == ControlView::<B>::Return(r),
    ensures
        ({
            let s = crate::semantics::transition(m, w, k, Event::Go);
            let more = then_step(s, event);
            &&& s.request == RequestView::<B>::Finished(r)
            &&& s.world == w && s.keys == k
            &&& more.request == RequestView::<B>::Ignored
            &&& more.machine == s.machine && more.world == w && more.keys == k
        }),
{
}

/// An answer to something that was not asked for changes nothing.
pub proof fn law_unasked_answers_are_ignored<B: Host>(
    m: MachineView<B>,
    w: WorldView<B::Undo>,
    k: Keys,
    event: Event<B>,
)
    requires
        match m.control {
            ControlView::Run { .. } => !(event is Go),
            ControlView::Return(_) => !(event is Go),
            ControlView::Undo { .. } => !(event is Go),
            ControlView::AwaitNext { .. } => !(event is Action),
            ControlView::AwaitChoice { .. } => !(event is Choice),
            ControlView::AwaitExecuted { .. } => !(event is Executed),
            ControlView::AwaitReply { .. } => !(event is Replied),
            ControlView::AwaitSlept { .. } => !(event is Slept),
            ControlView::AwaitUndone { .. } => !(event is Undone),
            ControlView::AwaitRegion { .. } => !(event is Region),
            ControlView::AwaitBranches { left, stash, .. } => {
                &&& event is Left ==> left is Some
                &&& event is Right ==> stash is Some
            },
            ControlView::Finished => true,
        },
    ensures
        ({
            let s = crate::semantics::transition(m, w, k, event);
            &&& s.request == RequestView::<B>::Ignored
            &&& s.machine == m && s.world == w && s.keys == k
        }),
{
}

/// A replacement undoes everything there is to undo, the last effect first, before
/// its target runs. If nothing failed and nothing irreversible had happened, the
/// target runs one level deeper, with nothing to undo, without handles and marks, and
/// with numbering where it was. Otherwise it does not run: the first failure is the
/// result, or that it is not permitted. A new section starts either way, and what it
/// all cost stays accounted for.
pub proof fn law_replacement<B: Host>(
    m: MachineView<B>,
    w: WorldView<B::Undo>,
    k: Keys,
    target: Action<B>,
    depth: usize,
    answer: spec_fn(B::Undo) -> Result<(), SysError>,
)
    requires
        admitted(m, depth),
    ensures
        ({
            let s = start(m, w, k, Action::Replace { target: Box::new(target) }, depth);
            let (m1, w1, k1) = crate::laws::undone(s.machine, s.world, s.keys, answer);
            let e = crate::semantics::transition(m1, w1, k1, Event::Go);
            let entries = crate::traces::entries_above(w.undo.ops, 0);
            &&& k1 == crate::laws::all_reverted(k, entries)
            &&& e.keys == k1
            &&& e.machine.frames == m.frames
            &&& e.world.ctx == w.ctx
            &&& e.world.undo.ops.len() == 0
            &&& !e.world.undo.irreversible
            &&& e.world.undo.accrued == w.undo.accrued
            &&& e.world.reg.next_fd == w.reg.next_fd
            &&& e.world.reg.fork_region == w.reg.fork_region
            &&& match e.machine.control {
                ControlView::Run { action, depth: d } => {
                    &&& crate::traces::goes_like(entries, answer, None)
                    &&& !w.undo.irreversible
                    &&& action == target
                    &&& d == depth + 1
                    &&& forall|fd: crate::action::Fd| !e.world.reg.handles.contains_key(fd)
                    &&& forall|x: ResourceView|
                        !e.world.reg.consumed.contains(x) && !e.world.reg.owned.contains(x)
                },
                ControlView::Return(Err(error)) => {
                    &&& e.world.reg == w.reg
                    &&& crate::traces::goes_like(entries, answer, Some(error)) || (
                    crate::traces::goes_like(entries, answer, None) && w.undo.irreversible && error
                        == SysError::PermissionDenied)
                },
                _ => false,
            }
        }),
{
    let s = start(m, w, k, Action::Replace { target: Box::new(target) }, depth);
    crate::laws::law_undoing_runs_to_its_end(
        s.machine,
        s.world,
        s.keys,
        0,
        None,
        GoalView::Replace { target, depth },
        answer,
    );
    crate::traces::lemma_goes_like(crate::traces::entries_above(w.undo.ops, 0), answer);
    assert(w.undo.ops.take(0) =~= Seq::empty());
}

/// What is late gives way to its alternative, for a value and for an error alike:
/// where the clock shows the deadline or more, the alternative runs one level
/// deeper, and neither the world nor the keys change.
pub proof fn law_late_gives_way<B: Host>(
    m: MachineView<B>,
    w: WorldView<B::Undo>,
    k: Keys,
    on_timeout: Action<B>,
    deadline: nat,
    mark: usize,
    marks: LinearView,
    depth: usize,
    now: nat,
    r: ResultView,
)
    requires
        depth < 64,
        w.ctx.clock == Some(now),
        now >= deadline,
    ensures
        ({
            let frame = FrameView::Deadline { on_timeout, deadline, mark, marks, depth };
            let s = crate::semantics::transition(
                returning(m, m.frames.push(frame), r),
                w,
                k,
                Event::Go,
            );
            &&& goes_to(s, m.frames, on_timeout, depth + 1)
            &&& s.world == w
            &&& s.keys == k
            &&& s.request == RequestView::<B>::Continue
        }),
{
    let frame = FrameView::<B>::Deadline { on_timeout, deadline, mark, marks, depth };
    assert(m.frames.push(frame).drop_last() =~= m.frames);
}

/// The branches of a fork that do not get in each other's way run side by side on a
/// machine that is to do so: each as a blueprint of its own, with no frames, at the
/// top level, in the context and with the handles and marks of the world, with
/// nothing to undo. The right one numbers its handles in the region with the number
/// that was handed in. Nothing else has happened yet.
pub proof fn law_fork_side_by_side<B: Host>(
    m: MachineView<B>,
    w: WorldView<B::Undo>,
    k: Keys,
    left: Action<B>,
    right: Action<B>,
    combine: B::Combine,
    depth: usize,
    number: u64,
)
    requires
        admitted(m, depth),
        m.parallel,
        !crate::fork::conflicting(left, right),
        number < 0x1_0000,
        crate::registry::region_base(w.reg) + number * 0x1_0000_0000_0000 <= u64::MAX,
    ensures
        ({
            let node = Action::Fork { left: Box::new(left), right: Box::new(right), combine };
            let s = start(m, w, k, node, depth);
            let t = then_step(s, Event::Region(number));
            &&& s.request == RequestView::<B>::Region
            &&& s.machine.frames == m.frames && s.world == w && s.keys == k
            &&& t.machine.frames == m.frames && t.world == w && t.keys == k
            &&& t.request matches RequestView::Spawn { left: (lm, lw), right: (rm, rw) } && {
                &&& lm.control == (ControlView::<B>::Run { action: left, depth: 0 })
                &&& rm.control == (ControlView::<B>::Run { action: right, depth: 0 })
                &&& lm.frames.len() == 0 && rm.frames.len() == 0
                &&& lm.parallel && rm.parallel
                &&& !lm.cancelled && !rm.cancelled
                &&& lw.ctx == w.ctx && rw.ctx == w.ctx
                &&& lw.reg == w.reg
                &&& rw.reg.handles == w.reg.handles
                &&& rw.reg.consumed == w.reg.consumed
                &&& rw.reg.owned == w.reg.owned
                &&& rw.reg.next_fd == crate::registry::region_base(w.reg) + number
                    * 0x1_0000_0000_0000
                &&& lw.undo == rw.undo
                &&& lw.undo.ops.len() == 0
                &&& !lw.undo.irreversible
                &&& lw.undo.replacements == 0
                &&& lw.undo.accrued == crate::cost::no_cost()
            }
        }),
{
    assert(number * 0x1_0000_0000_0000 <= u64::MAX);
}

/// What both branches of a fork that ran side by side leave. Whichever is done first,
/// the handles, marks and inverse operations of both are taken in, and the time that
/// each let pass is added up: from a clock that showed `b`, with one branch ending at
/// `b + x` and the other at `b + y`, to `b + x + y`. The values are combined, or the
/// first error is the result, the left one first.
pub proof fn law_fork_is_joined<B: Host>(
    m: MachineView<B>,
    w: WorldView<B::Undo>,
    k: Keys,
    left: Action<B>,
    right: Action<B>,
    combine: B::Combine,
    depth: usize,
    number: u64,
    l: Outcome<B::Undo>,
    r: Outcome<B::Undo>,
    b: nat,
    x: nat,
    y: nat,
    right_first: bool,
)
    requires
        admitted(m, depth),
        m.parallel,
        !crate::fork::conflicting(left, right),
        number < 0x1_0000,
        crate::registry::region_base(w.reg) + number * 0x1_0000_0000_0000 <= u64::MAX,
        w.ctx.clock == Some(b),
        l.world@.ctx.clock == Some(b + x),
        r.world@.ctx.clock == Some(b + y),
        b + x + y <= 18_446_744_073_709_551_615_999_999_999,
    ensures
        ({
            let node = Action::Fork { left: Box::new(left), right: Box::new(right), combine };
            let spawned = then_step(start(m, w, k, node, depth), Event::Region(number));
            let first = then_step(
                spawned,
                if right_first {
                    Event::Right(r)
                } else {
                    Event::Left(l)
                },
            );
            let both = then_step(
                first,
                if right_first {
                    Event::Left(l)
                } else {
                    Event::Right(r)
                },
            );
            &&& first.request == RequestView::<B>::Wait
            &&& both.world.ctx.clock == Some(b + x + y)
            &&& both.world.ctx.cwd == w.ctx.cwd
            &&& both.world.ctx.env == w.ctx.env
            &&& both.world.undo.ops == w.undo.ops + l.world@.undo.ops + r.world@.undo.ops
            &&& both.world.undo.irreversible == (w.undo.irreversible
                || l.world@.undo.irreversible || r.world@.undo.irreversible)
            &&& both.world.undo.accrued == crate::cost::cost_sum(
                crate::cost::cost_sum(w.undo.accrued, l.world@.undo.accrued),
                r.world@.undo.accrued,
            )
            &&& both.world.reg == crate::registry::merged(
                crate::registry::merged(w.reg, l.world@.reg),
                r.world@.reg,
            )
            &&& both.machine.frames == m.frames
            &&& both.keys == k
            &&& match (l.result, r.result) {
                (Ok(lv), Ok(rv)) => {
                    &&& both.request == RequestView::<B>::Combine {
                        combine,
                        left: lv@,
                        right: rv@,
                    }
                    &&& both.machine.control == (ControlView::<B>::AwaitNext { depth })
                },
                (Ok(_), Err(e)) => both.machine.control == ControlView::<B>::Return(Err(e)),
                (Err(e), _) => both.machine.control == ControlView::<B>::Return(Err(e)),
            }
        }),
{
    assert(number * 0x1_0000_0000_0000 <= u64::MAX);
}

/// Without a virtual clock there is none after a fork, and a clock that cannot show
/// the sum stops the run.
pub proof fn law_clock_of_a_fork<U>(
    w: WorldView<U>,
    branch: WorldView<U>,
    b: nat,
    x: nat,
    passed: nat,
)
    ensures
        w.ctx.clock is None ==> {
            let (joined, ok) = crate::semantics::joined(w, branch, b);
            ok && joined.ctx == w.ctx
        },
        w.ctx.clock == Some(b + passed) && branch.ctx.clock == Some(b + x) ==> {
            let (joined, ok) = crate::semantics::joined(w, branch, b);
            &&& ok <==> b + passed + x <= 18_446_744_073_709_551_615_999_999_999
            &&& ok ==> joined.ctx.clock == Some(b + passed + x)
            &&& joined.ctx.cwd == w.ctx.cwd && joined.ctx.env == w.ctx.env
        },
{
}

/// Branches that get in each other's way, or on a machine that runs them one after
/// the other, run in that order: first the left one in the world as it is, then the
/// right one, whatever the result of the left one was, with the registry as it was at
/// the start, in a region of its own, and with all else as the left one left it. What
/// both did to the registry is taken in, the left one first.
pub proof fn law_fork_in_turn<B: Host>(
    m: MachineView<B>,
    w: WorldView<B::Undo>,
    k: Keys,
    left: Action<B>,
    right: Action<B>,
    combine: B::Combine,
    depth: usize,
    number: u64,
    l: ResultView,
    r: ResultView,
    w1: WorldView<B::Undo>,
    k1: Keys,
    w2: WorldView<B::Undo>,
    k2: Keys,
)
    requires
        admitted(m, depth),
        !m.parallel || crate::fork::conflicting(left, right),
        number < 0x1_0000,
        crate::registry::region_base(w.reg) + number * 0x1_0000_0000_0000 <= u64::MAX,
    ensures
        ({
            let node = Action::Fork { left: Box::new(left), right: Box::new(right), combine };
            let s = then_step(start(m, w, k, node, depth), Event::Region(number));
            let t = end(s, l, w1, k1);
            let e = end(t, r, w2, k2);
            &&& s.request == RequestView::<B>::Continue
            &&& s.machine.control == (ControlView::<B>::Run {
                action: left,
                depth: (depth + 1) as usize,
            })
            &&& s.world == w && s.keys == k
            &&& t.machine.control == (ControlView::<B>::Run {
                action: right,
                depth: (depth + 1) as usize,
            })
            &&& t.world.ctx == w1.ctx && t.world.undo == w1.undo && t.keys == k1
            &&& t.world.reg.handles == w.reg.handles
            &&& t.world.reg.consumed == w.reg.consumed
            &&& t.world.reg.owned == w.reg.owned
            &&& t.world.reg.next_fd == crate::registry::region_base(w.reg) + number
                * 0x1_0000_0000_0000
            &&& e.world.ctx == w2.ctx && e.world.undo == w2.undo && e.keys == k2
            &&& e.world.reg == crate::registry::merged(
                crate::registry::merged(w.reg, w1.reg),
                w2.reg,
            )
            &&& e.machine.frames == m.frames
            &&& match (l, r) {
                (Ok(lv), Ok(rv)) => {
                    &&& e.request == RequestView::<B>::Combine { combine, left: lv, right: rv }
                    &&& e.machine.control == (ControlView::<B>::AwaitNext { depth })
                },
                (Ok(_), Err(error)) => e.machine.control == ControlView::<B>::Return(Err(error)),
                (Err(error), _) => e.machine.control == ControlView::<B>::Return(Err(error)),
            }
        }),
{
    assert(number * 0x1_0000_0000_0000 <= u64::MAX);
    let node = Action::Fork { left: Box::new(left), right: Box::new(right), combine };
    let s = then_step(start(m, w, k, node, depth), Event::Region(number));
    let t = end(s, l, w1, k1);
    assert(s.machine.frames.drop_last() =~= m.frames);
    assert(t.machine.frames.drop_last() =~= m.frames);
}

/// A fork for which no region is left does not start: the result is that there is no
/// space, and nothing has happened.
pub proof fn law_fork_without_a_region<B: Host>(
    m: MachineView<B>,
    w: WorldView<B::Undo>,
    k: Keys,
    left: Action<B>,
    right: Action<B>,
    combine: B::Combine,
    depth: usize,
    number: u64,
)
    requires
        admitted(m, depth),
        number >= 0x1_0000 || crate::registry::region_base(w.reg) + number * 0x1_0000_0000_0000
            > u64::MAX,
    ensures
        ({
            let node = Action::Fork { left: Box::new(left), right: Box::new(right), combine };
            let t = then_step(start(m, w, k, node, depth), Event::Region(number));
            hands_on(t, m.frames, w, k, Err(SysError::Other(28)))
        }),
{
    if number < 0x1_0000 {
        assert(number * 0x1_0000_0000_0000 <= u64::MAX);
    }
}

/// Giving up leaves forks: if there is one among what is dropped above a timer, the
/// registry is then the one with which the outermost started; if there is none, it
/// stays.
pub proof fn law_giving_up_leaves_forks<B: Host>(
    frames: Seq<FrameView<B>>,
    level: nat,
    i: int,
    reg: RegistryView,
)
    requires
        level < frames.len(),
        level < i <= frames.len(),
        forall|j: int|
            level < j < i ==> !(#[trigger] frames[j] is Left) && !(frames[j] is Right),
        i < frames.len() ==> frames[i] is Left || frames[i] is Right,
    ensures
        crate::semantics::registry_below(frames, level, reg) == (if i < frames.len() {
            match frames[i] {
                FrameView::Left { parent, .. } => parent,
                FrameView::Right { parent, .. } => parent,
                _ => reg,
            }
        } else {
            reg
        }),
    decreases frames.len(),
{
    if frames.len() > level + 1 {
        let rest = frames.drop_last();
        assert(forall|j: int| 0 <= j < rest.len() ==> rest[j] == frames[j]);
        if i == frames.len() {
            law_giving_up_leaves_forks(rest, level, i - 1, reg);
        } else {
            let now = match frames.last() {
                FrameView::Left { parent, .. } => parent,
                FrameView::Right { parent, .. } => parent,
                _ => reg,
            };
            law_giving_up_leaves_forks(rest, level, i, now);
        }
    }
}

/// A branch that is done when its fork is given up counts as part of what is undone:
/// its inverse operations are on the undo stack and its time has passed. Only a timer
/// can be given up.
pub proof fn law_giving_up_takes_in_what_is_done<B: Host>(
    m: MachineView<B>,
    w: WorldView<B::Undo>,
    k: Keys,
    level: nat,
    combine: B::Combine,
    depth: usize,
    left: Option<ResultView>,
    result: ResultView,
    branch: WorldView<B::Undo>,
    base: nat,
)
    requires
        level < m.frames.len(),
        m.control == (ControlView::<B>::AwaitBranches {
            combine,
            depth,
            left,
            stash: Some((result, branch)),
            base,
        }),
        w.ctx.clock is None,
    ensures
        ({
            let s = crate::semantics::abandonment(m, w, k, level);
            match m.frames[level as int] {
                FrameView::Timer { on_timeout, mark, marks, depth: d, .. } => {
                    &&& s.world.undo.ops == w.undo.ops + branch.undo.ops
                    &&& s.machine.frames == m.frames.take(level as int)
                    &&& s.keys == k
                    &&& s.machine.control == (ControlView::<B>::Undo {
                        mark: mark as nat,
                        error: None,
                        goal: GoalView::Timeout { on_timeout, marks, depth: d },
                    })
                },
                FrameView::Deadline { on_timeout, mark, marks, depth: d, .. } => {
                    &&& s.world.undo.ops == w.undo.ops + branch.undo.ops
                    &&& s.machine.frames == m.frames.take(level as int)
                    &&& s.keys == k
                    &&& s.machine.control == (ControlView::<B>::Undo {
                        mark: mark as nat,
                        error: None,
                        goal: GoalView::Timeout { on_timeout, marks, depth: d },
                    })
                },
                _ => {
                    &&& s.request == RequestView::<B>::Ignored
                    &&& s.machine == m && s.world == w && s.keys == k
                },
            }
        }),
{
}

/// Branches of which two nodes get in each other's way, however deep inside they
/// stand, are never run side by side; others are, on a machine that is to do so.
pub proof fn law_clashing_branches_run_in_turn<B: Host>(
    m: MachineView<B>,
    w: WorldView<B::Undo>,
    k: Keys,
    left: Action<B>,
    right: Action<B>,
    combine: B::Combine,
    depth: usize,
    number: u64,
)
    requires
        admitted(m, depth),
        m.parallel,
        number < 0x1_0000,
        crate::registry::region_base(w.reg) + number * 0x1_0000_0000_0000 <= u64::MAX,
    ensures
        ({
            let node = Action::Fork { left: Box::new(left), right: Box::new(right), combine };
            let s = then_step(start(m, w, k, node, depth), Event::Region(number));
            let clash = exists|a: Action<B>, b: Action<B>| #[trigger]
                crate::fork::is_part(a, left) && #[trigger] crate::fork::is_part(b, right)
                    && crate::fork::parts_clash(a, b);
            &&& clash ==> s.machine.control == (ControlView::<B>::Run {
                action: left,
                depth: (depth + 1) as usize,
            }) && s.request == RequestView::<B>::Continue
            &&& !clash ==> s.request is Spawn
        }),
{
    assert(number * 0x1_0000_0000_0000 <= u64::MAX);
    crate::fork::law_conflict_of_parts(left, right);
}

/// A machine starts with its blueprint at the top level and no frames. A node is run
/// at one of 64 levels, as long as nothing has timed out; otherwise the result says
/// which of the two it was.
pub proof fn law_start_of_a_machine<B: Host>(
    m: MachineView<B>,
    w: WorldView<B::Undo>,
    k: Keys,
    action: Action<B>,
    depth: usize,
    parallel: bool,
    cancelled: bool,
)
    ensures
        ({
            let fresh = crate::semantics::starting(action, parallel, cancelled);
            &&& fresh.frames.len() == 0
            &&& fresh.control == (ControlView::<B>::Run { action, depth: 0 })
            &&& fresh.parallel == parallel
            &&& fresh.cancelled == cancelled
        }),
        admitted(m, depth) <==> depth < 64 && !crate::semantics::timed_out(m.frames, m.cancelled),
        depth >= 64 ==> hands_on(
            start(m, w, k, action, depth),
            m.frames,
            w,
            k,
            Err(SysError::Other(105)),
        ),
        depth < 64 && crate::semantics::timed_out(m.frames, m.cancelled) ==> hands_on(
            start(m, w, k, action, depth),
            m.frames,
            w,
            k,
            Err(SysError::Other(125)),
        ),
{
}

/// Branches are part of what they are forked from: if that has timed out when they
/// are started, so have they.
pub proof fn law_branches_time_out_with_their_fork<B: Host>(
    m: MachineView<B>,
    w: WorldView<B::Undo>,
    k: Keys,
    number: u64,
)
    requires
        m.control is AwaitRegion,
    ensures
        crate::semantics::transition(m, w, k, Event::Region(number)).request
            matches RequestView::Spawn { left: (lm, _), right: (rm, _) } ==> {
            &&& lm.cancelled == crate::semantics::timed_out(m.frames, m.cancelled)
            &&& rm.cancelled == crate::semantics::timed_out(m.frames, m.cancelled)
            &&& lm.parallel == m.parallel && rm.parallel == m.parallel
        },
{
}

/// What a step leaves and asks for is all there is to it.
pub proof fn law_steps_are_exact<B: Host>(
    step: StepView<B>,
    m: MachineView<B>,
    w: WorldView<B::Undo>,
    k: Keys,
    request: RequestView<B>,
)
    ensures
        crate::semantics::stepped(step, m, w, k, request) <==> step == (StepView::<B> {
            machine: m,
            world: w,
            keys: k,
            request,
        }),
{
}

/// A world is its context, its undo stack and its registry.
pub proof fn law_parts_of_a_world<U>(world: crate::interpreter::World<U>)
    ensures
        world@.ctx == world.ctx@,
        world@.undo == world.undo@,
        world@.reg == world.reg@,
{
}

/// Where the clock cannot show the time that a branch adds, the run stops there.
pub proof fn law_fork_that_takes_too_long<B: Host>(
    m: MachineView<B>,
    w: WorldView<B::Undo>,
    k: Keys,
    combine: B::Combine,
    depth: usize,
    l: Outcome<B::Undo>,
    now: nat,
    b: nat,
    x: nat,
)
    requires
        m.control == (ControlView::<B>::AwaitBranches {
            combine,
            depth,
            left: None,
            stash: None,
            base: b,
        }),
        w.ctx.clock == Some(now),
        l.world@.ctx.clock == Some(b + x),
        now + x > 18_446_744_073_709_551_615_999_999_999,
    ensures
        ({
            let s = crate::semantics::transition(m, w, k, Event::Left(l));
            &&& s.request == RequestView::<B>::Overflow
            &&& s.machine.control == ControlView::<B>::Finished
            &&& s.world.ctx == w.ctx
            &&& s.keys == k
        }),
{
}

} // verus!
