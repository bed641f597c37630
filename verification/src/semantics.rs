//! What running a blueprint means, one step at a time.
//!
//! The interpreter is a machine with a stack of frames and a control that says
//! what it does next. Given what it asked its driver for last, a step changes the
//! machine, the world that the blueprint runs in and the idempotency keys, and
//! asks the driver for something. [`transition`] says exactly how.

use std::time::Duration;
use vstd::prelude::*;

use crate::action::{Action, DataOp, Host, Id, Signal, Value, ValueView};
use crate::context::ContextView;
use crate::cost::EffectCost;
use crate::error::SysError;
use crate::idempotency::Keys;
use crate::interpreter::{Event, Outcome};
use crate::registry::{LinearView, RegistryView};
use crate::resource::UsageView;
use crate::syscall::UndoCapability;
use crate::undo::{EntryView, UndoView};

verus! {

/// The longest byte string that a blueprint may have allocated: 64 MiB.
pub const MAX_IO_LEN: usize = 0x400_0000;

/// How deep blueprints may be nested.
pub const MAX_NESTING_DEPTH: usize = 64;

/// What a blueprint runs in.
#[verifier::reject_recursive_types(U)]
#[verifier::ext_equal]
pub struct WorldView<U> {
    pub ctx: ContextView,
    pub undo: UndoView<U>,
    pub reg: RegistryView,
}

/// A result, by what its value holds.
pub type ResultView = Result<ValueView, SysError>;

/// A result, by what its value holds.
pub open spec fn result_view(r: Result<Value, SysError>) -> ResultView {
    match r {
        Ok(v) => Ok(v@),
        Err(e) => Err(e),
    }
}

/// What is to be done with the result of what runs above.
#[verifier::ext_equal]
#[allow(inconsistent_fields)]
pub enum FrameView<B: Host> {
    /// Go on with the value.
    Then { next: B::Next, depth: usize },
    /// Go back to a working directory, then go on with the value.
    Scope { cwd: Seq<char>, next: B::Next, depth: usize },
    /// Handle an error.
    Catch { handler: B::Handler, depth: usize },
    /// Commit a key unless there were more replacements since, then go on with the
    /// value. There was as much as `mark` to undo.
    Keyed { key: Seq<char>, mark: usize, replacements: u64, next: B::Next, depth: usize },
    /// Run the right branch of a fork.
    Left {
        right: Action<B>,
        right_reg: RegistryView,
        parent: RegistryView,
        combine: B::Combine,
        depth: usize,
    },
    /// Take in both branches of a fork, then combine their values.
    Right {
        left: ResultView,
        left_reg: RegistryView,
        parent: RegistryView,
        combine: B::Combine,
        depth: usize,
    },
    /// Pass the result on, unless the timer has expired.
    Timer {
        on_timeout: Action<B>,
        mark: usize,
        marks: LinearView,
        expired: bool,
        depth: usize,
    },
    /// Pass the result on, unless the virtual clock has reached the deadline.
    Deadline {
        on_timeout: Action<B>,
        deadline: nat,
        mark: usize,
        marks: LinearView,
        depth: usize,
    },
}

/// What follows an undoing.
#[verifier::ext_equal]
pub enum GoalView<B: Host> {
    /// Everything is undone; the target takes over.
    Replace { target: Action<B>, depth: usize },
    /// What timed out is undone; the marks that it left go, and the alternative
    /// runs.
    Timeout { on_timeout: Action<B>, marks: LinearView, depth: usize },
}

/// What the machine does next, or what it waits for.
#[verifier::reject_recursive_types(B)]
#[verifier::ext_equal]
#[allow(inconsistent_fields)]
pub enum ControlView<B: Host> {
    /// Runs a blueprint.
    Run { action: Action<B>, depth: usize },
    /// Hands a result to the topmost frame.
    Return(ResultView),
    /// Undoes what is above `mark`.
    Undo { mark: nat, error: Option<SysError>, goal: GoalView<B> },
    /// Waits for a blueprint.
    AwaitNext { depth: usize },
    /// Waits for a choice.
    AwaitChoice { then_branch: Action<B>, else_branch: Action<B>, depth: usize },
    /// Waits for an operation.
    AwaitExecuted { cost: EffectCost, uses: Seq<UsageView>, next: B::Next, depth: usize },
    /// Waits for a signal or a foreign call.
    AwaitReply { next: B::Next, depth: usize },
    /// Waits for time to pass.
    AwaitSlept { next: B::Next, depth: usize },
    /// Waits for an inverse operation.
    AwaitUndone { mark: nat, error: Option<SysError>, goal: GoalView<B> },
    /// Waits for the number of a region.
    AwaitRegion { left: Action<B>, right: Action<B>, combine: B::Combine, depth: usize },
    /// Waits for two branches that run side by side. A right branch that is done
    /// first is kept until the left one is.
    AwaitBranches {
        combine: B::Combine,
        depth: usize,
        left: Option<ResultView>,
        stash: Option<(ResultView, WorldView<B::Undo>)>,
        base: nat,
    },
    /// Is done.
    Finished,
}

/// The machine.
#[verifier::reject_recursive_types(B)]
#[verifier::ext_equal]
pub struct MachineView<B: Host> {
    pub frames: Seq<FrameView<B>>,
    pub control: ControlView<B>,
    /// Whether branches that do not get in each other's way run side by side.
    pub parallel: bool,
    /// Whether what the blueprint is part of has timed out.
    pub cancelled: bool,
}

/// What the machine asks its driver for.
#[verifier::reject_recursive_types(B)]
#[verifier::ext_equal]
#[allow(inconsistent_fields)]
pub enum RequestView<B: Host> {
    Continue,
    Call { next: B::Next, value: ValueView },
    Test { cond: B::Cond, value: ValueView },
    Combine { combine: B::Combine, left: ValueView, right: ValueView },
    Handle { handler: B::Handler, error: SysError },
    Execute { op: DataOp },
    Invoke { foreign_id: Id, captures: Seq<UsageView>, deterministic: bool },
    WatchSignal { signal: Signal },
    Sleep { duration: Duration },
    Undo(B::Undo),
    Region,
    ArmTimer { level: nat, duration: Duration },
    Spawn {
        left: (MachineView<B>, WorldView<B::Undo>),
        right: (MachineView<B>, WorldView<B::Undo>),
    },
    Wait,
    Finished(ResultView),
    Overflow,
    Ignored,
}

/// What a step leaves and asks for.
#[verifier::reject_recursive_types(B)]
#[verifier::ext_equal]
pub struct StepView<B: Host> {
    pub machine: MachineView<B>,
    pub world: WorldView<B::Undo>,
    pub keys: Keys,
    pub request: RequestView<B>,
}

/// Whether this is what a step leaves and asks for.
pub open spec fn stepped<B: Host>(
    step: StepView<B>,
    m: MachineView<B>,
    w: WorldView<B::Undo>,
    k: Keys,
    request: RequestView<B>,
) -> bool {
    &&& m == step.machine
    &&& w == step.world
    &&& k == step.keys
    &&& request == step.request
}

/// A machine that starts with a blueprint.
pub open spec fn starting<B: Host>(action: Action<B>, parallel: bool, cancelled: bool) -> MachineView<
    B,
> {
    MachineView {
        frames: Seq::empty(),
        control: ControlView::Run { action, depth: 0 },
        parallel,
        cancelled,
    }
}

/// The machine with another control.
pub open spec fn with_control<B: Host>(m: MachineView<B>, control: ControlView<B>) -> MachineView<B> {
    MachineView { control, ..m }
}

/// The machine with a frame on top.
pub open spec fn pushed<B: Host>(m: MachineView<B>, frame: FrameView<B>) -> MachineView<B> {
    MachineView { frames: m.frames.push(frame), ..m }
}

/// The machine without its topmost frame.
pub open spec fn popped<B: Host>(m: MachineView<B>) -> MachineView<B> {
    MachineView { frames: m.frames.drop_last(), ..m }
}

/// The world with another working directory.
pub open spec fn with_cwd<U>(w: WorldView<U>, cwd: Seq<char>) -> WorldView<U> {
    WorldView { ctx: ContextView { cwd, ..w.ctx }, ..w }
}

/// The world with another time.
pub open spec fn with_clock<U>(w: WorldView<U>, clock: Option<nat>) -> WorldView<U> {
    WorldView { ctx: ContextView { clock, ..w.ctx }, ..w }
}

/// The world with another registry.
pub open spec fn with_reg<U>(w: WorldView<U>, reg: RegistryView) -> WorldView<U> {
    WorldView { reg, ..w }
}

/// The world with another undo stack.
pub open spec fn with_undo<U>(w: WorldView<U>, undo: UndoView<U>) -> WorldView<U> {
    WorldView { undo, ..w }
}

/// The depth of what is inside. Below the deepest level there is none deeper.
pub open spec fn deeper(depth: usize) -> usize {
    if depth < MAX_NESTING_DEPTH {
        (depth + 1) as usize
    } else {
        depth
    }
}

/// Whether what runs on top of these frames has timed out: the innermost timer
/// tells.
pub open spec fn timed_out<B: Host>(frames: Seq<FrameView<B>>, outer: bool) -> bool
    decreases frames.len(),
{
    if frames.len() == 0 {
        outer
    } else {
        match frames.last() {
            FrameView::Timer { expired, .. } => expired,
            _ => timed_out(frames.drop_last(), outer),
        }
    }
}

/// A step that asks for nothing.
pub open spec fn quiet<B: Host>(
    m: MachineView<B>,
    w: WorldView<B::Undo>,
    k: Keys,
    control: ControlView<B>,
) -> StepView<B> {
    StepView { machine: with_control(m, control), world: w, keys: k, request: RequestView::Continue }
}

/// A step that asks for something.
pub open spec fn asking<B: Host>(
    m: MachineView<B>,
    w: WorldView<B::Undo>,
    k: Keys,
    control: ControlView<B>,
    request: RequestView<B>,
) -> StepView<B> {
    StepView { machine: with_control(m, control), world: w, keys: k, request }
}

/// A step that asks for the blueprint that follows a value.
pub open spec fn following<B: Host>(
    m: MachineView<B>,
    w: WorldView<B::Undo>,
    k: Keys,
    next: B::Next,
    value: ValueView,
    depth: usize,
) -> StepView<B> {
    asking(m, w, k, ControlView::AwaitNext { depth }, RequestView::Call { next, value })
}

/// A step that does not answer what the machine waits for.
pub open spec fn ignored<B: Host>(m: MachineView<B>, w: WorldView<B::Undo>, k: Keys) -> StepView<B> {
    StepView { machine: m, world: w, keys: k, request: RequestView::Ignored }
}

/// The machine stops where the virtual clock cannot be moved that far.
pub open spec fn overflow<B: Host>(m: MachineView<B>, w: WorldView<B::Undo>, k: Keys) -> StepView<B> {
    asking(m, w, k, ControlView::Finished, RequestView::Overflow)
}

/// The whole milliseconds of this many nanoseconds, in 64 bits.
pub open spec fn millis_of(nanos: nat) -> u64 {
    (nanos / 1_000_000) as u64
}

/// What a clock shows once it was moved, if that can be shown.
pub open spec fn moved(clock: nat, by: nat) -> Option<nat> {
    if clock + by <= crate::virtual_clock::longest_nanos() {
        Some(clock + by)
    } else {
        None
    }
}

/// Runs an operation: its uses are marked first, all or none. The virtual clock
/// answers for the time.
pub open spec fn run_syscall<B: Host>(
    m: MachineView<B>,
    w: WorldView<B::Undo>,
    k: Keys,
    op: DataOp,
    uses: Seq<UsageView>,
    next: B::Next,
    depth: usize,
) -> StepView<B> {
    match crate::registry::marked_all(w.reg, uses) {
        None => quiet(m, w, k, ControlView::Return(Err(SysError::InvalidInput))),
        Some(reg) => if op is GetTime && w.ctx.clock is Some {
            following(
                m,
                with_reg(w, reg),
                k,
                next,
                ValueView::U64(millis_of(w.ctx.clock->0)),
                depth,
            )
        } else {
            asking(
                m,
                with_reg(w, reg),
                k,
                ControlView::AwaitExecuted {
                    cost: crate::cost::cost_of(op),
                    uses,
                    next,
                    depth,
                },
                RequestView::Execute { op },
            )
        },
    }
}

/// Waits: not at all, by moving the virtual clock, or really.
pub open spec fn run_sleep<B: Host>(
    m: MachineView<B>,
    w: WorldView<B::Undo>,
    k: Keys,
    duration: Duration,
    next: B::Next,
    depth: usize,
) -> StepView<B> {
    let nanos = crate::virtual_clock::duration_nanos(duration) as nat;
    if nanos == 0 {
        following(m, w, k, next, ValueView::Unit, depth)
    } else {
        match w.ctx.clock {
            Some(now) => match moved(now, nanos) {
                Some(then) => following(
                    m,
                    with_clock(w, Some(then)),
                    k,
                    next,
                    ValueView::Unit,
                    depth,
                ),
                None => overflow(m, w, k),
            },
            None => asking(
                m,
                w,
                k,
                ControlView::AwaitSlept { next, depth },
                RequestView::Sleep { duration },
            ),
        }
    }
}

/// The time at which something with this duration is late, or the latest time.
pub open spec fn deadline_of(now: nat, nanos: nat) -> nat {
    match moved(now, nanos) {
        Some(t) => t,
        None => crate::virtual_clock::longest_nanos() as nat,
    }
}

/// Runs something with a timer. With a virtual clock, the deadline on that clock
/// counts too.
pub open spec fn run_timeout<B: Host>(
    m: MachineView<B>,
    w: WorldView<B::Undo>,
    k: Keys,
    action: Action<B>,
    duration: Duration,
    on_timeout: Action<B>,
    depth: usize,
) -> StepView<B> {
    let mark = w.undo.ops.len() as usize;
    let marks = LinearView { consumed: w.reg.consumed, owned: w.reg.owned };
    let frame = match w.ctx.clock {
        Some(now) => FrameView::Deadline {
            on_timeout,
            deadline: deadline_of(now, crate::virtual_clock::duration_nanos(duration) as nat),
            mark,
            marks,
            depth,
        },
        None => FrameView::Timer { on_timeout, mark, marks, expired: false, depth },
    };
    asking(
        pushed(m, frame),
        w,
        k,
        ControlView::Run { action, depth: deeper(depth) },
        RequestView::ArmTimer { level: m.frames.len(), duration },
    )
}

/// Runs a keyed section, unless its effects stand.
pub open spec fn run_keyed<B: Host>(
    m: MachineView<B>,
    w: WorldView<B::Undo>,
    k: Keys,
    key: Seq<char>,
    inner: Action<B>,
    next: B::Next,
    depth: usize,
) -> StepView<B> {
    match crate::idempotency::standing_value(k, key) {
        Some(v) => following(m, w, k, next, v, depth),
        None => quiet(
            pushed(
                m,
                FrameView::Keyed {
                    key,
                    mark: w.undo.ops.len() as usize,
                    replacements: w.undo.replacements,
                    next,
                    depth,
                },
            ),
            w,
            k,
            ControlView::Run { action: inner, depth: deeper(depth) },
        ),
    }
}

/// Runs one node of a blueprint.
pub open spec fn run_step<B: Host>(
    m: MachineView<B>,
    w: WorldView<B::Undo>,
    k: Keys,
    action: Action<B>,
    depth: usize,
) -> StepView<B> {
    if depth >= MAX_NESTING_DEPTH {
        quiet(m, w, k, ControlView::Return(Err(SysError::Other(105))))
    } else if timed_out(m.frames, m.cancelled) {
        quiet(m, w, k, ControlView::Return(Err(SysError::Other(125))))
    } else {
        match action {
            Action::Pure(v) => quiet(m, w, k, ControlView::Return(Ok(v@))),
            Action::Sequential { current, next } => quiet(
                pushed(m, FrameView::Then { next, depth }),
                w,
                k,
                ControlView::Run { action: *current, depth: deeper(depth) },
            ),
            Action::Syscall { op, resources, next } => run_syscall(
                m,
                w,
                k,
                op,
                crate::resource::usages(resources@),
                next,
                depth,
            ),
            Action::Choose { cond, then_branch, else_branch } => asking(
                m,
                w,
                k,
                ControlView::AwaitChoice {
                    then_branch: *then_branch,
                    else_branch: *else_branch,
                    depth,
                },
                RequestView::Test { cond, value: ValueView::Unit },
            ),
            Action::Fork { left, right, combine } => asking(
                m,
                w,
                k,
                ControlView::AwaitRegion { left: *left, right: *right, combine, depth },
                RequestView::Region,
            ),
            Action::Scope { base, inner, next } => quiet(
                pushed(m, FrameView::Scope { cwd: w.ctx.cwd, next, depth }),
                with_cwd(
                    w,
                    crate::path::canonical(crate::path::path_text(base), w.ctx.cwd),
                ),
                k,
                ControlView::Run { action: *inner, depth: deeper(depth) },
            ),
            Action::Alloc { len, next } => if len > MAX_IO_LEN {
                quiet(m, w, k, ControlView::Return(Err(SysError::InvalidInput)))
            } else {
                following(
                    m,
                    w,
                    k,
                    next,
                    ValueView::Bytes(Seq::new(len as nat, |i: int| 0u8)),
                    depth,
                )
            },
            Action::Replace { target } => quiet(
                m,
                with_undo(w, crate::undo::replacing(w.undo)),
                k,
                ControlView::Undo {
                    mark: 0,
                    error: None,
                    goal: GoalView::Replace { target: *target, depth },
                },
            ),
            Action::Invoke { foreign_id, captures, yields, deterministic, next } => asking(
                m,
                w,
                k,
                ControlView::AwaitReply { next, depth },
                RequestView::Invoke {
                    foreign_id,
                    captures: crate::resource::usages(captures@),
                    deterministic,
                },
            ),
            Action::Sleep { duration, next } => run_sleep(m, w, k, duration, next, depth),
            Action::WatchSignal { signal, next } => asking(
                m,
                w,
                k,
                ControlView::AwaitReply { next, depth },
                RequestView::WatchSignal { signal },
            ),
            Action::Timeout { action, duration, on_timeout } => run_timeout(
                m,
                w,
                k,
                *action,
                duration,
                *on_timeout,
                depth,
            ),
            Action::Catch { action, handler } => quiet(
                pushed(m, FrameView::Catch { handler, depth }),
                w,
                k,
                ControlView::Run { action: *action, depth: deeper(depth) },
            ),
            Action::Idempotent { key, inner, next } => run_keyed(
                m,
                w,
                k,
                key@,
                *inner,
                next,
                depth,
            ),
        }
    }
}

/// Goes on with the values of two branches, or with the first error, the left
/// one first.
pub open spec fn combining<B: Host>(
    m: MachineView<B>,
    w: WorldView<B::Undo>,
    k: Keys,
    left: ResultView,
    right: ResultView,
    combine: B::Combine,
    depth: usize,
) -> StepView<B> {
    match (left, right) {
        (Err(e), _) => quiet(m, w, k, ControlView::Return(Err(e))),
        (Ok(_), Err(e)) => quiet(m, w, k, ControlView::Return(Err(e))),
        (Ok(l), Ok(r)) => asking(
            m,
            w,
            k,
            ControlView::AwaitNext { depth },
            RequestView::Combine { combine, left: l, right: r },
        ),
    }
}

/// Goes on with a value, or passes an error on.
pub open spec fn going_on<B: Host>(
    m: MachineView<B>,
    w: WorldView<B::Undo>,
    k: Keys,
    r: ResultView,
    next: B::Next,
    depth: usize,
) -> StepView<B> {
    match r {
        Ok(v) => following(m, w, k, next, v, depth),
        Err(e) => quiet(m, w, k, ControlView::Return(Err(e))),
    }
}

/// Ends a keyed section: with a value the key is committed, unless a replacement
/// in the section has undone what was done in it. Where there is something to undo
/// that was not there before, undoing takes the commitment back.
pub open spec fn keyed_return<B: Host>(
    m: MachineView<B>,
    w: WorldView<B::Undo>,
    k: Keys,
    r: ResultView,
    key: Seq<char>,
    mark: usize,
    replacements: u64,
    next: B::Next,
    depth: usize,
) -> StepView<B> {
    match r {
        Ok(v) => if w.undo.replacements != replacements {
            following(m, w, k, next, v, depth)
        } else if w.undo.ops.len() > mark {
            following(
                m,
                with_undo(
                    w,
                    UndoView { ops: w.undo.ops.push(EntryView::RevertKey(key)), ..w.undo },
                ),
                crate::idempotency::committed(k, key, v),
                next,
                v,
                depth,
            )
        } else {
            following(m, w, crate::idempotency::committed(k, key, v), next, v, depth)
        },
        Err(e) => quiet(m, w, k, ControlView::Return(Err(e))),
    }
}

/// Hands a result to the topmost frame.
pub open spec fn return_step<B: Host>(
    m: MachineView<B>,
    w: WorldView<B::Undo>,
    k: Keys,
    r: ResultView,
) -> StepView<B> {
    if m.frames.len() == 0 {
        asking(m, w, k, ControlView::Finished, RequestView::Finished(r))
    } else {
        let below = popped(m);
        match m.frames.last() {
            FrameView::Then { next, depth } => going_on(below, w, k, r, next, depth),
            FrameView::Scope { cwd, next, depth } => going_on(
                below,
                with_cwd(w, cwd),
                k,
                r,
                next,
                depth,
            ),
            FrameView::Catch { handler, depth } => match r {
                Ok(v) => quiet(below, w, k, ControlView::Return(Ok(v))),
                Err(e) => asking(
                    below,
                    w,
                    k,
                    ControlView::AwaitNext { depth: deeper(depth) },
                    RequestView::Handle { handler, error: e },
                ),
            },
            FrameView::Keyed { key, mark, replacements, next, depth } => keyed_return(
                below,
                w,
                k,
                r,
                key,
                mark,
                replacements,
                next,
                depth,
            ),
            FrameView::Left { right, right_reg, parent, combine, depth } => quiet(
                pushed(below, FrameView::Right { left: r, left_reg: w.reg, parent, combine, depth }),
                with_reg(w, right_reg),
                k,
                ControlView::Run { action: right, depth: deeper(depth) },
            ),
            FrameView::Right { left, left_reg, parent, combine, depth } => combining(
                below,
                with_reg(
                    w,
                    crate::registry::merged(crate::registry::merged(parent, left_reg), w.reg),
                ),
                k,
                left,
                r,
                combine,
                depth,
            ),
            FrameView::Timer { on_timeout, mark, marks, expired, depth } => if expired {
                quiet(
                    below,
                    w,
                    k,
                    ControlView::Undo {
                        mark: mark as nat,
                        error: None,
                        goal: GoalView::Timeout { on_timeout, marks, depth },
                    },
                )
            } else {
                quiet(below, w, k, ControlView::Return(r))
            },
            FrameView::Deadline { on_timeout, deadline, depth, .. } => match w.ctx.clock {
                Some(now) => if now >= deadline {
                    quiet(
                        below,
                        w,
                        k,
                        ControlView::Run { action: on_timeout, depth: deeper(depth) },
                    )
                } else {
                    quiet(below, w, k, ControlView::Return(r))
                },
                None => quiet(below, w, k, ControlView::Return(r)),
            },
        }
    }
}

/// Goes on after an undoing.
pub open spec fn undo_done<B: Host>(
    m: MachineView<B>,
    w: WorldView<B::Undo>,
    k: Keys,
    error: Option<SysError>,
    goal: GoalView<B>,
) -> StepView<B> {
    match goal {
        GoalView::Replace { target, depth } => {
            let clean = with_undo(w, UndoView { irreversible: false, ..w.undo });
            match error {
                Some(e) => quiet(m, clean, k, ControlView::Return(Err(e))),
                None => if w.undo.irreversible {
                    quiet(m, clean, k, ControlView::Return(Err(SysError::PermissionDenied)))
                } else {
                    quiet(
                        m,
                        with_reg(clean, crate::registry::cleared(w.reg)),
                        k,
                        ControlView::Run { action: target, depth: deeper(depth) },
                    )
                },
            }
        },
        GoalView::Timeout { on_timeout, marks, depth } => match error {
            Some(e) => quiet(m, w, k, ControlView::Return(Err(e))),
            None => quiet(
                m,
                with_reg(w, crate::registry::rolled_back_to(w.reg, marks)),
                k,
                ControlView::Run { action: on_timeout, depth: deeper(depth) },
            ),
        },
    }
}

/// Undoes the last entry, or goes on when there is none.
pub open spec fn undo_step<B: Host>(
    m: MachineView<B>,
    w: WorldView<B::Undo>,
    k: Keys,
    mark: nat,
    error: Option<SysError>,
    goal: GoalView<B>,
) -> StepView<B> {
    if w.undo.ops.len() <= mark {
        undo_done(m, w, k, error, goal)
    } else {
        let rest = with_undo(w, UndoView { ops: w.undo.ops.drop_last(), ..w.undo });
        match w.undo.ops.last() {
            EntryView::Op(op) => asking(
                m,
                rest,
                k,
                ControlView::AwaitUndone { mark, error, goal },
                RequestView::Undo(op),
            ),
            EntryView::RevertKey(key) => quiet(
                m,
                rest,
                crate::idempotency::reverted(k, key),
                ControlView::Undo { mark, error, goal },
            ),
        }
    }
}

/// Takes the outcome of an operation in: its cost and what it takes to undo it,
/// or, where it failed, nothing.
pub open spec fn executed_step<B: Host>(
    m: MachineView<B>,
    w: WorldView<B::Undo>,
    k: Keys,
    r: Result<(Value, UndoCapability<B::Undo>), SysError>,
    cost: EffectCost,
    uses: Seq<UsageView>,
    next: B::Next,
    depth: usize,
) -> StepView<B> {
    match r {
        Ok((v, capability)) => {
            let paid = UndoView { accrued: crate::cost::cost_sum(w.undo.accrued, cost), ..w.undo };
            let undo = match capability {
                UndoCapability::Identity => paid,
                UndoCapability::Invertible(op) => UndoView {
                    ops: paid.ops.push(EntryView::Op(op)),
                    ..paid
                },
                UndoCapability::NonInvertible => UndoView { irreversible: true, ..paid },
            };
            following(m, with_undo(w, undo), k, next, v@, depth)
        },
        Err(e) => quiet(
            m,
            with_reg(w, crate::registry::unmarked(w.reg, uses)),
            k,
            ControlView::Return(Err(e)),
        ),
    }
}

/// Starts the branches of a fork: side by side, each in a world of its own, or
/// the left one first. The right branch numbers its handles in a region of its
/// own.
pub open spec fn fork_step<B: Host>(
    m: MachineView<B>,
    w: WorldView<B::Undo>,
    k: Keys,
    number: u64,
    left: Action<B>,
    right: Action<B>,
    combine: B::Combine,
    depth: usize,
) -> StepView<B> {
    match crate::fork::region_offset(number) {
        Err(e) => quiet(m, w, k, ControlView::Return(Err(e))),
        Ok(offset) => if crate::registry::region_base(w.reg) + offset > u64::MAX {
            quiet(m, w, k, ControlView::Return(Err(SysError::Other(28))))
        } else {
            let right_reg = crate::registry::shifted(w.reg, offset);
            if m.parallel && !crate::fork::conflicting(left, right) {
                let cancelled = timed_out(m.frames, m.cancelled);
                let apart = WorldView { undo: crate::undo::fresh_undo(), ..w };
                asking(
                    m,
                    w,
                    k,
                    ControlView::AwaitBranches {
                        combine,
                        depth,
                        left: None,
                        stash: None,
                        base: match w.ctx.clock {
                            Some(now) => now,
                            None => 0,
                        },
                    },
                    RequestView::Spawn {
                        left: (starting(left, m.parallel, cancelled), apart),
                        right: (
                            starting(right, m.parallel, cancelled),
                            with_reg(apart, right_reg),
                        ),
                    },
                )
            } else {
                quiet(
                    pushed(
                        m,
                        FrameView::Left { right, right_reg, parent: w.reg, combine, depth },
                    ),
                    w,
                    k,
                    ControlView::Run { action: left, depth: deeper(depth) },
                )
            }
        },
    }
}

/// By how much a branch moved its clock, which showed `base` when it started.
pub open spec fn branch_delay(branch: ContextView, base: nat) -> nat {
    match branch.clock {
        Some(now) => if now >= base {
            (now - base) as nat
        } else {
            0
        },
        None => 0,
    }
}

/// What the clock shows once a branch is taken in; `None` if the clock cannot be
/// moved that far.
pub open spec fn joined_clock(clock: Option<nat>, branch: ContextView, base: nat) -> Option<
    Option<nat>,
> {
    match clock {
        Some(now) => match moved(now, branch_delay(branch, base)) {
            Some(t) => Some(Some(t)),
            None => None,
        },
        None => Some(None),
    }
}

/// The world once the registry, the undo stack and the clock of a branch are
/// taken in, and whether the clock could be moved that far.
pub open spec fn joined<U>(w: WorldView<U>, branch: WorldView<U>, base: nat) -> (
    WorldView<U>,
    bool,
) {
    let merged = WorldView {
        ctx: w.ctx,
        undo: crate::undo::stacked(w.undo, branch.undo),
        reg: crate::registry::merged(w.reg, branch.reg),
    };
    match joined_clock(w.ctx.clock, branch.ctx, base) {
        Some(clock) => (with_clock(merged, clock), true),
        None => (merged, false),
    }
}

/// Takes the right branch in, after the left one, and goes on.
pub open spec fn join_right<B: Host>(
    m: MachineView<B>,
    w: WorldView<B::Undo>,
    k: Keys,
    left: ResultView,
    right: ResultView,
    branch: WorldView<B::Undo>,
    combine: B::Combine,
    depth: usize,
    base: nat,
) -> StepView<B> {
    let (w1, ok) = joined(w, branch, base);
    if ok {
        combining(m, w1, k, left, right, combine, depth)
    } else {
        overflow(m, w1, k)
    }
}

/// Takes the left branch in, and then the right one if it was done before.
pub open spec fn left_step<B: Host>(
    m: MachineView<B>,
    w: WorldView<B::Undo>,
    k: Keys,
    result: ResultView,
    branch: WorldView<B::Undo>,
    combine: B::Combine,
    depth: usize,
    stash: Option<(ResultView, WorldView<B::Undo>)>,
    base: nat,
) -> StepView<B> {
    let (w1, ok) = joined(w, branch, base);
    if !ok {
        overflow(m, w1, k)
    } else {
        match stash {
            None => asking(
                m,
                w1,
                k,
                ControlView::AwaitBranches { combine, depth, left: Some(result), stash, base },
                RequestView::Wait,
            ),
            Some((right, right_world)) => join_right(
                m,
                w1,
                k,
                result,
                right,
                right_world,
                combine,
                depth,
                base,
            ),
        }
    }
}

/// Takes the right branch in if the left one was done before, or keeps it.
pub open spec fn right_step<B: Host>(
    m: MachineView<B>,
    w: WorldView<B::Undo>,
    k: Keys,
    result: ResultView,
    branch: WorldView<B::Undo>,
    combine: B::Combine,
    depth: usize,
    left: Option<ResultView>,
    base: nat,
) -> StepView<B> {
    match left {
        Some(l) => join_right(m, w, k, l, result, branch, combine, depth, base),
        None => asking(
            m,
            w,
            k,
            ControlView::AwaitBranches {
                combine,
                depth,
                left,
                stash: Some((result, branch)),
                base,
            },
            RequestView::Wait,
        ),
    }
}

/// One step of the machine on an answer of its driver.
pub open spec fn transition<B: Host>(
    m: MachineView<B>,
    w: WorldView<B::Undo>,
    k: Keys,
    event: Event<B>,
) -> StepView<B> {
    match (m.control, event) {
        (ControlView::Run { action, depth }, Event::Go) => run_step(m, w, k, action, depth),
        (ControlView::Return(r), Event::Go) => return_step(m, w, k, r),
        (ControlView::Undo { mark, error, goal }, Event::Go) => undo_step(
            m,
            w,
            k,
            mark,
            error,
            goal,
        ),
        (ControlView::AwaitNext { depth }, Event::Action(action)) => quiet(
            m,
            w,
            k,
            ControlView::Run { action, depth },
        ),
        (
            ControlView::AwaitChoice { then_branch, else_branch, depth },
            Event::Choice(choice),
        ) => quiet(
            m,
            w,
            k,
            ControlView::Run {
                action: if choice {
                    then_branch
                } else {
                    else_branch
                },
                depth,
            },
        ),
        (ControlView::AwaitExecuted { cost, uses, next, depth }, Event::Executed(r)) => executed_step(
            m,
            w,
            k,
            r,
            cost,
            uses,
            next,
            depth,
        ),
        (ControlView::AwaitReply { next, depth }, Event::Replied(r)) => going_on(
            m,
            w,
            k,
            result_view(r),
            next,
            depth,
        ),
        (ControlView::AwaitSlept { next, depth }, Event::Slept) => following(
            m,
            w,
            k,
            next,
            ValueView::Unit,
            depth,
        ),
        (ControlView::AwaitUndone { mark, error, goal }, Event::Undone(r)) => quiet(
            m,
            w,
            k,
            ControlView::Undo { mark, error: crate::undo::first_failure(error, r), goal },
        ),
        (ControlView::AwaitRegion { left, right, combine, depth }, Event::Region(number)) => fork_step(
            m,
            w,
            k,
            number,
            left,
            right,
            combine,
            depth,
        ),
        (
            ControlView::AwaitBranches { combine, depth, left: None, stash, base },
            Event::Left(o),
        ) => left_step(m, w, k, result_view(o.result), o.world@, combine, depth, stash, base),
        (
            ControlView::AwaitBranches { combine, depth, left, stash: None, base },
            Event::Right(o),
        ) => right_step(m, w, k, result_view(o.result), o.world@, combine, depth, left, base),
        _ => ignored(m, w, k),
    }
}

/// The frames once the timers at `level` and above it have expired.
pub open spec fn expired_from<B: Host>(frames: Seq<FrameView<B>>, level: int) -> Seq<FrameView<B>> {
    Seq::new(
        frames.len(),
        |i: int|
            if i < level {
                frames[i]
            } else {
                match frames[i] {
                    FrameView::Timer { on_timeout, mark, marks, expired, depth } => FrameView::Timer {
                        on_timeout,
                        mark,
                        marks,
                        expired: true,
                        depth,
                    },
                    f => f,
                }
            },
    )
}

/// The registry once the frames above `level` are dropped: that of the outermost
/// fork that is dropped.
pub open spec fn registry_below<B: Host>(
    frames: Seq<FrameView<B>>,
    level: nat,
    reg: RegistryView,
) -> RegistryView
    decreases frames.len(),
{
    if frames.len() <= level + 1 {
        reg
    } else {
        registry_below(
            frames.drop_last(),
            level,
            match frames.last() {
                FrameView::Left { parent, .. } => parent,
                FrameView::Right { parent, .. } => parent,
                _ => reg,
            },
        )
    }
}

/// The working directory once the frames above `level` are dropped: the one before
/// the outermost scope that is dropped.
pub open spec fn directory_below<B: Host>(
    frames: Seq<FrameView<B>>,
    level: nat,
    cwd: Seq<char>,
) -> Seq<char>
    decreases frames.len(),
{
    if frames.len() <= level + 1 {
        cwd
    } else {
        directory_below(
            frames.drop_last(),
            level,
            match frames.last() {
                FrameView::Scope { cwd: before, .. } => before,
                _ => cwd,
            },
        )
    }
}

/// Gives up what runs above a timer: a right branch that is done is taken in, the
/// scopes and forks above are left, and undoing begins.
pub open spec fn abandonment<B: Host>(
    m: MachineView<B>,
    w: WorldView<B::Undo>,
    k: Keys,
    level: nat,
) -> StepView<B> {
    if level >= m.frames.len() {
        ignored(m, w, k)
    } else {
        let taken = match m.control {
            ControlView::AwaitBranches { stash: Some((_, branch)), base, .. } => joined(
                w,
                branch,
                base,
            ),
            _ => (w, true),
        };
        let below = MachineView { frames: m.frames.take(level as int), ..m };
        let world = with_cwd(
            with_reg(taken.0, registry_below(m.frames, level, taken.0.reg)),
            directory_below(m.frames, level, taken.0.ctx.cwd),
        );
        match m.frames[level as int] {
            FrameView::Timer { on_timeout, mark, marks, depth, .. } => if taken.1 {
                quiet(
                    below,
                    world,
                    k,
                    ControlView::Undo {
                        mark: mark as nat,
                        error: None,
                        goal: GoalView::Timeout { on_timeout, marks, depth },
                    },
                )
            } else {
                overflow(m, taken.0, k)
            },
            FrameView::Deadline { on_timeout, mark, marks, depth, .. } => if taken.1 {
                quiet(
                    below,
                    world,
                    k,
                    ControlView::Undo {
                        mark: mark as nat,
                        error: None,
                        goal: GoalView::Timeout { on_timeout, marks, depth },
                    },
                )
            } else {
                overflow(m, taken.0, k)
            },
            _ => ignored(m, w, k),
        }
    }
}

} // verus!
