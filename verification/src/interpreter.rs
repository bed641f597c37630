//! The interpreter: a machine that runs a blueprint step by step.
//!
//! The machine never does outside work itself. A step takes the driver's answer
//! to the last [`Request`] and returns the next one; the driver runs operations,
//! applies the host's continuations, waits, and runs branches. What a step does
//! is said by [`crate::semantics::transition`].

use std::time::Duration;
use vstd::prelude::*;

use crate::action::{Action, DataOp, Host, Id, Signal, Value};
use crate::context::Context;
use crate::cost::EffectCost;
use crate::error::SysError;
use crate::fork::{fork_conflict, fork_region_offset_for};
use crate::idempotency::IdempotencyRegistry;
use crate::registry::{LinearSnapshot, ResourceRegistry};
use crate::resource::ResourceSet;
use crate::semantics::{
    ControlView, FrameView, GoalView, MachineView, RequestView, ResultView, StepView, WorldView,
    MAX_IO_LEN, MAX_NESTING_DEPTH,
};
use crate::syscall::UndoCapability;
use crate::undo::{Rollback, UndoEntry, UndoStack};
use crate::virtual_clock::{saturating_difference, saturating_sum};

verus! {

/// What a blueprint runs in.
pub struct World<U> {
    pub ctx: Context,
    pub undo: UndoStack<U>,
    pub reg: ResourceRegistry,
}

impl<U> View for World<U> {
    type V = WorldView<U>;

    open spec fn view(&self) -> WorldView<U> {
        WorldView { ctx: self.ctx@, undo: self.undo@, reg: self.reg@ }
    }
}

/// What a branch ended with.
pub struct Outcome<U> {
    pub result: Result<Value, SysError>,
    pub world: World<U>,
}

/// A branch to run: a machine and the world that it runs in.
pub struct Branch<B: Host> {
    pub interpreter: Interpreter<B>,
    pub world: World<B::Undo>,
}

/// What the machine asks its driver for.
#[allow(inconsistent_fields)]
pub enum Request<B: Host> {
    /// Nothing. Answered by [`Event::Go`].
    Continue,
    /// The blueprint that follows a value. Answered by [`Event::Action`].
    Call { next: B::Next, value: Value },
    /// A choice. Answered by [`Event::Choice`].
    Test { cond: B::Cond, value: Value },
    /// The blueprint that follows two values. Answered by [`Event::Action`].
    Combine { combine: B::Combine, left: Value, right: Value },
    /// The blueprint that handles an error. Answered by [`Event::Action`].
    Handle { handler: B::Handler, error: SysError },
    /// An operation, which may use the world's registry. Answered by
    /// [`Event::Executed`].
    Execute { op: DataOp },
    /// A foreign call. Answered by [`Event::Replied`].
    Invoke { foreign_id: Id, captures: ResourceSet, deterministic: bool },
    /// To wait for a signal. Answered by [`Event::Replied`].
    WatchSignal { signal: Signal },
    /// To wait. Answered by [`Event::Slept`], at once when a timer expires.
    Sleep { duration: Duration },
    /// An inverse operation. Answered by [`Event::Undone`].
    Undo(B::Undo),
    /// A number that no other fork has. Answered by [`Event::Region`].
    Region,
    /// To keep a timer for this level, as [`crate::timers::Timers`] do, for as long
    /// as the machine is higher than the level, and to call
    /// [`Interpreter::expire`] and [`Interpreter::abandon`] when it goes off.
    /// Answered by [`Event::Go`].
    ArmTimer { level: usize, duration: Duration },
    /// To run two branches side by side. Answered by [`Event::Left`] and
    /// [`Event::Right`].
    Spawn { left: Branch<B>, right: Branch<B> },
    /// To go on waiting for the other branch.
    Wait,
    /// Nothing more: this is the result.
    Finished(Result<Value, SysError>),
    /// Nothing more: the virtual clock cannot be moved that far.
    Overflow,
    /// The event was no answer to what was asked for. Nothing has changed.
    Ignored,
}

/// What the driver answers.
pub enum Event<B: Host> {
    Go,
    Action(Action<B>),
    Choice(bool),
    Executed(Result<(Value, UndoCapability<B::Undo>), SysError>),
    Replied(Result<Value, SysError>),
    Slept,
    Undone(Result<(), SysError>),
    Region(u64),
    Left(Outcome<B::Undo>),
    Right(Outcome<B::Undo>),
}

/// What is to be done with the result of what runs above.
#[allow(inconsistent_fields)]
enum Frame<B: Host> {
    Then { next: B::Next, depth: usize },
    Scope { cwd: String, next: B::Next, depth: usize },
    Catch { handler: B::Handler, depth: usize },
    Keyed { key: String, mark: usize, replacements: u64, next: B::Next, depth: usize },
    Left {
        right: Box<Action<B>>,
        right_reg: ResourceRegistry,
        parent: ResourceRegistry,
        combine: B::Combine,
        depth: usize,
    },
    Right {
        left: Result<Value, SysError>,
        left_reg: ResourceRegistry,
        parent: ResourceRegistry,
        combine: B::Combine,
        depth: usize,
    },
    Timer {
        on_timeout: Box<Action<B>>,
        mark: usize,
        marks: LinearSnapshot,
        expired: bool,
        depth: usize,
    },
    Deadline {
        on_timeout: Box<Action<B>>,
        deadline: Duration,
        mark: usize,
        marks: LinearSnapshot,
        depth: usize,
    },
}

/// What follows an undoing.
enum Goal<B: Host> {
    Replace { target: Box<Action<B>>, depth: usize },
    Timeout { on_timeout: Box<Action<B>>, marks: LinearSnapshot, depth: usize },
}

/// What the machine does next, or what it waits for.
#[allow(inconsistent_fields)]
enum Control<B: Host> {
    Run { action: Action<B>, depth: usize },
    Return(Result<Value, SysError>),
    Undo { rollback: Rollback, goal: Goal<B> },
    AwaitNext { depth: usize },
    AwaitChoice { then_branch: Box<Action<B>>, else_branch: Box<Action<B>>, depth: usize },
    AwaitExecuted { cost: EffectCost, resources: ResourceSet, next: B::Next, depth: usize },
    AwaitReply { next: B::Next, depth: usize },
    AwaitSlept { next: B::Next, depth: usize },
    AwaitUndone { rollback: Rollback, goal: Goal<B> },
    AwaitRegion {
        left: Box<Action<B>>,
        right: Box<Action<B>>,
        combine: B::Combine,
        depth: usize,
    },
    AwaitBranches {
        combine: B::Combine,
        depth: usize,
        left: Option<Result<Value, SysError>>,
        stash: Option<Outcome<B::Undo>>,
        base: Duration,
    },
    Finished,
}

/// The machine that runs a blueprint.
pub struct Interpreter<B: Host> {
    frames: Vec<Frame<B>>,
    control: Control<B>,
    parallel: bool,
    cancelled: bool,
}

impl<B: Host> View for Frame<B> {
    type V = FrameView<B>;

    closed spec fn view(&self) -> FrameView<B> {
        match *self {
            Frame::Then { next, depth } => FrameView::Then { next, depth },
            Frame::Scope { cwd, next, depth } => FrameView::Scope { cwd: cwd@, next, depth },
            Frame::Catch { handler, depth } => FrameView::Catch { handler, depth },
            Frame::Keyed { key, mark, replacements, next, depth } => FrameView::Keyed {
                key: key@,
                mark,
                replacements,
                next,
                depth,
            },
            Frame::Left { right, right_reg, parent, combine, depth } => FrameView::Left {
                right: *right,
                right_reg: right_reg@,
                parent: parent@,
                combine,
                depth,
            },
            Frame::Right { left, left_reg, parent, combine, depth } => FrameView::Right {
                left: crate::semantics::result_view(left),
                left_reg: left_reg@,
                parent: parent@,
                combine,
                depth,
            },
            Frame::Timer { on_timeout, mark, marks, expired, depth } => FrameView::Timer {
                on_timeout: *on_timeout,
                mark,
                marks: marks@,
                expired,
                depth,
            },
            Frame::Deadline { on_timeout, deadline, mark, marks, depth } => FrameView::Deadline {
                on_timeout: *on_timeout,
                deadline: crate::virtual_clock::duration_nanos(deadline) as nat,
                mark,
                marks: marks@,
                depth,
            },
        }
    }
}

impl<B: Host> View for Goal<B> {
    type V = GoalView<B>;

    closed spec fn view(&self) -> GoalView<B> {
        match *self {
            Goal::Replace { target, depth } => GoalView::Replace { target: *target, depth },
            Goal::Timeout { on_timeout, marks, depth } => GoalView::Timeout {
                on_timeout: *on_timeout,
                marks: marks@,
                depth,
            },
        }
    }
}

/// A result that may be there.
spec fn result_option(r: Option<Result<Value, SysError>>) -> Option<ResultView> {
    match r {
        Some(r) => Some(crate::semantics::result_view(r)),
        None => None,
    }
}

/// An outcome that may be there.
spec fn outcome_option<U>(o: Option<Outcome<U>>) -> Option<(ResultView, WorldView<U>)> {
    match o {
        Some(o) => Some((crate::semantics::result_view(o.result), o.world@)),
        None => None,
    }
}

impl<B: Host> View for Control<B> {
    type V = ControlView<B>;

    closed spec fn view(&self) -> ControlView<B> {
        match *self {
            Control::Run { action, depth } => ControlView::Run { action, depth },
            Control::Return(r) => ControlView::Return(crate::semantics::result_view(r)),
            Control::Undo { rollback, goal } => ControlView::Undo {
                mark: rollback.mark(),
                error: rollback.error(),
                goal: goal@,
            },
            Control::AwaitNext { depth } => ControlView::AwaitNext { depth },
            Control::AwaitChoice { then_branch, else_branch, depth } => ControlView::AwaitChoice {
                then_branch: *then_branch,
                else_branch: *else_branch,
                depth,
            },
            Control::AwaitExecuted { cost, resources, next, depth } => ControlView::AwaitExecuted {
                cost,
                uses: crate::resource::usages(resources@),
                next,
                depth,
            },
            Control::AwaitReply { next, depth } => ControlView::AwaitReply { next, depth },
            Control::AwaitSlept { next, depth } => ControlView::AwaitSlept { next, depth },
            Control::AwaitUndone { rollback, goal } => ControlView::AwaitUndone {
                mark: rollback.mark(),
                error: rollback.error(),
                goal: goal@,
            },
            Control::AwaitRegion { left, right, combine, depth } => ControlView::AwaitRegion {
                left: *left,
                right: *right,
                combine,
                depth,
            },
            Control::AwaitBranches { combine, depth, left, stash, base } => ControlView::AwaitBranches {
                combine,
                depth,
                left: result_option(left),
                stash: outcome_option(stash),
                base: crate::virtual_clock::duration_nanos(base) as nat,
            },
            Control::Finished => ControlView::Finished,
        }
    }
}

/// What a stack of frames holds.
spec fn frames_view<B: Host>(frames: Seq<Frame<B>>) -> Seq<FrameView<B>> {
    frames.map_values(|f: Frame<B>| f@)
}

impl<B: Host> View for Interpreter<B> {
    type V = MachineView<B>;

    closed spec fn view(&self) -> MachineView<B> {
        MachineView {
            frames: frames_view(self.frames@),
            control: self.control@,
            parallel: self.parallel,
            cancelled: self.cancelled,
        }
    }
}

impl<B: Host> View for Request<B> {
    type V = RequestView<B>;

    open spec fn view(&self) -> RequestView<B> {
        match *self {
            Request::Continue => RequestView::Continue,
            Request::Call { next, value } => RequestView::Call { next, value: value@ },
            Request::Test { cond, value } => RequestView::Test { cond, value: value@ },
            Request::Combine { combine, left, right } => RequestView::Combine {
                combine,
                left: left@,
                right: right@,
            },
            Request::Handle { handler, error } => RequestView::Handle { handler, error },
            Request::Execute { op } => RequestView::Execute { op },
            Request::Invoke { foreign_id, captures, deterministic } => RequestView::Invoke {
                foreign_id,
                captures: crate::resource::usages(captures@),
                deterministic,
            },
            Request::WatchSignal { signal } => RequestView::WatchSignal { signal },
            Request::Sleep { duration } => RequestView::Sleep { duration },
            Request::Undo(op) => RequestView::Undo(op),
            Request::Region => RequestView::Region,
            Request::ArmTimer { level, duration } => RequestView::ArmTimer {
                level: level as nat,
                duration,
            },
            Request::Spawn { left, right } => RequestView::Spawn {
                left: (left.interpreter@, left.world@),
                right: (right.interpreter@, right.world@),
            },
            Request::Wait => RequestView::Wait,
            Request::Finished(r) => RequestView::Finished(crate::semantics::result_view(r)),
            Request::Overflow => RequestView::Overflow,
            Request::Ignored => RequestView::Ignored,
        }
    }
}

/// Pushing a frame pushes what it holds.
proof fn lemma_push<B: Host>(frames: Seq<Frame<B>>, frame: Frame<B>)
    ensures
        frames_view(frames.push(frame)) == frames_view(frames).push(frame@),
{
    assert(frames_view(frames.push(frame)) =~= frames_view(frames).push(frame@));
}

/// Popping a frame pops what it holds.
proof fn lemma_pop<B: Host>(frames: Seq<Frame<B>>)
    requires
        frames.len() > 0,
    ensures
        frames_view(frames.drop_last()) == frames_view(frames).drop_last(),
        frames_view(frames).last() == frames.last()@,
{
    assert(frames_view(frames.drop_last()) =~= frames_view(frames).drop_last());
}

/// The depth of what is inside.
fn deeper(depth: usize) -> (r: usize)
    ensures
        r == crate::semantics::deeper(depth),
{
    if depth < MAX_NESTING_DEPTH {
        depth + 1
    } else {
        depth
    }
}

impl<B: Host> Interpreter<B> {
    /// A machine that starts with a blueprint. With `parallel`, it asks for
    /// branches that do not get in each other's way to be run side by side.
    pub fn new(action: Action<B>, parallel: bool) -> (r: Self)
        ensures
            r@ == crate::semantics::starting(action, parallel, false),
    {
        Interpreter::branch(action, parallel, false)
    }

    /// A machine for a branch, which may be part of something that timed out.
    fn branch(action: Action<B>, parallel: bool, cancelled: bool) -> (r: Self)
        ensures
            r@ == crate::semantics::starting(action, parallel, cancelled),
    {
        let r = Interpreter {
            frames: Vec::new(),
            control: Control::Run { action, depth: 0 },
            parallel,
            cancelled,
        };
        assert(frames_view(r.frames@) =~= Seq::empty());
        r
    }

    /// How high the machine's stack is.
    pub fn height(&self) -> (n: usize)
        ensures
            n == self@.frames.len(),
    {
        self.frames.len()
    }

    /// Whether what runs has timed out.
    pub fn is_cancelled(&self) -> (r: bool)
        ensures
            r == crate::semantics::timed_out(self@.frames, self@.cancelled),
    {
        let mut i: usize = self.frames.len();
        assert(self.frames@.take(i as int) =~= self.frames@);
        while i > 0
            invariant
                i <= self.frames@.len(),
                crate::semantics::timed_out(frames_view(self.frames@.take(i as int)), self.cancelled)
                    == crate::semantics::timed_out(self@.frames, self@.cancelled),
            decreases i,
        {
            proof {
                let now = self.frames@.take(i as int);
                lemma_pop(now);
                assert(now.drop_last() =~= self.frames@.take(i - 1));
                assert(now.last() == self.frames@[i - 1]);
            }
            i -= 1;
            if let Frame::Timer { expired, .. } = &self.frames[i] {
                return *expired;
            }
        }
        assert(frames_view(self.frames@.take(0)) =~= Seq::empty());
        self.cancelled
    }

    /// Puts a frame on top.
    fn push(&mut self, frame: Frame<B>)
        ensures
            final(self)@ == crate::semantics::pushed(old(self)@, frame@),
    {
        proof {
            lemma_push(self.frames@, frame);
        }
        self.frames.push(frame);
    }

    /// Runs an operation.
    fn run_syscall(
        &mut self,
        world: &mut World<B::Undo>,
        op: DataOp,
        resources: ResourceSet,
        next: B::Next,
        depth: usize,
        Ghost(keys): Ghost<crate::idempotency::Keys>,
    ) -> (r: Request<B>)
        ensures
            crate::semantics::stepped(
                crate::semantics::run_syscall(
                    old(self)@,
                    old(world)@,
                    keys,
                    op,
                    crate::resource::usages(resources@),
                    next,
                    depth,
                ),
                final(self)@,
                final(world)@,
                keys,
                r@,
            ),
    {
        match world.reg.check_linear_all(&resources) {
            Err(e) => {
                self.control = Control::Return(Err(e));
                Request::Continue
            },
            Ok(()) => {
                if let DataOp::GetTime = op {
                    if let Some(clock) = world.ctx.virtual_clock {
                        let millis = clock.now().as_nanos() / 1_000_000;
                        self.control = Control::AwaitNext { depth };
                        return Request::Call { next, value: Value::U64(millis as u64) };
                    }
                }
                let cost = EffectCost::for_op(&op);
                self.control = Control::AwaitExecuted { cost, resources, next, depth };
                Request::Execute { op }
            },
        }
    }

    /// Waits.
    fn run_sleep(
        &mut self,
        world: &mut World<B::Undo>,
        duration: Duration,
        next: B::Next,
        depth: usize,
        Ghost(keys): Ghost<crate::idempotency::Keys>,
    ) -> (r: Request<B>)
        ensures
            crate::semantics::stepped(
                crate::semantics::run_sleep(old(self)@, old(world)@, keys, duration, next, depth),
                final(self)@,
                final(world)@,
                keys,
                r@,
            ),
    {
        if duration.as_nanos() == 0 {
            self.control = Control::AwaitNext { depth };
            return Request::Call { next, value: Value::Unit };
        }
        match world.ctx.virtual_clock {
            Some(clock) => {
                let mut clock = clock;
                if clock.try_advance(duration) {
                    world.ctx.virtual_clock = Some(clock);
                    self.control = Control::AwaitNext { depth };
                    Request::Call { next, value: Value::Unit }
                } else {
                    self.control = Control::Finished;
                    Request::Overflow
                }
            },
            None => {
                self.control = Control::AwaitSlept { next, depth };
                Request::Sleep { duration }
            },
        }
    }

    /// Runs something with a timer.
    fn run_timeout(
        &mut self,
        world: &mut World<B::Undo>,
        action: Box<Action<B>>,
        duration: Duration,
        on_timeout: Box<Action<B>>,
        depth: usize,
        Ghost(keys): Ghost<crate::idempotency::Keys>,
    ) -> (r: Request<B>)
        ensures
            crate::semantics::stepped(
                crate::semantics::run_timeout(
                    old(self)@,
                    old(world)@,
                    keys,
                    *action,
                    duration,
                    *on_timeout,
                    depth,
                ),
                final(self)@,
                final(world)@,
                keys,
                r@,
            ),
    {
        let level = self.frames.len();
        let mark = world.undo.len();
        let marks = world.reg.snapshot_linear();
        let frame = match world.ctx.virtual_clock {
            Some(clock) => Frame::Deadline {
                on_timeout,
                deadline: saturating_sum(clock.now(), duration),
                mark,
                marks,
                depth,
            },
            None => Frame::Timer { on_timeout, mark, marks, expired: false, depth },
        };
        self.push(frame);
        self.control = Control::Run { action: *action, depth: deeper(depth) };
        Request::ArmTimer { level, duration }
    }

    /// Runs a keyed section, unless its effects stand.
    fn run_keyed(
        &mut self,
        world: &mut World<B::Undo>,
        idem: &IdempotencyRegistry,
        key: String,
        inner: Box<Action<B>>,
        next: B::Next,
        depth: usize,
    ) -> (r: Request<B>)
        ensures
            crate::semantics::stepped(
                crate::semantics::run_keyed(
                    old(self)@,
                    old(world)@,
                    idem@,
                    key@,
                    *inner,
                    next,
                    depth,
                ),
                final(self)@,
                final(world)@,
                idem@,
                r@,
            ),
    {
        match idem.lookup_committed(key.as_str()) {
            Some(value) => {
                self.control = Control::AwaitNext { depth };
                Request::Call { next, value }
            },
            None => {
                let mark = world.undo.len();
                let replacements = world.undo.replacements();
                self.push(Frame::Keyed { key, mark, replacements, next, depth });
                self.control = Control::Run { action: *inner, depth: deeper(depth) };
                Request::Continue
            },
        }
    }

    /// Runs one node of a blueprint.
    fn run(
        &mut self,
        world: &mut World<B::Undo>,
        idem: &IdempotencyRegistry,
        action: Action<B>,
        depth: usize,
    ) -> (r: Request<B>)
        ensures
            crate::semantics::stepped(
                crate::semantics::run_step(old(self)@, old(world)@, idem@, action, depth),
                final(self)@,
                final(world)@,
                idem@,
                r@,
            ),
    {
        if depth >= MAX_NESTING_DEPTH {
            self.control = Control::Return(Err(SysError::Other(105)));
            return Request::Continue;
        }
        if self.is_cancelled() {
            self.control = Control::Return(Err(SysError::Other(125)));
            return Request::Continue;
        }
        match action {
            Action::Pure(v) => {
                self.control = Control::Return(Ok(v));
                Request::Continue
            },
            Action::Sequential { current, next } => {
                self.push(Frame::Then { next, depth });
                self.control = Control::Run { action: *current, depth: deeper(depth) };
                Request::Continue
            },
            Action::Syscall { op, resources, next } => self.run_syscall(
                world,
                op,
                resources,
                next,
                depth,
                Ghost(idem@),
            ),
            Action::Choose { cond, then_branch, else_branch } => {
                self.control = Control::AwaitChoice { then_branch, else_branch, depth };
                Request::Test { cond, value: Value::Unit }
            },
            Action::Fork { left, right, combine } => {
                self.control = Control::AwaitRegion { left, right, combine, depth };
                Request::Region
            },
            Action::Scope { base, inner, next } => {
                let base = crate::path::text_of(&base);
                let here = world.reg.canonicalize_path(base.as_str(), world.ctx.cwd.as_str());
                let cwd = world.ctx.enter(here);
                self.push(Frame::Scope { cwd, next, depth });
                self.control = Control::Run { action: *inner, depth: deeper(depth) };
                Request::Continue
            },
            Action::Alloc { len, next } => {
                if len > MAX_IO_LEN {
                    self.control = Control::Return(Err(SysError::InvalidInput));
                    Request::Continue
                } else {
                    let bytes: Vec<u8> = vec![0u8; len];
                    assert(bytes@ =~= Seq::new(len as nat, |i: int| 0u8));
                    self.control = Control::AwaitNext { depth };
                    Request::Call { next, value: Value::Bytes(bytes) }
                }
            },
            Action::Replace { target } => {
                world.undo.count_replacement();
                let rollback = world.undo.recover();
                self.control = Control::Undo { rollback, goal: Goal::Replace { target, depth } };
                Request::Continue
            },
            Action::Invoke { foreign_id, captures, yields: _, deterministic, next } => {
                self.control = Control::AwaitReply { next, depth };
                Request::Invoke { foreign_id, captures, deterministic }
            },
            Action::Sleep { duration, next } => self.run_sleep(
                world,
                duration,
                next,
                depth,
                Ghost(idem@),
            ),
            Action::WatchSignal { signal, next } => {
                self.control = Control::AwaitReply { next, depth };
                Request::WatchSignal { signal }
            },
            Action::Timeout { action, duration, on_timeout } => self.run_timeout(
                world,
                action,
                duration,
                on_timeout,
                depth,
                Ghost(idem@),
            ),
            Action::Catch { action, handler } => {
                self.push(Frame::Catch { handler, depth });
                self.control = Control::Run { action: *action, depth: deeper(depth) };
                Request::Continue
            },
            Action::Idempotent { key, inner, next } => self.run_keyed(
                world,
                idem,
                key,
                inner,
                next,
                depth,
            ),
        }
    }

    /// Goes on with a value, or passes an error on.
    fn go_on(
        &mut self,
        r: Result<Value, SysError>,
        next: B::Next,
        depth: usize,
        Ghost(w): Ghost<WorldView<B::Undo>>,
        Ghost(keys): Ghost<crate::idempotency::Keys>,
    ) -> (request: Request<B>)
        ensures
            crate::semantics::stepped(
                crate::semantics::going_on(
                    old(self)@,
                    w,
                    keys,
                    crate::semantics::result_view(r),
                    next,
                    depth,
                ),
                final(self)@,
                w,
                keys,
                request@,
            ),
    {
        match r {
            Ok(value) => {
                self.control = Control::AwaitNext { depth };
                Request::Call { next, value }
            },
            Err(e) => {
                self.control = Control::Return(Err(e));
                Request::Continue
            },
        }
    }

    /// Goes on with the values of two branches, or with the first error.
    fn combine(
        &mut self,
        left: Result<Value, SysError>,
        right: Result<Value, SysError>,
        combine: B::Combine,
        depth: usize,
        Ghost(w): Ghost<WorldView<B::Undo>>,
        Ghost(keys): Ghost<crate::idempotency::Keys>,
    ) -> (request: Request<B>)
        ensures
            crate::semantics::stepped(
                crate::semantics::combining(
                    old(self)@,
                    w,
                    keys,
                    crate::semantics::result_view(left),
                    crate::semantics::result_view(right),
                    combine,
                    depth,
                ),
                final(self)@,
                w,
                keys,
                request@,
            ),
    {
        match left {
            Err(e) => {
                self.control = Control::Return(Err(e));
                Request::Continue
            },
            Ok(left) => match right {
                Err(e) => {
                    self.control = Control::Return(Err(e));
                    Request::Continue
                },
                Ok(right) => {
                    self.control = Control::AwaitNext { depth };
                    Request::Combine { combine, left, right }
                },
            },
        }
    }

    /// Ends a keyed section.
    fn return_keyed(
        &mut self,
        world: &mut World<B::Undo>,
        idem: &mut IdempotencyRegistry,
        r: Result<Value, SysError>,
        key: String,
        mark: usize,
        replacements: u64,
        next: B::Next,
        depth: usize,
    ) -> (request: Request<B>)
        ensures
            crate::semantics::stepped(
                crate::semantics::keyed_return(
                    old(self)@,
                    old(world)@,
                    old(idem)@,
                    crate::semantics::result_view(r),
                    key@,
                    mark,
                    replacements,
                    next,
                    depth,
                ),
                final(self)@,
                final(world)@,
                final(idem)@,
                request@,
            ),
    {
        match r {
            Ok(value) => {
                if world.undo.replacements() == replacements {
                    idem.commit(key.as_str(), value.clone());
                    if world.undo.len() > mark {
                        world.undo.push_revert(key);
                    }
                }
                self.control = Control::AwaitNext { depth };
                Request::Call { next, value }
            },
            Err(e) => {
                self.control = Control::Return(Err(e));
                Request::Continue
            },
        }
    }

    /// Hands a result to the topmost frame.
    fn give_back(
        &mut self,
        world: &mut World<B::Undo>,
        idem: &mut IdempotencyRegistry,
        r: Result<Value, SysError>,
    ) -> (request: Request<B>)
        ensures
            crate::semantics::stepped(
                crate::semantics::return_step(
                    old(self)@,
                    old(world)@,
                    old(idem)@,
                    crate::semantics::result_view(r),
                ),
                final(self)@,
                final(world)@,
                final(idem)@,
                request@,
            ),
    {
        proof {
            if self.frames@.len() > 0 {
                lemma_pop(self.frames@);
            }
        }
        match self.frames.pop() {
            None => {
                self.control = Control::Finished;
                Request::Finished(r)
            },
            Some(frame) => match frame {
                Frame::Then { next, depth } => self.go_on(
                    r,
                    next,
                    depth,
                    Ghost(world@),
                    Ghost(idem@),
                ),
                Frame::Scope { cwd, next, depth } => {
                    world.ctx.cwd = cwd;
                    self.go_on(r, next, depth, Ghost(world@), Ghost(idem@))
                },
                Frame::Catch { handler, depth } => match r {
                    Ok(v) => {
                        self.control = Control::Return(Ok(v));
                        Request::Continue
                    },
                    Err(error) => {
                        self.control = Control::AwaitNext { depth: deeper(depth) };
                        Request::Handle { handler, error }
                    },
                },
                Frame::Keyed { key, mark, replacements, next, depth } => self.return_keyed(
                    world,
                    idem,
                    r,
                    key,
                    mark,
                    replacements,
                    next,
                    depth,
                ),
                Frame::Left { right, right_reg, parent, combine, depth } => {
                    let mut left_reg = right_reg;
                    std::mem::swap(&mut left_reg, &mut world.reg);
                    self.push(Frame::Right { left: r, left_reg, parent, combine, depth });
                    self.control = Control::Run { action: *right, depth: deeper(depth) };
                    Request::Continue
                },
                Frame::Right { left, left_reg, parent, combine, depth } => {
                    let mut right_reg = parent;
                    std::mem::swap(&mut right_reg, &mut world.reg);
                    world.reg.merge(left_reg);
                    world.reg.merge(right_reg);
                    self.combine(left, r, combine, depth, Ghost(world@), Ghost(idem@))
                },
                Frame::Timer { on_timeout, mark, marks, expired, depth } => {
                    if expired {
                        let rollback = world.undo.rollback_from(mark);
                        let goal = Goal::Timeout { on_timeout, marks, depth };
                        self.control = Control::Undo { rollback, goal };
                    } else {
                        self.control = Control::Return(r);
                    }
                    Request::Continue
                },
                Frame::Deadline { on_timeout, deadline, mark: _, marks: _, depth } => {
                    let late = match world.ctx.virtual_clock {
                        Some(clock) => clock.now().as_nanos() >= deadline.as_nanos(),
                        None => false,
                    };
                    if late {
                        self.control = Control::Run { action: *on_timeout, depth: deeper(depth) };
                    } else {
                        self.control = Control::Return(r);
                    }
                    Request::Continue
                },
            },
        }
    }

    /// Goes on after an undoing.
    fn finish_undo(
        &mut self,
        world: &mut World<B::Undo>,
        rollback: Rollback,
        goal: Goal<B>,
        Ghost(keys): Ghost<crate::idempotency::Keys>,
    ) -> (request: Request<B>)
        ensures
            crate::semantics::stepped(
                crate::semantics::undo_done(
                    old(self)@,
                    old(world)@,
                    keys,
                    rollback.error(),
                    goal@,
                ),
                final(self)@,
                final(world)@,
                keys,
                request@,
            ),
    {
        match goal {
            Goal::Replace { target, depth } => {
                let irreversible = world.undo.has_irreversible();
                world.undo.reset_irreversible();
                match rollback.finish() {
                    Err(e) => {
                        self.control = Control::Return(Err(e));
                    },
                    Ok(()) => {
                        if irreversible {
                            self.control = Control::Return(Err(SysError::PermissionDenied));
                        } else {
                            world.reg.clear();
                            self.control = Control::Run { action: *target, depth: deeper(depth) };
                        }
                    },
                }
            },
            Goal::Timeout { on_timeout, marks, depth } => match rollback.finish() {
                Err(e) => {
                    self.control = Control::Return(Err(e));
                },
                Ok(()) => {
                    world.reg.rollback_linear_to(&marks);
                    self.control = Control::Run { action: *on_timeout, depth: deeper(depth) };
                },
            },
        }
        Request::Continue
    }

    /// Undoes the last entry, or goes on when there is none.
    fn undo(
        &mut self,
        world: &mut World<B::Undo>,
        idem: &mut IdempotencyRegistry,
        rollback: Rollback,
        goal: Goal<B>,
    ) -> (request: Request<B>)
        ensures
            crate::semantics::stepped(
                crate::semantics::undo_step(
                    old(self)@,
                    old(world)@,
                    old(idem)@,
                    rollback.mark(),
                    rollback.error(),
                    goal@,
                ),
                final(self)@,
                final(world)@,
                final(idem)@,
                request@,
            ),
    {
        match rollback.next(&mut world.undo) {
            None => self.finish_undo(world, rollback, goal, Ghost(idem@)),
            Some(UndoEntry::Op(op)) => {
                self.control = Control::AwaitUndone { rollback, goal };
                Request::Undo(op)
            },
            Some(UndoEntry::RevertKey(key)) => {
                idem.revert(key.as_str());
                self.control = Control::Undo { rollback, goal };
                Request::Continue
            },
        }
    }

    /// Takes the outcome of an operation in.
    fn executed(
        &mut self,
        world: &mut World<B::Undo>,
        r: Result<(Value, UndoCapability<B::Undo>), SysError>,
        cost: EffectCost,
        resources: ResourceSet,
        next: B::Next,
        depth: usize,
        Ghost(keys): Ghost<crate::idempotency::Keys>,
    ) -> (request: Request<B>)
        ensures
            crate::semantics::stepped(
                crate::semantics::executed_step(
                    old(self)@,
                    old(world)@,
                    keys,
                    r,
                    cost,
                    crate::resource::usages(resources@),
                    next,
                    depth,
                ),
                final(self)@,
                final(world)@,
                keys,
                request@,
            ),
    {
        match r {
            Ok((value, capability)) => {
                world.undo.add_cost(cost);
                match capability {
                    UndoCapability::Identity => {},
                    UndoCapability::Invertible(op) => {
                        world.undo.push(op);
                    },
                    UndoCapability::NonInvertible => {
                        world.undo.mark_irreversible();
                    },
                }
                self.control = Control::AwaitNext { depth };
                Request::Call { next, value }
            },
            Err(e) => {
                world.reg.rollback_linear(resources.as_slice());
                self.control = Control::Return(Err(e));
                Request::Continue
            },
        }
    }

    /// Starts the branches of a fork.
    fn fork(
        &mut self,
        world: &mut World<B::Undo>,
        number: u64,
        left: Box<Action<B>>,
        right: Box<Action<B>>,
        combine: B::Combine,
        depth: usize,
        Ghost(keys): Ghost<crate::idempotency::Keys>,
    ) -> (request: Request<B>)
        ensures
            crate::semantics::stepped(
                crate::semantics::fork_step(
                    old(self)@,
                    old(world)@,
                    keys,
                    number,
                    *left,
                    *right,
                    combine,
                    depth,
                ),
                final(self)@,
                final(world)@,
                keys,
                request@,
            ),
    {
        let offset = match fork_region_offset_for(number) {
            Ok(offset) => offset,
            Err(e) => {
                self.control = Control::Return(Err(e));
                return Request::Continue;
            },
        };
        if !world.reg.region_fits(offset) {
            self.control = Control::Return(Err(SysError::Other(28)));
            return Request::Continue;
        }
        let mut right_reg = world.reg.clone();
        right_reg.offset_next_fd(offset);
        if self.parallel && !fork_conflict(&world.reg, &left, &right) {
            let cancelled = self.is_cancelled();
            let base = match world.ctx.virtual_clock {
                Some(clock) => clock.now(),
                None => Duration::new(0, 0),
            };
            let left = Branch {
                interpreter: Interpreter::branch(*left, self.parallel, cancelled),
                world: World {
                    ctx: world.ctx.clone(),
                    undo: UndoStack::new(),
                    reg: world.reg.clone(),
                },
            };
            let right = Branch {
                interpreter: Interpreter::branch(*right, self.parallel, cancelled),
                world: World { ctx: world.ctx.clone(), undo: UndoStack::new(), reg: right_reg },
            };
            self.control = Control::AwaitBranches { combine, depth, left: None, stash: None, base };
            Request::Spawn { left, right }
        } else {
            let parent = world.reg.clone();
            self.push(Frame::Left { right, right_reg, parent, combine, depth });
            self.control = Control::Run { action: *left, depth: deeper(depth) };
            Request::Continue
        }
    }

    /// Takes the right branch in, after the left one, and goes on.
    fn join_right(
        &mut self,
        world: &mut World<B::Undo>,
        left: Result<Value, SysError>,
        right: Outcome<B::Undo>,
        combine: B::Combine,
        depth: usize,
        base: Duration,
        Ghost(keys): Ghost<crate::idempotency::Keys>,
    ) -> (request: Request<B>)
        ensures
            crate::semantics::stepped(
                crate::semantics::join_right(
                    old(self)@,
                    old(world)@,
                    keys,
                    crate::semantics::result_view(left),
                    crate::semantics::result_view(right.result),
                    right.world@,
                    combine,
                    depth,
                    crate::virtual_clock::duration_nanos(base) as nat,
                ),
                final(self)@,
                final(world)@,
                keys,
                request@,
            ),
    {
        if join(world, right.world, base) {
            self.combine(left, right.result, combine, depth, Ghost(world@), Ghost(keys))
        } else {
            self.control = Control::Finished;
            Request::Overflow
        }
    }

    /// Takes the left branch in, and then the right one if it was done before.
    fn left_done(
        &mut self,
        world: &mut World<B::Undo>,
        outcome: Outcome<B::Undo>,
        combine: B::Combine,
        depth: usize,
        stash: Option<Outcome<B::Undo>>,
        base: Duration,
        Ghost(keys): Ghost<crate::idempotency::Keys>,
    ) -> (request: Request<B>)
        ensures
            crate::semantics::stepped(
                crate::semantics::left_step(
                    old(self)@,
                    old(world)@,
                    keys,
                    crate::semantics::result_view(outcome.result),
                    outcome.world@,
                    combine,
                    depth,
                    outcome_option(stash),
                    crate::virtual_clock::duration_nanos(base) as nat,
                ),
                final(self)@,
                final(world)@,
                keys,
                request@,
            ),
    {
        if !join(world, outcome.world, base) {
            self.control = Control::Finished;
            return Request::Overflow;
        }
        match stash {
            None => {
                self.control = Control::AwaitBranches {
                    combine,
                    depth,
                    left: Some(outcome.result),
                    stash: None,
                    base,
                };
                Request::Wait
            },
            Some(right) => self.join_right(
                world,
                outcome.result,
                right,
                combine,
                depth,
                base,
                Ghost(keys),
            ),
        }
    }

    /// Takes the right branch in if the left one was done before, or keeps it.
    fn right_done(
        &mut self,
        world: &mut World<B::Undo>,
        outcome: Outcome<B::Undo>,
        combine: B::Combine,
        depth: usize,
        left: Option<Result<Value, SysError>>,
        base: Duration,
        Ghost(keys): Ghost<crate::idempotency::Keys>,
    ) -> (request: Request<B>)
        ensures
            crate::semantics::stepped(
                crate::semantics::right_step(
                    old(self)@,
                    old(world)@,
                    keys,
                    crate::semantics::result_view(outcome.result),
                    outcome.world@,
                    combine,
                    depth,
                    result_option(left),
                    crate::virtual_clock::duration_nanos(base) as nat,
                ),
                final(self)@,
                final(world)@,
                keys,
                request@,
            ),
    {
        match left {
            Some(left) => self.join_right(
                world,
                left,
                outcome,
                combine,
                depth,
                base,
                Ghost(keys),
            ),
            None => {
                self.control = Control::AwaitBranches {
                    combine,
                    depth,
                    left: None,
                    stash: Some(outcome),
                    base,
                };
                Request::Wait
            },
        }
    }
}

impl<B: Host> Interpreter<B> {
    /// Takes the driver's answer to the last request and returns the next one.
    /// The first step, and the one after [`Interpreter::abandon`], takes
    /// [`Event::Go`].
    pub fn step(
        &mut self,
        world: &mut World<B::Undo>,
        idem: &mut IdempotencyRegistry,
        event: Event<B>,
    ) -> (request: Request<B>)
        ensures
            crate::semantics::stepped(
                crate::semantics::transition(old(self)@, old(world)@, old(idem)@, event),
                final(self)@,
                final(world)@,
                final(idem)@,
                request@,
            ),
    {
        let mut control = Control::Finished;
        std::mem::swap(&mut control, &mut self.control);
        match (control, event) {
            (Control::Run { action, depth }, Event::Go) => self.run(world, idem, action, depth),
            (Control::Return(r), Event::Go) => self.give_back(world, idem, r),
            (Control::Undo { rollback, goal }, Event::Go) => self.undo(
                world,
                idem,
                rollback,
                goal,
            ),
            (Control::AwaitNext { depth }, Event::Action(action)) => {
                self.control = Control::Run { action, depth };
                Request::Continue
            },
            (
                Control::AwaitChoice { then_branch, else_branch, depth },
                Event::Choice(choice),
            ) => {
                let action = if choice {
                    *then_branch
                } else {
                    *else_branch
                };
                self.control = Control::Run { action, depth };
                Request::Continue
            },
            (
                Control::AwaitExecuted { cost, resources, next, depth },
                Event::Executed(r),
            ) => self.executed(world, r, cost, resources, next, depth, Ghost(idem@)),
            (Control::AwaitReply { next, depth }, Event::Replied(r)) => self.go_on(
                r,
                next,
                depth,
                Ghost(world@),
                Ghost(idem@),
            ),
            (Control::AwaitSlept { next, depth }, Event::Slept) => {
                self.control = Control::AwaitNext { depth };
                Request::Call { next, value: Value::Unit }
            },
            (Control::AwaitUndone { rollback, goal }, Event::Undone(r)) => {
                let mut rollback = rollback;
                rollback.note(r);
                self.control = Control::Undo { rollback, goal };
                Request::Continue
            },
            (
                Control::AwaitRegion { left, right, combine, depth },
                Event::Region(number),
            ) => self.fork(world, number, left, right, combine, depth, Ghost(idem@)),
            (
                Control::AwaitBranches { combine, depth, left: None, stash, base },
                Event::Left(outcome),
            ) => self.left_done(world, outcome, combine, depth, stash, base, Ghost(idem@)),
            (
                Control::AwaitBranches { combine, depth, left, stash: None, base },
                Event::Right(outcome),
            ) => self.right_done(world, outcome, combine, depth, left, base, Ghost(idem@)),
            (control, _) => {
                self.control = control;
                Request::Ignored
            },
        }
    }

    /// Takes note that the timer at a level has expired: what runs above it ends
    /// with an error at its next node, and is then undone.
    pub fn expire(&mut self, level: usize)
        ensures
            final(self)@ == (MachineView {
                frames: crate::semantics::expired_from(old(self)@.frames, level as int),
                ..old(self)@
            }),
    {
        let ghost start = self@.frames;
        let mut i: usize = level;
        while i < self.frames.len()
            invariant
                self.control == old(self).control,
                self.parallel == old(self).parallel,
                self.cancelled == old(self).cancelled,
                start == old(self)@.frames,
                start.len() == self.frames@.len(),
                level <= i,
                forall|j: int|
                    0 <= j < self.frames@.len() ==> (#[trigger] self.frames@[j])@ == (if j < i {
                        crate::semantics::expired_from(start, level as int)[j]
                    } else {
                        start[j]
                    }),
            decreases self.frames@.len() - i,
        {
            let ghost before = self.frames@;
            if let Frame::Timer { expired, .. } = &mut self.frames[i] {
                *expired = true;
            }
            i += 1;
        }
        assert(self@.frames =~= crate::semantics::expired_from(start, level as int));
    }

    /// Takes note that what this machine's blueprint is part of has timed out.
    pub fn cancel(&mut self)
        ensures
            final(self)@ == (MachineView {
                frames: crate::semantics::expired_from(old(self)@.frames, 0),
                cancelled: true,
                ..old(self)@
            }),
    {
        self.cancelled = true;
        self.expire(0);
    }

    /// Gives up what runs above the timer at a level. What was asked for last
    /// needs no answer any more.
    pub fn abandon(&mut self, world: &mut World<B::Undo>, level: usize) -> (request: Request<B>)
        ensures
            forall|k: crate::idempotency::Keys| #[trigger]
                crate::semantics::stepped(
                    crate::semantics::abandonment(old(self)@, old(world)@, k, level as nat),
                    final(self)@,
                    final(world)@,
                    k,
                    request@,
                ),
    {
        if level >= self.frames.len() {
            return Request::Ignored;
        }
        let timer = match &self.frames[level] {
            Frame::Timer { .. } => true,
            Frame::Deadline { .. } => true,
            _ => false,
        };
        if !timer {
            return Request::Ignored;
        }
        let mut control = Control::Finished;
        std::mem::swap(&mut control, &mut self.control);
        if let Control::AwaitBranches { stash: Some(outcome), base, .. } = control {
            if !join(world, outcome.world, base) {
                return Request::Overflow;
            }
        }
        let ghost all = self@.frames;
        let ghost reg = world.reg@;
        let ghost cwd = world.ctx.cwd@;
        let ghost m = self@;
        let ghost w = world@;
        assert(all.take(all.len() as int) =~= all);
        while self.frames.len() > level + 1
            invariant
                level < self.frames@.len() <= all.len(),
                level < usize::MAX,
                self@ == (MachineView { frames: all.take(self.frames@.len() as int), ..m }),
                world@ == crate::semantics::with_cwd(
                    crate::semantics::with_reg(w, world.reg@),
                    world.ctx.cwd@,
                ),
                crate::semantics::registry_below(
                    all.take(self.frames@.len() as int),
                    level as nat,
                    world.reg@,
                ) == crate::semantics::registry_below(all, level as nat, reg),
                crate::semantics::directory_below(
                    all.take(self.frames@.len() as int),
                    level as nat,
                    world.ctx.cwd@,
                ) == crate::semantics::directory_below(all, level as nat, cwd),
            decreases self.frames@.len(),
        {
            proof {
                lemma_pop(self.frames@);
                let n = self.frames@.len() as int;
                assert(all.take(n).drop_last() =~= all.take(n - 1));
            }
            match self.frames.pop() {
                Some(Frame::Left { parent, .. }) => {
                    world.reg = parent;
                },
                Some(Frame::Right { parent, .. }) => {
                    world.reg = parent;
                },
                Some(Frame::Scope { cwd, .. }) => {
                    world.ctx.cwd = cwd;
                },
                _ => {},
            }
        }
        proof {
            lemma_pop(self.frames@);
            assert(all.take(level + 1).drop_last() =~= all.take(level as int));
            assert(all.take(level + 1).last() == all[level as int]);
        }
        match self.frames.pop() {
            Some(Frame::Timer { on_timeout, mark, marks, expired: _, depth }) => {
                let rollback = world.undo.rollback_from(mark);
                let goal = Goal::Timeout { on_timeout, marks, depth };
                self.control = Control::Undo { rollback, goal };
            },
            Some(Frame::Deadline { on_timeout, deadline: _, mark, marks, depth }) => {
                let rollback = world.undo.rollback_from(mark);
                let goal = Goal::Timeout { on_timeout, marks, depth };
                self.control = Control::Undo { rollback, goal };
            },
            _ => {},
        }
        Request::Continue
    }
}

/// Takes a branch's registry, undo stack and clock in, and says whether the clock
/// could be moved that far.
fn join<U>(world: &mut World<U>, branch: World<U>, base: Duration) -> (ok: bool)
    ensures
        (final(world)@, ok) == crate::semantics::joined(
            old(world)@,
            branch@,
            crate::virtual_clock::duration_nanos(base) as nat,
        ),
{
    let now = match branch.ctx.virtual_clock {
        Some(clock) => clock.now(),
        None => base,
    };
    world.reg.merge(branch.reg);
    world.undo.append(branch.undo);
    match world.ctx.virtual_clock {
        Some(clock) => {
            let mut clock = clock;
            let ok = clock.try_advance(saturating_difference(now, base));
            if ok {
                world.ctx.virtual_clock = Some(clock);
            }
            ok
        },
        None => true,
    }
}

} // verus!
