//! Blueprints run to the end by a driver with simulated time.

use std::collections::{HashMap, HashSet, VecDeque};
use std::path::PathBuf;
use std::sync::atomic::{AtomicU64, AtomicUsize, Ordering};
use std::sync::{Arc, Mutex};
use std::time::Duration;

use algeff_core::action::{DataOp, Host, Id, OpenFlags, PipeFlags, Signal, Value};
use algeff_core::coeffects::{Activation, Coeffects, Component, Restore};
use algeff_core::cost::EffectCost;
use algeff_core::error::SysError;
use algeff_core::resource::{
    AccessMode, Owned, ReadOnly, Resource, ResourceArbiter, ResourceHandle, ResourceInner,
    ResourceRegistry, ResourceSet, ResourceUsage, TypedResource, WriteOnly,
};
use algeff_core::runtime::{
    fork_conflict, Alarm, Branch, Context, Event, IdempotencyRegistry, IdempotencyStatus,
    Interpreter, Outcome, Request, Timers, UndoEntry, World,
};
use algeff_core::virtual_clock::VirtualClock;

/// A host whose continuations and inverse operations are closures.
struct Closures;

type Action = algeff_core::Action<Closures>;
type UndoOp = Box<dyn FnOnce() -> Result<(), SysError> + Send>;
type UndoStack = algeff_core::UndoStack<UndoOp>;
type UndoCapability = algeff_core::UndoCapability<UndoOp>;
type Executed = Result<(Value, UndoCapability), SysError>;

impl Host for Closures {
    type Next = Box<dyn FnOnce(Value) -> Action + Send>;
    type Cond = Box<dyn FnOnce(&Value) -> bool + Send>;
    type Combine = Box<dyn FnOnce(Value, Value) -> Action + Send>;
    type Handler = Box<dyn FnOnce(SysError) -> Action + Send>;
    type Undo = UndoOp;
}

/// What runs operations.
trait SyscallExecutor {
    /// An operation starts.
    fn begin(&mut self, _op: &DataOp) {}

    /// How long an operation takes.
    fn delay(&self) -> Duration {
        Duration::ZERO
    }

    /// An operation ends.
    fn execute(&mut self, op: &DataOp, registry: &mut ResourceRegistry) -> Executed;

    fn watch_signal(&mut self, _signal: Signal, _registry: &mut ResourceRegistry) -> Result<Value, SysError> {
        Err(SysError::Other(38))
    }

    fn invoke(&mut self, _id: Id, _captures: &ResourceSet, _deterministic: bool) -> Result<Value, SysError> {
        Err(SysError::Other(38))
    }
}

static FORKS: AtomicU64 = AtomicU64::new(1);

/// What a task waits for.
enum Waiting {
    Step(Event<Closures>),
    Operation(DataOp, Duration),
    Sleep(Duration),
    Branches,
    Nothing,
}

/// A machine with its world, its timers and its branches.
struct Task {
    machine: Interpreter<Closures>,
    world: World<UndoOp>,
    waiting: Waiting,
    timers: Timers,
    branches: Vec<(bool, Task)>,
    result: Option<Result<Value, SysError>>,
}

/// What all tasks share.
struct Shared<'a> {
    ex: &'a mut dyn SyscallExecutor,
    idem: &'a mut IdempotencyRegistry,
    now: Duration,
}

impl Task {
    fn new(machine: Interpreter<Closures>, world: World<UndoOp>) -> Self {
        let waiting = Waiting::Step(Event::Go);
        Task { machine, world, waiting, timers: Timers::new(), branches: Vec::new(), result: None }
    }

    /// Does one thing that can be done now.
    fn advance(&mut self, shared: &mut Shared) -> bool {
        if let Waiting::Step(_) = self.waiting {
            if let Waiting::Step(event) = std::mem::replace(&mut self.waiting, Waiting::Nothing) {
                let request = self.machine.step(&mut self.world, shared.idem, event);
                self.answer(request, shared);
            }
            self.timers.keep_below(self.machine.height());
            return true;
        }
        for (_, branch) in &mut self.branches {
            if branch.advance(shared) {
                return true;
            }
        }
        if let Some(i) = self.branches.iter().position(|(_, b)| b.result.is_some()) {
            let (left, branch) = self.branches.remove(i);
            let outcome = Outcome { result: branch.result.unwrap(), world: branch.world };
            self.waiting = Waiting::Step(if left { Event::Left(outcome) } else { Event::Right(outcome) });
            return true;
        }
        false
    }

    /// Does what the machine asks for.
    fn answer(&mut self, request: Request<Closures>, shared: &mut Shared) {
        self.waiting = match request {
            Request::Continue => Waiting::Step(Event::Go),
            Request::Call { next, value } => Waiting::Step(Event::Action(next(value))),
            Request::Test { cond, value } => Waiting::Step(Event::Choice(cond(&value))),
            Request::Combine { combine, left, right } => Waiting::Step(Event::Action(combine(left, right))),
            Request::Handle { handler, error } => Waiting::Step(Event::Action(handler(error))),
            Request::Execute { op } => {
                shared.ex.begin(&op);
                let delay = shared.ex.delay();
                if delay.is_zero() {
                    Waiting::Step(Event::Executed(shared.ex.execute(&op, &mut self.world.reg)))
                } else {
                    Waiting::Operation(op, shared.now + delay)
                }
            }
            Request::Invoke { foreign_id, captures, deterministic } => {
                Waiting::Step(Event::Replied(shared.ex.invoke(foreign_id, &captures, deterministic)))
            }
            Request::WatchSignal { signal } => {
                Waiting::Step(Event::Replied(shared.ex.watch_signal(signal, &mut self.world.reg)))
            }
            Request::Sleep { duration } => Waiting::Sleep(shared.now + duration),
            Request::Undo(op) => Waiting::Step(Event::Undone(op())),
            Request::Region => Waiting::Step(Event::Region(FORKS.fetch_add(1, Ordering::Relaxed))),
            Request::ArmTimer { level, duration } => {
                self.timers.arm(level, shared.now, duration);
                Waiting::Step(Event::Go)
            }
            Request::Spawn { left, right } => {
                let Branch { interpreter, world } = left;
                self.branches.push((true, Task::new(interpreter, world)));
                let Branch { interpreter, world } = right;
                self.branches.push((false, Task::new(interpreter, world)));
                Waiting::Branches
            }
            Request::Wait => Waiting::Branches,
            Request::Finished(result) => {
                self.result = Some(result);
                Waiting::Nothing
            }
            Request::Overflow => panic!("the virtual clock cannot be moved that far"),
            Request::Ignored => unreachable!(),
        };
    }

    /// The next time at which something happens.
    fn next_time(&self) -> Option<Duration> {
        let own = match &self.waiting {
            Waiting::Operation(_, at) => Some(*at),
            Waiting::Sleep(at) => Some(*at),
            _ => None,
        };
        let branches = self.branches.iter().filter_map(|(_, b)| b.next_time());
        own.into_iter().chain(self.timers.next_time()).chain(branches).min()
    }

    /// Does what is due.
    fn fire(&mut self, shared: &mut Shared) {
        match &self.waiting {
            Waiting::Operation(op, at) if *at <= shared.now => {
                let r = shared.ex.execute(op, &mut self.world.reg);
                self.waiting = Waiting::Step(Event::Executed(r));
                return;
            }
            Waiting::Sleep(at) if *at <= shared.now => {
                self.waiting = Waiting::Step(Event::Slept);
                return;
            }
            _ => {}
        }
        for (_, branch) in &mut self.branches {
            if branch.next_time().is_some_and(|at| at <= shared.now) {
                branch.fire(shared);
                return;
            }
        }
        let real_time = self.world.ctx.virtual_clock.is_none();
        match self.timers.go_off(shared.now, real_time) {
            Some(Alarm::Expire(level)) => {
                self.machine.expire(level);
                self.wake();
                for (_, branch) in &mut self.branches {
                    branch.cancel(shared.now);
                }
            }
            Some(Alarm::Abandon(level)) => {
                self.branches.clear();
                let request = self.machine.abandon(&mut self.world, level);
                self.timers.keep_below(self.machine.height());
                self.answer(request, shared);
            }
            None => {}
        }
    }

    fn wake(&mut self) {
        if let Waiting::Sleep(_) = self.waiting {
            self.waiting = Waiting::Step(Event::Slept);
        }
    }

    fn cancel(&mut self, now: Duration) {
        self.machine.cancel();
        self.timers.expire_from(0, now);
        self.wake();
        for (_, branch) in &mut self.branches {
            branch.cancel(now);
        }
    }
}

/// Runs a blueprint to its end; returns the result and the time it took.
fn run(
    action: Action,
    parallel: bool,
    world: World<UndoOp>,
    idem: &mut IdempotencyRegistry,
    ex: &mut dyn SyscallExecutor,
) -> (Result<Value, SysError>, World<UndoOp>, Duration) {
    let mut shared = Shared { ex, idem, now: Duration::ZERO };
    let mut task = Task::new(Interpreter::new(action, parallel), world);
    while task.result.is_none() {
        if !task.advance(&mut shared) {
            shared.now = task.next_time().unwrap();
            task.fire(&mut shared);
        }
    }
    (task.result.unwrap(), task.world, shared.now)
}

/// A context at the root, with real time.
fn context() -> Context {
    Context::new(String::from("/"), Vec::new(), None)
}

/// A context at the root, with a virtual clock.
fn virtual_context() -> Context {
    Context::new(String::from("/"), Vec::new(), Some(VirtualClock::new()))
}

/// Runs a blueprint without branches side by side.
fn interpret(
    action: Action,
    ctx: &mut Context,
    undo: &mut UndoStack,
    reg: &mut ResourceRegistry,
    ex: &mut dyn SyscallExecutor,
) -> Result<Value, SysError> {
    let world = World {
        ctx: std::mem::replace(ctx, context()),
        undo: std::mem::replace(undo, UndoStack::new()),
        reg: std::mem::replace(reg, ResourceRegistry::new()),
    };
    let (result, world, _) = run(action, false, world, &mut IdempotencyRegistry::new(), ex);
    *ctx = world.ctx;
    *undo = world.undo;
    *reg = world.reg;
    result
}

/// Undoes everything on a stack.
fn recover(undo: &mut UndoStack) -> Result<(), SysError> {
    let mut rollback = undo.recover();
    while let Some(entry) = rollback.next(undo) {
        rollback.note(match entry {
            UndoEntry::Op(op) => op(),
            UndoEntry::RevertKey(_) => Ok(()),
        });
    }
    rollback.end_section(undo)
}

/// An executor with the world that its blueprints run in.
struct Runtime {
    world: World<UndoOp>,
    idem: IdempotencyRegistry,
    ex: Box<dyn SyscallExecutor>,
    elapsed: Duration,
    coeffects: Arc<Mutex<Coeffects>>,
}

impl Runtime {
    fn new(ex: Box<dyn SyscallExecutor>) -> Self {
        Self::with_context(ex, context())
    }

    fn with_context(ex: Box<dyn SyscallExecutor>, ctx: Context) -> Self {
        Runtime {
            world: World { ctx, undo: UndoStack::new(), reg: ResourceRegistry::new() },
            idem: IdempotencyRegistry::new(),
            ex,
            elapsed: Duration::ZERO,
            coeffects: Arc::new(Mutex::new(Coeffects::new())),
        }
    }

    fn run_blocking(&mut self, action: Action) -> Result<Value, SysError> {
        let empty = World { ctx: context(), undo: UndoStack::new(), reg: ResourceRegistry::new() };
        let world = std::mem::replace(&mut self.world, empty);
        let (result, world, elapsed) = run(action, true, world, &mut self.idem, self.ex.as_mut());
        self.world = world;
        self.elapsed = elapsed;
        result
    }

    fn registry(&mut self) -> &mut ResourceRegistry {
        &mut self.world.reg
    }

    fn undo_stack(&mut self) -> &mut UndoStack {
        &mut self.world.undo
    }

    fn recover(&mut self) -> Result<(), SysError> {
        recover(&mut self.world.undo)
    }

    fn virtual_clock(&mut self) -> Option<&mut VirtualClock> {
        self.world.ctx.virtual_clock_mut()
    }

    fn set_dependency(&mut self, k: u64, v: Value) -> Result<Restore, SysError> {
        let (kept, handed) = self.coeffects.lock().unwrap().set_dependency(k, v)?;
        let coeffects = Arc::clone(&self.coeffects);
        self.world.undo.push(Box::new(move || {
            coeffects.lock().unwrap().restore(kept);
            Ok(())
        }));
        Ok(handed)
    }

    fn dependency(&self, k: u64) -> Option<Value> {
        self.coeffects.lock().unwrap().dependency_table().unwrap().get(&k).cloned()
    }

    fn sync_components(&mut self) -> Vec<(usize, Activation)> {
        self.coeffects.lock().unwrap().sync_components()
    }
}

fn mutex_handle() -> ResourceHandle {
    ResourceHandle::Mutex(Arc::new(tokio::sync::Mutex::new(())))
}

fn usage(r: Resource, m: AccessMode) -> ResourceUsage {
    ResourceUsage { resource: r, mode: m }
}

fn rd(fd: u64) -> ResourceUsage {
    TypedResource::<ReadOnly>::new_read(ResourceInner::Fd(fd)).into_usage()
}

fn wr(fd: u64) -> ResourceUsage {
    TypedResource::<WriteOnly>::new_write(ResourceInner::Fd(fd)).into_usage()
}

fn ow(fd: u64) -> ResourceUsage {
    TypedResource::<Owned>::new_owned(ResourceInner::Fd(fd)).into_usage()
}

fn rd_path(path: String) -> ResourceUsage {
    TypedResource::<ReadOnly>::new_read(ResourceInner::Path(path)).into_usage()
}

fn wr_path(path: String) -> ResourceUsage {
    TypedResource::<WriteOnly>::new_write(ResourceInner::Path(path)).into_usage()
}

fn ow_foreign(id: u64) -> ResourceUsage {
    TypedResource::<Owned>::new_owned(ResourceInner::Foreign(id)).into_usage()
}

/// An operation whose value is the blueprint's.
fn syscall_step(op: DataOp, resources: Vec<ResourceUsage>) -> Action {
    Action::Syscall { op, resources, next: Box::new(Action::Pure) }
}

fn syscall(
    op: DataOp,
    resources: Vec<ResourceUsage>,
    next: impl FnOnce(Value) -> Action + Send + 'static,
) -> Action {
    Action::Syscall { op, resources, next: Box::new(next) }
}

/// What a mock answers.
#[derive(Clone)]
enum MockOutcome {
    Value(Value),
    Failure(SysError),
}

/// An executor that logs operations and answers as it was told to.
struct MockExecutor {
    log: Arc<Mutex<Vec<String>>>,
    undo_log: Arc<Mutex<Vec<String>>>,
    responses: HashMap<String, MockOutcome>,
    delay: Duration,
    with_undo: bool,
    alloc_log: Arc<Mutex<Vec<u64>>>,
    path_log: Arc<Mutex<HashMap<u64, String>>>,
    describe: fn(&DataOp) -> String,
    /// Whether opening allocates a handle.
    opens: bool,
    /// Whether only writes can be undone.
    undo_writes_only: bool,
}

/// A write by its handle.
fn describe(op: &DataOp) -> String {
    match op {
        DataOp::Open { path, .. } => format!("open:{path}"),
        DataOp::Write { fd, .. } => format!("write:{fd}"),
        DataOp::Read { fd, len } => format!("read:{fd}:{len}"),
        DataOp::GetTime => "gettime".to_string(),
        other => format!("{other:?}"),
    }
}

/// A write by its handle and its length.
fn describe_sized(op: &DataOp) -> String {
    match op {
        DataOp::Write { fd, data } => format!("write:{fd}:{}", data.len()),
        other => describe(other),
    }
}

impl MockExecutor {
    fn new() -> Self {
        MockExecutor {
            log: Default::default(),
            undo_log: Default::default(),
            responses: HashMap::new(),
            delay: Duration::ZERO,
            with_undo: false,
            alloc_log: Default::default(),
            path_log: Default::default(),
            describe,
            opens: true,
            undo_writes_only: false,
        }
    }

    fn sized() -> Self {
        MockExecutor { describe: describe_sized, opens: false, ..MockExecutor::new() }
    }

    fn respond(&mut self, desc: &str, out: MockOutcome) {
        self.responses.insert(desc.to_string(), out);
    }

    fn ops(&self) -> Vec<String> {
        self.log.lock().unwrap().clone()
    }

    fn undo_ops(&self) -> Vec<String> {
        self.undo_log.lock().unwrap().clone()
    }
}

impl SyscallExecutor for MockExecutor {
    fn begin(&mut self, op: &DataOp) {
        self.log.lock().unwrap().push((self.describe)(op));
    }

    fn delay(&self) -> Duration {
        self.delay
    }

    fn execute(&mut self, op: &DataOp, registry: &mut ResourceRegistry) -> Executed {
        if self.opens {
            if matches!(op, DataOp::Open { .. } | DataOp::PipeOpen { .. }) {
                let fd = registry.allocate(mutex_handle());
                self.alloc_log.lock().unwrap().push(fd);
                if let DataOp::Open { path, .. } = op {
                    self.path_log.lock().unwrap().insert(fd, path.clone());
                }
                return Ok((Value::Fd(fd), UndoCapability::Identity));
            }
            if let DataOp::Read { fd, len } = op {
                if let Some(p) = self.path_log.lock().unwrap().get(fd).cloned() {
                    let mut bytes = p.into_bytes();
                    bytes.truncate(*len);
                    return Ok((Value::Bytes(bytes), UndoCapability::Identity));
                }
            }
        }
        let desc = (self.describe)(op);
        let out = match self.responses.get(&desc).cloned() {
            Some(MockOutcome::Failure(e)) => return Err(e),
            Some(MockOutcome::Value(v)) => v,
            None => Value::Unit,
        };
        let undoable = self.with_undo && (!self.undo_writes_only || matches!(op, DataOp::Write { .. }));
        if undoable {
            let label = format!("undo({desc})");
            let undo_log = Arc::clone(&self.undo_log);
            let undo: UndoOp = Box::new(move || {
                undo_log.lock().unwrap().push(label);
                Ok(())
            });
            Ok((out, UndoCapability::Invertible(undo)))
        } else {
            Ok((out, UndoCapability::Identity))
        }
    }
}

/// An executor that does nothing.
struct NoopExecutor;

impl SyscallExecutor for NoopExecutor {
    fn execute(&mut self, _op: &DataOp, _registry: &mut ResourceRegistry) -> Executed {
        Ok((Value::Unit, UndoCapability::Identity))
    }
}

/// An executor whose operations can all be undone.
struct RecordingExecutor;

impl SyscallExecutor for RecordingExecutor {
    fn execute(&mut self, _op: &DataOp, _registry: &mut ResourceRegistry) -> Executed {
        Ok((Value::Unit, UndoCapability::Invertible(Box::new(|| Ok(())))))
    }
}

/// An executor whose operations all fail.
struct FixedErrorExecutor {
    err: SysError,
}

impl SyscallExecutor for FixedErrorExecutor {
    fn execute(&mut self, _op: &DataOp, _registry: &mut ResourceRegistry) -> Executed {
        Err(self.err)
    }
}

/// An executor that answers from a queue.
struct ScriptExecutor {
    queue: Arc<Mutex<VecDeque<(Value, UndoCapability)>>>,
    fallback: Value,
    calls: Arc<AtomicUsize>,
}

impl ScriptExecutor {
    fn with_values(vals: Vec<Value>, fallback: Value) -> Self {
        let items = vals.into_iter().map(|v| (v, UndoCapability::Identity)).collect();
        ScriptExecutor {
            queue: Arc::new(Mutex::new(items)),
            fallback,
            calls: Arc::new(AtomicUsize::new(0)),
        }
    }
}

impl SyscallExecutor for ScriptExecutor {
    fn execute(&mut self, _op: &DataOp, _registry: &mut ResourceRegistry) -> Executed {
        self.calls.fetch_add(1, Ordering::SeqCst);
        let next = self.queue.lock().unwrap().pop_front();
        Ok(next.unwrap_or((self.fallback.clone(), UndoCapability::Identity)))
    }
}

/// An executor that succeeds and fails from a queue.
struct ScriptedExecutor {
    results: VecDeque<Executed>,
}

impl SyscallExecutor for ScriptedExecutor {
    fn execute(&mut self, _op: &DataOp, _registry: &mut ResourceRegistry) -> Executed {
        self.results.pop_front().unwrap_or(Ok((Value::Unit, UndoCapability::Identity)))
    }
}

/// An executor that logs foreign calls.
struct RecordingInvokeExecutor {
    calls: Arc<Mutex<Vec<(Id, ResourceSet, bool)>>>,
    fail_on: Option<Id>,
}

impl RecordingInvokeExecutor {
    fn new() -> Self {
        RecordingInvokeExecutor { calls: Arc::new(Mutex::new(Vec::new())), fail_on: None }
    }
}

impl SyscallExecutor for RecordingInvokeExecutor {
    fn execute(&mut self, _op: &DataOp, _registry: &mut ResourceRegistry) -> Executed {
        Ok((Value::Unit, UndoCapability::Identity))
    }

    fn invoke(&mut self, foreign_id: Id, captures: &ResourceSet, deterministic: bool) -> Result<Value, SysError> {
        let n_captures = captures.len();
        self.calls.lock().unwrap().push((foreign_id, captures.clone(), deterministic));
        if Some(foreign_id) == self.fail_on {
            return Err(SysError::Other(99));
        }
        Ok(Value::U64(foreign_id * 1000 + n_captures as u64))
    }
}

fn nested_fork_action(p1: &str, p2: &str, p3: &str, got: Arc<Mutex<Vec<u64>>>) -> Action {
    let got_inner = Arc::clone(&got);
    let inner_fork = Action::Fork {
        left: Box::new(syscall_step(
            DataOp::Open {
                path: String::from(p1),
                flags: OpenFlags::default(),
            },
            vec![usage(Resource::Path(p1.to_string()), AccessMode::Read)],
        )),
        right: Box::new(syscall_step(
            DataOp::Open {
                path: String::from(p2),
                flags: OpenFlags::default(),
            },
            vec![usage(Resource::Path(p2.to_string()), AccessMode::Read)],
        )),
        combine: Box::new(move |l, r| match (l, r) {
            (Value::Fd(a), Value::Fd(b)) => {
                let mut g = got_inner.lock().unwrap();
                g.push(a);
                g.push(b);
                Action::Pure(Value::List(vec![Value::Fd(a), Value::Fd(b)]))
            }
            _ => Action::Pure(Value::Unit),
        }),
    };
    let got_outer = Arc::clone(&got);
    Action::Fork {
        left: Box::new(inner_fork),
        right: Box::new(syscall_step(
            DataOp::Open {
                path: String::from(p3),
                flags: OpenFlags::default(),
            },
            vec![usage(Resource::Path(p3.to_string()), AccessMode::Read)],
        )),
        combine: Box::new(move |l, r| match (l, r) {
            (Value::List(_), Value::Fd(c)) => {
                got_outer.lock().unwrap().push(c);
                Action::Pure(Value::Unit)
            }
            _ => Action::Pure(Value::Unit),
        }),
    }
}

fn assert_fds_disjoint_lookupable(fds: &[u64], reg: &ResourceRegistry) {
    let mut uniq = HashSet::new();
    for fd in fds {
        assert!(uniq.insert(*fd));
        assert!(reg.lookup(*fd).is_some());
    }
    assert_eq!(uniq.len(), fds.len());
}

fn read_back_rt(rt: &mut Runtime, fd: u64) -> Vec<u8> {
    let action = Action::Sequential {
        current: Box::new(syscall_step(
            DataOp::Read { fd, len: 64 },
            vec![usage(Resource::Fd(fd), AccessMode::Read)],
        )),
        next: Box::new(|v| match v {
            Value::Bytes(b) => Action::Pure(Value::Bytes(b)),
            _ => Action::Pure(Value::Unit),
        }),
    };
    match rt.run_blocking(action) {
        Ok(Value::Bytes(b)) => b,
        _ => panic!("unexpected shape"),
    }
}

fn read_back_direct(ex: &mut MockExecutor, reg: &mut ResourceRegistry, fd: u64) -> Vec<u8> {
    let mut ctx = context();
    let mut undo = UndoStack::new();
    let action = Action::Sequential {
        current: Box::new(syscall_step(
            DataOp::Read { fd, len: 64 },
            vec![usage(Resource::Fd(fd), AccessMode::Read)],
        )),
        next: Box::new(|v| match v {
            Value::Bytes(b) => Action::Pure(Value::Bytes(b)),
            _ => Action::Pure(Value::Unit),
        }),
    };
    match interpret(action, &mut ctx, &mut undo, reg, ex) {
        Ok(Value::Bytes(b)) => b,
        _ => panic!("unexpected shape"),
    }
}

fn nested_seq_chain(depth: u64) -> Action {
    if depth == 0 {
        return Action::Pure(Value::U64(300));
    }
    Action::Sequential {
        current: Box::new(nested_seq_chain(depth - 1)),
        next: Box::new(Action::Pure),
    }
}

#[test]
fn pure_unit() {
    let mut ctx = context();
    let mut undo = UndoStack::new();
    let mut reg = ResourceRegistry::new();
    let mut ex = MockExecutor::new();
    let v = interpret(
        Action::Pure(Value::Unit),
        &mut ctx,
        &mut undo,
        &mut reg,
        &mut ex,
    );
    assert_eq!(v, Ok(Value::Unit));
    assert!(ex.ops().is_empty());
}

#[test]
fn sequential_value_flow() {
    let mut ctx = context();
    let mut undo = UndoStack::new();
    let mut reg = ResourceRegistry::new();
    let mut ex = MockExecutor::new();
    ex.respond("gettime", MockOutcome::Value(Value::U64(21)));

    let action = Action::Sequential {
        current: Box::new(syscall_step(DataOp::GetTime, vec![])),
        next: Box::new(|v| match v {
            Value::U64(n) => Action::Pure(Value::U64(n * 2)),
            _ => Action::Pure(Value::Unit),
        }),
    };
    let v = interpret(action, &mut ctx, &mut undo, &mut reg, &mut ex);
    assert_eq!(v, Ok(Value::U64(42)));
    assert_eq!(ex.ops(), vec!["gettime"]);
}

#[test]
fn choose_picks_then_branch() {
    let mut ctx = context();
    let mut undo = UndoStack::new();
    let mut reg = ResourceRegistry::new();
    let mut ex = MockExecutor::new();
    ex.respond("gettime", MockOutcome::Value(Value::U64(5)));
    ex.respond("read:7:4", MockOutcome::Value(Value::Bool(true)));

    let action = Action::Choose {
        cond: Box::new(|cur| matches!(cur, Value::Unit)),
        then_branch: Box::new(syscall_step(DataOp::GetTime, vec![])),
        else_branch: Box::new(syscall_step(DataOp::Read { fd: 7, len: 4 }, vec![])),
    };
    let v = interpret(action, &mut ctx, &mut undo, &mut reg, &mut ex);
    assert_eq!(v, Ok(Value::U64(5)));
    assert_eq!(ex.ops(), vec!["gettime"]);
}

#[test]
fn choose_picks_else_branch() {
    let mut ctx = context();
    let mut undo = UndoStack::new();
    let mut reg = ResourceRegistry::new();
    let mut ex = MockExecutor::new();
    ex.respond("gettime", MockOutcome::Value(Value::U64(5)));
    ex.respond("read:7:4", MockOutcome::Value(Value::Bool(true)));

    let action = Action::Choose {
        cond: Box::new(|_| false),
        then_branch: Box::new(syscall_step(DataOp::GetTime, vec![])),
        else_branch: Box::new(syscall_step(DataOp::Read { fd: 7, len: 4 }, vec![])),
    };
    let v = interpret(action, &mut ctx, &mut undo, &mut reg, &mut ex);
    assert_eq!(v, Ok(Value::Bool(true)));
    assert_eq!(ex.ops(), vec!["read:7:4"]);
}

#[test]
fn fork_conflict_sequential_execution() {
    let l_set = vec![usage(Resource::Fd(1), AccessMode::Write)];
    let r_set = vec![usage(Resource::Fd(1), AccessMode::Write)];
    assert!(!ResourceRegistry::new().can_parallel(&l_set, &r_set));

    let mut ctx = context();
    let mut undo = UndoStack::new();
    let mut reg = ResourceRegistry::new();
    let mut ex = MockExecutor::new();
    ex.respond("write:1", MockOutcome::Value(Value::U64(10)));
    ex.respond("read:1:8", MockOutcome::Value(Value::U64(20)));

    let action = Action::Fork {
        left: Box::new(syscall_step(
            DataOp::Write {
                fd: 1,
                data: vec![0xAA],
            },
            l_set,
        )),
        right: Box::new(syscall_step(DataOp::Read { fd: 1, len: 8 }, r_set)),
        combine: Box::new(|l, r| match (l, r) {
            (Value::U64(a), Value::U64(b)) => Action::Pure(Value::U64(a + b)),
            _ => Action::Pure(Value::Unit),
        }),
    };
    let v = interpret(action, &mut ctx, &mut undo, &mut reg, &mut ex);
    assert_eq!(v, Ok(Value::U64(30)));
    assert_eq!(ex.ops(), vec!["write:1", "read:1:8"]);
}

#[test]
fn fork_disjoint_resources_can_parallel() {
    let l_set = vec![usage(Resource::Fd(1), AccessMode::Write)];
    let r_set = vec![usage(Resource::Fd(2), AccessMode::Write)];
    assert!(ResourceRegistry::new().can_parallel(&l_set, &r_set));

    let mut ctx = context();
    let mut undo = UndoStack::new();
    let mut reg = ResourceRegistry::new();
    let mut ex = MockExecutor::new();
    ex.respond("write:1", MockOutcome::Value(Value::U64(10)));
    ex.respond("write:2", MockOutcome::Value(Value::U64(20)));

    let action = Action::Fork {
        left: Box::new(syscall_step(
            DataOp::Write {
                fd: 1,
                data: vec![],
            },
            l_set,
        )),
        right: Box::new(syscall_step(
            DataOp::Write {
                fd: 2,
                data: vec![],
            },
            r_set,
        )),
        combine: Box::new(|l, r| match (l, r) {
            (Value::U64(a), Value::U64(b)) => Action::Pure(Value::U64(a + b)),
            _ => Action::Pure(Value::Unit),
        }),
    };
    let v = interpret(action, &mut ctx, &mut undo, &mut reg, &mut ex);
    assert_eq!(v, Ok(Value::U64(30)));
    assert_eq!(ex.ops(), vec!["write:1", "write:2"]);
}

#[test]
fn scope_restores_cwd() {
    let mut ctx = context();
    ctx.cwd = String::from("/app");
    let mut undo = UndoStack::new();
    let mut reg = ResourceRegistry::new();
    let mut ex = MockExecutor::new();
    ex.respond("gettime", MockOutcome::Value(Value::U64(7)));

    let action = Action::Scope {
        base: PathBuf::from("sub/dir"),
        inner: Box::new(syscall_step(DataOp::GetTime, vec![])),
        next: Box::new(Action::Pure),
    };
    let v = interpret(action, &mut ctx, &mut undo, &mut reg, &mut ex);
    assert_eq!(v, Ok(Value::U64(7)));
    assert_eq!(ctx.cwd, String::from("/app"));
    assert_eq!(ex.ops(), vec!["gettime"]);
}

#[test]
fn scope_restores_cwd_on_error() {
    let mut ctx = context();
    ctx.cwd = String::from("/app");
    let mut undo = UndoStack::new();
    let mut reg = ResourceRegistry::new();
    let mut ex = MockExecutor::new();
    ex.respond("gettime", MockOutcome::Failure(SysError::NotFound));

    let action = Action::Scope {
        base: PathBuf::from("sub"),
        inner: Box::new(syscall_step(DataOp::GetTime, vec![])),
        next: Box::new(Action::Pure),
    };
    let v = interpret(action, &mut ctx, &mut undo, &mut reg, &mut ex);
    assert_eq!(v, Err(SysError::NotFound));
    assert_eq!(ctx.cwd, String::from("/app"));
}

#[test]
fn alloc_zeroed_bytes() {
    let got = Arc::new(Mutex::new(None));
    let got2 = Arc::clone(&got);
    let action = Action::Alloc {
        len: 8,
        next: Box::new(move |v| {
            *got2.lock().unwrap() = Some(v);
            Action::Pure(Value::Unit)
        }),
    };
    let mut ctx = context();
    let mut undo = UndoStack::new();
    let mut reg = ResourceRegistry::new();
    let mut ex = MockExecutor::new();
    let v = interpret(action, &mut ctx, &mut undo, &mut reg, &mut ex);
    assert_eq!(v, Ok(Value::Unit));
    assert_eq!(*got.lock().unwrap(), Some(Value::Bytes(vec![0u8; 8])));
}

#[test]
fn timeout_fires_on_timeout() {
    let mut ctx = context();
    let mut undo = UndoStack::new();
    let mut reg = ResourceRegistry::new();
    let mut ex = MockExecutor::new();
    ex.delay = Duration::from_millis(100);

    let action = Action::Timeout {
        action: Box::new(syscall_step(DataOp::GetTime, vec![])),
        duration: Duration::from_millis(10),
        on_timeout: Box::new(Action::Pure(Value::U64(99))),
    };
    let v = interpret(action, &mut ctx, &mut undo, &mut reg, &mut ex);
    assert_eq!(v, Ok(Value::U64(99)));
    assert_eq!(ex.ops(), vec!["gettime"]);
}

#[test]
fn catch_error_invokes_handler() {
    let mut ctx = context();
    let mut undo = UndoStack::new();
    let mut reg = ResourceRegistry::new();
    let mut ex = MockExecutor::new();
    ex.respond("gettime", MockOutcome::Failure(SysError::NotFound));
    let handled = Arc::new(Mutex::new(false));
    let handled2 = Arc::clone(&handled);

    let action = Action::Catch {
        action: Box::new(syscall_step(DataOp::GetTime, vec![])),
        handler: Box::new(move |e| {
            *handled2.lock().unwrap() = true;
            Action::Pure(Value::Str(format!("handled:{}", e.to_string())))
        }),
    };
    let v = interpret(action, &mut ctx, &mut undo, &mut reg, &mut ex);
    assert_eq!(v, Ok(Value::Str("handled:NotFound(errno 2)".to_string())));
    assert!(*handled.lock().unwrap());
}

#[test]
fn catch_passthrough_on_ok() {
    let mut ctx = context();
    let mut undo = UndoStack::new();
    let mut reg = ResourceRegistry::new();
    let mut ex = MockExecutor::new();
    ex.respond("gettime", MockOutcome::Value(Value::U64(1)));
    let handled = Arc::new(Mutex::new(false));
    let handled2 = Arc::clone(&handled);

    let action = Action::Catch {
        action: Box::new(syscall_step(DataOp::GetTime, vec![])),
        handler: Box::new(move |_e| {
            *handled2.lock().unwrap() = true;
            Action::Pure(Value::Unit)
        }),
    };
    let v = interpret(action, &mut ctx, &mut undo, &mut reg, &mut ex);
    assert_eq!(v, Ok(Value::U64(1)));
    assert!(!*handled.lock().unwrap());
}

#[test]
fn replace_recovers_undo_stack() {
    let mut ctx = context();
    let mut undo = UndoStack::new();
    let mut reg = ResourceRegistry::new();
    let mut ex = MockExecutor::new();
    ex.with_undo = true;
    ex.respond("gettime", MockOutcome::Value(Value::U64(1)));
    ex.respond("read:2:4", MockOutcome::Value(Value::U64(2)));

    let action = Action::Sequential {
        current: Box::new(syscall_step(DataOp::GetTime, vec![])),
        next: Box::new(|_| Action::Sequential {
            current: Box::new(syscall_step(DataOp::Read { fd: 2, len: 4 }, vec![])),
            next: Box::new(|_| Action::Replace {
                target: Box::new(Action::Pure(Value::U64(55))),
            }),
        }),
    };
    let v = interpret(action, &mut ctx, &mut undo, &mut reg, &mut ex);
    assert_eq!(v, Ok(Value::U64(55)));
    assert_eq!(ex.undo_ops(), vec!["undo(read:2:4)", "undo(gettime)"]);
    assert!(undo.is_empty());
}

#[test]
fn undo_stack_lifo_order() {
    let mut ctx = context();
    let mut undo = UndoStack::new();
    let mut reg = ResourceRegistry::new();
    let mut ex = MockExecutor::new();
    ex.with_undo = true;

    let action = Action::Sequential {
        current: Box::new(syscall_step(DataOp::GetTime, vec![])),
        next: Box::new(|_| Action::Sequential {
            current: Box::new(syscall_step(DataOp::Read { fd: 2, len: 4 }, vec![])),
            next: Box::new(|_| Action::Pure(Value::Unit)),
        }),
    };
    let v = {
        let v = interpret(action, &mut ctx, &mut undo, &mut reg, &mut ex);
        assert_eq!(undo.len(), 2);
        recover(&mut undo).unwrap();
        v
    };
    assert_eq!(v, Ok(Value::Unit));
    assert_eq!(ex.undo_ops(), vec!["undo(read:2:4)", "undo(gettime)"]);
    assert!(undo.is_empty());
}

#[test]
fn runtime_smoke() {
    let mut rt = Runtime::new(Box::new(MockExecutor::new()));
    let v = rt.run_blocking(Action::Pure(Value::Unit));
    assert_eq!(v, Ok(Value::Unit));
}

#[test]
fn runtime_run_blocking_full_path() {
    let mut rt = Runtime::new(Box::new(MockExecutor::new()));
    let v = rt.run_blocking(Action::Alloc {
        len: 3,
        next: Box::new(Action::Pure),
    });
    assert_eq!(v, Ok(Value::Bytes(vec![0, 0, 0])));
}

#[test]
fn sequential_empty_chain_convergence() {
    let mut ctx = context();
    let mut undo = UndoStack::new();
    let mut reg = ResourceRegistry::new();
    let mut ex = MockExecutor::new();

    let action = Action::Sequential {
        current: Box::new(Action::Pure(Value::U64(3))),
        next: Box::new(|v| match v {
            Value::U64(n) => Action::Pure(Value::U64(n + 1)),
            _ => Action::Pure(Value::Unit),
        }),
    };
    let v = interpret(action, &mut ctx, &mut undo, &mut reg, &mut ex);
    assert_eq!(v, Ok(Value::U64(4)));
    assert!(ex.ops().is_empty());
}

#[test]
fn scope_nested_cwd_join_and_restore() {
    let mut ctx = context();
    ctx.cwd = String::from("/app");
    let mut undo = UndoStack::new();
    let mut reg = ResourceRegistry::new();
    let mut ex = MockExecutor::new();
    ex.respond("gettime", MockOutcome::Value(Value::U64(7)));

    let joined = reg.canonicalize_path(
        ("b"),
        &reg.canonicalize_path("a", "/app"),
    );
    assert_eq!(joined, String::from("/app/a/b"));

    let action = Action::Scope {
        base: PathBuf::from("a"),
        inner: Box::new(Action::Scope {
            base: PathBuf::from("b"),
            inner: Box::new(syscall_step(DataOp::GetTime, vec![])),
            next: Box::new(Action::Pure),
        }),
        next: Box::new(Action::Pure),
    };
    let v = interpret(action, &mut ctx, &mut undo, &mut reg, &mut ex);
    assert_eq!(v, Ok(Value::U64(7)));
    assert_eq!(ctx.cwd, String::from("/app"));
    assert_eq!(ex.ops(), vec!["gettime"]);
}

#[test]
fn timeout_nested_inner_fires_first() {
    let mut ctx = context();
    let mut undo = UndoStack::new();
    let mut reg = ResourceRegistry::new();
    let mut ex = MockExecutor::new();
    ex.delay = Duration::from_millis(100);

    let action = Action::Timeout {
        action: Box::new(Action::Timeout {
            action: Box::new(syscall_step(DataOp::GetTime, vec![])),
            duration: Duration::from_millis(20),
            on_timeout: Box::new(Action::Pure(Value::U64(1))),
        }),
        duration: Duration::from_millis(500),
        on_timeout: Box::new(Action::Pure(Value::U64(2))),
    };
    let v = interpret(action, &mut ctx, &mut undo, &mut reg, &mut ex);
    assert_eq!(v, Ok(Value::U64(1)));
    assert_eq!(ex.ops(), vec!["gettime"]);
}

#[test]
fn timeout_nested_outer_fires_first() {
    let mut ctx = context();
    let mut undo = UndoStack::new();
    let mut reg = ResourceRegistry::new();
    let mut ex = MockExecutor::new();
    ex.delay = Duration::from_millis(100);

    let action = Action::Timeout {
        action: Box::new(Action::Timeout {
            action: Box::new(syscall_step(DataOp::GetTime, vec![])),
            duration: Duration::from_millis(200),
            on_timeout: Box::new(Action::Pure(Value::U64(1))),
        }),
        duration: Duration::from_millis(50),
        on_timeout: Box::new(Action::Pure(Value::U64(2))),
    };
    let v = interpret(action, &mut ctx, &mut undo, &mut reg, &mut ex);
    assert_eq!(v, Ok(Value::U64(2)));
    assert_eq!(ex.ops(), vec!["gettime"]);
}

#[test]
fn catch_after_partial_undo_keeps_stack() {
    let mut ctx = context();
    let mut undo = UndoStack::new();
    let mut reg = ResourceRegistry::new();
    let mut ex = MockExecutor::new();
    ex.with_undo = true;
    ex.respond("gettime", MockOutcome::Value(Value::U64(1)));
    ex.respond("read:2:4", MockOutcome::Failure(SysError::NotFound));

    let action = Action::Catch {
        action: Box::new(Action::Sequential {
            current: Box::new(syscall_step(DataOp::GetTime, vec![])),
            next: Box::new(|_| Action::Sequential {
                current: Box::new(syscall_step(DataOp::Read { fd: 2, len: 4 }, vec![])),
                next: Box::new(|_| Action::Pure(Value::Unit)),
            }),
        }),
        handler: Box::new(|_e| Action::Pure(Value::U64(7))),
    };
    let v = {
        let v = interpret(action, &mut ctx, &mut undo, &mut reg, &mut ex);
        assert_eq!(undo.len(), 1);
        v
    };
    assert_eq!(v, Ok(Value::U64(7)));

    recover(&mut undo).unwrap();
    assert_eq!(ex.undo_ops(), vec!["undo(gettime)"]);
    assert!(undo.is_empty());
}

#[test]
fn watch_signal_default_enosys() {
    let mut ctx = context();
    let mut undo = UndoStack::new();
    let mut reg = ResourceRegistry::new();
    let mut ex = MockExecutor::new();

    let action = Action::WatchSignal {
        signal: 2,
        next: Box::new(|_| Action::Pure(Value::Unit)),
    };
    let v = interpret(action, &mut ctx, &mut undo, &mut reg, &mut ex);
    assert_eq!(v, Err(SysError::Other(38)));
    assert!(undo.is_empty());
}

#[test]
fn invoke_default_enosys() {
    let mut ctx = context();
    let mut undo = UndoStack::new();
    let mut reg = ResourceRegistry::new();
    let mut ex = MockExecutor::new();

    let action = Action::Invoke {
        foreign_id: 1,
        captures: vec![],
        yields: vec![],
        deterministic: true,
        next: Box::new(|_| Action::Pure(Value::Unit)),
    };
    let v = interpret(action, &mut ctx, &mut undo, &mut reg, &mut ex);
    assert_eq!(v, Err(SysError::Other(38)));
    assert!(undo.is_empty());
}

#[test]
fn fork_parallel_undo_merge() {
    let mut ex = MockExecutor::new();
    ex.with_undo = true;
    ex.respond("write:1", MockOutcome::Value(Value::U64(10)));
    ex.respond("write:2", MockOutcome::Value(Value::U64(20)));

    let undo_log = Arc::clone(&ex.undo_log);
    let mut rt = Runtime::new(Box::new(ex));

    let action = Action::Fork {
        left: Box::new(syscall_step(
            DataOp::Write {
                fd: 1,
                data: vec![0xAA],
            },
            vec![usage(Resource::Fd(1), AccessMode::Write)],
        )),
        right: Box::new(syscall_step(
            DataOp::Write {
                fd: 2,
                data: vec![0xBB],
            },
            vec![usage(Resource::Fd(2), AccessMode::Write)],
        )),
        combine: Box::new(|l, r| match (l, r) {
            (Value::U64(a), Value::U64(b)) => Action::Pure(Value::U64(a + b)),
            _ => Action::Pure(Value::Unit),
        }),
    };
    let v = rt.run_blocking(action);
    assert_eq!(v, Ok(Value::U64(30)));
    assert_eq!(rt.undo_stack().len(), 2);

    rt.recover().unwrap();
    assert_eq!(*undo_log.lock().unwrap(),
        vec!["undo(write:2)".to_string(), "undo(write:1)".to_string()]);
    assert!(rt.undo_stack().is_empty());
}

#[test]
fn fork_parallel_both_branches_allocate_fds_disjoint() {
    let ex = MockExecutor::new();
    let got = Arc::new(Mutex::new(None::<(u64, u64)>));
    let got2 = Arc::clone(&got);
    let mut rt = Runtime::new(Box::new(ex));

    let action = Action::Fork {
        left: Box::new(syscall_step(
            DataOp::Open {
                path: String::from("/left"),
                flags: OpenFlags::default(),
            },
            vec![usage(Resource::Path("/left".to_string()), AccessMode::Read)],
        )),
        right: Box::new(syscall_step(
            DataOp::PipeOpen {
                flags: PipeFlags::default(),
            },
            vec![usage(
                Resource::Path("/right-pipe".to_string()),
                AccessMode::Read,
            )],
        )),
        combine: Box::new(move |l, r| match (l, r) {
            (Value::Fd(lfd), Value::Fd(rfd)) => {
                *got2.lock().unwrap() = Some((lfd, rfd));
                Action::Pure(Value::Unit)
            }
            _ => Action::Pure(Value::Unit),
        }),
    };
    let v = rt.run_blocking(action);
    assert_eq!(v, Ok(Value::Unit));
    let (lfd, rfd) = got.lock().unwrap().unwrap();
    assert_ne!(lfd, rfd);
    assert!(rt.registry().lookup(lfd).is_some());
    assert!(rt.registry().lookup(rfd).is_some());

    let nfd = rt
        .registry()
        .allocate(mutex_handle());
    assert!(nfd > lfd && nfd > rfd);
}

#[test]
fn fork_conflict_merge_keeps_linear_marks() {
    let mut ctx = context();
    let mut undo = UndoStack::new();
    let mut reg = ResourceRegistry::new();
    let mut ex = MockExecutor::new();
    ex.respond("write:1", MockOutcome::Value(Value::U64(10)));

    let w = usage(Resource::Fd(1), AccessMode::Write);
    let action = Action::Fork {
        left: Box::new(syscall_step(
            DataOp::Write {
                fd: 1,
                data: vec![0xAA],
            },
            vec![w.clone()],
        )),
        right: Box::new(syscall_step(
            DataOp::Write {
                fd: 1,
                data: vec![0xBB],
            },
            vec![w.clone()],
        )),
        combine: Box::new(|l, r| match (l, r) {
            (Value::U64(a), Value::U64(b)) => Action::Pure(Value::U64(a + b)),
            _ => Action::Pure(Value::Unit),
        }),
    };
    let v = interpret(action, &mut ctx, &mut undo, &mut reg, &mut ex);
    assert_eq!(v, Ok(Value::U64(20)));
    assert_eq!(ex.ops(), vec!["write:1", "write:1"]);

    assert_eq!(reg.check_linear(&w), Err(SysError::InvalidInput));
}

#[test]
fn fork_sequential_both_branches_allocate_fds_disjoint() {
    let mut ctx = context();
    let mut undo = UndoStack::new();
    let mut reg = ResourceRegistry::new();
    let mut ex = MockExecutor::new();

    let got = Arc::new(Mutex::new(None::<(u64, u64)>));
    let got2 = Arc::clone(&got);

    let action = Action::Fork {
        left: Box::new(syscall_step(
            DataOp::Open {
                path: String::from("/seq-l"),
                flags: OpenFlags::default(),
            },
            vec![usage(
                Resource::Path("/seq-l".to_string()),
                AccessMode::Read,
            )],
        )),
        right: Box::new(syscall_step(
            DataOp::Open {
                path: String::from("/seq-r"),
                flags: OpenFlags::default(),
            },
            vec![usage(
                Resource::Path("/seq-r".to_string()),
                AccessMode::Read,
            )],
        )),
        combine: Box::new(move |l, r| match (l, r) {
            (Value::Fd(lfd), Value::Fd(rfd)) => {
                *got2.lock().unwrap() = Some((lfd, rfd));
                Action::Pure(Value::Unit)
            }
            _ => Action::Pure(Value::Unit),
        }),
    };
    let v = interpret(action, &mut ctx, &mut undo, &mut reg, &mut ex);
    assert_eq!(v, Ok(Value::Unit));
    let (lfd, rfd) = got.lock().unwrap().unwrap();
    assert_ne!(lfd, rfd);
    assert!(reg.lookup(lfd).is_some());
    assert!(reg.lookup(rfd).is_some());
}

#[test]
fn fork_nested_parallel_fds_disjoint_and_readback() {
    let ex = MockExecutor::new();
    let path_log = ex.path_log.clone();
    let got = Arc::new(Mutex::new(Vec::<u64>::new()));
    let mut rt = Runtime::new(Box::new(ex));

    let action = nested_fork_action("/n-a", "/n-b", "/o-c", Arc::clone(&got));
    let v = rt.run_blocking(action);
    assert_eq!(v, Ok(Value::Unit));

    let mut fds = got.lock().unwrap().clone();
    assert_eq!(fds.len(), 3);
    fds.sort_unstable();
    assert_fds_disjoint_lookupable(&fds, rt.registry());

    {
        let log = path_log.lock().unwrap();
        assert_eq!(log.len(), 3);
        for fd in &fds {
            assert!(log.contains_key(fd));
        }
    }

    let entries: Vec<(u64, String)> = {
        let log = path_log.lock().unwrap();
        log.iter().map(|(fd, p)| (*fd, p.clone())).collect()
    };
    for (fd, path) in entries {
        let content = read_back_rt(&mut rt, fd);
        assert_eq!(String::from_utf8_lossy(&content), path.as_str());
    }
}

#[test]
fn fork_nested_sequential_fds_disjoint_and_readback() {
    let mut ctx = context();
    let mut undo = UndoStack::new();
    let mut reg = ResourceRegistry::new();
    let mut ex = MockExecutor::new();
    let path_log = ex.path_log.clone();
    let got = Arc::new(Mutex::new(Vec::<u64>::new()));

    let action = nested_fork_action("/s-a", "/s-b", "/s-c", Arc::clone(&got));
    let v = interpret(action, &mut ctx, &mut undo, &mut reg, &mut ex);
    assert_eq!(v, Ok(Value::Unit));

    let mut fds = got.lock().unwrap().clone();
    assert_eq!(fds.len(), 3);
    fds.sort_unstable();
    assert_fds_disjoint_lookupable(&fds, &reg);

    {
        let log = path_log.lock().unwrap();
        assert_eq!(log.len(), 3);
    }
    let entries: Vec<(u64, String)> = {
        let log = path_log.lock().unwrap();
        log.iter().map(|(fd, p)| (*fd, p.clone())).collect()
    };
    for (fd, path) in entries {
        let content = read_back_direct(&mut ex, &mut reg, fd);
        assert_eq!(String::from_utf8_lossy(&content), path.as_str());
    }
}

#[test]
fn fork_nested_depth3_smoke() {
    let ex = MockExecutor::new();
    let got = Arc::new(Mutex::new(Vec::<u64>::new()));
    let mut rt = Runtime::new(Box::new(ex));

    let got_ii = Arc::clone(&got);
    let inner_inner = Action::Fork {
        left: Box::new(syscall_step(
            DataOp::Open {
                path: String::from("/d1"),
                flags: OpenFlags::default(),
            },
            vec![usage(Resource::Path("/d1".to_string()), AccessMode::Read)],
        )),
        right: Box::new(syscall_step(
            DataOp::Open {
                path: String::from("/d2"),
                flags: OpenFlags::default(),
            },
            vec![usage(Resource::Path("/d2".to_string()), AccessMode::Read)],
        )),
        combine: Box::new(move |l, r| match (l, r) {
            (Value::Fd(a), Value::Fd(b)) => {
                let mut g = got_ii.lock().unwrap();
                g.push(a);
                g.push(b);
                Action::Pure(Value::List(vec![Value::Fd(a), Value::Fd(b)]))
            }
            _ => Action::Pure(Value::Unit),
        }),
    };
    let got_mid = Arc::clone(&got);
    let middle = Action::Fork {
        left: Box::new(inner_inner),
        right: Box::new(syscall_step(
            DataOp::Open {
                path: String::from("/d3"),
                flags: OpenFlags::default(),
            },
            vec![usage(Resource::Path("/d3".to_string()), AccessMode::Read)],
        )),
        combine: Box::new(move |l, r| match (l, r) {
            (Value::List(mut vs), Value::Fd(c)) => {
                got_mid.lock().unwrap().push(c);
                vs.push(Value::Fd(c));
                Action::Pure(Value::List(vs))
            }
            _ => Action::Pure(Value::Unit),
        }),
    };
    let got_outer = Arc::clone(&got);
    let action = Action::Fork {
        left: Box::new(middle),
        right: Box::new(syscall_step(
            DataOp::Open {
                path: String::from("/d4"),
                flags: OpenFlags::default(),
            },
            vec![usage(Resource::Path("/d4".to_string()), AccessMode::Read)],
        )),
        combine: Box::new(move |l, r| match (l, r) {
            (Value::List(_), Value::Fd(c)) => {
                got_outer.lock().unwrap().push(c);
                Action::Pure(Value::Unit)
            }
            _ => Action::Pure(Value::Unit),
        }),
    };

    let v = rt.run_blocking(action);
    assert_eq!(v, Ok(Value::Unit));

    let mut fds = got.lock().unwrap().clone();
    assert_eq!(fds.len(), 4);
    fds.sort_unstable();
    assert_fds_disjoint_lookupable(&fds, rt.registry());
}

#[test]
fn fork_sequential_left_error_right_still_executes_and_merges() {
    let mut ctx = context();
    let mut undo = UndoStack::new();
    let mut reg = ResourceRegistry::new();
    let mut ex = MockExecutor::new();
    ex.with_undo = true;
    ex.respond("write:1", MockOutcome::Value(Value::U64(10)));
    ex.respond("write:3", MockOutcome::Failure(SysError::NotFound));
    ex.respond("write:2", MockOutcome::Value(Value::U64(20)));
    let undo_log = Arc::clone(&ex.undo_log);

    let left = Action::Sequential {
        current: Box::new(syscall_step(
            DataOp::Write {
                fd: 1,
                data: vec![0x01],
            },
            vec![usage(Resource::Fd(1), AccessMode::Write)],
        )),
        next: Box::new(|_| {
            syscall_step(
                DataOp::Write {
                    fd: 3,
                    data: vec![0x03],
                },
                vec![usage(Resource::Fd(3), AccessMode::Write)],
            )
        }),
    };
    let right = syscall_step(
        DataOp::Write {
            fd: 2,
            data: vec![0x02],
        },
        vec![usage(Resource::Fd(2), AccessMode::Write)],
    );
    let action = Action::Fork {
        left: Box::new(left),
        right: Box::new(right),
        combine: Box::new(|_, _| Action::Pure(Value::Unit)),
    };

    let v = interpret(action, &mut ctx, &mut undo, &mut reg, &mut ex);
    assert_eq!(v, Err(SysError::NotFound));
    assert_eq!(ex.ops(), vec!["write:1", "write:3", "write:2"]);

    for fd in [1u64, 2] {
        assert_eq!(reg.check_linear(&usage(Resource::Fd(fd), AccessMode::Write)),
            Err(SysError::InvalidInput));
    }
    assert_eq!(reg.check_linear(&usage(Resource::Fd(3), AccessMode::Write)), Ok(()));

    recover(&mut undo).unwrap();
    assert_eq!(*undo_log.lock().unwrap(),
        vec!["undo(write:2)".to_string(), "undo(write:1)".to_string()]);
}

#[test]
fn replace_clears_registry() {
    let mut ex = MockExecutor::new();
    ex.with_undo = true;
    ex.respond("gettime", MockOutcome::Value(Value::U64(1)));

    let undo_log = Arc::clone(&ex.undo_log);
    let mut rt = Runtime::new(Box::new(ex));

    let fd0 = rt
        .registry()
        .allocate(mutex_handle());
    assert!(rt .registry() .check_linear(&usage(Resource::Fd(fd0), AccessMode::Write)) .is_ok());

    let action = Action::Sequential {
        current: Box::new(syscall_step(DataOp::GetTime, vec![])),
        next: Box::new(|_| Action::Replace {
            target: Box::new(Action::Pure(Value::U64(42))),
        }),
    };
    let v = rt.run_blocking(action);
    assert_eq!(v, Ok(Value::U64(42)));
    assert_eq!(*undo_log.lock().unwrap(), vec!["undo(gettime)".to_string()]);
    assert!(rt.undo_stack().is_empty());

    assert!(rt.registry().lookup(fd0).is_none());
    assert!(rt.registry() .check_linear(&usage(Resource::Fd(fd0), AccessMode::Write)) .is_ok());
    let nfd = rt
        .registry()
        .allocate(mutex_handle());
    assert!(nfd > fd0);
}

#[test]
fn deep_nesting_over_limit_returns_error() {
    let mut rt = Runtime::new(Box::new(MockExecutor::new()));
    let v = rt.run_blocking(nested_seq_chain(200));
    assert_eq!(v, Err(SysError::Other(105)));
}

#[test]
fn deep_nesting_catchable() {
    let mut rt = Runtime::new(Box::new(MockExecutor::new()));
    let action = Action::Catch {
        action: Box::new(nested_seq_chain(200)),
        handler: Box::new(|e| Action::Pure(Value::Str(format!("handled:{}", e.to_string())))),
    };
    let v = rt.run_blocking(action);
    assert_eq!(v, Ok(Value::Str("handled:Other(105)".to_string())));
}

#[test]
fn exec_syscall_error_propagates() {
    let mut ctx = context();
    let mut undo = UndoStack::new();
    let mut reg = ResourceRegistry::new();
    let mut ex = MockExecutor::sized();
    ex.respond("Close { fd: 999 }", MockOutcome::Failure(SysError::NotFound));

    let v = interpret(
        syscall_step(DataOp::Close { fd: 999 }, vec![]),
        &mut ctx,
        &mut undo,
        &mut reg,
        &mut ex,
    );
    assert_eq!(v, Err(SysError::NotFound));
    assert_eq!(ex.ops(), vec!["Close { fd: 999 }"]);
}

#[test]
fn exec_A1_associativity() {
    fn mk_a() -> Action {
        syscall_step(DataOp::Close { fd: 999 }, vec![])
    }
    fn mk_b() -> Action {
        Action::Pure(Value::U64(20))
    }
    fn mk_c(prev: Value) -> Action {
        Action::Syscall {
            op: DataOp::Read { fd: 2, len: 4 },
            resources: vec![usage(Resource::Fd(2), AccessMode::Read)],
            next: Box::new(move |vc| match (prev, vc) {
                (Value::U64(p), Value::U64(c)) => Action::Pure(Value::U64(p + c)),
                _ => Action::Pure(Value::Unit),
            }),
        }
    }
    fn cfg_ex() -> MockExecutor {
        let mut ex = MockExecutor::sized();
        ex.respond("Close { fd: 999 }", MockOutcome::Value(Value::U64(10)));
        ex.respond("read:2:4", MockOutcome::Value(Value::U64(30)));
        ex
    }

    let chain_left = Action::Sequential {
        current: Box::new(Action::Sequential {
            current: Box::new(mk_a()),
            next: Box::new(|_| mk_b()),
        }),
        next: Box::new(mk_c),
    };

    let chain_right = Action::Sequential {
        current: Box::new(mk_a()),
        next: Box::new(|_| Action::Sequential {
            current: Box::new(mk_b()),
            next: Box::new(mk_c),
        }),
    };

    let mut ctx1 = context();
    let mut undo1 = UndoStack::new();
    let mut reg1 = ResourceRegistry::new();
    let mut ex1 = cfg_ex();
    let v1 = interpret(
        chain_left, &mut ctx1, &mut undo1, &mut reg1, &mut ex1,
    );

    let mut ctx2 = context();
    let mut undo2 = UndoStack::new();
    let mut reg2 = ResourceRegistry::new();
    let mut ex2 = cfg_ex();
    let v2 = interpret(
        chain_right,
        &mut ctx2,
        &mut undo2,
        &mut reg2,
        &mut ex2,
    );

    assert_eq!(v1, v2);
    assert_eq!(v1, Ok(Value::U64(50)));
    assert_eq!(ex1.ops(), ex2.ops());
    assert_eq!(ex1.ops(), vec!["Close { fd: 999 }", "read:2:4"]);
}

#[test]
fn exec_A2_identity() {
    fn mk_chain() -> Action {
        Action::Sequential {
            current: Box::new(syscall_step(DataOp::Close { fd: 999 }, vec![])),
            next: Box::new(|_| {
                syscall_step(
                    DataOp::Read { fd: 2, len: 4 },
                    vec![usage(Resource::Fd(2), AccessMode::Read)],
                )
            }),
        }
    }
    fn cfg_ex() -> MockExecutor {
        let mut ex = MockExecutor::sized();
        ex.respond("Close { fd: 999 }", MockOutcome::Value(Value::U64(5)));
        ex.respond("read:2:4", MockOutcome::Value(Value::U64(6)));
        ex
    }

    let mut ex_plain = cfg_ex();
    let v_plain = interpret(
        mk_chain(),
        &mut context(),
        &mut UndoStack::new(),
        &mut ResourceRegistry::new(),
        &mut ex_plain,
    );
    assert_eq!(v_plain, Ok(Value::U64(6)));
    let plain_ops = ex_plain.ops();

    let prefixed = Action::Sequential {
        current: Box::new(Action::Pure(Value::Unit)),
        next: Box::new(|_| mk_chain()),
    };
    let mut ex_pre = cfg_ex();
    let v_pre = interpret(
        prefixed,
        &mut context(),
        &mut UndoStack::new(),
        &mut ResourceRegistry::new(),
        &mut ex_pre,
    );
    assert_eq!(v_pre, v_plain);
    assert_eq!(ex_pre.ops(), plain_ops);

    let suffixed = Action::Sequential {
        current: Box::new(mk_chain()),
        next: Box::new(|_| Action::Pure(Value::Unit)),
    };
    let mut ex_suf = cfg_ex();
    let v_suf = interpret(
        suffixed,
        &mut context(),
        &mut UndoStack::new(),
        &mut ResourceRegistry::new(),
        &mut ex_suf,
    );
    assert_eq!(ex_suf.ops(), plain_ops);
    assert_eq!(v_suf, Ok(Value::Unit));

    let both = Action::Sequential {
        current: Box::new(Action::Pure(Value::Unit)),
        next: Box::new(|_| Action::Sequential {
            current: Box::new(mk_chain()),
            next: Box::new(|_| Action::Pure(Value::Unit)),
        }),
    };
    let mut ex_both = cfg_ex();
    let v_both = interpret(
        both,
        &mut context(),
        &mut UndoStack::new(),
        &mut ResourceRegistry::new(),
        &mut ex_both,
    );
    assert_eq!(ex_both.ops(), plain_ops);
    assert_eq!(v_both, Ok(Value::Unit));

    let mut ex_pure = cfg_ex();
    ex_pure.with_undo = true;
    let v_pure = interpret(
        Action::Pure(Value::Unit),
        &mut context(),
        &mut UndoStack::new(),
        &mut ResourceRegistry::new(),
        &mut ex_pure,
    );
    assert_eq!(v_pure, Ok(Value::Unit));
    assert!(ex_pure.ops().is_empty());
    assert!(ex_pure.undo_ops().is_empty());
}

#[test]
fn exec_A4_linearity_runtime() {
    let mut ctx = context();
    let mut undo = UndoStack::new();
    let mut reg = ResourceRegistry::new();
    let mut ex = MockExecutor::sized();
    ex.respond("write:1:1", MockOutcome::Value(Value::U64(10)));

    let w = usage(Resource::Fd(1), AccessMode::Write);
    let action = Action::Sequential {
        current: Box::new(syscall_step(
            DataOp::Write {
                fd: 1,
                data: vec![0xAA],
            },
            vec![w.clone()],
        )),
        next: Box::new(move |_| {
            syscall_step(
                DataOp::Write {
                    fd: 1,
                    data: vec![0xBB],
                },
                vec![w],
            )
        }),
    };
    let v = interpret(action, &mut ctx, &mut undo, &mut reg, &mut ex);
    assert_eq!(v, Err(SysError::InvalidInput));
    assert_eq!(ex.ops(), vec!["write:1:1"]);
    assert!(undo.is_empty());
}

#[test]
fn exec_A6_undo_roundtrip() {
    let mut ex = MockExecutor::sized();
    ex.with_undo = true;
    ex.respond("write:1:1", MockOutcome::Value(Value::U64(10)));
    ex.respond("write:2:1", MockOutcome::Value(Value::U64(20)));

    let w1 = usage(Resource::Fd(1), AccessMode::Write);
    let w2 = usage(Resource::Fd(2), AccessMode::Write);
    let action = Action::Sequential {
        current: Box::new(syscall_step(
            DataOp::Write {
                fd: 1,
                data: vec![0xAA],
            },
            vec![w1],
        )),
        next: Box::new(move |_| {
            syscall_step(
                DataOp::Write {
                    fd: 2,
                    data: vec![0xBB],
                },
                vec![w2],
            )
        }),
    };

    let ops_log = Arc::clone(&ex.log);
    let undo_log = Arc::clone(&ex.undo_log);
    let mut rt = Runtime::new(Box::new(ex));
    let v = rt.run_blocking(action);
    assert_eq!(v, Ok(Value::U64(20)));
    assert_eq!(*ops_log.lock().unwrap(), vec!["write:1:1".to_string(), "write:2:1".to_string()]);
    assert_eq!(rt.undo_stack().len(), 2);

    rt.recover().unwrap();

    assert!(rt.undo_stack().is_empty());
    assert_eq!(*undo_log.lock().unwrap(),
        vec!["undo(write:2:1)".to_string(), "undo(write:1:1)".to_string()]);
}

#[test]
fn exec_D10_replace_order() {
    let mut ctx = context();
    let mut undo = UndoStack::new();
    let mut reg = ResourceRegistry::new();
    let mut ex = MockExecutor::sized();
    ex.with_undo = true;
    ex.respond("Close { fd: 999 }", MockOutcome::Value(Value::U64(1)));

    let action = Action::Sequential {
        current: Box::new(syscall_step(DataOp::Close { fd: 999 }, vec![])),
        next: Box::new(|_| Action::Replace {
            target: Box::new(Action::Pure(Value::U64(99))),
        }),
    };
    let v = interpret(action, &mut ctx, &mut undo, &mut reg, &mut ex);
    assert_eq!(v, Ok(Value::U64(99)));
    assert_eq!(ex.undo_ops(),
        vec!["undo(Close { fd: 999 })"]);
    assert!(undo.is_empty());
    assert_eq!(ex.ops(), vec!["Close { fd: 999 }"]);
}

#[test]
fn exec_fork_conflict_static() {
    let w = usage(Resource::Fd(1), AccessMode::Write);
    let l_set = vec![w.clone()];
    let r_set = vec![w.clone()];
    assert!(!ResourceRegistry::new().can_parallel(&l_set, &r_set));

    let left = syscall_step(
        DataOp::Write {
            fd: 1,
            data: vec![0xAA],
        },
        l_set,
    );
    let right = syscall_step(
        DataOp::Write {
            fd: 1,
            data: vec![0xAA, 0xBB],
        },
        r_set,
    );

    let mut ctx = context();
    let mut undo = UndoStack::new();
    let mut reg = ResourceRegistry::new();
    assert!(fork_conflict(&reg, &left, &right));

    let mut ex = MockExecutor::sized();
    ex.respond("write:1:1", MockOutcome::Value(Value::U64(10)));
    ex.respond("write:1:2", MockOutcome::Value(Value::U64(20)));

    let action = Action::Fork {
        left: Box::new(left),
        right: Box::new(right),
        combine: Box::new(|l, r| match (l, r) {
            (Value::U64(a), Value::U64(b)) => Action::Pure(Value::U64(a + b)),
            _ => Action::Pure(Value::Unit),
        }),
    };
    let v = interpret(action, &mut ctx, &mut undo, &mut reg, &mut ex);
    assert_eq!(v, Ok(Value::U64(30)));
    assert_eq!(ex.ops(), vec!["write:1:1", "write:1:2"]);
}

const WRITE_MARKER: u64 = 0xFEED;

const PRE_WRITE: &[u8] = &[0x11, 0x22, 0x33, 0x44];

fn fork_write_read_bp() -> Action {
    Action::Fork {
        left: Box::new(syscall_step(
            DataOp::Write {
                fd: 1,
                data: vec![0xAA],
            },
            vec![usage(Resource::Fd(1), AccessMode::Write)],
        )),
        right: Box::new(syscall_step(
            DataOp::Read { fd: 1, len: 4 },
            vec![usage(Resource::Fd(1), AccessMode::Read)],
        )),

        combine: Box::new(|l, r| match (l, r) {
            (Value::U64(m), Value::Bytes(b)) => {
                assert_eq!(m, WRITE_MARKER);
                assert_eq!(b.as_slice(), PRE_WRITE);
                Action::Pure(Value::Bytes(b))
            }
            _ => Action::Pure(Value::Unit),
        }),
    }
}

fn cfg_fork_read_isolation() -> MockExecutor {
    let mut ex = MockExecutor::sized();
    ex.undo_writes_only = true;
    ex.with_undo = true;
    ex.respond("write:1:1", MockOutcome::Value(Value::U64(WRITE_MARKER)));
    ex.respond(
        "read:1:4",
        MockOutcome::Value(Value::Bytes(PRE_WRITE.to_vec())),
    );
    ex
}

fn choose_bp(take_then: bool) -> Action {
    Action::Choose {
        cond: Box::new(move |_cur: &Value| take_then),
        then_branch: Box::new(syscall_step(
            DataOp::Write {
                fd: 1,
                data: vec![0xAA],
            },
            vec![usage(Resource::Fd(1), AccessMode::Write)],
        )),
        else_branch: Box::new(syscall_step(
            DataOp::Write {
                fd: 2,
                data: vec![0xBB],
            },
            vec![usage(Resource::Fd(2), AccessMode::Write)],
        )),
    }
}

fn cfg_choose_ex() -> MockExecutor {
    let mut ex = MockExecutor::sized();
    ex.undo_writes_only = true;
    ex.with_undo = true;
    ex.respond("write:1:1", MockOutcome::Value(Value::U64(10)));
    ex.respond("write:2:1", MockOutcome::Value(Value::U64(20)));
    ex
}

fn run_choose(
    take_then: bool,
) -> (
    Result<Value, SysError>,
    Vec<String>,
    usize,
    ResourceRegistry,
) {
    let mut ctx = context();
    let mut undo = UndoStack::new();
    let mut reg = ResourceRegistry::new();
    let mut ex = cfg_choose_ex();
    let v = interpret(
        choose_bp(take_then),
        &mut ctx,
        &mut undo,
        &mut reg,
        &mut ex,
    );
    (v, ex.ops(), undo.len(), reg)
}

#[test]
fn exec_P3_fork_left_write_right_read_isolated() {
    let l_set = vec![usage(Resource::Fd(1), AccessMode::Write)];
    let r_set = vec![usage(Resource::Fd(1), AccessMode::Read)];
    assert!(!ResourceRegistry::new().can_parallel(&l_set, &r_set));
    let bp = fork_write_read_bp();
    assert!(fork_conflict(&ResourceRegistry::new(), &bp, &bp));

    let mut ctx = context();
    let mut undo = UndoStack::new();
    let mut reg = ResourceRegistry::new();
    let mut ex = cfg_fork_read_isolation();

    let v = interpret(
        fork_write_read_bp(),
        &mut ctx,
        &mut undo,
        &mut reg,
        &mut ex,
    );

    assert_eq!(v, Ok(Value::Bytes(PRE_WRITE.to_vec())));

    assert_eq!(ex.ops(), vec!["write:1:1", "read:1:4"]);

    assert_eq!(undo.len(), 1);

    assert_eq!(reg.check_linear(&usage(Resource::Fd(1), AccessMode::Write)),
        Err(SysError::InvalidInput));
    assert!(reg.check_linear(&usage(Resource::Fd(1), AccessMode::Read)) .is_ok());
    assert!(reg.check_linear(&usage(Resource::Fd(1), AccessMode::Own)) .is_ok());
}

#[test]
fn exec_P3_fork_read_isolation_runtime_path() {
    let ex = cfg_fork_read_isolation();
    let log = Arc::clone(&ex.log);
    let undo_log = Arc::clone(&ex.undo_log);
    let mut rt = Runtime::new(Box::new(ex));

    let v = rt.run_blocking(fork_write_read_bp());
    assert_eq!(v, Ok(Value::Bytes(PRE_WRITE.to_vec())));
    assert_eq!(*log.lock().unwrap(), vec!["write:1:1".to_string(), "read:1:4".to_string()]);
    assert_eq!(rt.undo_stack().len(), 1);

    assert_eq!(rt.registry()
            .check_linear(&usage(Resource::Fd(1), AccessMode::Write)),
        Err(SysError::InvalidInput));
    assert!(rt.registry() .check_linear(&usage(Resource::Fd(1), AccessMode::Read)) .is_ok());

    rt.recover().unwrap();
    assert!(rt.undo_stack().is_empty());
    assert_eq!(*undo_log.lock().unwrap(), vec!["undo(write:1:1)".to_string()]);
}

#[test]
fn exec_A5_choose_true_else_zero_effect() {
    let (v, ops, undo_len, mut reg) = run_choose(true);

    assert_eq!(v, Ok(Value::U64(10)));
    assert_eq!(ops, vec!["write:1:1"]);
    assert_eq!(undo_len, 1);

    assert_eq!(reg.check_linear(&usage(Resource::Fd(1), AccessMode::Write)),
        Err(SysError::InvalidInput));
    assert!(reg.check_linear(&usage(Resource::Fd(2), AccessMode::Write)) .is_ok());
}

#[test]
fn exec_A5_choose_false_then_zero_effect() {
    let (v, ops, undo_len, mut reg) = run_choose(false);

    assert_eq!(v, Ok(Value::U64(20)));
    assert_eq!(ops, vec!["write:2:1"]);
    assert_eq!(undo_len, 1);

    assert!(reg.check_linear(&usage(Resource::Fd(1), AccessMode::Write)) .is_ok());
    assert_eq!(reg.check_linear(&usage(Resource::Fd(2), AccessMode::Write)),
        Err(SysError::InvalidInput));
}

fn assert_same_multiset(a: &[String], b: &[String]) {
    let mut a = a.to_vec();
    let mut b = b.to_vec();
    a.sort();
    b.sort();
    assert_eq!(a, b);
}

fn combine_sum(l: Value, r: Value) -> Action {
    match (l, r) {
        (Value::U64(a), Value::U64(b)) => Action::Pure(Value::U64(a + b)),
        _ => Action::Pure(Value::Unit),
    }
}

fn disjoint_fork_pair() -> (Action, Action) {
    let r1 = usage(Resource::Fd(1), AccessMode::Read);
    let r2 = usage(Resource::Fd(2), AccessMode::Read);
    let mk = |l: Action, r: Action| Action::Fork {
        left: Box::new(l),
        right: Box::new(r),
        combine: Box::new(combine_sum),
    };
    let ab = mk(
        syscall_step(DataOp::Read { fd: 1, len: 4 }, vec![r1.clone()]),
        syscall_step(DataOp::Read { fd: 2, len: 4 }, vec![r2.clone()]),
    );
    let ba = mk(
        syscall_step(DataOp::Read { fd: 2, len: 4 }, vec![r2]),
        syscall_step(DataOp::Read { fd: 1, len: 4 }, vec![r1]),
    );
    (ab, ba)
}

fn cfg_reads() -> MockExecutor {
    let mut ex = MockExecutor::sized();
    ex.respond("read:1:4", MockOutcome::Value(Value::U64(10)));
    ex.respond("read:2:4", MockOutcome::Value(Value::U64(20)));
    ex
}

fn run_sequential_with(
    a: Action,
    mk_ex: impl FnOnce() -> MockExecutor,
) -> (Result<Value, SysError>, Vec<String>) {
    let mut ex = mk_ex();
    let v = interpret(
        a,
        &mut context(),
        &mut UndoStack::new(),
        &mut ResourceRegistry::new(),
        &mut ex,
    );
    let ops = ex.ops();
    (v, ops)
}

fn run_parallel_with(
    a: Action,
    mk_ex: impl FnOnce() -> MockExecutor,
) -> (Result<Value, SysError>, Vec<String>) {
    let ex = mk_ex();
    let log = Arc::clone(&ex.log);
    let mut rt = Runtime::new(Box::new(ex));
    let v = rt.run_blocking(a);
    let ops = log.lock().unwrap().clone();
    (v, ops)
}

#[test]
fn fork_commutation_disjoint() {
    let r1 = usage(Resource::Fd(1), AccessMode::Read);
    let r2 = usage(Resource::Fd(2), AccessMode::Read);
    assert!(ResourceRegistry::new().can_parallel(&vec![r1], &vec![r2]));

    let (ab, ba) = disjoint_fork_pair();
    let (v_ab, ops_ab) = run_sequential_with(ab, cfg_reads);
    let (v_ba, ops_ba) = run_sequential_with(ba, cfg_reads);
    assert_eq!(v_ab, v_ba);
    assert_eq!(v_ab, Ok(Value::U64(30)));

    assert_eq!(ops_ab, vec!["read:1:4", "read:2:4"]);
    assert_eq!(ops_ba, vec!["read:2:4", "read:1:4"]);
    assert_same_multiset(&ops_ab, &ops_ba);

    let (ab, ba) = disjoint_fork_pair();
    let (v_ab_p, ops_ab_p) = run_parallel_with(ab, cfg_reads);
    let (v_ba_p, ops_ba_p) = run_parallel_with(ba, cfg_reads);
    assert_eq!(v_ab_p, v_ba_p);
    assert_eq!(v_ab_p, Ok(Value::U64(30)));
    assert_eq!(ops_ab_p.len(), 2);
    assert_same_multiset(&ops_ab_p, &ops_ba_p);

    assert_eq!(v_ab, v_ab_p);
    assert_eq!(v_ba, v_ba_p);
}

#[test]
fn fork_commutation_same_value() {
    let mk = |l: u64, r: u64| Action::Fork {
        left: Box::new(Action::Pure(Value::U64(l))),
        right: Box::new(Action::Pure(Value::U64(r))),
        combine: Box::new(combine_sum),
    };

    let (v_12, ops_12) = run_sequential_with(mk(1, 2), MockExecutor::sized);
    let (v_21, ops_21) = run_sequential_with(mk(2, 1), MockExecutor::sized);
    assert_eq!(v_12, v_21);
    assert_eq!(v_12, Ok(Value::U64(3)));
    assert!(ops_12.is_empty() && ops_21.is_empty());

    let (v_12_p, ops_12_p) = run_parallel_with(mk(1, 2), MockExecutor::sized);
    let (v_21_p, ops_21_p) = run_parallel_with(mk(2, 1), MockExecutor::sized);
    assert_eq!(v_12_p, v_21_p);
    assert_eq!(v_12_p, Ok(Value::U64(3)));
    assert!(ops_12_p.is_empty() && ops_21_p.is_empty());

    assert_eq!(v_12, v_12_p);
    assert_eq!(v_21, v_21_p);
}

fn wu(fd: u64) -> ResourceUsage {
    ResourceUsage {
        resource: Resource::Fd(fd),
        mode: AccessMode::Write,
    }
}

#[test]
fn alloc_zero_len_empty_bytes_and_chain() {
    let mut rt = Runtime::new(Box::new(NoopExecutor));
    let v = rt
        .run_blocking(Action::Alloc {
            len: 0,
            next: Box::new(Action::Pure),
        })
        .unwrap();
    assert_eq!(v, Value::Bytes(vec![]));

    let v = rt
        .run_blocking(Action::Alloc {
            len: 0,
            next: Box::new(|b| {
                assert_eq!(b, Value::Bytes(vec![]));
                Action::Alloc {
                    len: 4,
                    next: Box::new(Action::Pure),
                }
            }),
        })
        .unwrap();
    assert_eq!(v, Value::Bytes(vec![0, 0, 0, 0]));
    assert!(rt.undo_stack().is_empty());
}

#[test]
fn alloc_1mb_replace_50_rounds() {
    let mut rt = Runtime::new(Box::new(NoopExecutor));
    for _ in 0..50u32 {
        let v = rt
            .run_blocking(Action::Alloc {
                len: 1024 * 1024,
                next: Box::new(|b| match b {
                    Value::Bytes(bytes) => {
                        assert_eq!(bytes.len(), 1024 * 1024);
                        assert!(bytes.iter().all(|&x| x == 0));
                        Action::Pure(Value::U64(bytes.len() as u64))
                    }
                    _ => panic!("unexpected shape"),
                }),
            })
            .unwrap();
        assert_eq!(v, Value::U64(1024 * 1024));

        rt.run_blocking(Action::Replace {
            target: Box::new(Action::Pure(Value::Unit)),
        })
        .unwrap();
        assert!(rt.undo_stack().is_empty());
        assert!(rt.registry().lookup(0).is_none());
    }

    let v = rt
        .run_blocking(Action::Alloc {
            len: 8,
            next: Box::new(|b| match b {
                Value::Bytes(bytes) => Action::Pure(Value::U64(bytes.len() as u64)),
                _ => panic!("unexpected shape"),
            }),
        })
        .unwrap();
    assert_eq!(v, Value::U64(8));
}

#[test]
fn alloc_in_parallel_fork_values_flow() {
    let mut rt = Runtime::new(Box::new(NoopExecutor));
    let v = rt
        .run_blocking(Action::Fork {
            left: Box::new(Action::Alloc {
                len: 512 * 1024,
                next: Box::new(Action::Pure),
            }),
            right: Box::new(Action::Alloc {
                len: 0,
                next: Box::new(Action::Pure),
            }),
            combine: Box::new(|l, r| Action::Pure(Value::List(vec![l, r]))),
        })
        .unwrap();
    match &v {
        Value::List(l) if l.len() == 2 => {
            match &l[0] {
                Value::Bytes(b) => {
                    assert_eq!(b.len(), 512 * 1024);
                    assert!(b.iter().all(|&x| x == 0));
                }
                _ => panic!("unexpected shape"),
            }
            assert_eq!(l[1], Value::Bytes(vec![]));
        }
        _ => panic!("unexpected shape"),
    }

    assert!(rt.undo_stack().is_empty());
    assert!(rt.registry().lookup(0).is_none());

    let v = rt
        .run_blocking(Action::Alloc {
            len: 8,
            next: Box::new(|b| match b {
                Value::Bytes(bytes) => Action::Pure(Value::U64(bytes.len() as u64)),
                _ => panic!("unexpected shape"),
            }),
        })
        .unwrap();
    assert_eq!(v, Value::U64(8));
}

#[test]
fn alloc_in_conflict_fork_sequential_values_and_merge() {
    let mut rt = Runtime::new(Box::new(NoopExecutor));
    let v = rt
        .run_blocking(Action::Fork {
            left: Box::new(Action::Sequential {
                current: Box::new(syscall(DataOp::GetTime, vec![wu(77)], Action::Pure)),
                next: Box::new(|_| Action::Alloc {
                    len: 16,
                    next: Box::new(|b| match b {
                        Value::Bytes(bytes) => Action::Pure(Value::U64(bytes.len() as u64)),
                        _ => panic!("unexpected shape"),
                    }),
                }),
            }),
            right: Box::new(Action::Sequential {
                current: Box::new(syscall(DataOp::GetTime, vec![wu(77)], Action::Pure)),
                next: Box::new(|_| Action::Alloc {
                    len: 0,
                    next: Box::new(|b| match b {
                        Value::Bytes(bytes) => Action::Pure(Value::U64(bytes.len() as u64)),
                        _ => panic!("unexpected shape"),
                    }),
                }),
            }),
            combine: Box::new(|l, r| Action::Pure(Value::List(vec![l, r]))),
        })
        .unwrap();
    match &v {
        Value::List(l) if l.len() == 2 => {
            assert_eq!(l[0], Value::U64(16));
            assert_eq!(l[1], Value::U64(0));
        }
        _ => panic!("unexpected shape"),
    }

    let e = rt
        .run_blocking(syscall(DataOp::GetTime, vec![wu(77)], Action::Pure))
        .unwrap_err();
    assert_eq!(e, SysError::InvalidInput);

    rt.run_blocking(Action::Replace {
        target: Box::new(Action::Pure(Value::Unit)),
    })
    .unwrap();
    assert!(rt.undo_stack().is_empty());
    rt.run_blocking(syscall(DataOp::GetTime, vec![wu(77)], Action::Pure))
        .unwrap();
}

#[test]
fn err_all_14_variants_and_other_passthrough_exact() {
    let variants = [
        SysError::NotFound,
        SysError::PermissionDenied,
        SysError::WouldBlock,
        SysError::Interrupted,
        SysError::TimedOut,
        SysError::ConnectionReset,
        SysError::ConnectionRefused,
        SysError::BrokenPipe,
        SysError::StorageFull,
        SysError::InvalidInput,
        SysError::AlreadyExists,
        SysError::NotADirectory,
        SysError::IsADirectory,
        SysError::CrossDevice,
        SysError::Other(777),
    ];
    assert_eq!(variants.len(), 15);
    for expected in variants.iter() {
        let mut rt = Runtime::new(Box::new(FixedErrorExecutor { err: *expected }));
        let got = rt
            .run_blocking(syscall(DataOp::Close { fd: 999 }, vec![], Action::Pure))
            .unwrap_err();
        assert_eq!(&got, expected);
        assert_eq!(got.code(), expected.code());
        assert!(rt.undo_stack().is_empty());
    }
}

#[test]
fn err_sequential_propagates_and_skips_remaining_steps() {
    let next_called = Arc::new(AtomicUsize::new(0));
    let tail_called = Arc::new(AtomicUsize::new(0));
    let n1 = next_called.clone();
    let n2 = tail_called.clone();
    let mut rt = Runtime::new(Box::new(FixedErrorExecutor {
        err: SysError::BrokenPipe,
    }));

    let e = rt
        .run_blocking(Action::Sequential {
            current: Box::new(syscall(DataOp::Close { fd: 999 }, vec![], move |v| {
                n1.fetch_add(1, Ordering::SeqCst);
                Action::Pure(v)
            })),
            next: Box::new(move |_| {
                n2.fetch_add(1, Ordering::SeqCst);
                Action::Pure(Value::Unit)
            }),
        })
        .unwrap_err();
    assert_eq!(e, SysError::BrokenPipe);
    assert_eq!(next_called.load(Ordering::SeqCst), 0);
    assert_eq!(tail_called.load(Ordering::SeqCst), 0);
    assert!(rt.undo_stack().is_empty());
}

#[test]
fn err_catch_handler_receives_exact_variant_and_recovers() {
    let variants = [
        SysError::NotFound,
        SysError::WouldBlock,
        SysError::StorageFull,
        SysError::Other(-7),
    ];
    for expected in variants {
        let mut rt = Runtime::new(Box::new(FixedErrorExecutor { err: expected }));
        let v = rt
            .run_blocking(Action::Catch {
                action: Box::new(syscall(DataOp::Close { fd: 999 }, vec![], Action::Pure)),
                handler: Box::new(move |e| Action::Pure(Value::Str(format!("caught:{}", e.to_string())))),
            })
            .unwrap();
        assert_eq!(v,
            Value::Str(format!("caught:{}", expected.to_string())));
        assert!(rt.undo_stack().is_empty());
    }
}

#[test]
fn err_watch_signal_and_invoke_default_enosys_passthrough() {
    let mut rt = Runtime::new(Box::new(FixedErrorExecutor {
        err: SysError::NotFound,
    }));
    let e = rt
        .run_blocking(Action::WatchSignal {
            signal: 2,
            next: Box::new(Action::Pure),
        })
        .unwrap_err();
    assert_eq!(e, SysError::Other(38));

    let e = rt
        .run_blocking(Action::Invoke {
            foreign_id: 1,
            captures: vec![],
            yields: vec![],
            deterministic: true,
            next: Box::new(Action::Pure),
        })
        .unwrap_err();
    assert_eq!(e, SysError::Other(38));
    assert!(rt.undo_stack().is_empty());
}

#[test]
fn err_repeated_failures_never_push_undo() {
    let mut rt = Runtime::new(Box::new(FixedErrorExecutor {
        err: SysError::StorageFull,
    }));
    for _ in 0..5 {
        let e = rt
            .run_blocking(syscall(DataOp::Close { fd: 999 }, vec![], Action::Pure))
            .unwrap_err();
        assert_eq!(e, SysError::StorageFull);
        assert!(rt.undo_stack().is_empty());
    }
}

#[test]
fn fake_executor_drives_interpreter_values_and_undo_contract() {
    let undo_runs = Arc::new(AtomicUsize::new(0));
    let ur = undo_runs.clone();
    let undo = Box::new(move || {
ur.fetch_add(1, Ordering::SeqCst);
        Ok(())
});
    let queue = Arc::new(Mutex::new(VecDeque::from([
        (Value::Fd(7), UndoCapability::Identity),
        (Value::Bytes(b"XYZ".to_vec()), UndoCapability::Identity),
        (Value::U64(42), UndoCapability::Invertible(undo)),
    ])));
    let calls = Arc::new(AtomicUsize::new(0));
    let mut rt = Runtime::new(Box::new(ScriptExecutor {
        queue: queue.clone(),
        fallback: Value::Unit,
        calls: calls.clone(),
    }));

    let v = rt
        .run_blocking(syscall(
            DataOp::Open {
                path: String::from("/fake/f.txt"),
                flags: OpenFlags::default(),
            },
            vec![],
            move |v| {
                assert_eq!(v, Value::Fd(7));
                syscall(DataOp::Read { fd: 7, len: 3 }, vec![], move |v| {
                    assert_eq!(v, Value::Bytes(b"XYZ".to_vec()));
                    syscall(
                        DataOp::Write {
                            fd: 7,
                            data: b"z".to_vec(),
                        },
                        vec![],
                        Action::Pure,
                    )
                })
            },
        ))
        .unwrap();
    assert_eq!(v, Value::U64(42));
    assert_eq!(calls.load(Ordering::SeqCst), 3);
    assert_eq!(rt.undo_stack().len(), 1);
    assert_eq!(undo_runs.load(Ordering::SeqCst), 0);

    rt.run_blocking(Action::Replace {
        target: Box::new(Action::Pure(Value::Unit)),
    })
    .unwrap();
    assert_eq!(undo_runs.load(Ordering::SeqCst), 1);
    assert!(rt.undo_stack().is_empty());
}

#[test]
fn two_runtimes_distinct_executors_isolated_and_parallel_fork() {
    let mut rt_a = Runtime::new(Box::new(ScriptExecutor::with_values(
        vec![Value::Fd(1), Value::U64(10), Value::U64(100)],
        Value::U64(999),
    )));
    let mut rt_b = Runtime::new(Box::new(ScriptExecutor::with_values(
        vec![Value::Fd(999), Value::U64(9990), Value::U64(99900)],
        Value::U64(888),
    )));

    let blueprint = |expect_open: Value, expect_read: Value, expect_final: Value| {
        syscall(
            DataOp::Open {
                path: String::from("/x"),
                flags: OpenFlags::default(),
            },
            vec![],
            move |v| {
                assert_eq!(v, expect_open);
                let fd = match v {
                    Value::Fd(f) => f,
                    _ => panic!("unexpected shape"),
                };
                syscall(DataOp::Read { fd, len: 1 }, vec![], move |v| {
                    assert_eq!(v, expect_read);
                    syscall(
                        DataOp::Write {
                            fd,
                            data: b"w".to_vec(),
                        },
                        vec![],
                        move |v| {
                            assert_eq!(v, expect_final);
                            Action::Pure(v)
                        },
                    )
                })
            },
        )
    };

    let va = rt_a
        .run_blocking(blueprint(Value::Fd(1), Value::U64(10), Value::U64(100)))
        .unwrap();
    assert_eq!(va, Value::U64(100));
    let vb = rt_b
        .run_blocking(blueprint(
            Value::Fd(999),
            Value::U64(9990),
            Value::U64(99900),
        ))
        .unwrap();
    assert_eq!(vb, Value::U64(99900));

    let v = rt_a
        .run_blocking(Action::Fork {
            left: Box::new(syscall(DataOp::Close { fd: 999 }, vec![], Action::Pure)),
            right: Box::new(syscall(DataOp::Close { fd: 999 }, vec![], Action::Pure)),
            combine: Box::new(|l, r| Action::Pure(Value::List(vec![l, r]))),
        })
        .unwrap();
    assert_eq!(v, Value::List(vec![Value::U64(999), Value::U64(999)]));
    assert_eq!(rt_a.undo_stack().len(), 0);
    assert_eq!(rt_b.undo_stack().len(), 0);

}

fn seq_chain(i: u64, n: u64) -> Action {
    if i == n {
        return Action::Pure(Value::U64(n));
    }
    Action::Sequential {
        current: Box::new(Action::Pure(Value::U64(i))),
        next: Box::new(move |v| {
            assert_eq!(v, Value::U64(i));
            seq_chain(i + 1, n)
        }),
    }
}

fn choose_chain(i: u64, n: u64) -> Action {
    if i == n {
        return Action::Pure(Value::U64(n));
    }
    Action::Choose {
        cond: Box::new(|_| true),
        then_branch: Box::new(choose_chain(i + 1, n)),
        else_branch: Box::new(Action::Pure(Value::U64(u64::MAX))),
    }
}

fn nested_seq(depth: u64) -> Action {
    if depth == 0 {
        return Action::Pure(Value::U64(300));
    }
    Action::Sequential {
        current: Box::new(nested_seq(depth - 1)),
        next: Box::new(Action::Pure),
    }
}

#[test]
fn trampoline_1000_node_sequential_chain_values_correct() {
    let mut rt = Runtime::new(Box::new(NoopExecutor));
    let v = rt.run_blocking(seq_chain(0, 1000)).unwrap();
    assert_eq!(v, Value::U64(1000));
    assert!(rt.undo_stack().is_empty());

    assert!(rt.registry().lookup(0).is_none() && rt.registry().lookup(u64::MAX).is_none());
}

#[test]
fn trampoline_500_nested_choose_constant_chain() {
    let mut rt = Runtime::new(Box::new(NoopExecutor));
    let v = rt.run_blocking(choose_chain(0, 500)).unwrap();
    assert_eq!(v, Value::U64(500));
    assert!(rt.undo_stack().is_empty());
}

#[test]
fn nested_sequential_62_deep_recursive_frames_values_flow() {
    let mut rt = Runtime::new(Box::new(NoopExecutor));

    let v = rt.run_blocking(nested_seq(62)).unwrap();
    assert_eq!(v, Value::U64(300));
    assert!(rt.undo_stack().is_empty());
}

#[test]
fn guard_boundary_63_ok_64_65_err() {
    let mut rt = Runtime::new(Box::new(NoopExecutor));

    assert_eq!(rt.run_blocking(nested_seq(62)).unwrap(), Value::U64(300));
    assert_eq!(rt.run_blocking(nested_seq(63)).unwrap(), Value::U64(300));

    assert_eq!(rt.run_blocking(nested_seq(64)).unwrap_err(), SysError::Other(105));
    assert_eq!(rt.run_blocking(nested_seq(65)).unwrap_err(), SysError::Other(105));

    assert!(rt.undo_stack().is_empty());
    assert!(rt.registry().lookup(0).is_none() && rt.registry().lookup(u64::MAX).is_none());

    assert_eq!(rt.run_blocking(nested_seq(63)).unwrap(), Value::U64(300));
}

#[test]
fn guard_depth64_wrapped_catch_handler_receives_105() {
    let mut rt = Runtime::new(Box::new(NoopExecutor));
    let action = Action::Catch {
        action: Box::new(nested_seq(64)),
        handler: Box::new(|e| Action::Pure(Value::Str(format!("handled:{}", e.to_string())))),
    };
    assert_eq!(rt.run_blocking(action).unwrap(), Value::Str("handled:Other(105)".to_string()));
    assert!(rt.undo_stack().is_empty());
}

#[test]
fn probe_crash_boundary() {
    let mut rt = Runtime::new(Box::new(NoopExecutor));
    let mut ok_high = 0u64;
    for d in 95..=160u64 {
        match rt.run_blocking(nested_seq(d)) {
            Ok(_) => {
                ok_high = d;
                println!("depth {d}: ok");
            }
            Err(SysError::Other(105)) => {
                println!("depth {d}: guard fired (boundary between {ok_high} and {d})");
                return;
            }
            Err(_) => panic!("unexpected shape"),
        }
    }
    println!("probe: no guard through 90 (max ok {ok_high})");
}

fn nontrivial_captures() -> ResourceSet {
    vec![
        rd(7),
        wr(9),
        rd_path(String::from("/data/cap.bin")),
        wr_path(String::from("/data/cap.bin")),
        ow_foreign(55),
    ]
}

fn nontrivial_yields() -> ResourceSet {
    vec![
        rd(1),
        wr_path(String::from("/out/yield.bin")),
        ow_foreign(66),
    ]
}

#[test]
fn invoke_captures_reach_executor_exactly_and_deterministic_true() {
    let ex = RecordingInvokeExecutor::new();
    let calls = ex.calls.clone();
    let mut rt = Runtime::new(Box::new(ex));
    let captures = nontrivial_captures();

    let v = rt
        .run_blocking(Action::Invoke {
            foreign_id: 42,
            captures: captures.clone(),
            yields: vec![],
            deterministic: true,
            next: Box::new(Action::Pure),
        })
        .unwrap();
    assert_eq!(v, Value::U64(42 * 1000 + captures.len() as u64));

    let calls = calls.lock().unwrap();
    assert_eq!(calls.len(), 1);
    let (fid, got_caps, det) = &calls[0];
    assert_eq!(*fid, 42);
    assert_eq!(got_caps, &captures);
    assert!(*det);
    assert!(rt.undo_stack().is_empty());
}

#[test]
fn invoke_deterministic_false_and_two_node_chain_value_flow_order() {
    let ex = RecordingInvokeExecutor::new();
    let calls = ex.calls.clone();
    let mut rt = Runtime::new(Box::new(ex));

    let v = rt
        .run_blocking(Action::Invoke {
            foreign_id: 7,
            captures: vec![rd(1)],
            yields: vec![],
            deterministic: false,
            next: Box::new(move |first| {
                assert_eq!(first, Value::U64(7 * 1000 + 1));
                Action::Invoke {
                    foreign_id: 8,
                    captures: vec![wr(3), rd_path(String::from("/p"))],
                    yields: vec![],
                    deterministic: false,
                    next: Box::new(move |second| {
                        assert_eq!(second, Value::U64(8 * 1000 + 2));
                        Action::Pure(Value::List(vec![first, second]))
                    }),
                }
            }),
        })
        .unwrap();
    assert_eq!(v, Value::List(vec![Value::U64(7001), Value::U64(8002)]));

    let calls = calls.lock().unwrap();
    assert_eq!(calls.len(), 2);
    assert_eq!(calls[0].0, 7);
    assert!(!calls[0].2);
    assert_eq!(calls[1].0, 8);
    assert!(!calls[1].2);
    assert_eq!(calls[1].1, vec![wr(3), rd_path(String::from("/p"))]);
    assert!(rt.undo_stack().is_empty());
}

#[test]
fn invoke_yields_field_inert_varying_it_changes_nothing() {
    let mut results = Vec::new();
    for yields in [vec![], nontrivial_yields()] {
        let ex = RecordingInvokeExecutor::new();
        let calls = ex.calls.clone();
        let mut rt = Runtime::new(Box::new(ex));
        let captures = nontrivial_captures();
        let v = rt
            .run_blocking(Action::Invoke {
                foreign_id: 5,
                captures: captures.clone(),
                yields,
                deterministic: true,
                next: Box::new(Action::Pure),
            })
            .unwrap();
        let calls = calls.lock().unwrap();
        assert_eq!(calls.len(), 1);
        assert_eq!(calls[0].0, 5);
        assert_eq!(calls[0].1, captures);
        assert!(calls[0].2);
        results.push((v, rt.undo_stack().len()));
    }
    assert_eq!(results[0], results[1]);
}

#[test]
fn invoke_error_passthrough_catch_handles_and_runtime_alive() {
    let ex = RecordingInvokeExecutor {
        calls: Arc::new(Mutex::new(Vec::new())),
        fail_on: Some(99),
    };
    let calls = ex.calls.clone();
    let mut rt = Runtime::new(Box::new(ex));

    let v = rt
        .run_blocking(Action::Catch {
            action: Box::new(Action::Invoke {
                foreign_id: 99,
                captures: vec![rd(1)],
                yields: vec![],
                deterministic: true,
                next: Box::new(Action::Pure),
            }),
            handler: Box::new(|e| {
                assert_eq!(e, SysError::Other(99));
                Action::Pure(Value::U64(1))
            }),
        })
        .unwrap();
    assert_eq!(v, Value::U64(1));

    assert!(rt.undo_stack().is_empty());
    let v = rt
        .run_blocking(Action::Invoke {
            foreign_id: 3,
            captures: vec![],
            yields: vec![],
            deterministic: false,
            next: Box::new(Action::Pure),
        })
        .unwrap();
    assert_eq!(v, Value::U64(3000));

    let calls = calls.lock().unwrap();
    assert_eq!(calls.len(), 2);
    assert_eq!(calls[0].0, 99);
    assert_eq!(calls[1].0, 3);
}

#[test]
fn invoke_in_parallel_fork_branches_shared_channel_records_merged() {
    let ex = RecordingInvokeExecutor::new();
    let calls = ex.calls.clone();
    let mut rt = Runtime::new(Box::new(ex));

    let v = rt
        .run_blocking(Action::Fork {
            left: Box::new(Action::Invoke {
                foreign_id: 11,
                captures: vec![rd(1)],
                yields: vec![],
                deterministic: true,
                next: Box::new(Action::Pure),
            }),
            right: Box::new(Action::Invoke {
                foreign_id: 22,
                captures: vec![wr(2)],
                yields: vec![],
                deterministic: false,
                next: Box::new(Action::Pure),
            }),
            combine: Box::new(|l, r| Action::Pure(Value::List(vec![l, r]))),
        })
        .unwrap();

    let got = match v {
        Value::List(l) => l,
        _ => panic!("unexpected shape"),
    };
    let mut got_ids: Vec<u64> = got
        .iter()
        .map(|x| match x {
            Value::U64(n) => *n,
            _ => panic!("unexpected shape"),
        })
        .collect();
    got_ids.sort();
    assert_eq!(got_ids, vec![11_001, 22_001]);

    let calls = calls.lock().unwrap();
    assert_eq!(calls.len(), 2);
    let rec_11 = calls
        .iter()
        .find(|(id, _, _)| *id == 11)
        .unwrap();
    let rec_22 = calls
        .iter()
        .find(|(id, _, _)| *id == 22)
        .unwrap();
    assert_eq!(rec_11.1, vec![rd(1)]);
    assert!(rec_11.2);
    assert_eq!(rec_22.1, vec![wr(2)]);
    assert!(!rec_22.2);
    assert!(rt.undo_stack().is_empty());
}

fn rw_flags() -> OpenFlags {
    OpenFlags {
        read: true,
        write: true,
        create: true,
        ..Default::default()
    }
}

#[test]
fn failed_open_write_rolls_back_path_marker_same_path_retry_ok() {
    let mut rt = Runtime::new(Box::new(ScriptedExecutor {
        results: VecDeque::from([
            Err(SysError::AlreadyExists),
            Ok((Value::Fd(7), UndoCapability::Identity)),
        ]),
    }));
    let p = String::from("/same/path.txt");

    let e = rt
        .run_blocking(syscall(
            DataOp::Open {
                path: p.clone(),
                flags: OpenFlags {
                    write: true,
                    create: true,
                    exclusive: true,
                    ..Default::default()
                },
            },
            vec![wr_path(p.clone())],
            Action::Pure,
        ))
        .unwrap_err();
    assert_eq!(e, SysError::AlreadyExists);
    assert!(rt.undo_stack().is_empty());
    assert!(rt.registry().lookup(0).is_none());

    let v = rt
        .run_blocking(syscall(
            DataOp::Open {
                path: p.clone(),
                flags: OpenFlags {
                    read: true,
                    write: true,
                    ..Default::default()
                },
            },
            vec![wr_path(p.clone())],
            Action::Pure,
        ))
        .unwrap();
    assert_eq!(v, Value::Fd(7));
}

#[test]
fn failed_write_on_fd_rolls_back_then_retry_ok_and_at_most_once_kept() {
    let mut rt = Runtime::new(Box::new(ScriptedExecutor {
        results: VecDeque::from([
            Ok((Value::Fd(0), UndoCapability::Identity)),
            Err(SysError::PermissionDenied),
            Ok((Value::U64(4), UndoCapability::Identity)),
        ]),
    }));
    let p = String::from("/p.txt");

    let fd = rt
        .run_blocking(syscall(
            DataOp::Open {
                path: p.clone(),
                flags: rw_flags(),
            },
            vec![wr_path(p.clone())],
            Action::Pure,
        ))
        .unwrap();
    assert_eq!(fd, Value::Fd(0));

    let e = rt
        .run_blocking(syscall(
            DataOp::Write {
                fd: 0,
                data: b"x".to_vec(),
            },
            vec![wr(0)],
            Action::Pure,
        ))
        .unwrap_err();
    assert_eq!(e, SysError::PermissionDenied);
    assert!(rt.undo_stack().is_empty());

    let v = rt
        .run_blocking(syscall(
            DataOp::Write {
                fd: 0,
                data: b"y".to_vec(),
            },
            vec![wr(0)],
            Action::Pure,
        ))
        .unwrap();
    assert_eq!(v, Value::U64(4));

    let e2 = rt
        .run_blocking(syscall(
            DataOp::Write {
                fd: 0,
                data: b"z".to_vec(),
            },
            vec![wr(0)],
            Action::Pure,
        ))
        .unwrap_err();
    assert_eq!(e2, SysError::InvalidInput);
    assert!(rt.undo_stack().is_empty());
}

#[test]
fn failed_close_rolls_back_own_terminal_marker_fd_still_usable() {
    let mut rt = Runtime::new(Box::new(ScriptedExecutor {
        results: VecDeque::from([
            Ok((Value::Fd(0), UndoCapability::Identity)),
            Err(SysError::BrokenPipe),
            Ok((Value::U64(4), UndoCapability::Identity)),
        ]),
    }));
    let p = String::from("/own.txt");

    rt.run_blocking(syscall(
        DataOp::Open {
            path: p.clone(),
            flags: rw_flags(),
        },
        vec![wr_path(p.clone())],
        Action::Pure,
    ))
    .unwrap();

    let e = rt
        .run_blocking(syscall(DataOp::Close { fd: 0 }, vec![ow(0)], Action::Pure))
        .unwrap_err();
    assert_eq!(e, SysError::BrokenPipe);
    assert!(rt.undo_stack().is_empty());

    let v = rt
        .run_blocking(syscall(
            DataOp::Write {
                fd: 0,
                data: b"x".to_vec(),
            },
            vec![wr(0)],
            Action::Pure,
        ))
        .unwrap();
    assert_eq!(v, Value::U64(4));
}

#[test]
fn rollback_only_touches_this_syscall_markers_success_path_axiom_kept() {
    let mut rt = Runtime::new(Box::new(ScriptedExecutor {
        results: VecDeque::from([
            Ok((Value::Fd(0), UndoCapability::Identity)),
            Err(SysError::PermissionDenied),
        ]),
    }));
    let p = String::from("/keep.txt");

    rt.run_blocking(syscall(
        DataOp::Open {
            path: p.clone(),
            flags: rw_flags(),
        },
        vec![wr_path(p.clone())],
        Action::Pure,
    ))
    .unwrap();

    rt.run_blocking(syscall(
        DataOp::Write {
            fd: 0,
            data: b"x".to_vec(),
        },
        vec![wr(0)],
        Action::Pure,
    ))
    .unwrap_err();

    let e = rt
        .run_blocking(syscall(
            DataOp::Open {
                path: p.clone(),
                flags: rw_flags(),
            },
            vec![wr_path(p.clone())],
            Action::Pure,
        ))
        .unwrap_err();
    assert_eq!(e, SysError::InvalidInput);

    let v = rt
        .run_blocking(syscall(
            DataOp::Read { fd: 0, len: 4 },
            vec![rd(0)],
            Action::Pure,
        ))
        .unwrap();
    assert_eq!(v, Value::Unit);
}

#[test]
fn batch_partial_check_failure_rolls_back_prefix_only() {
    let mut rt = Runtime::new(Box::new(ScriptedExecutor {
        results: VecDeque::from([
            Ok((Value::Fd(0), UndoCapability::Identity)),

        ]),
    }));
    let p1 = String::from("/a.txt");
    let p2 = String::from("/b.txt");

    rt.run_blocking(syscall(
        DataOp::Open {
            path: p2.clone(),
            flags: rw_flags(),
        },
        vec![wr_path(p2.clone())],
        Action::Pure,
    ))
    .unwrap();

    let e = rt
        .run_blocking(syscall(
            DataOp::Open {
                path: p1.clone(),
                flags: rw_flags(),
            },
            vec![wr_path(p1.clone()), wr_path(p2.clone())],
            Action::Pure,
        ))
        .unwrap_err();
    assert_eq!(e, SysError::InvalidInput);
    assert!(rt.undo_stack().is_empty());

    rt.run_blocking(syscall(
        DataOp::Open {
            path: p1.clone(),
            flags: rw_flags(),
        },
        vec![wr_path(p1.clone())],
        Action::Pure,
    ))
    .unwrap();

    let e2 = rt
        .run_blocking(syscall(
            DataOp::Open {
                path: p2.clone(),
                flags: rw_flags(),
            },
            vec![wr_path(p2.clone())],
            Action::Pure,
        ))
        .unwrap_err();
    assert_eq!(e2, SysError::InvalidInput);
}

fn open(path: &str, next: impl FnOnce(Value) -> Action + Send + 'static) -> Action {
    Action::Syscall {
        op: DataOp::Open {
            path: path.into(),
            flags: Default::default(),
        },
        resources: Vec::new(),
        next: Box::new(next),
    }
}

fn stat(path: &str, next: impl FnOnce(Value) -> Action + Send + 'static) -> Action {
    Action::Syscall {
        op: DataOp::Stat { path: path.into() },
        resources: Vec::new(),
        next: Box::new(next),
    }
}

fn idempotent(key: &str, inner: Action) -> Action {
    Action::Idempotent {
        key: key.to_string(),
        inner: Box::new(inner),
        next: Box::new(Action::Pure),
    }
}

#[test]
fn accrued_cost_sums_sequential_effects() {
    let mut rt = Runtime::new(Box::new(RecordingExecutor));
    let act = open("/a", |_| stat("/a", |_| Action::Pure(Value::Unit)));
    rt.run_blocking(act).unwrap();
    let cost = rt.undo_stack().accrued_cost();
    assert_eq!(cost.read.min, 1);
    assert_eq!(cost.read.max, 1);
    assert_eq!(cost.write.min, 1);
    assert_eq!(cost.write.max, 1);
    assert_eq!(cost.occupy.min, 1);
    assert_eq!(cost.occupy.max, 1);
}

#[test]
fn idempotent_cache_hit_collapses_cost() {
    let mut rt = Runtime::new(Box::new(RecordingExecutor));
    let make = || idempotent("cost:idem:1", open("/x", |_| Action::Pure(Value::Unit)));
    rt.run_blocking(make()).unwrap();
    let first = rt.undo_stack().accrued_cost();
    assert_eq!(first.write.max, 1);
    assert_eq!(first.occupy.max, 1);

    rt.run_blocking(make()).unwrap();
    let second = rt.undo_stack().accrued_cost();
    assert_eq!(second.write.max, 1);
    assert_eq!(second.occupy.max, 1);
}

#[test]
fn pure_compute_has_zero_cost() {
    let mut rt = Runtime::new(Box::new(RecordingExecutor));
    let act = Action::Pure(Value::Unit);
    rt.run_blocking(act).unwrap();
    assert_eq!(rt.undo_stack().accrued_cost(), UndoStack::new().accrued_cost());
}

#[test]
fn sleep_elapses() {
    let world = World { ctx: context(), undo: UndoStack::new(), reg: ResourceRegistry::new() };
    let mut ex = MockExecutor::new();
    let action = Action::Sleep {
        duration: Duration::from_millis(10),
        next: Box::new(Action::Pure),
    };
    let (v, _, elapsed) = run(action, false, world, &mut IdempotencyRegistry::new(), &mut ex);
    assert_eq!(v, Ok(Value::Unit));
    assert!(elapsed >= Duration::from_millis(10));
}

#[test]
fn runtime_run_async_full_path() {
    let mut rt = Runtime::new(Box::new(MockExecutor::new()));
    let v = rt.run_blocking(Action::Alloc {
        len: 3,
        next: Box::new(Action::Pure),
    });
    assert_eq!(v, Ok(Value::Bytes(vec![0, 0, 0])));
}

#[test]
fn sleep_advances_virtual_clock() {
    let mut rt = Runtime::with_context(Box::new(MockExecutor::new()), virtual_context());
    let v = rt.run_blocking(Action::Sleep {
        duration: Duration::from_secs(60),
        next: Box::new(Action::Pure),
    });
    assert_eq!(v, Ok(Value::Unit));
    assert!(rt.elapsed < Duration::from_secs(1));
    assert_eq!(rt.virtual_clock().unwrap().now(), Duration::from_secs(60));
}

#[test]
fn fork_parallel_true_path() {
    let mut ex = MockExecutor::new();
    ex.with_undo = true;
    ex.delay = Duration::from_millis(30);
    ex.respond("write:7", MockOutcome::Value(Value::U64(20)));

    let ops_log = Arc::clone(&ex.log);
    let mut rt = Runtime::new(Box::new(ex));
    rt.registry().allocate(mutex_handle());

    let action = Action::Fork {
        left: Box::new(syscall_step(
            DataOp::Open {
                path: String::from("/left"),
                flags: OpenFlags::default(),
            },
            vec![usage(Resource::Path("/left".to_string()), AccessMode::Read)],
        )),
        right: Box::new(syscall_step(
            DataOp::Write { fd: 7, data: vec![0xCC] },
            vec![usage(Resource::Fd(7), AccessMode::Write)],
        )),
        combine: Box::new(|l, r| match (l, r) {
            (Value::Fd(lfd), Value::U64(rn)) => Action::Pure(Value::U64(lfd + rn)),
            _ => Action::Pure(Value::Unit),
        }),
    };
    let v = rt.run_blocking(action);
    assert_eq!(v, Ok(Value::U64(21)));

    let ops = ops_log.lock().unwrap().clone();
    assert_eq!(ops.len(), 2);
    assert!(ops.iter().any(|o| o == "open:/left"));
    assert!(ops.iter().any(|o| o == "write:7"));
    // Both operations were under way at the same time.
    assert_eq!(rt.elapsed, Duration::from_millis(30));

    assert!(rt.registry().lookup(1).is_some());
    let nfd = rt.registry().allocate(mutex_handle());
    assert!(nfd > 1);
}

#[test]
fn idempotent_cache_hit_cost_not_accumulated() {
    let mut rt = Runtime::new(Box::new(RecordingExecutor));
    let make = || Action::Idempotent {
        key: "cost:idem:alg".to_string(),
        inner: Box::new(syscall_step(
            DataOp::Open { path: "/x".to_string(), flags: OpenFlags::default() },
            Vec::new(),
        )),
        next: Box::new(Action::Pure),
    };
    rt.run_blocking(make()).unwrap();
    let first = rt.undo_stack().accrued_cost();
    assert_eq!(first.write.max, 1);
    assert_eq!(first.occupy.max, 1);

    rt.run_blocking(make()).unwrap();
    let second = rt.undo_stack().accrued_cost();
    assert_eq!(second.write.max, 1);
    assert_eq!(second.occupy.max, 1);
    assert_eq!(UndoStack::new().accrued_cost(), EffectCost::zero());
}

#[test]
fn wait_timeout_outer_cancel_interrupts() {
    // The limit further out is over: what waits within the limit further in is
    // interrupted at once, counts as timed out there, and nothing follows it.
    let seen = Arc::new(Mutex::new(None));
    let seen2 = Arc::clone(&seen);
    let action = Action::Timeout {
        action: Box::new(Action::Sequential {
            current: Box::new(Action::Timeout {
                action: Box::new(Action::Sleep {
                    duration: Duration::from_secs(10),
                    next: Box::new(Action::Pure),
                }),
                duration: Duration::from_secs(10),
                on_timeout: Box::new(Action::Pure(Value::U64(1))),
            }),
            next: Box::new(move |v| {
                *seen2.lock().unwrap() = Some(v);
                Action::Pure(Value::Unit)
            }),
        }),
        duration: Duration::from_secs(20),
        on_timeout: Box::new(Action::Pure(Value::U64(2))),
    };
    let mut idem = IdempotencyRegistry::new();
    let mut ex = NoopExecutor;
    let mut shared = Shared { ex: &mut ex, idem: &mut idem, now: Duration::ZERO };
    let world = World { ctx: context(), undo: UndoStack::new(), reg: ResourceRegistry::new() };
    let mut task = Task::new(Interpreter::new(action, false), world);
    while task.advance(&mut shared) {}
    assert_eq!(task.timers.next_time(), Some(Duration::from_secs(10)));
    assert!(!task.machine.is_cancelled());

    task.cancel(Duration::ZERO);
    assert_eq!(task.timers.next_time(), Some(Duration::from_millis(500)));
    assert!(task.machine.is_cancelled());
    while task.advance(&mut shared) {}
    assert_eq!(*seen.lock().unwrap(), None);
    assert_eq!(task.result, Some(Err(SysError::Other(125))));
    assert!(shared.now < Duration::from_secs(2));
}

#[test]
fn plain_path_unchanged_under_features() {
    let mut ctx = context();
    let mut undo = UndoStack::new();
    let mut reg = ResourceRegistry::new();
    let mut ex = MockExecutor::new();
    ex.describe = |op| format!("{op:?}");
    ex.respond("GetTime", MockOutcome::Value(Value::U64(21)));

    let v = interpret(Action::Pure(Value::Unit), &mut ctx, &mut undo, &mut reg, &mut ex);
    assert_eq!(v, Ok(Value::Unit));
    assert!(ex.ops().is_empty());
    assert!(undo.is_empty());

    let action = Action::Sequential {
        current: Box::new(syscall_step(DataOp::GetTime, vec![])),
        next: Box::new(|v| match v {
            Value::U64(n) => Action::Pure(Value::U64(n * 2)),
            _ => Action::Pure(Value::Unit),
        }),
    };
    let v = interpret(action, &mut ctx, &mut undo, &mut reg, &mut ex);
    assert_eq!(v, Ok(Value::U64(42)));
    assert_eq!(ex.ops(), vec!["GetTime"]);
    assert!(undo.is_empty());
}

#[test]
fn get_time_reads_virtual_clock_without_advancing() {
    let mut ctx = virtual_context();
    let mut undo = UndoStack::new();
    let mut reg = ResourceRegistry::new();
    let mut ex = MockExecutor::new();
    ex.respond("gettime", MockOutcome::Value(Value::U64(21)));

    let action = Action::Sequential {
        current: Box::new(syscall_step(DataOp::GetTime, vec![])),
        next: Box::new(Action::Pure),
    };
    let v = interpret(action, &mut ctx, &mut undo, &mut reg, &mut ex);
    assert_eq!(v, Ok(Value::U64(0)));
    assert!(ex.ops().is_empty());
    assert_eq!(ctx.virtual_clock_mut().unwrap().now(), Duration::ZERO);
}

#[test]
fn accessors_and_empty_sync() {
    let mut rt = Runtime::new(Box::new(NoopExecutor));
    assert!(rt.coeffects.lock().unwrap().dependency_table().is_some());
    assert!(rt.coeffects.lock().unwrap().components().is_some());
    assert_eq!(rt.coeffects.lock().unwrap().components(), Some(0));
    assert!(rt.sync_components().is_empty());
}

#[test]
fn set_dependency_pushes_undo_and_recover_restores() {
    let mut rt = Runtime::new(Box::new(NoopExecutor));
    assert_eq!(rt.dependency(1), None);

    let _undo = rt.set_dependency(1, Value::U64(42)).unwrap();
    assert_eq!(rt.undo_stack().len(), 1);
    assert_eq!(rt.dependency(1), Some(Value::U64(42)));

    let _undo2 = rt.set_dependency(1, Value::U64(7)).unwrap();
    assert_eq!(rt.undo_stack().len(), 2);
    assert_eq!(rt.dependency(1), Some(Value::U64(7)));

    rt.recover().unwrap();
    assert!(rt.undo_stack().is_empty());
    assert_eq!(rt.dependency(1), None);
}

#[test]
fn returned_undo_reverts_dependency_directly() {
    let mut rt = Runtime::new(Box::new(NoopExecutor));
    let undo = rt.set_dependency(1, Value::U64(9)).unwrap();
    assert_eq!(rt.dependency(1), Some(Value::U64(9)));

    rt.coeffects.lock().unwrap().restore(undo);
    assert_eq!(rt.dependency(1), None);
    assert_eq!(rt.undo_stack().len(), 1);
}

#[test]
fn sync_components_event_sequence() {
    let mut rt = Runtime::new(Box::new(NoopExecutor));
    let mut activates = 0;
    let mut deactivates = 0;
    let mut sync = |rt: &mut Runtime| {
        let events = rt.sync_components();
        for (_, change) in &events {
            match change {
                Activation::Activating => activates += 1,
                Activation::Deactivating => deactivates += 1,
                Activation::Neutral => unreachable!(),
            }
        }
        (events, activates, deactivates)
    };
    rt.coeffects.lock().unwrap().load(Component::new("svc").depends_on(1));

    assert_eq!(sync(&mut rt), (vec![], 0, 0));

    let undo = rt.set_dependency(1, Value::U64(1)).unwrap();
    assert_eq!(sync(&mut rt), (vec![(0, Activation::Activating)], 1, 0));

    assert_eq!(sync(&mut rt), (vec![], 1, 0));

    rt.coeffects.lock().unwrap().restore(undo);
    assert_eq!(sync(&mut rt), (vec![(0, Activation::Deactivating)], 1, 1));

    let _undo2 = rt.set_dependency(1, Value::U64(2)).unwrap();
    assert_eq!(sync(&mut rt), (vec![(0, Activation::Activating)], 2, 1));
}

#[test]
fn sync_components_multiple_components() {
    let mut rt = Runtime::new(Box::new(NoopExecutor));
    rt.coeffects.lock().unwrap().load(Component::new("a").depends_on(1));
    rt.coeffects.lock().unwrap().load(Component::new("b").depends_on(2));

    assert!(rt.sync_components().is_empty());

    let _u1 = rt.set_dependency(1, Value::Unit).unwrap();
    assert_eq!(rt.sync_components(), vec![(0, Activation::Activating)]);

    let _u2 = rt.set_dependency(2, Value::Unit).unwrap();
    assert_eq!(rt.sync_components(), vec![(1, Activation::Activating)]);

    rt.recover().unwrap();
    assert_eq!(
        rt.sync_components(),
        vec![(0, Activation::Deactivating), (1, Activation::Deactivating)]
    );
}

#[test]
fn sleep_does_not_wait_under_virtual_clock() {
    let mut rt = Runtime::with_context(Box::new(NoopExecutor), virtual_context());
    let v = rt.run_blocking(Action::Sleep {
        duration: Duration::from_millis(200),
        next: Box::new(Action::Pure),
    });
    assert_eq!(v, Ok(Value::Unit));
    assert!(rt.elapsed < Duration::from_millis(100));
    assert_eq!(rt.virtual_clock().unwrap().now(), Duration::from_millis(200));
}

#[test]
fn virtual_clock_accumulates_across_sleeps() {
    let mut rt = Runtime::with_context(Box::new(NoopExecutor), virtual_context());
    assert_eq!(
        rt.run_blocking(Action::Sleep {
            duration: Duration::from_millis(250),
            next: Box::new(Action::Pure),
        }),
        Ok(Value::Unit)
    );
    assert_eq!(
        rt.run_blocking(Action::Sleep {
            duration: Duration::from_millis(750),
            next: Box::new(Action::Pure),
        }),
        Ok(Value::Unit)
    );
    assert_eq!(rt.virtual_clock().unwrap().now(), Duration::from_millis(1000));
}

fn open_step(path: &str) -> Action {
    syscall_step(
        DataOp::Open {
            path: String::from(path),
            flags: OpenFlags { read: true, ..OpenFlags::default() },
        },
        vec![usage(Resource::Path(path.to_string()), AccessMode::Read)],
    )
}

fn write_step(fd: u64, data: Vec<u8>) -> Action {
    syscall_step(
        DataOp::Write { fd, data },
        vec![usage(Resource::Fd(fd), AccessMode::Write)],
    )
}

fn fd_of(v: Value) -> u64 {
    match v {
        Value::Fd(f) => f,
        _ => u64::MAX,
    }
}

/// Both branches write to the same handle.
fn fork_same_fd_write(fd: u64) -> Action {
    Action::Fork {
        left: Box::new(write_step(fd, vec![0xAA])),
        right: Box::new(write_step(fd, vec![0xAA, 0xBB])),
        combine: Box::new(|l, r| match (l, r) {
            (Value::U64(x), Value::U64(y)) => Action::Pure(Value::U64(x + y)),
            _ => Action::Pure(Value::U64(0)),
        }),
    }
}

fn stress_blueprint() -> Action {
    Action::Sequential {
        current: Box::new(open_step("/a")),
        next: Box::new(|v_a| {
            let fd_a = fd_of(v_a);
            Action::Sequential {
                current: Box::new(open_step("/b")),
                next: Box::new(move |v_b| {
                    let fd_b = fd_of(v_b);
                    Action::Sequential {
                        current: Box::new(Action::Choose {
                            cond: Box::new(|_cur: &Value| true),
                            then_branch: Box::new(fork_same_fd_write(fd_a)),
                            else_branch: Box::new(Action::Replace {
                                target: Box::new(Action::Pure(Value::U64(99))),
                            }),
                        }),
                        next: Box::new(move |_fork_v| Action::Sequential {
                            current: Box::new(open_step("/c")),
                            next: Box::new(move |_v_c| Action::Sequential {
                                current: Box::new(write_step(fd_b, vec![0xCC])),
                                next: Box::new(|_w| Action::Replace {
                                    target: Box::new(Action::Pure(Value::U64(100))),
                                }),
                            }),
                        }),
                    }
                }),
            }
        }),
    }
}

fn replay_blueprint() -> Action {
    Action::Sequential {
        current: Box::new(open_step("/a")),
        next: Box::new(|v_a| {
            let fd_a = fd_of(v_a);
            Action::Sequential {
                current: Box::new(open_step("/b")),
                next: Box::new(move |v_b| {
                    let fd_b = fd_of(v_b);
                    Action::Sequential {
                        current: Box::new(Action::Choose {
                            cond: Box::new(|_cur: &Value| true),
                            then_branch: Box::new(fork_same_fd_write(fd_a)),
                            else_branch: Box::new(Action::Replace {
                                target: Box::new(Action::Pure(Value::U64(0))),
                            }),
                        }),
                        next: Box::new(move |_fork_v| write_step(fd_b, vec![0xCC])),
                    }
                }),
            }
        }),
    }
}

fn configured_executor() -> MockExecutor {
    let mut ex = MockExecutor { describe: describe_sized, ..MockExecutor::new() };
    ex.with_undo = true;
    ex.respond("write:1:1", MockOutcome::Value(Value::U64(10)));
    ex.respond("write:1:2", MockOutcome::Value(Value::U64(20)));
    ex.respond("write:2:1", MockOutcome::Value(Value::U64(50)));
    ex
}

/// What a task of the stress tests leaves behind.
#[derive(Debug, PartialEq)]
struct StressOutcome {
    values: Vec<Result<Value, SysError>>,
    undo_lens: Vec<usize>,
    fds: Vec<u64>,
    ops: Vec<String>,
    undos: Vec<String>,
}

/// Runs a blueprint some times, each time with a world of its own.
fn run_isolated(base: ResourceRegistry, make: fn() -> Action, rounds: usize) -> StressOutcome {
    let mut ex = configured_executor();
    let mut values = Vec::new();
    let mut undo_lens = Vec::new();
    for _ in 0..rounds {
        let mut ctx = context();
        let mut undo = UndoStack::new();
        let mut reg = base.clone();
        values.push(interpret(make(), &mut ctx, &mut undo, &mut reg, &mut ex));
        undo_lens.push(undo.len());
        recover(&mut undo).unwrap();
        assert!(undo.is_empty());
    }
    let fds = ex.alloc_log.lock().unwrap().clone();
    StressOutcome { values, undo_lens, fds, ops: ex.ops(), undos: ex.undo_ops() }
}

/// Eight tasks on threads of their own.
fn run_in_parallel(base: &ResourceRegistry, make: fn() -> Action, rounds: usize) -> Vec<StressOutcome> {
    let rt = tokio::runtime::Builder::new_multi_thread().worker_threads(8).build().unwrap();
    let handles: Vec<_> = (0..8)
        .map(|_| {
            let base = base.clone();
            rt.spawn_blocking(move || run_isolated(base, make, rounds))
        })
        .collect();
    handles.into_iter().map(|h| rt.block_on(h).unwrap()).collect()
}

#[test]
fn parallel_runs_isolated_state() {
    let mut parent = ResourceRegistry::new();
    parent.allocate(mutex_handle());
    let outcomes = run_in_parallel(&parent.clone(), stress_blueprint, 1);

    assert_eq!(outcomes.len(), 8);
    for o in &outcomes {
        assert_eq!(o.values, vec![Ok(Value::U64(100))]);
        assert_eq!(o.fds, vec![1, 2, 3]);
        assert_eq!(
            o.ops,
            vec!["open:/a", "open:/b", "write:1:1", "write:1:2", "open:/c", "write:2:1"]
        );
        assert_eq!(o.undo_lens, vec![0]);
        assert_eq!(o.undos, vec!["undo(write:2:1)", "undo(write:1:2)", "undo(write:1:1)"]);
    }
    let next_fd = parent.allocate(mutex_handle());
    assert_eq!(next_fd, 1);
}

/// Claims the resources, holds them over a switch to another task, and gives
/// them back.
async fn arbiter_task(
    arbiter: Arc<tokio::sync::Mutex<ResourceArbiter>>,
    holders: Arc<AtomicUsize>,
    contention: Arc<AtomicUsize>,
    set: ResourceSet,
) -> bool {
    let mut attempts = 0u32;
    loop {
        if arbiter.lock().await.try_claim(&set) {
            break;
        }
        contention.fetch_add(1, Ordering::SeqCst);
        attempts += 1;
        assert!(attempts < 10_000);
        tokio::task::yield_now().await;
    }
    let prev = holders.fetch_add(1, Ordering::SeqCst);
    assert_eq!(prev, 0);
    tokio::task::yield_now().await;
    assert_eq!(holders.load(Ordering::SeqCst), 1);
    holders.fetch_sub(1, Ordering::SeqCst);
    arbiter.lock().await.release(&set);
    true
}

#[test]
fn concurrent_arbiter_claims() {
    let rt = tokio::runtime::Builder::new_current_thread().build().unwrap();
    let arbiter = Arc::new(tokio::sync::Mutex::new(ResourceArbiter::new()));
    let holders = Arc::new(AtomicUsize::new(0));
    let contention = Arc::new(AtomicUsize::new(0));
    let set = vec![
        usage(Resource::Fd(1), AccessMode::Write),
        usage(Resource::Fd(2), AccessMode::Read),
        usage(Resource::Fd(3), AccessMode::Own),
    ];
    let handles: Vec<_> = (0..8)
        .map(|_| {
            rt.spawn(arbiter_task(arbiter.clone(), holders.clone(), contention.clone(), set.clone()))
        })
        .collect();
    for h in handles {
        assert!(rt.block_on(h).unwrap());
    }
    assert!(contention.load(Ordering::SeqCst) > 0);
    let arb = rt.block_on(arbiter.lock());
    assert!(!arb.held(&Resource::Fd(1)));
    assert!(!arb.held(&Resource::Fd(2)));
    assert!(!arb.held(&Resource::Fd(3)));
}

#[test]
fn replay_under_concurrency() {
    let mut parent = ResourceRegistry::new();
    parent.allocate(mutex_handle());
    let outcomes = run_in_parallel(&parent.clone(), replay_blueprint, 3);

    for o in &outcomes {
        assert_eq!(o.values, vec![Ok(Value::U64(50)), Ok(Value::U64(50)), Ok(Value::U64(50))]);
        assert_eq!(o.undo_lens, vec![3, 3, 3]);
        assert_eq!(o.fds, vec![1, 2, 1, 2, 1, 2]);
        assert_eq!(o.undos.len(), 9);
    }
    let first = &outcomes[0];
    for o in &outcomes[1..] {
        assert_eq!(o, first);
    }
}

/// What a run shows: its result, the operations and the undone operations.
#[derive(Debug, PartialEq)]
struct Shown {
    result: Result<Value, SysError>,
    ops: Vec<String>,
    undone: Vec<String>,
    undo_len: usize,
    cost: EffectCost,
    elapsed: Duration,
}

/// Runs a blueprint; every operation can be undone, and reading handle 9 fails.
fn shown(action: Action, parallel: bool) -> Shown {
    let mut ex = MockExecutor::sized();
    ex.with_undo = true;
    ex.respond("gettime", MockOutcome::Value(Value::U64(3)));
    ex.respond("read:9:1", MockOutcome::Failure(SysError::NotFound));
    let world = World { ctx: context(), undo: UndoStack::new(), reg: ResourceRegistry::new() };
    let (result, world, elapsed) = run(action, parallel, world, &mut IdempotencyRegistry::new(), &mut ex);
    Shown {
        result,
        ops: ex.ops(),
        undone: ex.undo_ops(),
        undo_len: world.undo.len(),
        cost: world.undo.accrued_cost(),
        elapsed,
    }
}

fn get_time() -> Action {
    syscall_step(DataOp::GetTime, vec![])
}

fn read(fd: u64) -> Action {
    syscall_step(DataOp::Read { fd, len: 1 }, vec![rd(fd)])
}

fn write(fd: u64) -> Action {
    syscall_step(DataOp::Write { fd, data: vec![0] }, vec![wr(fd)])
}

fn then(current: Action, next: impl FnOnce(Value) -> Action + Send + 'static) -> Action {
    Action::Sequential { current: Box::new(current), next: Box::new(next) }
}

fn sleep(millis: u64) -> Action {
    Action::Sleep { duration: Duration::from_millis(millis), next: Box::new(Action::Pure) }
}

fn within(millis: u64, action: Action, on_timeout: Action) -> Action {
    Action::Timeout {
        action: Box::new(action),
        duration: Duration::from_millis(millis),
        on_timeout: Box::new(on_timeout),
    }
}

/// Twice a number, after a read.
fn doubled(v: Value) -> Action {
    match v {
        Value::U64(n) => then(read(1), move |_| Action::Pure(Value::U64(2 * n))),
        _ => Action::Pure(Value::Unit),
    }
}

/// A number and one, after a write.
fn succeeded(v: Value) -> Action {
    match v {
        Value::U64(n) => then(write(2), move |_| Action::Pure(Value::U64(n + 1))),
        _ => Action::Pure(Value::Unit),
    }
}

#[test]
fn a_plain_value_does_nothing() {
    let s = shown(Action::Pure(Value::U64(5)), true);
    assert_eq!(s.result, Ok(Value::U64(5)));
    assert!(s.ops.is_empty());
    assert_eq!(s.undo_len, 0);
    assert_eq!(s.cost, EffectCost::zero());
    assert_eq!(s.elapsed, Duration::ZERO);
}

#[test]
fn identities_of_sequences() {
    let left = shown(then(Action::Pure(Value::U64(3)), doubled), true);
    assert_eq!(left, shown(doubled(Value::U64(3)), true));
    assert_eq!(left.result, Ok(Value::U64(6)));

    let right = shown(then(get_time(), Action::Pure), true);
    assert_eq!(right, shown(get_time(), true));
    assert_eq!(right.result, Ok(Value::U64(3)));
}

#[test]
fn sequences_can_be_bracketed_either_way() {
    let a = shown(then(then(get_time(), doubled), succeeded), true);
    let b = shown(then(get_time(), |v| then(doubled(v), succeeded)), true);
    assert_eq!(a, b);
    assert_eq!(a.result, Ok(Value::U64(7)));
    assert_eq!(a.ops, vec!["gettime", "read:1:1", "write:2:1"]);

    let a = shown(then(then(read(9), doubled), succeeded), true);
    let b = shown(then(read(9), |v| then(doubled(v), succeeded)), true);
    assert_eq!(a, b);
    assert_eq!(a.result, Err(SysError::NotFound));
}

#[test]
fn a_blueprint_runs_the_same_anywhere() {
    let alone = shown(then(get_time(), doubled), true);
    let around = Action::Catch {
        action: Box::new(within(1000, then(get_time(), doubled), Action::Pure(Value::Unit))),
        handler: Box::new(|_| Action::Pure(Value::Unit)),
    };
    assert_eq!(shown(around, true), alone);
}

#[test]
fn only_the_chosen_branch_runs() {
    for (flag, op) in [(true, "read:1:1"), (false, "read:2:1")] {
        let s = shown(
            Action::Choose {
                cond: Box::new(move |_| flag),
                then_branch: Box::new(read(1)),
                else_branch: Box::new(read(2)),
            },
            true,
        );
        assert_eq!(s.ops, vec![op]);
    }
}

#[test]
fn a_scope_restores_the_directory() {
    let scope = |base: &str, inner: Action| Action::Scope {
        base: PathBuf::from(base),
        inner: Box::new(inner),
        next: Box::new(Action::Pure),
    };
    for (inner, result) in [(get_time(), Ok(Value::Unit)), (read(9), Err(SysError::NotFound))] {
        let mut ex = MockExecutor::sized();
        ex.respond("read:9:1", MockOutcome::Failure(SysError::NotFound));
        let mut ctx = Context::new(String::from("/a"), Vec::new(), None);
        let v = interpret(
            scope("/b", scope("c", inner)),
            &mut ctx,
            &mut UndoStack::new(),
            &mut ResourceRegistry::new(),
            &mut ex,
        );
        assert_eq!(v, result);
        assert_eq!(ctx.cwd, "/a");
    }
}

#[test]
fn a_scope_runs_in_its_directory() {
    let action = Action::Scope {
        base: PathBuf::from("../c"),
        inner: Box::new(sleep(1)),
        next: Box::new(Action::Pure),
    };
    let mut idem = IdempotencyRegistry::new();
    let mut ex = NoopExecutor;
    let mut shared = Shared { ex: &mut ex, idem: &mut idem, now: Duration::ZERO };
    let ctx = Context::new(String::from("/a/b"), Vec::new(), None);
    let world = World { ctx, undo: UndoStack::new(), reg: ResourceRegistry::new() };
    let mut task = Task::new(Interpreter::new(action, false), world);
    while task.advance(&mut shared) {}
    assert_eq!(task.world.ctx.cwd, "/a/c");
}

#[test]
fn handlers_see_errors_only() {
    let catch = |action: Action| Action::Catch {
        action: Box::new(action),
        handler: Box::new(|e| Action::Pure(Value::Str(e.to_string()))),
    };
    assert_eq!(shown(catch(get_time()), true).result, Ok(Value::U64(3)));
    let s = shown(catch(then(get_time(), |_| read(9))), true);
    assert_eq!(s.result, Ok(Value::Str(String::from("NotFound(errno 2)"))));
    assert_eq!(s.undo_len, 1);
    assert!(s.undone.is_empty());
}

#[test]
fn nothing_runs_too_deep() {
    let mut action = get_time();
    for _ in 0..63 {
        action = then(action, Action::Pure);
    }
    assert_eq!(shown(action, true).ops, vec!["gettime"]);

    let mut action = get_time();
    for _ in 0..64 {
        action = then(action, Action::Pure);
    }
    let s = shown(action, true);
    assert_eq!(s.result, Err(SysError::Other(105)));
    assert!(s.ops.is_empty());
    assert_eq!(s.cost, EffectCost::zero());
}

#[test]
fn a_refused_operation_changes_nothing() {
    let once = shown(write(1), true);
    let twice = shown(then(write(1), |_| write(1)), true);
    assert_eq!(twice.result, Err(SysError::InvalidInput));
    assert_eq!(twice.ops, once.ops);
    assert_eq!(twice.undo_len, once.undo_len);
    assert_eq!(twice.cost, once.cost);

    // A use that is allowed is taken back when a later one is refused.
    let both = syscall_step(DataOp::GetTime, vec![wr(2), wr(1)]);
    let action = then(write(1), move |_| Action::Catch {
        action: Box::new(both),
        handler: Box::new(|_| write(2)),
    });
    assert_eq!(shown(action, true).result, Ok(Value::Unit));
}

#[test]
fn a_failed_operation_can_be_tried_again() {
    let mut ex = ScriptedExecutor {
        results: VecDeque::from([
            Err(SysError::NotFound),
            Ok((Value::U64(1), UndoCapability::Identity)),
        ]),
    };
    let mut undo = UndoStack::new();
    let action = Action::Catch {
        action: Box::new(write(1)),
        handler: Box::new(|_| write(1)),
    };
    let v = interpret(action, &mut context(), &mut undo, &mut ResourceRegistry::new(), &mut ex);
    assert_eq!(v, Ok(Value::U64(1)));
    assert_eq!(undo.accrued_cost(), EffectCost::for_op(&DataOp::Write { fd: 1, data: vec![0] }));
}

#[test]
fn an_operation_is_accounted_for() {
    let capabilities = [
        (UndoCapability::Identity, 0, false),
        (UndoCapability::Invertible(Box::new(|| Ok(()))), 1, false),
        (UndoCapability::NonInvertible, 0, true),
    ];
    for (capability, len, irreversible) in capabilities {
        let mut ex = ScriptedExecutor { results: VecDeque::from([Ok((Value::Unit, capability))]) };
        let mut undo = UndoStack::new();
        let v = interpret(write(1), &mut context(), &mut undo, &mut ResourceRegistry::new(), &mut ex);
        assert_eq!(v, Ok(Value::Unit));
        assert_eq!(undo.len(), len);
        assert_eq!(undo.has_irreversible(), irreversible);
        assert_eq!(undo.accrued_cost(), EffectCost::for_op(&DataOp::Write { fd: 1, data: vec![0] }));
    }
}

/// An inverse operation that logs its name and ends as told.
fn inverse(log: &Arc<Mutex<Vec<u64>>>, name: u64, result: Result<(), SysError>) -> UndoOp {
    let log = Arc::clone(log);
    Box::new(move || {
        log.lock().unwrap().push(name);
        result
    })
}

#[test]
fn undoing_runs_to_its_end() {
    let log = Arc::new(Mutex::new(Vec::new()));
    let mut undo = UndoStack::new();
    undo.push(inverse(&log, 1, Err(SysError::NotFound)));
    undo.push(inverse(&log, 2, Ok(())));
    undo.push(inverse(&log, 3, Err(SysError::InvalidInput)));
    undo.push(inverse(&log, 4, Ok(())));
    let action = Action::Replace { target: Box::new(Action::Pure(Value::U64(7))) };
    let v = interpret(action, &mut context(), &mut undo, &mut ResourceRegistry::new(), &mut NoopExecutor);
    assert_eq!(v, Err(SysError::InvalidInput));
    assert_eq!(*log.lock().unwrap(), vec![4, 3, 2, 1]);
    assert!(undo.is_empty());
}

#[test]
fn a_replacement_starts_clean() {
    let log = Arc::new(Mutex::new(Vec::new()));
    let mut undo = UndoStack::new();
    undo.push(inverse(&log, 1, Ok(())));
    let mut reg = ResourceRegistry::new();
    reg.allocate(mutex_handle());
    let action = then(write(5), |_| Action::Replace { target: Box::new(write(5)) });
    let v = interpret(action, &mut context(), &mut undo, &mut reg, &mut NoopExecutor);
    assert_eq!(v, Ok(Value::Unit));
    assert_eq!(*log.lock().unwrap(), vec![1]);
    assert!(undo.is_empty());
    assert!(reg.lookup(0).is_none());
    assert_eq!(reg.allocate(mutex_handle()), 1);
}

#[test]
fn the_irreversible_is_not_replaced() {
    let mut ex = ScriptedExecutor {
        results: VecDeque::from([Ok((Value::Unit, UndoCapability::NonInvertible))]),
    };
    let mut undo = UndoStack::new();
    let action = then(write(1), |_| Action::Replace {
        target: Box::new(Action::Pure(Value::U64(7))),
    });
    let v = interpret(action, &mut context(), &mut undo, &mut ResourceRegistry::new(), &mut ex);
    assert_eq!(v, Err(SysError::PermissionDenied));
    assert!(!undo.has_irreversible());
}

#[test]
fn what_ends_in_time_keeps_its_effects() {
    let s = shown(within(100, then(sleep(50), |_| write(1)), Action::Pure(Value::U64(7))), true);
    assert_eq!(s.result, Ok(Value::Unit));
    assert_eq!(s.undo_len, 1);
    assert!(s.undone.is_empty());
}

#[test]
fn what_times_out_is_undone() {
    let late = then(write(1), |_| sleep(500));
    let s = shown(then(get_time(), |_| within(100, late, write(1))), true);
    assert_eq!(s.result, Ok(Value::Unit));
    assert_eq!(s.ops, vec!["gettime", "write:1:1", "write:1:1"]);
    assert_eq!(s.undone, vec!["undo(write:1:1)"]);
    assert_eq!(s.undo_len, 2);
    assert_eq!(s.elapsed, Duration::from_millis(100));
}

#[test]
fn a_failed_undoing_keeps_the_alternative_from_running() {
    let undo: UndoOp = Box::new(|| Err(SysError::NotFound));
    let mut ex = ScriptedExecutor {
        results: VecDeque::from([Ok((Value::Unit, UndoCapability::Invertible(undo)))]),
    };
    let action = within(100, then(write(1), |_| sleep(500)), Action::Pure(Value::U64(7)));
    let v = interpret(
        action,
        &mut context(),
        &mut UndoStack::new(),
        &mut ResourceRegistry::new(),
        &mut ex,
    );
    assert_eq!(v, Err(SysError::NotFound));
}

#[test]
fn what_does_not_stop_is_given_up() {
    let mut ex = MockExecutor::sized();
    ex.delay = Duration::from_secs(10);
    let mut rt = Runtime::new(Box::new(ex));
    let v = rt.run_blocking(within(1000, write(1), Action::Pure(Value::U64(7))));
    assert_eq!(v, Ok(Value::U64(7)));
    assert_eq!(rt.elapsed, Duration::from_millis(1500));
    assert!(rt.undo_stack().is_empty());
    // The mark of the write that was under way is gone.
    assert!(rt.registry().check_linear(&wr(1)).is_ok());
}

#[test]
fn a_standing_section_is_not_run_again() {
    let section = || Action::Idempotent {
        key: String::from("k"),
        inner: Box::new(write(1)),
        next: Box::new(Action::Pure),
    };
    let mut ex = MockExecutor::sized();
    ex.with_undo = true;
    ex.respond("write:1:1", MockOutcome::Value(Value::U64(4)));
    let log = Arc::clone(&ex.log);
    let mut rt = Runtime::new(Box::new(ex));
    assert_eq!(rt.run_blocking(section()), Ok(Value::U64(4)));
    assert_eq!(rt.run_blocking(section()), Ok(Value::U64(4)));
    assert_eq!(log.lock().unwrap().len(), 1);
    assert_eq!(rt.idem.status_of("k"), Some(IdempotencyStatus::Committed));

    // Undone, it may run again.
    let v = rt.run_blocking(Action::Replace { target: Box::new(section()) });
    assert_eq!(v, Ok(Value::U64(4)));
    assert_eq!(log.lock().unwrap().len(), 2);
}

#[test]
fn a_section_without_a_trace_is_committed() {
    let mut rt = Runtime::new(Box::new(NoopExecutor));
    let v = rt.run_blocking(Action::Idempotent {
        key: String::from("k"),
        inner: Box::new(get_time()),
        next: Box::new(Action::Pure),
    });
    assert_eq!(v, Ok(Value::Unit));
    assert_eq!(rt.idem.status_of("k"), Some(IdempotencyStatus::Committed));
    // There is nothing to undo, so nothing takes the key back.
    assert!(rt.undo_stack().is_empty());
}

#[test]
fn an_irreversible_section_is_not_run_again() {
    let section = || Action::Idempotent {
        key: String::from("k"),
        inner: Box::new(syscall_step(DataOp::Unlink { path: String::from("/x") }, Vec::new())),
        next: Box::new(Action::Pure),
    };
    let ex = ScriptExecutor {
        queue: Arc::new(Mutex::new(VecDeque::from([
            (Value::U64(5), UndoCapability::NonInvertible),
        ]))),
        fallback: Value::U64(6),
        calls: Arc::new(AtomicUsize::new(0)),
    };
    let calls = Arc::clone(&ex.calls);
    let mut rt = Runtime::new(Box::new(ex));
    assert_eq!(rt.run_blocking(section()), Ok(Value::U64(5)));
    assert_eq!(rt.run_blocking(section()), Ok(Value::U64(5)));
    assert_eq!(calls.load(Ordering::SeqCst), 1);
    assert!(rt.undo_stack().has_irreversible());
}

#[test]
fn a_failed_section_is_not_committed() {
    let mut rt = Runtime::new(Box::new(FixedErrorExecutor { err: SysError::NotFound }));
    assert_eq!(rt.run_blocking(idempotent("k", get_time())), Err(SysError::NotFound));
    assert_eq!(rt.idem.status_of("k"), None);
}

#[test]
fn a_section_that_replaces_is_not_committed() {
    let section = || {
        let inner = then(write(1), |_| Action::Replace { target: Box::new(write(2)) });
        Action::Idempotent {
            key: String::from("k"),
            inner: Box::new(inner),
            next: Box::new(Action::Pure),
        }
    };
    let mut ex = MockExecutor::sized();
    ex.with_undo = true;
    let log = Arc::clone(&ex.log);
    let mut rt = Runtime::new(Box::new(ex));
    for runs in 1..3 {
        assert_eq!(rt.run_blocking(section()), Ok(Value::Unit));
        assert_eq!(rt.idem.status_of("k"), None);
        assert_eq!(rt.undo_stack().len(), 1);
        assert_eq!(log.lock().unwrap().len(), 2 * runs);
    }
    assert_eq!(rt.undo_stack().replacements(), 2);
}

#[test]
fn what_is_given_up_leaves_its_scopes() {
    let scope = |base: &str, inner: Action| Action::Scope {
        base: PathBuf::from(base),
        inner: Box::new(inner),
        next: Box::new(Action::Pure),
    };
    let mut ex = MockExecutor::sized();
    ex.delay = Duration::from_secs(10);
    let ctx = Context::new(String::from("/a"), Vec::new(), None);
    let mut rt = Runtime::with_context(Box::new(ex), ctx);
    let slow = scope("b", scope("c", write(1)));
    let v = rt.run_blocking(within(1000, slow, Action::Pure(Value::U64(7))));
    assert_eq!(v, Ok(Value::U64(7)));
    assert_eq!(rt.elapsed, Duration::from_millis(1500));
    assert_eq!(rt.world.ctx.cwd, "/a");

    // Within a scope, its directory is back for what runs instead.
    let mut ex = MockExecutor::sized();
    ex.delay = Duration::from_secs(10);
    let mut idem = IdempotencyRegistry::new();
    let mut shared = Shared { ex: &mut ex, idem: &mut idem, now: Duration::ZERO };
    let action = scope("/a", within(1000, scope("b", write(1)), sleep(1)));
    let world = World { ctx: context(), undo: UndoStack::new(), reg: ResourceRegistry::new() };
    let mut task = Task::new(Interpreter::new(action, false), world);
    for _ in 0..2 {
        while task.advance(&mut shared) {}
        assert_eq!(task.world.ctx.cwd, "/a/b");
        shared.now = task.next_time().unwrap();
        task.fire(&mut shared);
    }
    while task.advance(&mut shared) {}
    assert!(task.result.is_none());
    assert_eq!(task.world.ctx.cwd, "/a");
}

#[test]
fn runs_can_be_bracketed_either_way() {
    let late = || within(100, then(write(1), |_| sleep(500)), then(write(1), |_| get_time()));
    let firsts: [fn() -> Action; 3] = [|| write(1), || read(9), || Action::Pure(Value::U64(2))];
    let second = |v: Value| then(doubled(v), |v| then(sleep(20), move |_| Action::Pure(v)));
    let third = |_: Value| then(write(2), |_| get_time());
    for parallel in [false, true] {
        for first in firsts {
            let a = || then(first(), move |_| get_time());
            let left = shown(then(then(a(), second), third), parallel);
            let right = shown(then(a(), move |v| then(second(v), third)), parallel);
            assert_eq!(left, right);
        }
        let left = shown(then(then(late(), second), third), parallel);
        let right = shown(then(late(), move |v| then(second(v), third)), parallel);
        assert_eq!(left.result, Ok(Value::U64(3)));
        assert_eq!(left.undone, vec!["undo(write:1:1)"]);
        assert_eq!(left.elapsed, Duration::from_millis(120));
        assert_eq!(left, right);
    }
}

fn fork(left: Action, right: Action) -> Action {
    Action::Fork {
        left: Box::new(left),
        right: Box::new(right),
        combine: Box::new(|l, r| Action::Pure(Value::List(vec![l, r]))),
    }
}

#[test]
fn both_branches_count() {
    let s = shown(fork(read(9), write(1)), false);
    assert_eq!(s.result, Err(SysError::NotFound));
    assert_eq!(s.ops, vec!["read:9:1", "write:1:1"]);
    assert_eq!(s.undo_len, 1);
}

#[test]
fn branches_get_numbers_of_their_own() {
    let open = |path: &str| {
        syscall_step(
            DataOp::Open { path: path.to_string(), flags: OpenFlags::default() },
            vec![rd_path(path.to_string())],
        )
    };
    for parallel in [false, true] {
        let mut ex = MockExecutor::new();
        let world = World { ctx: context(), undo: UndoStack::new(), reg: ResourceRegistry::new() };
        let mut idem = IdempotencyRegistry::new();
        let (v, mut world, _) = run(fork(open("/a"), open("/b")), parallel, world, &mut idem, &mut ex);
        match v {
            Ok(Value::List(l)) => match (&l[0], &l[1]) {
                (Value::Fd(a), Value::Fd(b)) => {
                    assert_ne!(a, b);
                    assert!(world.reg.lookup(*a).is_some());
                    assert!(world.reg.lookup(*b).is_some());
                    let next = world.reg.allocate(mutex_handle());
                    assert_ne!(next, *a);
                    assert_ne!(next, *b);
                }
                _ => panic!("no handles"),
            },
            _ => panic!("no list"),
        }
    }
}

#[test]
fn it_does_not_matter_which_branch_is_done_first() {
    let both = |left: u64, right: u64| {
        fork(then(sleep(left), |_| write(1)), then(sleep(right), |_| write(2)))
    };
    let undo_order = |action: Action| {
        let mut ex = MockExecutor::sized();
        ex.with_undo = true;
        let log = Arc::clone(&ex.undo_log);
        let mut rt = Runtime::new(Box::new(ex));
        rt.run_blocking(action).unwrap();
        rt.recover().unwrap();
        let order = log.lock().unwrap().clone();
        (order, rt.elapsed)
    };
    let expected = vec![String::from("undo(write:2:1)"), String::from("undo(write:1:1)")];
    assert_eq!(undo_order(both(10, 50)), (expected.clone(), Duration::from_millis(50)));
    assert_eq!(undo_order(both(50, 10)), (expected, Duration::from_millis(50)));
}

#[test]
fn a_clock_that_cannot_be_moved_further_stops_the_run() {
    let mut ctx = virtual_context();
    ctx.virtual_clock_mut().unwrap().set(Duration::MAX);
    let mut world = World { ctx, undo: UndoStack::new(), reg: ResourceRegistry::new() };
    let mut idem = IdempotencyRegistry::new();
    let mut machine: Interpreter<Closures> = Interpreter::new(sleep(1), false);
    let request = machine.step(&mut world, &mut idem, Event::Go);
    assert!(matches!(request, Request::Overflow));
}

#[test]
fn an_answer_that_was_not_asked_for_is_ignored() {
    let mut world = World { ctx: context(), undo: UndoStack::new(), reg: ResourceRegistry::new() };
    let mut idem = IdempotencyRegistry::new();
    let mut machine: Interpreter<Closures> = Interpreter::new(get_time(), false);
    let request = machine.step(&mut world, &mut idem, Event::Slept);
    assert!(matches!(request, Request::Ignored));
    let request = machine.step(&mut world, &mut idem, Event::Go);
    assert!(matches!(request, Request::Execute { op: DataOp::GetTime }));
}

#[test]
fn a_run_can_be_replayed() {
    let blueprint = || {
        then(fork(write(1), then(read(2), doubled)), |_| Action::Catch {
            action: Box::new(within(50, then(write(3), |_| sleep(80)), read(9))),
            handler: Box::new(|_| Action::Replace { target: Box::new(write(1)) }),
        })
    };
    for parallel in [false, true] {
        let first = shown(blueprint(), parallel);
        assert_eq!(first.undone.len(), 3);
        assert_eq!(first, shown(blueprint(), parallel));
    }
}

#[test]
fn the_order_of_branches_does_not_show_in_the_cost() {
    for parallel in [false, true] {
        let a = shown(fork(write(1), read(2)), parallel);
        let b = shown(fork(read(2), write(1)), parallel);
        assert_eq!(a.cost, b.cost);
        assert_eq!(a.undo_len, b.undo_len);
    }
}
