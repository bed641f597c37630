//! Blueprints: the values, data-plane operations and nodes that the interpreter
//! runs.
//!
//! A blueprint is plain data. Its continuations (what follows a node, which
//! branch to take, how to combine two branches, how to handle an error) belong
//! to the program that wrote it: they are types of a [`Host`], carried here and
//! applied by whoever drives the interpreter.

use std::time::Duration;
use vstd::prelude::*;

use crate::resource::ResourceSet;

verus! {

/// A handle that the resource registry gave out. Never reused.
pub type Fd = u64;

/// A process identifier.
pub type Pid = u32;

/// An identifier of a foreign call or component.
pub type Id = u64;

/// A signal number.
pub type Signal = i32;

/// Raw bytes.
pub type Bytes = Vec<u8>;

/// The address of an IPv4 or IPv6 socket.
#[derive(Debug, Clone, Copy, PartialEq, Eq, Structural)]
#[allow(inconsistent_fields)]
pub enum SocketAddr {
    V4 { ip: u32, port: u16 },
    V6 { ip: u128, port: u16, flowinfo: u32, scope_id: u32 },
}

/// A value that flows between the nodes of a blueprint.
#[derive(Debug, PartialEq, Eq)]
pub enum Value {
    Unit,
    Bool(bool),
    U64(u64),
    I64(i64),
    Bytes(Bytes),
    Str(String),
    Fd(Fd),
    Pid(Pid),
    Addr(SocketAddr),
    List(Vec<Value>),
}

/// What a [`Value`] holds.
#[verifier::ext_equal]
pub enum ValueView {
    Unit,
    Bool(bool),
    U64(u64),
    I64(i64),
    Bytes(Seq<u8>),
    Str(Seq<char>),
    Fd(Fd),
    Pid(Pid),
    Addr(SocketAddr),
    List(Seq<ValueView>),
}

/// What a value holds.
pub open spec fn value_view(v: Value) -> ValueView
    decreases v,
{
    match v {
        Value::Unit => ValueView::Unit,
        Value::Bool(b) => ValueView::Bool(b),
        Value::U64(n) => ValueView::U64(n),
        Value::I64(n) => ValueView::I64(n),
        Value::Bytes(b) => ValueView::Bytes(b@),
        Value::Str(s) => ValueView::Str(s@),
        Value::Fd(fd) => ValueView::Fd(fd),
        Value::Pid(pid) => ValueView::Pid(pid),
        Value::Addr(a) => ValueView::Addr(a),
        Value::List(items) => ValueView::List(
            Seq::new(
                items@.len(),
                |i: int|
                    if 0 <= i < items@.len() {
                        value_view(items@[i])
                    } else {
                        ValueView::Unit
                    },
            ),
        ),
    }
}

impl View for Value {
    type V = ValueView;

    open spec fn view(&self) -> ValueView {
        value_view(*self)
    }
}

impl Clone for Value {
    fn clone(&self) -> (r: Self)
        ensures
            r@ == self@,
        decreases self,
    {
        match self {
            Value::Unit => Value::Unit,
            Value::Bool(b) => Value::Bool(*b),
            Value::U64(n) => Value::U64(*n),
            Value::I64(n) => Value::I64(*n),
            Value::Bytes(b) => Value::Bytes(b.clone()),
            Value::Str(s) => Value::Str(s.clone()),
            Value::Fd(fd) => Value::Fd(*fd),
            Value::Pid(pid) => Value::Pid(*pid),
            Value::Addr(a) => Value::Addr(*a),
            Value::List(items) => {
                let mut out: Vec<Value> = Vec::new();
                let mut i: usize = 0;
                while i < items.len()
                    invariant
                        i <= items.len(),
                        out@.len() == i,
                        self is List,
                        items == self->List_0,
                        forall|j: int| 0 <= j < i ==> out@[j]@ == items@[j]@,
                    decreases items.len() - i,
                {
                    out.push(items[i].clone());
                    i += 1;
                }
                let r = Value::List(out);
                assert(r@->List_0 =~= self@->List_0);
                r
            },
        }
    }
}

/// A list holds what its items hold.
proof fn lemma_list_view(v: Value)
    requires
        v is List,
    ensures
        v@ is List,
        v@->List_0.len() == v->List_0@.len(),
        forall|i: int| 0 <= i < v->List_0@.len() ==> v@->List_0[i] == #[trigger] v->List_0@[i]@,
{
}

/// Whether a value is a handle, or a list with a handle somewhere inside.
pub open spec fn holds_handle(v: ValueView) -> bool
    decreases v,
{
    match v {
        ValueView::Fd(_) => true,
        ValueView::Pid(_) => true,
        ValueView::List(items) => exists|i: int|
            0 <= i < items.len() && holds_handle(#[trigger] items[i]),
        _ => false,
    }
}

/// Whether a value is a handle, or a list with a handle somewhere inside. A
/// handle goes stale when the registry is cleared, so such a value is not kept
/// for later.
pub fn value_contains_handle(v: &Value) -> (r: bool)
    ensures
        r == holds_handle(v@),
    decreases v,
{
    match v {
        Value::Fd(_) => true,
        Value::Pid(_) => true,
        Value::List(items) => {
            let mut i: usize = 0;
            while i < items.len()
                invariant
                    i <= items.len(),
                    v is List,
                    items == v->List_0,
                    forall|j: int| 0 <= j < i ==> !#[trigger] holds_handle(items@[j]@),
                decreases items.len() - i,
            {
                if value_contains_handle(&items[i]) {
                    proof {
                        lemma_list_view(*v);
                        assert(holds_handle((*v)@->List_0[i as int]));
                    }
                    return true;
                }
                i += 1;
            }
            proof {
                lemma_list_view(*v);
                assert forall|j: int| 0 <= j < items@.len() implies !holds_handle(
                    #[trigger] (*v)@->List_0[j],
                ) by {
                    assert(!holds_handle(items@[j]@));
                }
            }
            false
        },
        _ => false,
    }
}

/// How a file is opened.
#[derive(Debug, Clone, Copy, Default, PartialEq, Eq)]
pub struct OpenFlags {
    pub read: bool,
    pub write: bool,
    pub append: bool,
    pub create: bool,
    pub truncate: bool,
    pub exclusive: bool,
}

/// How a pipe is opened.
#[derive(Debug, Clone, Copy, Default, PartialEq, Eq)]
pub struct PipeFlags {
    pub nonblocking: bool,
}

/// The protection of a memory mapping.
#[derive(Debug, Clone, Copy, Default, PartialEq, Eq)]
pub struct MmapProt {
    pub read: bool,
    pub write: bool,
    pub execute: bool,
}

/// Where a seek starts from.
#[derive(Debug, Clone, Copy, PartialEq, Eq)]
pub enum SeekFrom {
    Start(u64),
    End(i64),
    Current(i64),
}

/// Which halves of a connection are shut down.
#[derive(Debug, Clone, Copy, PartialEq, Eq)]
pub enum Shutdown {
    Read,
    Write,
    Both,
}

/// A process to spawn.
#[derive(Debug, PartialEq, Eq)]
pub struct Command {
    pub program: String,
    pub args: Vec<String>,
    /// Variables set (`Some`) or removed (`None`) on top of the inherited ones.
    pub envs: Vec<(String, Option<String>)>,
    pub current_dir: Option<String>,
}

/// A primitive of the data plane.
#[derive(Debug)]
#[allow(inconsistent_fields)]
pub enum DataOp {
    Open { path: String, flags: OpenFlags },
    Read { fd: Fd, len: usize },
    Write { fd: Fd, data: Bytes },
    Close { fd: Fd },
    Seek { fd: Fd, offset: i64, whence: SeekFrom },
    Stat { path: String },
    Chmod { path: String, mode: u32 },
    Chown { path: String, uid: u32, gid: u32 },
    Truncate { path: String, len: usize },
    Unlink { path: String },
    Rename { from: String, to: String },
    Mkdir { path: String, mode: u32 },
    Rmdir { path: String },
    ReadDir { path: String },
    TcpBind { addr: SocketAddr },
    TcpAccept { listener: Fd },
    TcpConnect { addr: SocketAddr },
    TcpRead { fd: Fd, len: usize },
    TcpWrite { fd: Fd, data: Bytes },
    TcpShutdown { fd: Fd, how: Shutdown },
    UdpBind { addr: SocketAddr },
    UdpRecvFrom { fd: Fd, len: usize },
    UdpSendTo { fd: Fd, data: Bytes, addr: SocketAddr },
    PipeOpen { flags: PipeFlags },
    Spawn { cmd: Command },
    Kill { pid: Pid, signal: Signal },
    Wait { pid: Pid },
    SendSignal { signal: Signal, pid: Pid },
    Mmap { path: String, len: usize, prot: MmapProt },
    Munmap { addr: usize, len: usize },
    GetTime,
    MutexLock { id: u64 },
    MutexUnlock { id: u64 },
    SendFile { out: Fd, input: Fd, offset: usize, len: usize },
    Dup { fd: Fd },
    Dup2 { old_fd: Fd, new_fd: Fd },
}

/// What undoing an operation would take, known before it runs.
///
/// This is the best case: an operation that is `Invertible` here may still turn
/// out to have no inverse when it runs.
#[derive(Clone, Copy, Debug, PartialEq, Eq, Structural)]
pub enum UndoRole {
    /// Nothing observable happens: there is nothing to undo.
    Identity,
    /// An inverse operation exists.
    Invertible,
    /// No inverse operation exists.
    NonInvertible,
}

/// Reads, queries, and the handle operations whose effect ends with the handle.
pub open spec fn is_identity(op: DataOp) -> bool {
    ||| op is Read
    ||| op is Stat
    ||| op is ReadDir
    ||| op is GetTime
    ||| op is Mmap
    ||| op is Munmap
    ||| op is Close
    ||| op is Dup
    ||| op is Dup2
    ||| op is MutexUnlock
    ||| op is PipeOpen
    ||| op is TcpBind
    ||| op is TcpAccept
    ||| op is TcpConnect
    ||| op is UdpBind
}

/// Deliveries, consumption, deletion, processes and signals.
pub open spec fn is_irrevocable(op: DataOp) -> bool {
    ||| op is Unlink
    ||| op is Rmdir
    ||| op is TcpRead
    ||| op is TcpWrite
    ||| op is TcpShutdown
    ||| op is UdpRecvFrom
    ||| op is UdpSendTo
    ||| op is Spawn
    ||| op is Kill
    ||| op is Wait
    ||| op is SendSignal
}

/// The undo role of an operation. What is neither an identity nor irrevocable
/// changes content, cursors or metadata, which can be put back.
pub open spec fn role_of(op: DataOp) -> UndoRole {
    if is_identity(op) {
        UndoRole::Identity
    } else if is_irrevocable(op) {
        UndoRole::NonInvertible
    } else {
        UndoRole::Invertible
    }
}

/// Whether the outcome depends on the wall clock, on the network or on another
/// process.
pub open spec fn depends_on_outside(op: DataOp) -> bool {
    ||| op is GetTime
    ||| op is UdpRecvFrom
    ||| op is UdpSendTo
    ||| op is TcpRead
    ||| op is TcpWrite
    ||| op is TcpAccept
    ||| op is Spawn
    ||| op is Wait
}

impl DataOp {
    /// What undoing this operation would take.
    pub fn role(&self) -> (r: UndoRole)
        ensures
            r == role_of(*self),
    {
        match self {
            DataOp::Read { .. }
            | DataOp::Stat { .. }
            | DataOp::ReadDir { .. }
            | DataOp::GetTime
            | DataOp::Mmap { .. }
            | DataOp::Munmap { .. }
            | DataOp::Close { .. }
            | DataOp::Dup { .. }
            | DataOp::Dup2 { .. }
            | DataOp::MutexUnlock { .. }
            | DataOp::PipeOpen { .. }
            | DataOp::TcpBind { .. }
            | DataOp::TcpAccept { .. }
            | DataOp::TcpConnect { .. }
            | DataOp::UdpBind { .. } => UndoRole::Identity,
            DataOp::Write { .. }
            | DataOp::Seek { .. }
            | DataOp::Rename { .. }
            | DataOp::Truncate { .. }
            | DataOp::Mkdir { .. }
            | DataOp::Open { .. }
            | DataOp::SendFile { .. }
            | DataOp::Chmod { .. }
            | DataOp::Chown { .. }
            | DataOp::MutexLock { .. } => UndoRole::Invertible,
            DataOp::Unlink { .. }
            | DataOp::Rmdir { .. }
            | DataOp::TcpRead { .. }
            | DataOp::TcpWrite { .. }
            | DataOp::TcpShutdown { .. }
            | DataOp::UdpRecvFrom { .. }
            | DataOp::UdpSendTo { .. }
            | DataOp::Spawn { .. }
            | DataOp::Kill { .. }
            | DataOp::Wait { .. }
            | DataOp::SendSignal { .. } => UndoRole::NonInvertible,
        }
    }

    /// Whether running this operation again gives the same outcome.
    pub fn is_deterministic(&self) -> (r: bool)
        ensures
            r == !depends_on_outside(*self),
    {
        !matches!(
            self,
            DataOp::GetTime
                | DataOp::UdpRecvFrom { .. }
                | DataOp::UdpSendTo { .. }
                | DataOp::TcpRead { .. }
                | DataOp::TcpWrite { .. }
                | DataOp::TcpAccept { .. }
                | DataOp::Spawn { .. }
                | DataOp::Wait { .. }
        )
    }
}

/// What a blueprint's host program supplies: the types of its continuations and
/// of the inverse operations that its executor hands out.
pub trait Host: Sized {
    /// From the value of a node to the blueprint that follows it.
    type Next;

    /// From the current value to a choice.
    type Cond;

    /// From the values of two branches to the blueprint that follows them.
    type Combine;

    /// From an error to the blueprint that handles it.
    type Handler;

    /// An inverse operation.
    type Undo;
}

/// A node of a blueprint.
pub enum Action<B: Host> {
    /// Ends with a value.
    Pure(Value),
    /// Runs a data-plane operation that uses `resources`.
    Syscall { op: DataOp, resources: ResourceSet, next: B::Next },
    /// Takes one of two branches.
    Choose { cond: B::Cond, then_branch: Box<Action<B>>, else_branch: Box<Action<B>> },
    /// Runs two branches, side by side where their resources allow it.
    Fork { left: Box<Action<B>>, right: Box<Action<B>>, combine: B::Combine },
    /// Runs `inner` with `base`, by its text, as working directory.
    Scope { base: std::path::PathBuf, inner: Box<Action<B>>, next: B::Next },
    /// Produces `len` zero bytes.
    Alloc { len: usize, next: B::Next },
    /// Undoes everything so far, then runs `target` in place of what follows.
    Replace { target: Box<Action<B>> },
    /// Calls foreign code. `yields` is the executor's affair.
    Invoke {
        foreign_id: Id,
        captures: ResourceSet,
        yields: ResourceSet,
        deterministic: bool,
        next: B::Next,
    },
    /// Waits.
    Sleep { duration: Duration, next: B::Next },
    /// Waits for a signal.
    WatchSignal { signal: Signal, next: B::Next },
    /// Runs `action`, or gives it up after `duration` and runs `on_timeout`.
    Timeout { action: Box<Action<B>>, duration: Duration, on_timeout: Box<Action<B>> },
    /// Runs `current`, then what `next` makes of its value.
    Sequential { current: Box<Action<B>>, next: B::Next },
    /// Runs `action`; an error goes to `handler`.
    Catch { action: Box<Action<B>>, handler: B::Handler },
    /// Runs `inner`, then what `next` makes of its value. Once `inner` has succeeded
    /// without a replacement, its value stands for `key`: until that is undone, a
    /// section with this key gives the value and does not run.
    Idempotent { key: String, inner: Box<Action<B>>, next: B::Next },
}

/// The blueprint that does nothing.
pub fn unit<B: Host>() -> (r: Action<B>)
    ensures
        r == Action::<B>::Pure(Value::Unit),
{
    Action::Pure(Value::Unit)
}

/// What can be undone is what changes content, cursors, metadata or locks; what is
/// delivered, consumed, deleted, started or signalled cannot be; the rest leaves
/// nothing to undo.
pub proof fn law_roles(op: DataOp)
    ensures
        role_of(op) is Invertible <==> (op is Write || op is Seek || op is Rename || op is Truncate
            || op is Mkdir || op is Open || op is SendFile || op is Chmod || op is Chown
            || op is MutexLock),
        role_of(op) is NonInvertible <==> (op is Unlink || op is Rmdir || op is TcpRead
            || op is TcpWrite || op is TcpShutdown || op is UdpRecvFrom || op is UdpSendTo
            || op is Spawn || op is Kill || op is Wait || op is SendSignal),
{
}

/// What does not depend on the clock, the network or another process has the same
/// outcome again.
pub proof fn law_what_depends_on_outside(op: DataOp)
    ensures
        !depends_on_outside(op) <==> !(op is GetTime || op is UdpRecvFrom || op is UdpSendTo
            || op is TcpRead || op is TcpWrite || op is TcpAccept || op is Spawn || op is Wait),
{
}

/// Whether this is a way from a value down to something inside it, item by item.
pub open spec fn is_way_into(way: Seq<ValueView>, part: ValueView, whole: ValueView) -> bool {
    &&& way.len() > 0
    &&& way.first() == whole
    &&& way.last() == part
    &&& forall|i: int|
        0 < i < way.len() ==> (way[i - 1] matches ValueView::List(items) && items.contains(
            #[trigger] way[i],
        ))
}

/// A value holds a handle exactly if a handle or a process stands somewhere inside
/// it, however deep.
pub proof fn law_handles_are_found(v: ValueView)
    ensures
        holds_handle(v) <==> exists|way: Seq<ValueView>, part: ValueView| #[trigger]
            is_way_into(way, part, v) && (part is Fd || part is Pid),
{
    if holds_handle(v) {
        lemma_handle_inside(v);
    }
    if exists|way: Seq<ValueView>, part: ValueView| #[trigger]
        is_way_into(way, part, v) && (part is Fd || part is Pid) {
        let (way, part) = choose|way: Seq<ValueView>, part: ValueView| #[trigger]
            is_way_into(way, part, v) && (part is Fd || part is Pid);
        lemma_holds_what_is_inside(way, part, v);
    }
}

proof fn lemma_way_from_list(
    way: Seq<ValueView>,
    part: ValueView,
    items: Seq<ValueView>,
    i: int,
)
    requires
        0 <= i < items.len(),
        is_way_into(way, part, items[i]),
    ensures
        is_way_into(seq![ValueView::List(items)] + way, part, ValueView::List(items)),
{
    let longer = seq![ValueView::List(items)] + way;
    assert forall|j: int| 0 < j < longer.len() implies (longer[j - 1] matches ValueView::List(l)
        && l.contains(#[trigger] longer[j])) by {
        if j > 1 {
            assert(longer[j - 1] == way[j - 2]);
            assert(longer[j] == way[j - 1]);
        } else {
            assert(longer[1] == items[i]);
        }
    }
    assert(longer.last() == way.last());
}

proof fn lemma_handle_inside(v: ValueView)
    requires
        holds_handle(v),
    ensures
        exists|way: Seq<ValueView>, part: ValueView| #[trigger]
            is_way_into(way, part, v) && (part is Fd || part is Pid),
    decreases v,
{
    match v {
        ValueView::List(items) => {
            let i = choose|i: int| 0 <= i < items.len() && holds_handle(#[trigger] items[i]);
            lemma_handle_inside(items[i]);
            let (way, part) = choose|way: Seq<ValueView>, part: ValueView| #[trigger]
                is_way_into(way, part, items[i]) && (part is Fd || part is Pid);
            lemma_way_from_list(way, part, items, i);
        },
        _ => {
            assert(is_way_into(seq![v], v, v));
        },
    }
}

proof fn lemma_holds_what_is_inside(way: Seq<ValueView>, part: ValueView, whole: ValueView)
    requires
        is_way_into(way, part, whole),
        part is Fd || part is Pid,
    ensures
        holds_handle(whole),
    decreases way.len(),
{
    if way.len() > 1 {
        let rest = way.drop_first();
        let child = way[1];
        assert forall|i: int| 0 < i < rest.len() implies (rest[i - 1] matches ValueView::List(
            items,
        ) && items.contains(#[trigger] rest[i])) by {
            let here = way[i + 1];
        }
        lemma_holds_what_is_inside(rest, part, child);
        let items = whole->List_0;
        assert(items.contains(child));
        let i = choose|i: int| 0 <= i < items.len() && items[i] == child;
        assert(holds_handle(items[i]));
    }
}

/// A value holds what it is made of: a list all its items in order.
pub proof fn law_what_values_hold(v: Value)
    ensures
        match v {
            Value::Unit => v@ == ValueView::Unit,
            Value::Bool(b) => v@ == ValueView::Bool(b),
            Value::U64(n) => v@ == ValueView::U64(n),
            Value::I64(n) => v@ == ValueView::I64(n),
            Value::Bytes(b) => v@ == ValueView::Bytes(b@),
            Value::Str(s) => v@ == ValueView::Str(s@),
            Value::Fd(fd) => v@ == ValueView::Fd(fd),
            Value::Pid(pid) => v@ == ValueView::Pid(pid),
            Value::Addr(a) => v@ == ValueView::Addr(a),
            Value::List(items) => {
                &&& v@ is List
                &&& v@->List_0.len() == items@.len()
                &&& forall|i: int| 0 <= i < items@.len() ==> v@->List_0[i] == #[trigger] items@[i]@
            },
        },
{
    if v is List {
        lemma_list_view(v);
    }
}

} // verus!
