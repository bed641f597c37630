//! An algebra of effects: blueprints as data, and a verified machine that runs
//! them.
//!
//! A blueprint ([`action::Action`]) is a tree of nodes: operations of the data
//! plane, sequences, choices, forks, scopes, timeouts, handlers, replacements and
//! keyed sections. The machine ([`interpreter::Interpreter`]) runs it step by step
//! and asks a driver for all outside work. What a step does is said by
//! [`semantics::transition`]; what follows for every blueprint is proved in
//! [`laws`], for each kind of node in [`nodes`], from the start of a node to its end
//! in [`traces`], and for whole runs in [`runs`].

pub mod action;
pub mod arbiter;
pub mod coeffects;
pub mod context;
pub mod cost;
pub mod error;
pub mod fork;
pub mod idempotency;
pub mod interpreter;
pub mod laws;
pub mod nodes;
pub mod path;
pub mod prelude;
pub mod registry;
pub mod resource;
pub mod runs;
pub mod runtime;
pub mod semantics;
pub mod sugar;
pub mod syscall;
pub mod table;
pub mod timers;
pub mod traces;
pub mod undo;
pub mod virtual_clock;

pub use action::{
    Action, Bytes, Command, DataOp, Fd, Host, Id, MmapProt, OpenFlags, Pid, PipeFlags, SeekFrom,
    Shutdown, Signal, SocketAddr, UndoRole, Value,
};
pub use error::SysError;
pub use resource::{
    AccessMode, AppendOnly, LinearSnapshot, ModeMarker, Owned, ReadOnly, Resource,
    ResourceArbiter, ResourceHandle, ResourceInner, ResourceRegistry, ResourceSet, ResourceUsage,
    TypedResource, WriteOnly,
};
pub use runtime::{Context, UndoStack};
pub use syscall::UndoCapability;
