//! What most programs need.

pub use crate::action::{Action, DataOp, Fd, Host, Id, Pid, Signal, Value};
pub use crate::error::SysError;
pub use crate::interpreter::{Event, Interpreter, Request, World};
pub use crate::resource::{
    AccessMode, AppendOnly, Owned, ReadOnly, Resource, ResourceArbiter, ResourceHandle,
    ResourceInner, ResourceRegistry, ResourceSet, ResourceUsage, TypedResource, WriteOnly,
};
pub use crate::runtime::{Context, UndoStack};
pub use crate::syscall::UndoCapability;
