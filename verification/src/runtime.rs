//! What an execution is made of.

pub use crate::context::Context;
pub use crate::fork::{
    collect_idempotency_keys, collect_syscall_resources, fork_conflict, fork_fd_region_offset,
    fork_region_offset_for,
};
pub use crate::idempotency::{IdempotencyRegistry, IdempotencyState, IdempotencyStatus};
pub use crate::interpreter::{Branch, Event, Interpreter, Outcome, Request, World};
pub use crate::semantics::{MAX_IO_LEN, MAX_NESTING_DEPTH};
pub use crate::timers::{Alarm, Timers};
pub use crate::undo::{Rollback, UndoEntry, UndoStack};
