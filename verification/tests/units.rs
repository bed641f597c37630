//! Errors, resources, handles, paths, clocks, dependencies and forks.

use std::collections::HashSet;
use std::sync::Arc;
use std::time::Duration;

use algeff_core::action::{DataOp, Host, Value};
use algeff_core::coeffects::{notify, Activation, DepKey, DependencyTable};
use algeff_core::error::SysError;
use algeff_core::fork::{fork_conflict, fork_region_offset_for};
use algeff_core::resource::{
    AccessMode, Owned, ReadOnly, Resource, ResourceHandle, ResourceInner, ResourceRegistry,
    ResourceSet, ResourceUsage, TypedResource, WriteOnly,
};
use algeff_core::virtual_clock::VirtualClock;

/// A host whose continuations are closures.
struct Closures;

type Action = algeff_core::Action<Closures>;

impl Host for Closures {
    type Next = Box<dyn FnOnce(Value) -> Action + Send>;
    type Cond = Box<dyn FnOnce(&Value) -> bool + Send>;
    type Combine = Box<dyn FnOnce(Value, Value) -> Action + Send>;
    type Handler = Box<dyn FnOnce(SysError) -> Action + Send>;
    type Undo = Box<dyn FnOnce() -> Result<(), SysError> + Send>;
}

fn usage(r: Resource, m: AccessMode) -> ResourceUsage {
    ResourceUsage { resource: r, mode: m }
}

#[test]
fn errno_roundtrip() {
    assert_eq!(SysError::from_errno(2), SysError::NotFound);
    assert_eq!(SysError::from_errno(999), SysError::Other(999));
    assert_eq!(SysError::NotFound.code(), 2);
    assert_eq!(SysError::Other(7).code(), 7);
}

#[test]
fn io_error_maps_errno() {
    let e = std::io::Error::from_raw_os_error(13);
    assert_eq!(SysError::from(e), SysError::PermissionDenied);
}

#[test]
fn resource_typestate_usage_mode_matches() {
    let u = TypedResource::<ReadOnly>::new_read(ResourceInner::Fd(1)).into_usage();
    assert_eq!(u.mode, AccessMode::Read);
    let u = TypedResource::<WriteOnly>::new_write(ResourceInner::Fd(1)).into_usage();
    assert_eq!(u.mode, AccessMode::Write);
    let u = TypedResource::<Owned>::new_owned(ResourceInner::Fd(1)).into_usage();
    assert_eq!(u.mode, AccessMode::Own);
}

#[test]
fn conflict_matrix_read_read_ok() {
    let a = vec![usage(Resource::Fd(1), AccessMode::Read)];
    let b = vec![usage(Resource::Fd(1), AccessMode::Read)];
    let reg = ResourceRegistry::new();
    assert!(reg.can_parallel(&a, &b));
}

#[test]
fn conflict_matrix_write_blocks() {
    let r = Resource::Fd(1);
    let reg = ResourceRegistry::new();
    assert!(!reg.can_parallel(
        &vec![usage(r.clone(), AccessMode::Read)],
        &vec![usage(r.clone(), AccessMode::Write)]
    ));
    assert!(!reg.can_parallel(
        &vec![usage(r.clone(), AccessMode::Write)],
        &vec![usage(r.clone(), AccessMode::Write)]
    ));
    assert!(!reg.can_parallel(
        &vec![usage(r.clone(), AccessMode::Own)],
        &vec![usage(r.clone(), AccessMode::Read)]
    ));
}

#[test]
fn disjoint_resources_parallel() {
    let a = vec![usage(Resource::Fd(1), AccessMode::Write)];
    let b = vec![usage(Resource::Fd(2), AccessMode::Write)];
    let reg = ResourceRegistry::new();
    assert!(reg.can_parallel(&a, &b));
}

#[test]
fn append_parallel_needs_opt_in() {
    let r = Resource::Fd(1);
    let a = vec![usage(r.clone(), AccessMode::Append)];
    let b = vec![usage(r.clone(), AccessMode::Append)];
    let reg = ResourceRegistry::new();
    assert!(!reg.can_parallel(&a, &b));
    assert!(reg.can_parallel_with(&a, &b, true));
}

#[test]
fn linearity_double_write_rejected() {
    let mut reg = ResourceRegistry::new();
    let u = usage(Resource::Fd(1), AccessMode::Write);
    assert!(reg.check_linear(&u).is_ok());
    assert_eq!(reg.check_linear(&u), Err(SysError::InvalidInput));
}

#[test]
fn linearity_write_then_own_legal() {
    let mut reg = ResourceRegistry::new();
    let r = Resource::Fd(1);
    assert!(reg .check_linear(&usage(r.clone(), AccessMode::Write)) .is_ok());
    assert!(reg.check_linear(&usage(r.clone(), AccessMode::Own)).is_ok());
}

#[test]
fn linearity_own_is_terminal() {
    let mut reg = ResourceRegistry::new();
    let r = Resource::Fd(1);
    assert!(reg.check_linear(&usage(r.clone(), AccessMode::Own)).is_ok());

    for mode in [
        AccessMode::Read,
        AccessMode::Write,
        AccessMode::Append,
        AccessMode::Own,
    ] {
        assert_eq!(reg.check_linear(&usage(r.clone(), mode)), Err(SysError::InvalidInput));
    }
}

#[test]
fn linearity_read_append_repeatable() {
    let mut reg = ResourceRegistry::new();
    let r = Resource::Fd(1);
    assert!(reg .check_linear(&usage(r.clone(), AccessMode::Read)) .is_ok());
    assert!(reg .check_linear(&usage(r.clone(), AccessMode::Read)) .is_ok());
    assert!(reg .check_linear(&usage(r.clone(), AccessMode::Append)) .is_ok());
    assert!(reg .check_linear(&usage(r.clone(), AccessMode::Append)) .is_ok());
}

#[test]
fn clear_resets_linear_state_and_handles() {
    let mut reg = ResourceRegistry::new();
    let fd = reg.allocate(ResourceHandle::Mutex(Arc::new(tokio::sync::Mutex::new(()))));
    let r = Resource::Fd(fd);
    assert!(reg .check_linear(&usage(r.clone(), AccessMode::Write)) .is_ok());
    assert!(reg.check_linear(&usage(r.clone(), AccessMode::Own)).is_ok());
    assert_eq!(reg.check_linear(&usage(r.clone(), AccessMode::Read)), Err(SysError::InvalidInput));

    reg.clear();

    assert!(reg.lookup(fd).is_none());
    assert!(reg .check_linear(&usage(r.clone(), AccessMode::Write)) .is_ok());
    assert!(reg.check_linear(&usage(r.clone(), AccessMode::Own)).is_ok());
}

#[test]
fn merge_preserves_fd_identity() {
    let mut parent = ResourceRegistry::new();
    let p1 = parent.allocate(ResourceHandle::Mutex(Arc::new(tokio::sync::Mutex::new(()))));
    let mut child = parent.clone();
    let c1 = child.allocate(ResourceHandle::Mutex(Arc::new(tokio::sync::Mutex::new(()))));
    assert!(parent.lookup(c1).is_none());
    parent.merge(child);
    assert!(parent.lookup(p1).is_some());
    assert!(parent.lookup(c1).is_some());
}

#[test]
fn merge_unions_consumed() {
    let mut parent = ResourceRegistry::new();
    let mut child = parent.clone();
    let r = Resource::Fd(1);
    assert!(child .check_linear(&usage(r.clone(), AccessMode::Write)) .is_ok());
    assert!(child .check_linear(&usage(r.clone(), AccessMode::Own)) .is_ok());

    assert!(parent .check_linear(&usage(r.clone(), AccessMode::Read)) .is_ok());
    parent.merge(child);

    assert_eq!(parent.check_linear(&usage(r.clone(), AccessMode::Write)),
        Err(SysError::InvalidInput));
    assert_eq!(parent.check_linear(&usage(r.clone(), AccessMode::Read)),
        Err(SysError::InvalidInput));
}

#[test]
fn merge_advances_next_fd() {
    let mut parent = ResourceRegistry::new();
    let p1 = parent.allocate(ResourceHandle::Mutex(Arc::new(tokio::sync::Mutex::new(()))));
    let mut child = parent.clone();
    let c1 = child.allocate(ResourceHandle::Mutex(Arc::new(tokio::sync::Mutex::new(()))));
    let c2 = child.allocate(ResourceHandle::Mutex(Arc::new(tokio::sync::Mutex::new(()))));
    assert!(c1 > p1 && c2 > c1);
    parent.merge(child);
    let n = parent.allocate(ResourceHandle::Mutex(Arc::new(tokio::sync::Mutex::new(()))));
    assert!(n > c2 && n > p1);
}

#[test]
fn conflict_matrix_exhaustive_4x4() {
    let modes = [
        AccessMode::Read,
        AccessMode::Write,
        AccessMode::Append,
        AccessMode::Own,
    ];
    let reg = ResourceRegistry::new();
    for &m1 in &modes {
        for &m2 in &modes {
            let a = vec![usage(Resource::Fd(1), m1)];
            let b = vec![usage(Resource::Fd(1), m2)];
            let same_expected = matches!((m1, m2), (AccessMode::Read, AccessMode::Read));
            assert_eq!(reg.can_parallel(&a, &b), same_expected);

            let a2 = vec![usage(Resource::Fd(1), m1)];
            let b2 = vec![usage(Resource::Fd(2), m2)];
            assert!(reg.can_parallel(&a2, &b2));
        }
    }

    let a = vec![usage(Resource::Fd(1), AccessMode::Append)];
    let b = vec![usage(Resource::Fd(1), AccessMode::Append)];
    assert!(reg.can_parallel_with(&a, &b, true));
}

#[test]
fn handle_allocate_unique_and_take() {
    let mut reg = ResourceRegistry::new();
    let f1 = reg.allocate(ResourceHandle::Mutex(Arc::new(tokio::sync::Mutex::new(()))));
    let f2 = reg.allocate(ResourceHandle::Mutex(Arc::new(tokio::sync::Mutex::new(()))));
    assert_ne!(f1, f2);
    assert!(reg.take(f1).is_some());
    assert!(reg.lookup(f1).is_none());
}

#[test]
fn canonicalize_absolute_and_parents() {
    let reg = ResourceRegistry::new();
    let cwd = "/app";
    assert_eq!(reg.canonicalize_path("a/./b", cwd), "/app/a/b");
    assert_eq!(reg.canonicalize_path("../x", cwd), "/x");
    assert_eq!(reg.canonicalize_path("/a/b/../c", cwd), "/a/c");
}

#[test]
fn fork_region_seq_exhaustion_returns_error_not_panic() {
    for k in [1u64, 5, (1 << 16) - 1] {
        let off = fork_region_offset_for(k).unwrap();
        assert_eq!(off, k << 48);
    }

    for k in [1u64 << 16, (1u64 << 16) + 1, u64::MAX] {
        assert_eq!(fork_region_offset_for(k), Err(SysError::Other(28)));
    }
}

#[test]
fn fork_conflict_detects_invoke_captures() {
    let reg = ResourceRegistry::new();
    let inv = Action::Invoke {
        foreign_id: 1,
        captures: ResourceSet::from_iter([usage(Resource::Fd(7), AccessMode::Read)]),
        yields: Default::default(),
        deterministic: true,
        next: Box::new(|_| Action::Pure(Value::Unit)),
    };
    let write_fd7 = Action::Syscall {
        op: DataOp::Write {
            fd: 7,
            data: vec![],
        },
        resources: vec![usage(Resource::Fd(7), AccessMode::Write)],
        next: Box::new(|_| Action::Pure(Value::Unit)),
    };

    assert!(fork_conflict(&reg, &inv, &write_fd7));

    let write_fd8 = Action::Syscall {
        op: DataOp::Write {
            fd: 8,
            data: vec![],
        },
        resources: vec![usage(Resource::Fd(8), AccessMode::Write)],
        next: Box::new(|_| Action::Pure(Value::Unit)),
    };
    assert!(!fork_conflict(&reg, &inv, &write_fd8));
}

#[test]
fn advance_and_set() {
    let mut c = VirtualClock::new();
    assert_eq!(c.now(), Duration::ZERO);
    c.advance(Duration::from_secs(5));
    assert_eq!(c.now(), Duration::from_secs(5));
    c.set(Duration::from_secs(1));
    assert_eq!(c.now(), Duration::from_secs(1));
}

#[test]
fn set_is_reversible() {
    let mut store = DependencyTable::new();
    let _ = store.set(1, Value::U64(42));
    assert_eq!(store.get(&1), Some(&Value::U64(42)));
    let undo = store.set(1, Value::U64(7));
    assert_eq!(store.get(&1), Some(&Value::U64(7)));
    store.restore(undo);
    assert_eq!(store.get(&1), Some(&Value::U64(42)));
    let undo2 = store.set(2, Value::U64(9));
    store.restore(undo2);
    assert_eq!(store.get(&2), None);
}

#[test]
fn notify_states() {
    let s = DependencyTable::new();
    let deps: HashSet<DepKey> = [1u64].into_iter().collect();
    assert_eq!(notify(&s, &s, &deps), Activation::Neutral);
    let mut s2 = s.clone();
    let _ = s2.set(1, Value::Unit);
    assert_eq!(notify(&s, &s2, &deps), Activation::Activating);
    assert_eq!(notify(&s2, &s, &deps), Activation::Deactivating);
}
