//! Linear use, the conflict matrix, undoing, errors and handles.

use std::collections::HashSet;
use std::sync::atomic::{AtomicI64, AtomicUsize, Ordering};
use std::sync::{Arc, Mutex};

use algeff_core::error::SysError;
use algeff_core::resource::{
    AccessMode, AppendOnly, Owned, ReadOnly, Resource, ResourceHandle, ResourceInner,
    ResourceRegistry, ResourceUsage, TypedResource, WriteOnly,
};
use algeff_core::Fd;
use algeff_core::runtime::{UndoEntry, UndoStack};

type UndoOp = Box<dyn FnOnce() -> Result<(), SysError> + Send>;

const MODES: [AccessMode; 4] =
    [AccessMode::Read, AccessMode::Write, AccessMode::Append, AccessMode::Own];

fn usage(r: Resource, m: AccessMode) -> ResourceUsage {
    ResourceUsage { resource: r, mode: m }
}

fn mutex_handle() -> ResourceHandle {
    ResourceHandle::Mutex(Arc::new(tokio::sync::Mutex::new(())))
}

/// Undoes everything on a stack.
fn recover(undo: &mut UndoStack<UndoOp>) -> Result<(), SysError> {
    let mut rollback = undo.recover();
    while let Some(entry) = rollback.next(undo) {
        rollback.note(match entry {
            UndoEntry::Op(op) => op(),
            UndoEntry::RevertKey(_) => Ok(()),
        });
    }
    rollback.finish()
}

#[test]
fn a2_empty_resource_set_parallel_always() {
    let reg = ResourceRegistry::new();
    assert!(reg.can_parallel(&vec![], &vec![]));
    let w = usage(Resource::Fd(1), AccessMode::Write);
    assert!(reg.can_parallel(&vec![], &vec![w.clone()]));
    assert!(reg.can_parallel(&vec![w], &vec![]));
}

#[test]
fn a2_empty_undo_stack_recover_noop() {
    let mut stack: UndoStack<UndoOp> = UndoStack::new();
    assert!(stack.is_empty());
    assert_eq!(stack.len(), 0);
    recover(&mut stack).unwrap();
    assert!(stack.is_empty());
    assert_eq!(stack.len(), 0);
}

#[test]
fn a3_conflict_matrix_exhaustive_same_resource() {
    let reg = ResourceRegistry::new();
    let r = Resource::Fd(1);
    for &m1 in &MODES {
        for &m2 in &MODES {
            let a = vec![usage(r.clone(), m1)];
            let b = vec![usage(r.clone(), m2)];

            let expected = matches!((m1, m2), (AccessMode::Read, AccessMode::Read));
            assert_eq!(reg.can_parallel(&a, &b), expected);

            assert_eq!(reg.can_parallel(&b, &a), expected);
        }
    }
}

#[test]
fn a3_conflict_matrix_exhaustive_disjoint_resources() {
    let reg = ResourceRegistry::new();
    let r1 = Resource::Fd(1);
    let r2 = Resource::Fd(2);
    for &m1 in &MODES {
        for &m2 in &MODES {
            let a = vec![usage(r1.clone(), m1)];
            let b = vec![usage(r2.clone(), m2)];
            assert!(reg.can_parallel(&a, &b));
        }
    }
}

#[test]
fn a3_append_append_requires_opt_in() {
    let reg = ResourceRegistry::new();
    let r = Resource::Fd(1);
    let a = vec![usage(r.clone(), AccessMode::Append)];
    let b = vec![usage(r.clone(), AccessMode::Append)];
    assert!(!reg.can_parallel(&a, &b));
    assert!(reg.can_parallel_with(&a, &b, true));

    let w = vec![usage(r, AccessMode::Write)];
    assert!(!reg.can_parallel_with(&a, &w, true));
}

#[test]
fn a3_conflict_matrix_with_append_opt_in() {
    let reg = ResourceRegistry::new();
    let r = Resource::Fd(1);
    for &m1 in &MODES {
        for &m2 in &MODES {
            let a = vec![usage(r.clone(), m1)];
            let b = vec![usage(r.clone(), m2)];

            let expected = matches!(
                (m1, m2),
                (AccessMode::Read, AccessMode::Read)
                    | (AccessMode::Append, AccessMode::Append)
            );
            assert_eq!(reg.can_parallel_with(&a, &b, true), expected);
        }
    }
}

#[test]
fn a4_write_duplicate_rejected() {
    let mut reg = ResourceRegistry::new();
    let u = usage(Resource::Fd(1), AccessMode::Write);
    assert!(reg.check_linear(&u).is_ok());
    assert_eq!(reg.check_linear(&u), Err(SysError::InvalidInput));
}

#[test]
fn a4_read_repeatable() {
    let mut reg = ResourceRegistry::new();
    let u = usage(Resource::Fd(1), AccessMode::Read);
    assert!(reg.check_linear(&u).is_ok());
    assert!(reg.check_linear(&u).is_ok());
}

#[test]
fn a4_own_is_linear_too() {
    let mut reg = ResourceRegistry::new();
    let u = usage(Resource::Fd(1), AccessMode::Own);
    assert!(reg.check_linear(&u).is_ok());
    assert_eq!(reg.check_linear(&u), Err(SysError::InvalidInput));
}

#[test]
fn a6_undo_lifo_order() {
    let log: Arc<Mutex<Vec<u8>>> = Arc::new(Mutex::new(Vec::new()));
    let mut stack: UndoStack<UndoOp> = UndoStack::new();
    for id in [1u8, 2u8] {
        let log_ref = log.clone();
        stack.push(Box::new(move || {
log_ref.lock().unwrap().push(id);
Ok(())
}));
    }
    assert_eq!(stack.len(), 2);
    recover(&mut stack).unwrap();
    assert_eq!(*log.lock().unwrap(), vec![2u8, 1u8]);
    assert!(stack.is_empty());
}

#[test]
fn a6_undo_restores_observable_state() {
    let state = Arc::new(AtomicI64::new(0));
    state.fetch_add(2, Ordering::SeqCst);
    let undo_state = state.clone();
    let mut stack: UndoStack<UndoOp> = UndoStack::new();
    stack.push(Box::new(move || {
undo_state.fetch_sub(2, Ordering::SeqCst);
Ok(())
}));
    assert_eq!(state.load(Ordering::SeqCst), 2);
    recover(&mut stack).unwrap();
    assert_eq!(state.load(Ordering::SeqCst), 0);
}

#[test]
fn a6_undo_multiple_restores_full_state() {
    let state = Arc::new(AtomicI64::new(0));
    let executed = Arc::new(AtomicUsize::new(0));
    let mut stack: UndoStack<UndoOp> = UndoStack::new();
    for delta in [1i64, 10] {
        state.fetch_add(delta, Ordering::SeqCst);
        let undo_state = state.clone();
        let undo_executed = executed.clone();
        stack.push(Box::new(move || {
undo_state.fetch_sub(delta, Ordering::SeqCst);
            undo_executed.fetch_add(1, Ordering::SeqCst);
Ok(())
}));
    }
    assert_eq!(state.load(Ordering::SeqCst), 11);
    recover(&mut stack).unwrap();
    assert_eq!(state.load(Ordering::SeqCst), 0);
    assert_eq!(executed.load(Ordering::SeqCst), 2);
}

#[test]
fn error_from_errno_roundtrip_all_variants() {
    let known: [(i32, SysError); 14] = [
        (2, SysError::NotFound),
        (13, SysError::PermissionDenied),
        (11, SysError::WouldBlock),
        (4, SysError::Interrupted),
        (110, SysError::TimedOut),
        (104, SysError::ConnectionReset),
        (111, SysError::ConnectionRefused),
        (32, SysError::BrokenPipe),
        (28, SysError::StorageFull),
        (22, SysError::InvalidInput),
        (17, SysError::AlreadyExists),
        (20, SysError::NotADirectory),
        (21, SysError::IsADirectory),
        (18, SysError::CrossDevice),
    ];
    for (errno, expected) in known {
        assert_eq!(SysError::from_errno(errno), expected);
        assert_eq!(expected.code(), errno);
    }

    assert_eq!(SysError::from_errno(0), SysError::Other(0));
    assert_eq!(SysError::from_errno(999), SysError::Other(999));
    assert_eq!(SysError::Other(7).code(), 7);
}

#[test]
fn error_from_io_error() {
    let e = std::io::Error::from_raw_os_error(13);
    assert_eq!(SysError::from(e), SysError::PermissionDenied);

    let e2 = std::io::Error::other("no errno");
    assert_eq!(SysError::from(e2), SysError::Other(0));
}

#[test]
fn axioms_typestate_usage_mode_matches() {
    let u = TypedResource::<ReadOnly>::new_read(ResourceInner::Fd(1)).into_usage();
    assert_eq!(u.mode, AccessMode::Read);
    let u = TypedResource::<WriteOnly>::new_write(ResourceInner::Fd(1)).into_usage();
    assert_eq!(u.mode, AccessMode::Write);
    let u = TypedResource::<AppendOnly>::new_append(ResourceInner::Fd(1)).into_usage();
    assert_eq!(u.mode, AccessMode::Append);
    let u = TypedResource::<Owned>::new_owned(ResourceInner::Fd(1)).into_usage();
    assert_eq!(u.mode, AccessMode::Own);
}

#[test]
fn typestate_transitions_are_valid() {
    let r = TypedResource::<ReadOnly>::new_read(ResourceInner::Fd(1));
    let w: TypedResource<WriteOnly> = r.into_write();
    let o: TypedResource<Owned> = w.into_owned();
    assert_eq!(o.into_usage().mode, AccessMode::Own);

    let r2 = TypedResource::<ReadOnly>::new_read(ResourceInner::Fd(2));
    let a: TypedResource<AppendOnly> = r2.into_append();
    assert_eq!(a.into_usage().mode, AccessMode::Append);
}

#[test]
fn registry_fd_monotonic_unique_never_reused() {
    let mut reg = ResourceRegistry::new();
    let f1 = reg.allocate(mutex_handle());
    let f2 = reg.allocate(mutex_handle());
    assert!(f1 < f2);
    reg.remove(f1);
    assert!(reg.lookup(f1).is_none());
    let f3 = reg.allocate(mutex_handle());
    assert!(f3 > f2);
}

#[test]
fn undo_restores_linear_state() {
    let run_sequence =
        |reg: &mut ResourceRegistry, h: &ResourceHandle| -> Vec<Result<(), SysError>> {
            let mut trace = Vec::new();
            let fd = reg.allocate(h.clone());
            trace.push(Ok(()));
            trace.push(reg.check_linear(&usage(Resource::Fd(fd), AccessMode::Write)));
            trace.push(match reg.take(fd) {
                Some(_) => Ok(()),
                None => Err(SysError::InvalidInput),
            });
            trace
        };

    let handle = mutex_handle();
    let mut reg = ResourceRegistry::new();

    let t1 = run_sequence(&mut reg, &handle);
    assert!(t1.iter().all(Result::is_ok));

    reg.clear();

    let t2 = run_sequence(&mut reg, &handle);
    assert!(t2.iter().all(Result::is_ok));
    assert_eq!(t1, t2);

    let mut reg2 = ResourceRegistry::new();
    let fd2 = reg2.allocate(handle);
    let r = Resource::Fd(fd2);
    assert!(reg2 .check_linear(&usage(r.clone(), AccessMode::Own)) .is_ok());
    assert_eq!(reg2.check_linear(&usage(r.clone(), AccessMode::Read)), Err(SysError::InvalidInput));
}

#[test]
fn undo_lifo_with_registry() {
    let mut reg = ResourceRegistry::new();
    let mut fds = Vec::new();
    for _ in 0..3 {
        let fd = reg.allocate(mutex_handle());
        assert!(reg.lookup(fd).is_some());
        fds.push(fd);
    }
    assert_eq!(fds.len(), 3);
    assert!(fds.windows(2).all(|w| w[0] < w[1]));

    for fd in fds.iter().rev() {
        assert!(reg.lookup(*fd).is_some());
        assert!(reg.take(*fd).is_some());
        assert!(reg.lookup(*fd).is_none());
    }
    for fd in &fds {
        assert!(reg.lookup(*fd).is_none());
    }

    let log: Arc<std::sync::Mutex<Vec<u64>>> = Arc::new(std::sync::Mutex::new(Vec::new()));
    let mut stack: UndoStack<UndoOp> = UndoStack::new();
    for fd in &fds {
        let log_ref = log.clone();
        let fd_val = *fd;
        stack.push(Box::new(move || {
log_ref.lock().unwrap().push(fd_val);
            Ok(())
}));
    }
    assert_eq!(stack.len(), 3);
    recover(&mut stack).unwrap();
    assert_eq!(*log.lock().unwrap(), fds.iter().rev().copied().collect::<Vec<u64>>());
    assert!(stack.is_empty());
}

#[test]
fn reg_merge_d13_semantics_combos() {
    let mut parent = ResourceRegistry::new();
    let p1 = parent.allocate(mutex_handle());
    let p2 = parent.allocate(mutex_handle());
    assert_eq!((p1, p2), (0, 1));

    let mut child_a = parent.clone();
    child_a.offset_next_fd(1 << 48);
    parent.merge(child_a);
    let n_conv = parent.allocate(mutex_handle());
    assert_eq!(n_conv, 2);

    let mut child_b = parent.clone();
    child_b.offset_next_fd(2 << 48);
    let c1 = child_b.allocate(mutex_handle());
    assert!(c1 > (2 << 48));
    assert!(child_b .check_linear(&usage(Resource::Fd(c1), AccessMode::Write)) .is_ok());
    assert!(child_b .check_linear(&usage(Resource::Fd(c1), AccessMode::Own)) .is_ok());
    assert!(parent.lookup(c1).is_none());

    parent.merge(child_b);
    assert!(parent.lookup(c1).is_some());
    assert_eq!(parent.check_linear(&usage(Resource::Fd(c1), AccessMode::Read)),
        Err(SysError::InvalidInput));
    let n_after = parent.allocate(mutex_handle());
    assert!(n_after > c1);

    let mut child_c1 = parent.clone();
    let c2 = child_c1.allocate(mutex_handle());
    let mut child_c2 = parent.clone();
    child_c2.offset_next_fd(3 << 48);
    let c3 = child_c2.allocate(mutex_handle());
    assert_ne!(c2, c3);
    parent.merge(child_c1);
    parent.merge(child_c2);
    assert!(parent.lookup(p1).is_some() && parent.lookup(p2).is_some());
    assert!(parent.lookup(c1).is_some());
    assert!(parent.lookup(c2).is_some() && parent.lookup(c3).is_some());

    let mut seen = std::collections::HashSet::new();
    for fd in [p1, p2, c1, c2, c3] {
        assert!(seen.insert(fd));
    }
}

#[test]
fn replace_semantics() {
    let fh1 = mutex_handle();
    let fh2 = mutex_handle();
    let fh3 = mutex_handle();
    let mut reg = ResourceRegistry::new();

    let fds: Vec<Fd> = [fh1, fh2, fh3]
        .into_iter()
        .map(|h| reg.allocate(h))
        .collect();
    let (r0, r1) = (Resource::Fd(fds[0]), Resource::Fd(fds[1]));
    let _ = fds[2];

    assert!(reg .check_linear(&usage(r0.clone(), AccessMode::Write)) .is_ok());
    assert!(reg .check_linear(&usage(r0.clone(), AccessMode::Own)) .is_ok());
    assert!(reg .check_linear(&usage(r1.clone(), AccessMode::Write)) .is_ok());
    assert_eq!(reg.check_linear(&usage(r0.clone(), AccessMode::Read)), Err(SysError::InvalidInput));

    reg.clear();

    for fd in &fds {
        assert!(reg.lookup(*fd).is_none());
    }

    assert!(reg.check_linear(&usage(r0.clone(), AccessMode::Write)) .is_ok());
    assert!(reg.check_linear(&usage(r0.clone(), AccessMode::Own)) .is_ok());
    assert!(reg.check_linear(&usage(r1.clone(), AccessMode::Write)) .is_ok());

    let fh_new = mutex_handle();
    let nfd = reg.allocate(fh_new);
    assert!(fds.iter().all(|f| *f != nfd));
    assert!(nfd > fds[2]);
}

#[test]
fn fork_clone_merge_pattern() {
    let mut parent = ResourceRegistry::new();
    let p1 = parent.allocate(mutex_handle());
    let p2 = parent.allocate(mutex_handle());

    let mut child = parent.clone();

    let c1 = child.allocate(mutex_handle());
    let c2 = child.allocate(mutex_handle());
    assert_ne!(c1, c2);
    assert!(child .check_linear(&usage(Resource::Fd(c1), AccessMode::Write)) .is_ok());
    assert!(child .check_linear(&usage(Resource::Fd(c1), AccessMode::Own)) .is_ok());

    assert!(parent.lookup(c1).is_none());
    assert!(parent.lookup(c2).is_none());

    assert!(parent .check_linear(&usage(Resource::Fd(c1), AccessMode::Write)) .is_ok());

    assert!(p1 < c1 && p2 < c1);
    let mut all = HashSet::new();
    for fd in [p1, p2, c1, c2] {
        assert!(all.insert(fd));
    }

    let mut migrated: Vec<(Fd, Fd, Arc<tokio::sync::Mutex<()>>)> = Vec::new();
    for cfd in [c1, c2] {
        let h = child.take(cfd).unwrap();

        let expect_arc = match &h {
            ResourceHandle::Mutex(m) => Arc::clone(m),
            _ => unreachable!(),
        };
        let new_fd = parent.allocate(h);
        migrated.push((cfd, new_fd, expect_arc));
    }

    for (_, nfd, expect_arc) in &migrated {
        let h = parent
            .lookup(*nfd)
            .unwrap_or_else(|| panic!("unexpected shape"));
        match h {
            ResourceHandle::Mutex(m) => {
                assert!(Arc::ptr_eq(m, expect_arc));
            }
            _ => unreachable!(),
        }
    }

    let mut seen = HashSet::new();
    for fd in [p1, p2] {
        assert!(seen.insert(fd));
    }
    for (_, nfd, _) in &migrated {
        assert!(seen.insert(*nfd));
    }

    let p3 = parent.allocate(mutex_handle());
    let max_known = migrated.iter().map(|(_, n, _)| *n).max().unwrap();
    assert!(p3 > max_known);

    assert!(parent .check_linear(&usage(Resource::Fd(migrated[1].1), AccessMode::Write)) .is_ok());
}
