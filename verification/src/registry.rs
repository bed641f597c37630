//! The resource registry: handles, linear use, and the conflict matrix.
//!
//! Handles are numbered in increasing order and never numbered again. Linear use
//! means that a resource is written at most once and that nothing uses it after
//! it was ended. Branches of a fork work on copies of a registry, with numbers
//! from separate regions, and are merged back.

use std::collections::HashMap;
use std::sync::Arc;
use vstd::prelude::*;
use vstd::string::*;

use crate::action::Fd;
use crate::error::SysError;
use crate::path::canonicalize;
use crate::resource::{AccessMode, Resource, ResourceSet, ResourceUsage, ResourceView, UsageView};
use crate::table::{Key, Table};

verus! {

broadcast use vstd::std_specs::hash::group_hash_axioms;

/// An open file of tokio; carried, never looked into.
#[verifier::external_type_specification]
#[verifier::external_body]
pub struct ExFile(tokio::fs::File);

/// A listening socket of tokio; carried, never looked into.
#[verifier::external_type_specification]
#[verifier::external_body]
pub struct ExTcpListener(tokio::net::TcpListener);

/// A connected socket of tokio; carried, never looked into.
#[verifier::external_type_specification]
#[verifier::external_body]
pub struct ExTcpStream(tokio::net::TcpStream);

/// A datagram socket of tokio; carried, never looked into.
#[verifier::external_type_specification]
#[verifier::external_body]
pub struct ExUdpSocket(tokio::net::UdpSocket);

/// One half of a pipe of tokio; carried, never looked into.
#[verifier::external_type_specification]
#[verifier::external_body]
#[verifier::reject_recursive_types(T)]
pub struct ExReadHalf<T>(tokio::io::ReadHalf<T>);

/// The other half of a pipe of tokio; carried, never looked into.
#[verifier::external_type_specification]
#[verifier::external_body]
#[verifier::reject_recursive_types(T)]
pub struct ExWriteHalf<T>(tokio::io::WriteHalf<T>);

/// A pipe of tokio; carried, never looked into.
#[verifier::external_type_specification]
#[verifier::external_body]
pub struct ExDuplexStream(tokio::io::DuplexStream);

/// A lock of tokio; carried, never looked into.
#[verifier::external_type_specification]
#[verifier::external_body]
#[verifier::reject_recursive_types(T)]
pub struct ExMutex<T: ?Sized>(tokio::sync::Mutex<T>);

/// A child process of tokio; carried, never looked into.
#[verifier::external_type_specification]
#[verifier::external_body]
pub struct ExChild(tokio::process::Child);

/// A physical resource. Copies share it.
#[derive(Debug)]
pub enum ResourceHandle {
    File(Arc<tokio::fs::File>),
    TcpListener(Arc<tokio::net::TcpListener>),
    TcpStream(Arc<tokio::net::TcpStream>),
    UdpSocket(Arc<tokio::net::UdpSocket>),
    PipeReader(Arc<tokio::io::ReadHalf<tokio::io::DuplexStream>>),
    PipeWriter(Arc<tokio::io::WriteHalf<tokio::io::DuplexStream>>),
    Mutex(Arc<tokio::sync::Mutex<()>>),
    Child(Arc<tokio::process::Child>),
}

impl Clone for ResourceHandle {
    fn clone(&self) -> (r: Self)
        ensures
            r == *self,
    {
        match self {
            ResourceHandle::File(h) => ResourceHandle::File(h.clone()),
            ResourceHandle::TcpListener(h) => ResourceHandle::TcpListener(h.clone()),
            ResourceHandle::TcpStream(h) => ResourceHandle::TcpStream(h.clone()),
            ResourceHandle::UdpSocket(h) => ResourceHandle::UdpSocket(h.clone()),
            ResourceHandle::PipeReader(h) => ResourceHandle::PipeReader(h.clone()),
            ResourceHandle::PipeWriter(h) => ResourceHandle::PipeWriter(h.clone()),
            ResourceHandle::Mutex(h) => ResourceHandle::Mutex(h.clone()),
            ResourceHandle::Child(h) => ResourceHandle::Child(h.clone()),
        }
    }
}

/// The registry of the resources that an execution holds.
pub struct ResourceRegistry {
    next_fd: Fd,
    handles: HashMap<Fd, ResourceHandle>,
    /// Resources that were written.
    consumed: Table<Resource, ()>,
    /// Resources that were ended.
    owned_consumed: Table<Resource, ()>,
    /// Where a branch's region of numbers starts: the number that it was counted
    /// from, and how far above that.
    fork_region: Option<(Fd, Fd)>,
}

/// What a [`ResourceRegistry`] holds.
#[verifier::ext_equal]
pub struct RegistryView {
    pub next_fd: Fd,
    pub handles: Map<Fd, ResourceHandle>,
    pub consumed: Set<ResourceView>,
    pub owned: Set<ResourceView>,
    pub fork_region: Option<(Fd, Fd)>,
}

impl View for ResourceRegistry {
    type V = RegistryView;

    closed spec fn view(&self) -> RegistryView {
        RegistryView {
            next_fd: self.next_fd,
            handles: self.handles@,
            consumed: self.consumed@.dom(),
            owned: self.owned_consumed@.dom(),
            fork_region: self.fork_region,
        }
    }
}

/// The marks of linear use at some point in time.
pub struct LinearSnapshot {
    consumed: Table<Resource, ()>,
    owned_consumed: Table<Resource, ()>,
}

/// What a [`LinearSnapshot`] holds.
#[verifier::ext_equal]
pub struct LinearView {
    pub consumed: Set<ResourceView>,
    pub owned: Set<ResourceView>,
}

impl View for LinearSnapshot {
    type V = LinearView;

    closed spec fn view(&self) -> LinearView {
        LinearView { consumed: self.consumed@.dom(), owned: self.owned_consumed@.dom() }
    }
}

impl Clone for LinearSnapshot {
    fn clone(&self) -> (r: Self)
        ensures
            r@ == self@,
    {
        LinearSnapshot {
            consumed: self.consumed.copy_table(),
            owned_consumed: self.owned_consumed.copy_table(),
        }
    }
}

impl Default for LinearSnapshot {
    fn default() -> (r: Self)
        ensures
            r@ == (LinearView { consumed: Set::empty(), owned: Set::empty() }),
    {
        let r = LinearSnapshot { consumed: Table::new(), owned_consumed: Table::new() };
        assert(r@ =~= (LinearView { consumed: Set::empty(), owned: Set::empty() }));
        r
    }
}

/// A registry that nothing has happened to.
pub open spec fn fresh_registry() -> RegistryView {
    RegistryView {
        next_fd: 0,
        handles: Map::empty(),
        consumed: Set::empty(),
        owned: Set::empty(),
        fork_region: None,
    }
}

/// A registry with one more handle, under the next number.
pub open spec fn with_handle(r: RegistryView, handle: ResourceHandle) -> RegistryView {
    RegistryView {
        next_fd: (r.next_fd + 1) as Fd,
        handles: r.handles.insert(r.next_fd, handle),
        ..r
    }
}

/// A registry without the handle under a number.
pub open spec fn without_handle(r: RegistryView, fd: Fd) -> RegistryView {
    RegistryView { handles: r.handles.remove(fd), ..r }
}

/// Whether linear use allows a use: nothing after the end, one write.
pub open spec fn use_allowed(r: RegistryView, u: UsageView) -> bool {
    &&& !r.owned.contains(u.resource)
    &&& u.mode is Write ==> !r.consumed.contains(u.resource)
}

/// The registry once a use is marked.
pub open spec fn marked(r: RegistryView, u: UsageView) -> RegistryView {
    match u.mode {
        AccessMode::Write => RegistryView { consumed: r.consumed.insert(u.resource), ..r },
        AccessMode::Own => RegistryView { owned: r.owned.insert(u.resource), ..r },
        _ => r,
    }
}

/// The registry once uses are marked one after the other, if all are allowed.
pub open spec fn marked_all(r: RegistryView, us: Seq<UsageView>) -> Option<RegistryView>
    decreases us.len(),
{
    if us.len() == 0 {
        Some(r)
    } else {
        match marked_all(r, us.drop_last()) {
            Some(q) => if use_allowed(q, us.last()) {
                Some(marked(q, us.last()))
            } else {
                None
            },
            None => None,
        }
    }
}

/// The resources that some of these uses have in this mode.
pub open spec fn targets(us: Seq<UsageView>, mode: AccessMode) -> Set<ResourceView> {
    Set::new(
        |x: ResourceView|
            exists|i: int|
                0 <= i < us.len() && (#[trigger] us[i]).mode == mode && us[i].resource == x,
    )
}

/// The registry once the marks of these uses are taken back.
pub open spec fn unmarked(r: RegistryView, us: Seq<UsageView>) -> RegistryView {
    RegistryView {
        consumed: r.consumed.difference(targets(us, AccessMode::Write)),
        owned: r.owned.difference(targets(us, AccessMode::Own)),
        ..r
    }
}

/// The number that a branch's region is counted from.
pub open spec fn region_base(r: RegistryView) -> Fd {
    match r.fork_region {
        Some((base, _)) => base,
        None => r.next_fd,
    }
}

/// Whether nothing was numbered in a branch's region.
pub open spec fn region_unused(r: RegistryView) -> bool {
    match r.fork_region {
        Some((base, offset)) => r.next_fd == base + offset,
        None => false,
    }
}

/// A registry whose next number is `offset` above the number that its regions
/// are counted from.
pub open spec fn shifted(r: RegistryView, offset: Fd) -> RegistryView {
    RegistryView {
        next_fd: (region_base(r) + offset) as Fd,
        fork_region: Some((region_base(r), offset)),
        ..r
    }
}

/// The next number that a branch asks for: a region that nothing was numbered in
/// counts as if it had never been set apart.
pub open spec fn settled_next(r: RegistryView) -> Fd {
    if region_unused(r) {
        region_base(r)
    } else {
        r.next_fd
    }
}

/// A registry with what a branch did.
pub open spec fn merged(r: RegistryView, branch: RegistryView) -> RegistryView {
    RegistryView {
        next_fd: if r.next_fd >= settled_next(branch) {
            r.next_fd
        } else {
            settled_next(branch)
        },
        handles: r.handles.union_prefer_right(branch.handles),
        consumed: r.consumed.union(branch.consumed),
        owned: r.owned.union(branch.owned),
        fork_region: if r.fork_region is None && !region_unused(branch) {
            branch.fork_region
        } else {
            r.fork_region
        },
    }
}

/// A registry without handles and marks. Numbering goes on where it was.
pub open spec fn cleared(r: RegistryView) -> RegistryView {
    RegistryView {
        handles: Map::empty(),
        consumed: Set::empty(),
        owned: Set::empty(),
        ..r
    }
}

/// A registry without the marks that a snapshot does not have.
pub open spec fn rolled_back_to(r: RegistryView, snap: LinearView) -> RegistryView {
    RegistryView {
        consumed: r.consumed.intersect(snap.consumed),
        owned: r.owned.intersect(snap.owned),
        ..r
    }
}

impl Default for ResourceRegistry {
    fn default() -> (r: Self)
        ensures
            r@ == fresh_registry(),
    {
        ResourceRegistry::new()
    }
}

impl Clone for ResourceRegistry {
    fn clone(&self) -> (r: Self)
        ensures
            r@ == self@,
    {
        ResourceRegistry {
            next_fd: self.next_fd,
            handles: self.handles.clone(),
            consumed: self.consumed.copy_table(),
            owned_consumed: self.owned_consumed.copy_table(),
            fork_region: self.fork_region,
        }
    }
}

impl ResourceRegistry {
    /// An empty registry.
    pub fn new() -> (r: Self)
        ensures
            r@ == fresh_registry(),
    {
        let r = ResourceRegistry {
            next_fd: 0,
            handles: HashMap::new(),
            consumed: Table::new(),
            owned_consumed: Table::new(),
            fork_region: None,
        };
        assert(r@ =~= fresh_registry());
        r
    }

    /// The number that the next handle gets.
    pub fn next_fd(&self) -> (r: Fd)
        ensures
            r == self@.next_fd,
    {
        self.next_fd
    }

    /// Takes a handle in and numbers it.
    pub fn allocate(&mut self, handle: ResourceHandle) -> (fd: Fd)
        requires
            old(self)@.next_fd < Fd::MAX,
        ensures
            fd == old(self)@.next_fd,
            final(self)@ == with_handle(old(self)@, handle),
    {
        let fd = self.next_fd;
        self.next_fd = self.next_fd + 1;
        let _ = self.handles.insert(fd, handle);
        fd
    }

    /// The handle with this number.
    pub fn lookup(&self, fd: Fd) -> (r: Option<&ResourceHandle>)
        ensures
            match r {
                Some(h) => self@.handles.contains_key(fd) && self@.handles[fd] == *h,
                None => !self@.handles.contains_key(fd),
            },
    {
        self.handles.get(&fd)
    }

    /// Gives the handle with this number out for good.
    pub fn take(&mut self, fd: Fd) -> (r: Option<ResourceHandle>)
        ensures
            final(self)@ == without_handle(old(self)@, fd),
            match r {
                Some(h) => old(self)@.handles.contains_key(fd) && old(self)@.handles[fd] == h,
                None => !old(self)@.handles.contains_key(fd),
            },
    {
        self.handles.remove(&fd)
    }

    /// Drops the handle with this number.
    pub fn remove(&mut self, fd: Fd)
        ensures
            final(self)@ == without_handle(old(self)@, fd),
    {
        let _ = self.handles.remove(&fd);
    }

    /// Drops all handles and marks. Numbering goes on where it was.
    pub fn clear(&mut self)
        ensures
            final(self)@ == cleared(old(self)@),
    {
        self.handles.clear();
        self.consumed.clear();
        self.owned_consumed.clear();
        assert(self@ =~= cleared(old(self)@));
    }

    /// Whether [`ResourceRegistry::offset_next_fd`] has room for this offset.
    pub fn region_fits(&self, offset: Fd) -> (r: bool)
        ensures
            r == (region_base(self@) + offset <= Fd::MAX),
    {
        let base = match self.fork_region {
            Some((base, _)) => base,
            None => self.next_fd,
        };
        offset <= Fd::MAX - base
    }

    /// Sets a region of numbers apart for a branch. A branch of a branch counts
    /// its region from the same number, so regions depend on their offsets alone.
    pub fn offset_next_fd(&mut self, offset: Fd)
        requires
            region_base(old(self)@) + offset <= Fd::MAX,
        ensures
            final(self)@ == shifted(old(self)@, offset),
    {
        let base = match self.fork_region {
            Some((base, _)) => base,
            None => self.next_fd,
        };
        self.fork_region = Some((base, offset));
        self.next_fd = base + offset;
    }

    /// Takes in what a branch did: its handles under their numbers, and its
    /// marks. Later regions are counted from where the branch's region was.
    pub fn merge(&mut self, other: Self)
        ensures
            final(self)@ == merged(old(self)@, other@),
    {
        let ghost before = self@;
        let unused = match other.fork_region {
            Some((base, offset)) => other.next_fd >= base && other.next_fd - base == offset,
            None => false,
        };
        let other_next = match other.fork_region {
            Some((base, _)) => if unused {
                base
            } else {
                other.next_fd
            },
            None => other.next_fd,
        };
        self.take_handles(&other);
        self.consumed.add_all(&other.consumed);
        self.owned_consumed.add_all(&other.owned_consumed);
        if self.fork_region.is_none() && !unused {
            self.fork_region = other.fork_region;
        }
        if self.next_fd < other_next {
            self.next_fd = other_next;
        }
        assert(self@ =~= merged(before, other@));
    }

    /// Takes in the handles of another registry, under their numbers.
    fn take_handles(&mut self, other: &Self)
        ensures
            final(self).handles@ == old(self).handles@.union_prefer_right(other.handles@),
            final(self).next_fd == old(self).next_fd,
            final(self).consumed == old(self).consumed,
            final(self).owned_consumed == old(self).owned_consumed,
            final(self).fork_region == old(self).fork_region,
    {
        let ghost start = self.handles@;
        let ghost theirs = other.handles@;
        let ghost mut seen = Set::<Fd>::empty();
        assert(self.handles@ =~= start.union_prefer_right(theirs.restrict(seen)));
        for entry in it: other.handles.iter()
            invariant
                it.seq() == vstd::std_specs::iter::IteratorSpec::remaining(&vstd::std_specs::hash::spec_hash_map_iter(&other.handles)),
                theirs == other.handles@,
                self.handles@ == start.union_prefer_right(theirs.restrict(seen)),
                forall|j: int| 0 <= j < it.index() ==> seen.contains(*(#[trigger] it.seq()[j]).0),
                self.next_fd == old(self).next_fd,
                self.consumed == old(self).consumed,
                self.owned_consumed == old(self).owned_consumed,
                self.fork_region == old(self).fork_region,
        {
            let (fd, handle) = entry;
            assert(theirs.contains_key(*fd) && theirs[*fd] == *handle);
            let _ = self.handles.insert(*fd, handle.clone());
            proof {
                let next = seen.insert(*fd);
                assert(start.union_prefer_right(theirs.restrict(seen)).insert(*fd, *handle)
                    =~= start.union_prefer_right(theirs.restrict(next)));
                seen = next;
            }
        }
        assert(theirs.restrict(seen) =~= theirs) by {
            assert forall|k: Fd| theirs.contains_key(k) implies seen.contains(k) by {
                let all = vstd::std_specs::iter::IteratorSpec::remaining(&vstd::std_specs::hash::spec_hash_map_iter(&other.handles));
                assert(all.contains((&k, &theirs[k])));
            }
        }
    }

    /// Whether linear use allows a use, which is then marked: a resource is
    /// written at most once, and nothing uses it after it was ended.
    pub fn check_linear(&mut self, usage: &ResourceUsage) -> (r: Result<(), SysError>)
        ensures
            r is Ok <==> use_allowed(old(self)@, usage@),
            r is Err ==> r == Err::<(), SysError>(SysError::InvalidInput),
            final(self)@ == (if r is Ok {
                marked(old(self)@, usage@)
            } else {
                old(self)@
            }),
    {
        let res = &usage.resource;
        if self.owned_consumed.contains(res) {
            return Err(SysError::InvalidInput);
        }
        match usage.mode {
            AccessMode::Write => {
                if self.consumed.contains(res) {
                    return Err(SysError::InvalidInput);
                }
                self.consumed.insert(res.clone(), ());
            },
            AccessMode::Own => {
                self.owned_consumed.insert(res.clone(), ());
            },
            AccessMode::Read | AccessMode::Append => {},
        }
        assert(self@ =~= marked(old(self)@, usage@));
        Ok(())
    }

    /// Takes back the marks that these uses left.
    pub fn rollback_linear(&mut self, resources: &[ResourceUsage])
        ensures
            final(self)@ == unmarked(old(self)@, crate::resource::usages(resources@)),
    {
        let ghost us = crate::resource::usages(resources@);
        let mut i: usize = 0;
        assert(self@ =~= unmarked(old(self)@, us.take(0)));
        while i < resources.len()
            invariant
                i <= resources@.len(),
                us == crate::resource::usages(resources@),
                self@ == unmarked(old(self)@, us.take(i as int)),
            decreases resources@.len() - i,
        {
            let ghost before = self@;
            let u = &resources[i];
            match u.mode {
                AccessMode::Write => {
                    self.consumed.remove(&u.resource);
                },
                AccessMode::Own => {
                    self.owned_consumed.remove(&u.resource);
                },
                AccessMode::Read | AccessMode::Append => {},
            }
            proof {
                lemma_targets_step(us, i as int);
                assert(us[i as int] == u@);
                assert(self@ =~= unmarked(old(self)@, us.take(i + 1)));
            }
            i += 1;
        }
        assert(us.take(i as int) =~= us);
    }

    /// Marks all of these uses, or none: at the first that linear use does not
    /// allow, the marks made so far are taken back.
    pub fn check_linear_all(&mut self, resources: &ResourceSet) -> (r: Result<(), SysError>)
        ensures
            r is Ok <==> marked_all(old(self)@, crate::resource::usages(resources@)) is Some,
            r is Err ==> r == Err::<(), SysError>(SysError::InvalidInput) && final(self)@ == old(
                self,
            )@,
            r is Ok ==> Some(final(self)@) == marked_all(old(self)@, crate::resource::usages(resources@)),
    {
        let ghost us = crate::resource::usages(resources@);
        let mut i: usize = 0;
        while i < resources.len()
            invariant
                i <= resources@.len(),
                us == crate::resource::usages(resources@),
                Some(self@) == marked_all(old(self)@, us.take(i as int)),
            decreases resources@.len() - i,
        {
            let ghost before = self@;
            proof {
                assert(us.take(i + 1).drop_last() =~= us.take(i as int));
                assert(us.take(i + 1).last() == resources@[i as int]@);
            }
            match self.check_linear(&resources[i]) {
                Ok(()) => {},
                Err(e) => {
                    let prefix = vstd::slice::slice_subrange(resources.as_slice(), 0, i);
                    self.rollback_linear(prefix);
                    proof {
                        assert(crate::resource::usages(prefix@) =~= us.take(i as int));
                        law_marks_are_taken_back(old(self)@, us.take(i as int));
                        lemma_refused_prefix(old(self)@, us, i + 1);
                    }
                    return Err(e);
                },
            }
            i += 1;
        }
        assert(us.take(i as int) =~= us);
        Ok(())
    }

    /// The marks as they are now.
    pub fn snapshot_linear(&self) -> (r: LinearSnapshot)
        ensures
            r@ == (LinearView { consumed: self@.consumed, owned: self@.owned }),
    {
        LinearSnapshot {
            consumed: self.consumed.copy_table(),
            owned_consumed: self.owned_consumed.copy_table(),
        }
    }

    /// Takes back the marks that were made since a snapshot. A mark that has gone
    /// since then stays gone.
    pub fn rollback_linear_to(&mut self, snap: &LinearSnapshot)
        ensures
            final(self)@ == rolled_back_to(old(self)@, snap@),
    {
        self.consumed.keep_only(&snap.consumed);
        self.owned_consumed.keep_only(&snap.owned_consumed);
        assert(self@ =~= rolled_back_to(old(self)@, snap@));
    }

    /// Whether two sets of uses may happen side by side, when the order of
    /// appends matters.
    pub fn can_parallel(&self, a: &ResourceSet, b: &ResourceSet) -> (r: bool)
        ensures
            r == crate::resource::sets_agree(crate::resource::usages(a@), crate::resource::usages(b@), false),
    {
        self.can_parallel_with(a, b, false)
    }

    /// Whether two sets of uses may happen side by side.
    pub fn can_parallel_with(
        &self,
        a: &ResourceSet,
        b: &ResourceSet,
        append_order_insensitive: bool,
    ) -> (r: bool)
        ensures
            r == crate::resource::sets_agree(crate::resource::usages(a@), crate::resource::usages(b@), append_order_insensitive),
    {
        let ghost ua = crate::resource::usages(a@);
        let ghost ub = crate::resource::usages(b@);
        let mut i: usize = 0;
        while i < a.len()
            invariant
                i <= a@.len(),
                ua == crate::resource::usages(a@),
                ub == crate::resource::usages(b@),
                crate::resource::sets_agree(ua.take(i as int), ub, append_order_insensitive),
            decreases a@.len() - i,
        {
            let mut j: usize = 0;
            while j < b.len()
                invariant
                    i < a@.len(),
                    j <= b@.len(),
                    ua == crate::resource::usages(a@),
                    ub == crate::resource::usages(b@),
                    forall|k: int|
                        0 <= k < j ==> crate::resource::uses_agree(
                            ua[i as int],
                            #[trigger] ub[k],
                            append_order_insensitive,
                        ),
                decreases b@.len() - j,
            {
                assert(ua[i as int] == a@[i as int]@ && ub[j as int] == b@[j as int]@);
                if a[i].resource.same(&b[j].resource) {
                    let ok = match (a[i].mode, b[j].mode) {
                        (AccessMode::Read, AccessMode::Read) => true,
                        (AccessMode::Append, AccessMode::Append) => append_order_insensitive,
                        _ => false,
                    };
                    if !ok {
                        assert(!crate::resource::uses_agree(
                            ua[i as int],
                            ub[j as int],
                            append_order_insensitive,
                        ));
                        return false;
                    }
                }
                j += 1;
            }
            proof {
                assert forall|x: int, y: int|
                    0 <= x < ua.take(i + 1).len() && 0 <= y < ub.len() implies crate::resource::uses_agree(
                    #[trigger] ua.take(i + 1)[x],
                    #[trigger] ub[y],
                    append_order_insensitive,
                ) by {
                    if x < i {
                        assert(ua.take(i + 1)[x] == ua.take(i as int)[x]);
                    } else {
                        assert(ua.take(i + 1)[x] == ua[i as int]);
                    }
                }
            }
            i += 1;
        }
        assert(ua.take(i as int) =~= ua);
        true
    }

    /// The path that `p` denotes when it is taken from `cwd`; see
    /// [`crate::path::canonicalize`].
    pub fn canonicalize_path(&self, p: &str, cwd: &str) -> (r: String)
        ensures
            r@ == crate::path::canonical(p@, cwd@),
    {
        canonicalize(p, cwd)
    }
}

proof fn lemma_targets_step(us: Seq<UsageView>, i: int)
    requires
        0 <= i < us.len(),
    ensures
        forall|mode: AccessMode|
            #![trigger targets(us.take(i + 1), mode)]
            targets(us.take(i + 1), mode) == (if us[i].mode == mode {
                targets(us.take(i), mode).insert(us[i].resource)
            } else {
                targets(us.take(i), mode)
            }),
{
    let now = us.take(i);
    let next = us.take(i + 1);
    assert forall|mode: AccessMode|
        #![trigger targets(next, mode)]
        targets(next, mode) == (if us[i].mode == mode {
            targets(now, mode).insert(us[i].resource)
        } else {
            targets(now, mode)
        }) by {
        assert forall|x: ResourceView| #![auto] targets(next, mode).contains(x) <==> (targets(
            now,
            mode,
        ).contains(x) || (us[i].mode == mode && us[i].resource == x)) by {
            if targets(now, mode).contains(x) {
                let k = choose|k: int|
                    0 <= k < now.len() && (#[trigger] now[k]).mode == mode && now[k].resource == x;
                assert(next[k] == now[k]);
            }
            if us[i].mode == mode && us[i].resource == x {
                assert(next[i] == us[i]);
            }
            if targets(next, mode).contains(x) {
                let k = choose|k: int|
                    0 <= k < next.len() && (#[trigger] next[k]).mode == mode && next[k].resource
                        == x;
                if k < i {
                    assert(now[k] == next[k]);
                }
            }
        }
        assert(targets(next, mode) =~= (if us[i].mode == mode {
            targets(now, mode).insert(us[i].resource)
        } else {
            targets(now, mode)
        }));
    }
}

/// Once a prefix of uses is refused, so are all of them.
proof fn lemma_refused_prefix(r: RegistryView, us: Seq<UsageView>, n: int)
    requires
        0 <= n <= us.len(),
        marked_all(r, us.take(n)) is None,
    ensures
        marked_all(r, us) is None,
    decreases us.len() - n,
{
    if n == us.len() {
        assert(us.take(n) =~= us);
    } else {
        assert(us.take(n + 1).drop_last() =~= us.take(n));
        lemma_refused_prefix(r, us, n + 1);
    }
}

/// Marking uses only adds marks, and only those of the uses themselves, none of
/// which was there before.
proof fn lemma_marks_are_new(r: RegistryView, us: Seq<UsageView>)
    requires
        marked_all(r, us) is Some,
    ensures
        marked_all(r, us)->0 == (RegistryView {
            consumed: r.consumed.union(targets(us, AccessMode::Write)),
            owned: r.owned.union(targets(us, AccessMode::Own)),
            ..r
        }),
        r.consumed.disjoint(targets(us, AccessMode::Write)),
        r.owned.disjoint(targets(us, AccessMode::Own)),
    decreases us.len(),
{
    if us.len() == 0 {
        assert(targets(us, AccessMode::Write) =~= Set::empty());
        assert(targets(us, AccessMode::Own) =~= Set::empty());
        assert(marked_all(r, us)->0 =~= (RegistryView {
            consumed: r.consumed.union(targets(us, AccessMode::Write)),
            owned: r.owned.union(targets(us, AccessMode::Own)),
            ..r
        }));
    } else {
        let n = us.len() - 1;
        lemma_marks_are_new(r, us.drop_last());
        assert(us.take(n as int) =~= us.drop_last());
        assert(us.take(n + 1) =~= us);
        lemma_targets_step(us, n as int);
        assert(us.last() == us[n as int]);
        assert(marked_all(r, us)->0 =~= (RegistryView {
            consumed: r.consumed.union(targets(us, AccessMode::Write)),
            owned: r.owned.union(targets(us, AccessMode::Own)),
            ..r
        }));
    }
}

/// Taking back the marks of uses that were all allowed leaves the registry as it
/// was before them: nothing of theirs stays, nothing older goes.
pub proof fn law_marks_are_taken_back(r: RegistryView, us: Seq<UsageView>)
    requires
        marked_all(r, us) is Some,
    ensures
        unmarked(marked_all(r, us)->0, us) == r,
{
    lemma_marks_are_new(r, us);
    assert(unmarked(marked_all(r, us)->0, us) =~= r);
}

/// Linear use: a resource that was written is not written again, a resource that
/// was ended is not used again, and reading or appending marks nothing.
pub proof fn law_linear_use(r: RegistryView, u: UsageView, again: UsageView)
    requires
        u.resource == again.resource,
    ensures
        u.mode is Write && again.mode is Write ==> !use_allowed(marked(r, u), again),
        u.mode is Own ==> !use_allowed(marked(r, u), again),
        u.mode is Read || u.mode is Append ==> marked(r, u) == r,
        u.mode is Write && !(again.mode is Write) ==> use_allowed(marked(r, u), again)
            == use_allowed(r, again),
{
}

/// Uses of different resources do not affect each other, and a registry that
/// nothing has happened to allows every use.
pub proof fn law_uses_are_independent(r: RegistryView, u: UsageView, v: UsageView)
    requires
        u.resource != v.resource,
    ensures
        use_allowed(marked(r, u), v) == use_allowed(r, v),
        use_allowed(fresh_registry(), u),
{
}

/// The registry once uses were checked one after the other, and those that were
/// allowed were marked.
pub open spec fn checked(r: RegistryView, us: Seq<UsageView>) -> RegistryView
    decreases us.len(),
{
    if us.len() == 0 {
        r
    } else {
        let before = checked(r, us.drop_last());
        if use_allowed(before, us.last()) {
            marked(before, us.last())
        } else {
            before
        }
    }
}

/// Which of these uses, checked one after the other, are allowed.
pub open spec fn verdicts(r: RegistryView, us: Seq<UsageView>) -> Seq<bool> {
    Seq::new(us.len(), |i: int| use_allowed(checked(r, us.take(i)), us[i]))
}

proof fn lemma_checked_by_marks(r: RegistryView, q: RegistryView, us: Seq<UsageView>)
    requires
        r.consumed == q.consumed,
        r.owned == q.owned,
    ensures
        checked(r, us).consumed == checked(q, us).consumed,
        checked(r, us).owned == checked(q, us).owned,
    decreases us.len(),
{
    if us.len() > 0 {
        lemma_checked_by_marks(r, q, us.drop_last());
    }
}

/// A cleared registry allows what a new one allows: the same uses, in the same
/// order, meet with the same answers.
pub proof fn law_cleared_is_as_new(r: RegistryView, us: Seq<UsageView>)
    ensures
        verdicts(cleared(r), us) == verdicts(fresh_registry(), us),
{
    assert forall|i: int| 0 <= i < us.len() implies #[trigger] verdicts(cleared(r), us)[i]
        == verdicts(fresh_registry(), us)[i] by {
        lemma_checked_by_marks(cleared(r), fresh_registry(), us.take(i));
    }
    assert(verdicts(cleared(r), us) =~= verdicts(fresh_registry(), us));
}

/// It does not matter which of two branches is taken in first, as long as they do
/// not have different handles under one number: the handles, the marks and the
/// next number are the same.
pub proof fn law_taking_in_commutes(r: RegistryView, a: RegistryView, b: RegistryView)
    requires
        forall|fd: Fd|
            #![trigger a.handles[fd]]
            #![trigger b.handles[fd]]
            a.handles.contains_key(fd) && b.handles.contains_key(fd) ==> a.handles[fd]
                == b.handles[fd],
    ensures
        merged(merged(r, a), b).handles == merged(merged(r, b), a).handles,
        merged(merged(r, a), b).consumed == merged(merged(r, b), a).consumed,
        merged(merged(r, a), b).owned == merged(merged(r, b), a).owned,
        merged(merged(r, a), b).next_fd == merged(merged(r, b), a).next_fd,
{
    assert(merged(merged(r, a), b).handles =~= merged(merged(r, b), a).handles);
    assert(merged(merged(r, a), b).consumed =~= merged(merged(r, b), a).consumed);
    assert(merged(merged(r, a), b).owned =~= merged(merged(r, b), a).owned);
}

/// Numbering never goes back: neither clearing, nor marks, nor taking in a branch
/// lowers the next number, and a branch that numbered handles leaves the next
/// number above all of them.
pub proof fn law_numbers_only_grow(
    r: RegistryView,
    branch: RegistryView,
    u: UsageView,
    snap: LinearView,
)
    ensures
        cleared(r).next_fd == r.next_fd,
        marked(r, u).next_fd == r.next_fd,
        rolled_back_to(r, snap).next_fd == r.next_fd,
        merged(r, branch).next_fd >= r.next_fd,
        !region_unused(branch) ==> merged(r, branch).next_fd >= branch.next_fd,
{
}

/// Something that happens to a registry.
pub enum Change {
    Allocate(ResourceHandle),
    Remove(Fd),
    Mark(UsageView),
    Unmark(Seq<UsageView>),
    RollBack(LinearView),
    Clear,
}

/// The registry once something has happened to it.
pub open spec fn changed(r: RegistryView, c: Change) -> RegistryView {
    match c {
        Change::Allocate(handle) => with_handle(r, handle),
        Change::Remove(fd) => without_handle(r, fd),
        Change::Mark(u) => marked(r, u),
        Change::Unmark(us) => unmarked(r, us),
        Change::RollBack(snap) => rolled_back_to(r, snap),
        Change::Clear => cleared(r),
    }
}

/// The registry once these things have happened to it, one after the other.
pub open spec fn changed_all(r: RegistryView, cs: Seq<Change>) -> RegistryView
    decreases cs.len(),
{
    if cs.len() == 0 {
        r
    } else {
        changed(changed_all(r, cs.drop_last()), cs.last())
    }
}

/// The numbers that are given out on the way.
pub open spec fn given_out(r: RegistryView, cs: Seq<Change>) -> Set<Fd>
    decreases cs.len(),
{
    if cs.len() == 0 {
        Set::empty()
    } else {
        let before = given_out(r, cs.drop_last());
        match cs.last() {
            Change::Allocate(_) => before.insert(changed_all(r, cs.drop_last()).next_fd),
            _ => before,
        }
    }
}

/// Whether there are numbers left for all of this.
pub open spec fn has_room(r: RegistryView, cs: Seq<Change>) -> bool
    decreases cs.len(),
{
    cs.len() == 0 || has_room(r, cs.drop_last()) && (cs.last() is Allocate ==> changed_all(
        r,
        cs.drop_last(),
    ).next_fd < Fd::MAX)
}

/// Whether these are all numbers ever given out, as far as the registry can tell:
/// every handle has one of them, and the next number is above them and not below
/// the region that the registry numbers in.
pub open spec fn numbered(r: RegistryView, given: Set<Fd>) -> bool {
    &&& forall|fd: Fd| #[trigger] r.handles.contains_key(fd) ==> given.contains(fd)
    &&& forall|fd: Fd| #[trigger] given.contains(fd) ==> fd < r.next_fd
    &&& r.fork_region matches Some((base, offset)) ==> base + offset <= r.next_fd
}

/// The registry that a branch starts with: a copy, in a region of its own if it
/// gets one.
pub open spec fn branch_start(r: RegistryView, offset: Option<Fd>) -> RegistryView {
    match offset {
        Some(offset) => shifted(r, offset),
        None => r,
    }
}

/// Whether a region is above all numbers that were given out.
pub open spec fn region_is_unused(r: RegistryView, given: Set<Fd>, offset: Option<Fd>) -> bool {
    offset matches Some(offset) ==> region_base(r) + offset <= Fd::MAX && forall|fd: Fd| #[trigger]
        given.contains(fd) ==> fd < region_base(r) + offset
}

proof fn lemma_changes(r: RegistryView, cs: Seq<Change>)
    requires
        has_room(r, cs),
    ensures
        ({
            let s = changed_all(r, cs);
            let g = given_out(r, cs);
            &&& s.fork_region == r.fork_region
            &&& r.next_fd <= s.next_fd
            &&& (forall|fd: Fd| !#[trigger] g.contains(fd)) ==> s.next_fd == r.next_fd
            &&& forall|fd: Fd| #[trigger] g.contains(fd) ==> r.next_fd <= fd < s.next_fd
            &&& forall|fd: Fd| #[trigger]
                s.handles.contains_key(fd) ==> g.contains(fd) || r.handles.contains_key(fd)
                    && s.handles[fd] == r.handles[fd]
        }),
    decreases cs.len(),
{
    if cs.len() > 0 {
        let before = cs.drop_last();
        lemma_changes(r, before);
        let q = changed_all(r, before);
        let s = changed_all(r, cs);
        let g = given_out(r, cs);
        if cs.last() is Allocate {
            assert(g.contains(q.next_fd));
        } else {
            assert(g == given_out(r, before));
        }
        assert forall|fd: Fd| #[trigger] s.handles.contains_key(fd) implies g.contains(fd)
            || r.handles.contains_key(fd) && s.handles[fd] == r.handles[fd] by {
            if !g.contains(fd) {
                assert(q.handles.contains_key(fd) && s.handles[fd] == q.handles[fd]);
            }
        }
    }
}

/// A number that was given out is not given out again, whatever happens to the
/// registry: what is given out is new, and the next number is above all of it. This
/// holds of a new registry, of a copy, and of a copy with an unused region of its
/// own.
pub proof fn law_numbers_are_not_reused(
    r: RegistryView,
    given: Set<Fd>,
    offset: Option<Fd>,
    cs: Seq<Change>,
)
    requires
        numbered(r, given),
        region_is_unused(r, given, offset),
        has_room(branch_start(r, offset), cs),
    ensures
        numbered(fresh_registry(), Set::empty()),
        ({
            let s = branch_start(r, offset);
            &&& forall|fd: Fd| #[trigger]
                given_out(s, cs).contains(fd) ==> !given.contains(fd)
            &&& numbered(changed_all(s, cs), given.union(given_out(s, cs)))
        }),
{
    lemma_changes(branch_start(r, offset), cs);
}

/// Taking in a branch keeps everything. Of a registry and a branch that started as
/// a copy of it, in an unused region of its own if it got one, and that have given
/// out different numbers since: each handle of either is there under its number,
/// each mark of either is in force, and the next number is above every number that
/// was ever given out by either.
pub proof fn law_taking_in_keeps_everything(
    r: RegistryView,
    given: Set<Fd>,
    offset: Option<Fd>,
    mine: Seq<Change>,
    theirs: Seq<Change>,
)
    requires
        numbered(r, given),
        region_is_unused(r, given, offset),
        has_room(r, mine),
        has_room(branch_start(r, offset), theirs),
        given_out(r, mine).disjoint(given_out(branch_start(r, offset), theirs)),
    ensures
        ({
            let a = changed_all(r, mine);
            let b = changed_all(branch_start(r, offset), theirs);
            let all = given.union(given_out(r, mine)).union(
                given_out(branch_start(r, offset), theirs),
            );
            let m = merged(a, b);
            &&& forall|fd: Fd| #[trigger]
                m.handles.contains_key(fd) <==> a.handles.contains_key(fd)
                    || b.handles.contains_key(fd)
            &&& forall|fd: Fd| #[trigger]
                a.handles.contains_key(fd) ==> m.handles[fd] == a.handles[fd]
            &&& forall|fd: Fd| #[trigger]
                b.handles.contains_key(fd) ==> m.handles[fd] == b.handles[fd]
            &&& forall|x: ResourceView| #[trigger]
                m.consumed.contains(x) <==> a.consumed.contains(x) || b.consumed.contains(x)
            &&& forall|x: ResourceView| #[trigger]
                m.owned.contains(x) <==> a.owned.contains(x) || b.owned.contains(x)
            &&& forall|fd: Fd| #[trigger] all.contains(fd) ==> fd < m.next_fd
            &&& numbered(m, all)
        }),
{
    let s = branch_start(r, offset);
    let a = changed_all(r, mine);
    let b = changed_all(s, theirs);
    let ga = given_out(r, mine);
    let gb = given_out(s, theirs);
    lemma_changes(r, mine);
    lemma_changes(s, theirs);
    assert forall|fd: Fd| #[trigger] gb.contains(fd) implies fd < settled_next(b) by {
        assert(s.next_fd < b.next_fd);
    }
    assert forall|fd: Fd| a.handles.contains_key(fd) && b.handles.contains_key(
        fd,
    ) implies a.handles[fd] == b.handles[fd] by {
        if ga.contains(fd) {
            assert(!gb.contains(fd));
            assert(given.contains(fd));
        }
        if gb.contains(fd) {
            assert(!ga.contains(fd));
            assert(given.contains(fd));
        }
    }
}

/// A branch that did nothing leaves no trace.
pub proof fn law_idle_branch_leaves_no_trace(r: RegistryView, offset: Fd)
    requires
        region_base(r) + offset <= Fd::MAX,
        region_base(r) <= r.next_fd,
    ensures
        merged(r, r) == r,
        merged(r, shifted(r, offset)) == r,
{
    assert(merged(r, r) =~= r);
    assert(merged(r, shifted(r, offset)) =~= r);
}

/// A use is allowed unless the resource was ended, or it is a write of a resource
/// that was written. Marking a write or an end adds that one mark, and nothing else
/// changes; reading and appending leave no mark.
pub proof fn law_one_use(r: RegistryView, u: UsageView, x: ResourceView)
    ensures
        use_allowed(r, u) <==> !r.owned.contains(u.resource) && !(u.mode is Write
            && r.consumed.contains(u.resource)),
        marked(r, u).consumed.contains(x) <==> r.consumed.contains(x) || (u.mode is Write
            && x == u.resource),
        marked(r, u).owned.contains(x) <==> r.owned.contains(x) || (u.mode is Own && x
            == u.resource),
        marked(r, u).handles == r.handles,
        marked(r, u).next_fd == r.next_fd,
        marked(r, u).fork_region == r.fork_region,
{
}

/// Uses are allowed together exactly if each is allowed by itself and none comes
/// after the end of its resource or writes what an earlier one writes. Then the marks
/// of all are added, and nothing else changes.
pub proof fn law_uses_together(r: RegistryView, us: Seq<UsageView>)
    ensures
        marked_all(r, us) is Some <==> forall|i: int|
            0 <= i < us.len() ==> fits_after(r, us, #[trigger] us[i], i),
        marked_all(r, us) matches Some(q) ==> {
            &&& forall|x: ResourceView| #[trigger]
                q.consumed.contains(x) <==> r.consumed.contains(x) || exists|i: int|
                    0 <= i < us.len() && (#[trigger] us[i]).mode is Write && us[i].resource == x
            &&& forall|x: ResourceView| #[trigger]
                q.owned.contains(x) <==> r.owned.contains(x) || exists|i: int|
                    0 <= i < us.len() && (#[trigger] us[i]).mode is Own && us[i].resource == x
            &&& q.handles == r.handles
            &&& q.next_fd == r.next_fd
            &&& q.fork_region == r.fork_region
        },
    decreases us.len(),
{
    if us.len() > 0 {
        let n = us.len() - 1;
        let rest = us.drop_last();
        law_uses_together(r, rest);
        assert(us.last() == us[n]);
        assert forall|i: int| 0 <= i < n implies (fits_after(r, rest, #[trigger] rest[i], i)
            <==> fits_after(r, us, us[i], i)) by {
            assert(forall|j: int| 0 <= j < i ==> rest[j] == us[j]);
        }
        if marked_all(r, rest) is Some {
            let q = marked_all(r, rest)->0;
            let u = us.last();
            assert(use_allowed(q, u) <==> fits_after(r, us, u, n)) by {
                assert(q.owned.contains(u.resource) <==> r.owned.contains(u.resource) || exists|
                    i: int,
                |
                    0 <= i < rest.len() && (#[trigger] rest[i]).mode is Own && rest[i].resource
                        == u.resource);
                assert(q.consumed.contains(u.resource) <==> r.consumed.contains(u.resource)
                    || exists|i: int|
                    0 <= i < rest.len() && (#[trigger] rest[i]).mode is Write && rest[i].resource
                        == u.resource);
                assert(forall|j: int| 0 <= j < n ==> #[trigger] rest[j] == us[j]);
                assert(forall|j: int| 0 <= j < n ==> #[trigger] us[j] == rest[j]);
            }
            assert(forall|i: int| 0 <= i < n ==> fits_after(r, us, #[trigger] us[i], i)) by {
                assert forall|i: int| 0 <= i < n implies fits_after(r, us, #[trigger] us[i], i) by {
                    assert(fits_after(r, rest, rest[i], i));
                }
            }
            if fits_after(r, us, u, n) {
                assert forall|i: int| 0 <= i < us.len() implies fits_after(
                    r,
                    us,
                    #[trigger] us[i],
                    i,
                ) by {}
            } else {
                assert(!fits_after(r, us, us[n], n));
            }
            if marked_all(r, us) is Some {
                let p = marked_all(r, us)->0;
                assert forall|x: ResourceView| #[trigger]
                    p.consumed.contains(x) <==> r.consumed.contains(x) || exists|i: int|
                        0 <= i < us.len() && (#[trigger] us[i]).mode is Write && us[i].resource
                            == x by {
                    assert(p.consumed.contains(x) <==> q.consumed.contains(x) || (u.mode is Write
                        && u.resource == x));
                    assert(forall|j: int| 0 <= j < n ==> #[trigger] rest[j] == us[j]);
                    assert(forall|j: int| 0 <= j < n ==> #[trigger] us[j] == rest[j]);
                }
                assert forall|x: ResourceView| #[trigger]
                    p.owned.contains(x) <==> r.owned.contains(x) || exists|i: int|
                        0 <= i < us.len() && (#[trigger] us[i]).mode is Own && us[i].resource
                            == x by {
                    assert(p.owned.contains(x) <==> q.owned.contains(x) || (u.mode is Own
                        && u.resource == x));
                    assert(forall|j: int| 0 <= j < n ==> #[trigger] rest[j] == us[j]);
                    assert(forall|j: int| 0 <= j < n ==> #[trigger] us[j] == rest[j]);
                }
            }
        } else {
            let i = choose|i: int|
                0 <= i < rest.len() && !fits_after(r, rest, #[trigger] rest[i], i);
            assert(!fits_after(r, us, us[i], i));
        }
    }
}

/// Whether a use is allowed after the first `i` of these.
pub open spec fn fits_after(r: RegistryView, us: Seq<UsageView>, u: UsageView, i: int) -> bool {
    &&& !r.owned.contains(u.resource)
    &&& u.mode is Write ==> !r.consumed.contains(u.resource)
    &&& forall|j: int|
        0 <= j < i && (#[trigger] us[j]).resource == u.resource ==> !(us[j].mode is Own) && !(
        us[j].mode is Write && u.mode is Write)
}

/// A handle is found under the number that it got, until it is taken out; no other
/// handle is touched by either, and numbering goes on.
pub proof fn law_handles(r: RegistryView, handle: ResourceHandle, fd: Fd)
    requires
        r.next_fd < Fd::MAX,
    ensures
        with_handle(r, handle).handles.contains_key(r.next_fd),
        with_handle(r, handle).handles[r.next_fd] == handle,
        fd != r.next_fd ==> with_handle(r, handle).handles.contains_key(fd)
            == r.handles.contains_key(fd),
        fd != r.next_fd && r.handles.contains_key(fd) ==> with_handle(r, handle).handles[fd]
            == r.handles[fd],
        with_handle(r, handle).next_fd == r.next_fd + 1,
        with_handle(r, handle).consumed == r.consumed,
        with_handle(r, handle).owned == r.owned,
        !without_handle(r, fd).handles.contains_key(fd),
        forall|other: Fd| #[trigger]
            without_handle(r, fd).handles.contains_key(other) <==> other != fd
                && r.handles.contains_key(other),
        without_handle(r, fd).next_fd == r.next_fd,
        without_handle(r, fd).consumed == r.consumed,
        without_handle(r, fd).owned == r.owned,
{
}

/// Taking in a branch adds its handles and its marks. A handle of the branch wins
/// over another under the same number.
pub proof fn law_taking_in(r: RegistryView, branch: RegistryView, fd: Fd, x: ResourceView)
    ensures
        merged(r, branch).handles.contains_key(fd) <==> r.handles.contains_key(fd)
            || branch.handles.contains_key(fd),
        branch.handles.contains_key(fd) ==> merged(r, branch).handles[fd] == branch.handles[fd],
        !branch.handles.contains_key(fd) && r.handles.contains_key(fd) ==> merged(
            r,
            branch,
        ).handles[fd] == r.handles[fd],
        merged(r, branch).consumed.contains(x) <==> r.consumed.contains(x)
            || branch.consumed.contains(x),
        merged(r, branch).owned.contains(x) <==> r.owned.contains(x) || branch.owned.contains(x),
        ({
            // A branch that numbered nothing in its region asks for no more numbers
            // than there were before.
            let asked = match branch.fork_region {
                Some((base, offset)) => if branch.next_fd == base + offset {
                    base
                } else {
                    branch.next_fd
                },
                None => branch.next_fd,
            };
            &&& merged(r, branch).next_fd == r.next_fd || merged(r, branch).next_fd == asked
            &&& merged(r, branch).next_fd >= r.next_fd
            &&& merged(r, branch).next_fd >= asked
        }),
{
}

/// Clearing leaves no handle and no mark; rolling back leaves the marks that the
/// snapshot has, and everything else. Neither touches numbering.
pub proof fn law_clearing_and_rolling_back(
    r: RegistryView,
    snap: LinearView,
    fd: Fd,
    x: ResourceView,
)
    ensures
        !cleared(r).handles.contains_key(fd),
        !cleared(r).consumed.contains(x),
        !cleared(r).owned.contains(x),
        cleared(r).next_fd == r.next_fd,
        cleared(r).fork_region == r.fork_region,
        rolled_back_to(r, snap).consumed.contains(x) <==> r.consumed.contains(x)
            && snap.consumed.contains(x),
        rolled_back_to(r, snap).owned.contains(x) <==> r.owned.contains(x) && snap.owned.contains(
            x,
        ),
        rolled_back_to(r, snap).handles == r.handles,
        rolled_back_to(r, snap).next_fd == r.next_fd,
        rolled_back_to(r, snap).fork_region == r.fork_region,
{
}

/// Regions are counted from one number, however forks are nested and however often a
/// branch is taken in: a branch starts in its region above that number, counts the
/// regions of its own forks from it, and if it has numbered something there, so does
/// the registry that takes it in.
pub proof fn law_regions_are_counted_from_one_number(
    r: RegistryView,
    offset: Fd,
    mine: Seq<Change>,
    theirs: Seq<Change>,
)
    requires
        region_base(r) + offset <= Fd::MAX,
        has_room(r, mine),
        has_room(shifted(r, offset), theirs),
    ensures
        ({
            let a = changed_all(r, mine);
            let b = changed_all(shifted(r, offset), theirs);
            let numbered_something = exists|fd: Fd| #[trigger]
                given_out(shifted(r, offset), theirs).contains(fd);
            &&& shifted(r, offset).next_fd == region_base(r) + offset
            &&& shifted(r, offset).handles == r.handles
            &&& shifted(r, offset).consumed == r.consumed
            &&& shifted(r, offset).owned == r.owned
            &&& region_base(b) == region_base(r)
            &&& r.fork_region is Some || numbered_something ==> region_base(merged(a, b))
                == region_base(r)
            &&& r.fork_region is None && !numbered_something ==> merged(a, b).fork_region is None
        }),
{
    lemma_changes(r, mine);
    lemma_changes(shifted(r, offset), theirs);
    let b = changed_all(shifted(r, offset), theirs);
    if exists|fd: Fd| #[trigger] given_out(shifted(r, offset), theirs).contains(fd) {
        let fd = choose|fd: Fd| #[trigger] given_out(shifted(r, offset), theirs).contains(fd);
        assert(b.next_fd > shifted(r, offset).next_fd);
    }
}

} // verus!
