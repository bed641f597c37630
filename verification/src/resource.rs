//! Resources, how they are used, and wrappers that fix a use in the type.

use std::marker::PhantomData;
use vstd::prelude::*;

use crate::action::Fd;
use crate::table::Key;

pub use crate::arbiter::ResourceArbiter;
pub use crate::registry::{LinearSnapshot, ResourceHandle, ResourceRegistry};

verus! {

/// What an operation can use. A path is in canonical form.
#[derive(Debug, PartialEq, Eq, Hash)]
pub enum Resource {
    Fd(Fd),
    Path(String),
    MemRange(usize, usize),
    Pid(u32),
    Signal,
    Foreign(u64),
}

/// What a [`Resource`] holds.
pub enum ResourceView {
    Fd(Fd),
    Path(Seq<char>),
    MemRange(usize, usize),
    Pid(u32),
    Signal,
    Foreign(u64),
}

impl View for Resource {
    type V = ResourceView;

    open spec fn view(&self) -> ResourceView {
        match *self {
            Resource::Fd(fd) => ResourceView::Fd(fd),
            Resource::Path(p) => ResourceView::Path(p@),
            Resource::MemRange(a, b) => ResourceView::MemRange(a, b),
            Resource::Pid(pid) => ResourceView::Pid(pid),
            Resource::Signal => ResourceView::Signal,
            Resource::Foreign(id) => ResourceView::Foreign(id),
        }
    }
}

impl Clone for Resource {
    fn clone(&self) -> (r: Self)
        ensures
            r == *self,
    {
        match self {
            Resource::Fd(fd) => Resource::Fd(*fd),
            Resource::Path(p) => Resource::Path(p.clone()),
            Resource::MemRange(a, b) => Resource::MemRange(*a, *b),
            Resource::Pid(pid) => Resource::Pid(*pid),
            Resource::Signal => Resource::Signal,
            Resource::Foreign(id) => Resource::Foreign(*id),
        }
    }
}

impl Key for Resource {
    fn same(&self, other: &Self) -> (r: bool) {
        match (self, other) {
            (Resource::Fd(a), Resource::Fd(b)) => *a == *b,
            (Resource::Path(a), Resource::Path(b)) => *a == *b,
            (Resource::MemRange(a, b), Resource::MemRange(c, d)) => *a == *c && *b == *d,
            (Resource::Pid(a), Resource::Pid(b)) => *a == *b,
            (Resource::Signal, Resource::Signal) => true,
            (Resource::Foreign(a), Resource::Foreign(b)) => *a == *b,
            _ => false,
        }
    }

    fn copy_key(&self) -> (r: Self) {
        self.clone()
    }
}

/// How a resource is used.
#[derive(Debug, Clone, Copy, PartialEq, Eq, Structural)]
pub enum AccessMode {
    Read,
    Write,
    Append,
    /// Ends the resource: nothing may use it afterwards.
    Own,
}

/// One use of one resource.
#[derive(Debug, PartialEq, Eq)]
pub struct ResourceUsage {
    pub resource: Resource,
    pub mode: AccessMode,
}

/// What a [`ResourceUsage`] holds.
pub struct UsageView {
    pub resource: ResourceView,
    pub mode: AccessMode,
}

impl View for ResourceUsage {
    type V = UsageView;

    open spec fn view(&self) -> UsageView {
        UsageView { resource: self.resource@, mode: self.mode }
    }
}

impl Clone for ResourceUsage {
    fn clone(&self) -> (r: Self)
        ensures
            r == *self,
    {
        ResourceUsage { resource: self.resource.clone(), mode: self.mode }
    }
}

/// The uses that an operation declares.
pub type ResourceSet = Vec<ResourceUsage>;

/// What a sequence of uses holds.
pub open spec fn usages(set: Seq<ResourceUsage>) -> Seq<UsageView> {
    set.map_values(|u: ResourceUsage| u@)
}

/// Whether two uses of one resource may happen side by side: reads may, and so
/// may appends where their order does not matter.
pub open spec fn modes_agree(a: AccessMode, b: AccessMode, append_order_insensitive: bool) -> bool {
    ||| a is Read && b is Read
    ||| a is Append && b is Append && append_order_insensitive
}

/// Whether two uses may happen side by side.
pub open spec fn uses_agree(a: UsageView, b: UsageView, append_order_insensitive: bool) -> bool {
    a.resource == b.resource ==> modes_agree(a.mode, b.mode, append_order_insensitive)
}

/// Whether every use on one side may happen beside every use on the other.
pub open spec fn sets_agree(
    a: Seq<UsageView>,
    b: Seq<UsageView>,
    append_order_insensitive: bool,
) -> bool {
    forall|i: int, j: int|
        0 <= i < a.len() && 0 <= j < b.len() ==> uses_agree(
            #[trigger] a[i],
            #[trigger] b[j],
            append_order_insensitive,
        )
}

/// Whether uses may happen side by side does not depend on which come first.
pub proof fn law_agreement_is_symmetric(
    a: Seq<UsageView>,
    b: Seq<UsageView>,
    append_order_insensitive: bool,
)
    ensures
        sets_agree(a, b, append_order_insensitive) == sets_agree(b, a, append_order_insensitive),
{
    if sets_agree(a, b, append_order_insensitive) {
        assert forall|i: int, j: int| 0 <= i < b.len() && 0 <= j < a.len() implies uses_agree(
            #[trigger] b[i],
            #[trigger] a[j],
            append_order_insensitive,
        ) by {
            assert(uses_agree(a[j], b[i], append_order_insensitive));
        }
    }
    if sets_agree(b, a, append_order_insensitive) {
        assert forall|i: int, j: int| 0 <= i < a.len() && 0 <= j < b.len() implies uses_agree(
            #[trigger] a[i],
            #[trigger] b[j],
            append_order_insensitive,
        ) by {
            assert(uses_agree(b[j], a[i], append_order_insensitive));
        }
    }
}

/// No uses may happen beside any others; uses of different resources may happen
/// side by side; and what may where the order of appends matters, may also where
/// it does not.
pub proof fn law_agreement(a: Seq<UsageView>, b: Seq<UsageView>, append_order_insensitive: bool)
    ensures
        sets_agree(Seq::empty(), b, append_order_insensitive),
        sets_agree(a, b, false) ==> sets_agree(a, b, true),
        (forall|i: int, j: int|
            0 <= i < a.len() && 0 <= j < b.len() ==> (#[trigger] a[i]).resource != (
            #[trigger] b[j]).resource) ==> sets_agree(a, b, append_order_insensitive),
{
    if sets_agree(a, b, false) {
        assert forall|i: int, j: int| 0 <= i < a.len() && 0 <= j < b.len() implies uses_agree(
            #[trigger] a[i],
            #[trigger] b[j],
            true,
        ) by {
            assert(uses_agree(a[i], b[j], false));
        }
    }
}

/// Marks a [`TypedResource`] that is read.
pub struct ReadOnly;

/// Marks a [`TypedResource`] that is written.
pub struct WriteOnly;

/// Marks a [`TypedResource`] that is appended to.
pub struct AppendOnly;

/// Marks a [`TypedResource`] that is ended.
pub struct Owned;

/// A resource as a typed wrapper carries it.
#[derive(Debug, PartialEq, Eq)]
pub enum ResourceInner {
    Fd(Fd),
    Path(String),
    MemRange(usize, usize),
    Pid(u32),
    Signal,
    Foreign(u64),
}

impl View for ResourceInner {
    type V = ResourceView;

    open spec fn view(&self) -> ResourceView {
        match *self {
            ResourceInner::Fd(fd) => ResourceView::Fd(fd),
            ResourceInner::Path(p) => ResourceView::Path(p@),
            ResourceInner::MemRange(a, b) => ResourceView::MemRange(a, b),
            ResourceInner::Pid(pid) => ResourceView::Pid(pid),
            ResourceInner::Signal => ResourceView::Signal,
            ResourceInner::Foreign(id) => ResourceView::Foreign(id),
        }
    }
}

impl Clone for ResourceInner {
    fn clone(&self) -> (r: Self)
        ensures
            r@ == self@,
    {
        match self {
            ResourceInner::Fd(fd) => ResourceInner::Fd(*fd),
            ResourceInner::Path(p) => ResourceInner::Path(p.clone()),
            ResourceInner::MemRange(a, b) => ResourceInner::MemRange(*a, *b),
            ResourceInner::Pid(pid) => ResourceInner::Pid(*pid),
            ResourceInner::Signal => ResourceInner::Signal,
            ResourceInner::Foreign(id) => ResourceInner::Foreign(*id),
        }
    }
}

impl vstd::std_specs::convert::FromSpecImpl<ResourceInner> for Resource {
    open spec fn obeys_from_spec() -> bool {
        true
    }

    open spec fn from_spec(inner: ResourceInner) -> Resource {
        match inner {
            ResourceInner::Fd(fd) => Resource::Fd(fd),
            ResourceInner::Path(p) => Resource::Path(p),
            ResourceInner::MemRange(a, b) => Resource::MemRange(a, b),
            ResourceInner::Pid(pid) => Resource::Pid(pid),
            ResourceInner::Signal => Resource::Signal,
            ResourceInner::Foreign(id) => Resource::Foreign(id),
        }
    }
}

impl From<ResourceInner> for Resource {
    fn from(inner: ResourceInner) -> (r: Self) {
        match inner {
            ResourceInner::Fd(fd) => Resource::Fd(fd),
            ResourceInner::Path(p) => Resource::Path(p),
            ResourceInner::MemRange(a, b) => Resource::MemRange(a, b),
            ResourceInner::Pid(pid) => Resource::Pid(pid),
            ResourceInner::Signal => Resource::Signal,
            ResourceInner::Foreign(id) => Resource::Foreign(id),
        }
    }
}

/// A resource whose use is fixed by its type. The conversions that exist are the
/// ones that make sense: an owned resource goes back to no other use.
pub struct TypedResource<M> {
    inner: ResourceInner,
    _mode: PhantomData<M>,
}

impl<M> TypedResource<M> {
    /// The resource that is wrapped.
    pub closed spec fn resource(self) -> ResourceInner {
        self.inner
    }

    /// The resource that is wrapped.
    pub fn inner(&self) -> (r: &ResourceInner)
        ensures
            *r == self.resource(),
    {
        &self.inner
    }
}

impl TypedResource<ReadOnly> {
    pub fn new_read(inner: ResourceInner) -> (r: Self)
        ensures
            r.resource() == inner,
    {
        Self { inner, _mode: PhantomData }
    }

    pub fn into_write(self) -> (r: TypedResource<WriteOnly>)
        ensures
            r.resource() == self.resource(),
    {
        TypedResource { inner: self.inner, _mode: PhantomData }
    }

    pub fn into_append(self) -> (r: TypedResource<AppendOnly>)
        ensures
            r.resource() == self.resource(),
    {
        TypedResource { inner: self.inner, _mode: PhantomData }
    }

    pub fn into_owned(self) -> (r: TypedResource<Owned>)
        ensures
            r.resource() == self.resource(),
    {
        TypedResource { inner: self.inner, _mode: PhantomData }
    }
}

impl TypedResource<WriteOnly> {
    pub fn new_write(inner: ResourceInner) -> (r: Self)
        ensures
            r.resource() == inner,
    {
        Self { inner, _mode: PhantomData }
    }

    pub fn into_read(self) -> (r: TypedResource<ReadOnly>)
        ensures
            r.resource() == self.resource(),
    {
        TypedResource { inner: self.inner, _mode: PhantomData }
    }

    pub fn into_owned(self) -> (r: TypedResource<Owned>)
        ensures
            r.resource() == self.resource(),
    {
        TypedResource { inner: self.inner, _mode: PhantomData }
    }
}

impl TypedResource<AppendOnly> {
    pub fn new_append(inner: ResourceInner) -> (r: Self)
        ensures
            r.resource() == inner,
    {
        Self { inner, _mode: PhantomData }
    }

    pub fn into_read(self) -> (r: TypedResource<ReadOnly>)
        ensures
            r.resource() == self.resource(),
    {
        TypedResource { inner: self.inner, _mode: PhantomData }
    }

    pub fn into_owned(self) -> (r: TypedResource<Owned>)
        ensures
            r.resource() == self.resource(),
    {
        TypedResource { inner: self.inner, _mode: PhantomData }
    }
}

impl TypedResource<Owned> {
    pub fn new_owned(inner: ResourceInner) -> (r: Self)
        ensures
            r.resource() == inner,
    {
        Self { inner, _mode: PhantomData }
    }
}

/// A marker type and the use that it stands for.
pub trait ModeMarker {
    /// The use that the marker stands for.
    spec fn mode() -> AccessMode;

    /// The use that the marker stands for.
    fn access_mode() -> (r: AccessMode)
        ensures
            r == Self::mode(),
    ;
}

impl ModeMarker for ReadOnly {
    open spec fn mode() -> AccessMode {
        AccessMode::Read
    }

    fn access_mode() -> (r: AccessMode) {
        AccessMode::Read
    }
}

impl ModeMarker for WriteOnly {
    open spec fn mode() -> AccessMode {
        AccessMode::Write
    }

    fn access_mode() -> (r: AccessMode) {
        AccessMode::Write
    }
}

impl ModeMarker for AppendOnly {
    open spec fn mode() -> AccessMode {
        AccessMode::Append
    }

    fn access_mode() -> (r: AccessMode) {
        AccessMode::Append
    }
}

impl ModeMarker for Owned {
    open spec fn mode() -> AccessMode {
        AccessMode::Own
    }

    fn access_mode() -> (r: AccessMode) {
        AccessMode::Own
    }
}

impl<M: ModeMarker> TypedResource<M> {
    /// The use that this wrapper declares.
    pub fn into_usage(self) -> (r: ResourceUsage)
        ensures
            r.resource == <Resource as vstd::std_specs::convert::FromSpec<ResourceInner>>::from_spec(
                self.resource(),
            ),
            r.mode == M::mode(),
    {
        ResourceUsage { resource: Resource::from(self.inner), mode: M::access_mode() }
    }
}

/// Uses may happen side by side exactly if no two of one resource meet, one from each
/// side, unless both read it, or both append to it and the order does not matter.
pub proof fn law_agreement_by_mode(
    a: Seq<UsageView>,
    b: Seq<UsageView>,
    append_order_insensitive: bool,
)
    ensures
        sets_agree(a, b, append_order_insensitive) <==> forall|i: int, j: int|
            0 <= i < a.len() && 0 <= j < b.len() && (#[trigger] a[i]).resource == (
            #[trigger] b[j]).resource ==> (a[i].mode is Read && b[j].mode is Read) || (
            a[i].mode is Append && b[j].mode is Append && append_order_insensitive),
{
    if forall|i: int, j: int|
        0 <= i < a.len() && 0 <= j < b.len() && (#[trigger] a[i]).resource == (
        #[trigger] b[j]).resource ==> (a[i].mode is Read && b[j].mode is Read) || (
        a[i].mode is Append && b[j].mode is Append && append_order_insensitive) {
        assert forall|i: int, j: int| 0 <= i < a.len() && 0 <= j < b.len() implies uses_agree(
            #[trigger] a[i],
            #[trigger] b[j],
            append_order_insensitive,
        ) by {}
    }
    if sets_agree(a, b, append_order_insensitive) {
        assert forall|i: int, j: int|
            0 <= i < a.len() && 0 <= j < b.len() && (#[trigger] a[i]).resource == (
            #[trigger] b[j]).resource implies (a[i].mode is Read && b[j].mode is Read) || (
        a[i].mode is Append && b[j].mode is Append && append_order_insensitive) by {
            assert(uses_agree(a[i], b[j], append_order_insensitive));
        }
    }
}

/// Each marker stands for the use that it is named after.
pub proof fn law_markers()
    ensures
        <ReadOnly as ModeMarker>::mode() is Read,
        <WriteOnly as ModeMarker>::mode() is Write,
        <AppendOnly as ModeMarker>::mode() is Append,
        <Owned as ModeMarker>::mode() is Own,
{
}

/// A resource that a typed wrapper carries stays the same resource.
pub proof fn law_wrapped_resource(inner: ResourceInner)
    ensures
        <Resource as vstd::std_specs::convert::FromSpec<ResourceInner>>::from_spec(inner)@
            == inner@,
{
}

/// A use holds its resource and its mode, and uses are held in order. Resources are
/// the same exactly if they are of one kind and of one number, path or range.
pub proof fn law_what_uses_hold(set: Seq<ResourceUsage>, i: int, a: Resource, b: Resource)
    requires
        0 <= i < set.len(),
    ensures
        usages(set).len() == set.len(),
        usages(set)[i].resource == set[i].resource@,
        usages(set)[i].mode == set[i].mode,
        a@ == b@ <==> match (a, b) {
            (Resource::Fd(x), Resource::Fd(y)) => x == y,
            (Resource::Path(x), Resource::Path(y)) => x@ == y@,
            (Resource::MemRange(x, n), Resource::MemRange(y, k)) => x == y && n == k,
            (Resource::Pid(x), Resource::Pid(y)) => x == y,
            (Resource::Signal, Resource::Signal) => true,
            (Resource::Foreign(x), Resource::Foreign(y)) => x == y,
            _ => false,
        },
{
}

} // verus!
