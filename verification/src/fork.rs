//! What can be known of a fork before it runs: whether its branches get in each
//! other's way, and which region of numbers its right branch uses.

use std::sync::atomic::{AtomicU64, Ordering};
use vstd::prelude::*;
use vstd::string::*;

use crate::action::{Action, Host};
use crate::error::SysError;
use crate::registry::ResourceRegistry;
use crate::resource::{ResourceSet, ResourceUsage, UsageView};
use crate::table::{Key, Table};

verus! {

/// The uses that a blueprint declares, in order. What its continuations make is
/// not known before it runs and is left out.
pub open spec fn declared_uses<B: Host>(action: Action<B>) -> Seq<UsageView>
    decreases action,
{
    match action {
        Action::Syscall { resources, .. } => crate::resource::usages(resources@),
        Action::Invoke { captures, .. } => crate::resource::usages(captures@),
        Action::Choose { then_branch, else_branch, .. } => declared_uses(*then_branch)
            + declared_uses(*else_branch),
        Action::Fork { left, right, .. } => declared_uses(*left) + declared_uses(*right),
        Action::Timeout { action, on_timeout, .. } => declared_uses(*action) + declared_uses(
            *on_timeout,
        ),
        Action::Scope { inner, .. } => declared_uses(*inner),
        Action::Replace { target } => declared_uses(*target),
        Action::Catch { action, .. } => declared_uses(*action),
        Action::Sequential { current, .. } => declared_uses(*current),
        Action::Idempotent { inner, .. } => declared_uses(*inner),
        Action::Pure(_) => Seq::empty(),
        Action::Alloc { .. } => Seq::empty(),
        Action::Sleep { .. } => Seq::empty(),
        Action::WatchSignal { .. } => Seq::empty(),
    }
}

/// The idempotency keys of a blueprint, as far as they are known before it runs.
pub open spec fn declared_keys<B: Host>(action: Action<B>) -> Set<Seq<char>>
    decreases action,
{
    match action {
        Action::Idempotent { key, inner, .. } => declared_keys(*inner).insert(key@),
        Action::Choose { then_branch, else_branch, .. } => declared_keys(*then_branch).union(
            declared_keys(*else_branch),
        ),
        Action::Fork { left, right, .. } => declared_keys(*left).union(declared_keys(*right)),
        Action::Timeout { action, on_timeout, .. } => declared_keys(*action).union(
            declared_keys(*on_timeout),
        ),
        Action::Scope { inner, .. } => declared_keys(*inner),
        Action::Replace { target } => declared_keys(*target),
        Action::Catch { action, .. } => declared_keys(*action),
        Action::Sequential { current, .. } => declared_keys(*current),
        _ => Set::empty(),
    }
}

/// Whether two branches get in each other's way: by their uses, or by a key that
/// both have, whose section would then run twice.
pub open spec fn conflicting<B: Host>(left: Action<B>, right: Action<B>) -> bool {
    ||| !crate::resource::sets_agree(declared_uses(left), declared_uses(right), false)
    ||| !declared_keys(left).disjoint(declared_keys(right))
}

/// Adds copies of uses.
fn add_uses(out: &mut ResourceSet, more: &ResourceSet)
    ensures
        final(out)@ == old(out)@ + more@,
{
    let mut i: usize = 0;
    assert(out@ =~= old(out)@ + more@.take(0));
    while i < more.len()
        invariant
            i <= more@.len(),
            out@ == old(out)@ + more@.take(i as int),
        decreases more@.len() - i,
    {
        let u = more[i].clone();
        out.push(u);
        assert(out@ =~= old(out)@ + more@.take(i + 1));
        i += 1;
    }
    assert(more@.take(i as int) =~= more@);
}

proof fn lemma_usages_concat(a: Seq<ResourceUsage>, b: Seq<ResourceUsage>)
    ensures
        crate::resource::usages(a + b) == crate::resource::usages(a) + crate::resource::usages(b),
{
    assert(crate::resource::usages(a + b) =~= crate::resource::usages(a) + crate::resource::usages(b));
}

/// Adds the uses that a blueprint declares.
pub fn collect_syscall_resources<B: Host>(action: &Action<B>, out: &mut ResourceSet)
    ensures
        crate::resource::usages(final(out)@) == crate::resource::usages(old(out)@)
            + declared_uses(*action),
    decreases action,
{
    match action {
        Action::Syscall { resources, .. } => {
            proof {
                lemma_usages_concat(out@, resources@);
            }
            add_uses(out, resources);
        },
        Action::Invoke { captures, .. } => {
            proof {
                lemma_usages_concat(out@, captures@);
            }
            add_uses(out, captures);
        },
        Action::Choose { then_branch, else_branch, .. } => {
            collect_syscall_resources(then_branch, out);
            collect_syscall_resources(else_branch, out);
        },
        Action::Fork { left, right, .. } => {
            collect_syscall_resources(left, out);
            collect_syscall_resources(right, out);
        },
        Action::Timeout { action, on_timeout, .. } => {
            collect_syscall_resources(action, out);
            collect_syscall_resources(on_timeout, out);
        },
        Action::Scope { inner, .. } => collect_syscall_resources(inner, out),
        Action::Replace { target } => collect_syscall_resources(target, out),
        Action::Catch { action, .. } => collect_syscall_resources(action, out),
        Action::Sequential { current, .. } => collect_syscall_resources(current, out),
        Action::Idempotent { inner, .. } => collect_syscall_resources(inner, out),
        Action::Pure(_)
        | Action::Alloc { .. }
        | Action::Sleep { .. }
        | Action::WatchSignal { .. } => {},
    }
    assert(crate::resource::usages(out@) =~= crate::resource::usages(old(out)@) + declared_uses(
        *action,
    ));
}

/// Adds the idempotency keys of a blueprint.
pub fn collect_idempotency_keys<B: Host>(action: &Action<B>, out: &mut Table<String, ()>)
    ensures
        final(out)@.dom() == old(out)@.dom().union(declared_keys(*action)),
    decreases action,
{
    match action {
        Action::Idempotent { key, inner, .. } => {
            out.insert(key.clone(), ());
            collect_idempotency_keys(inner, out);
        },
        Action::Choose { then_branch, else_branch, .. } => {
            collect_idempotency_keys(then_branch, out);
            collect_idempotency_keys(else_branch, out);
        },
        Action::Fork { left, right, .. } => {
            collect_idempotency_keys(left, out);
            collect_idempotency_keys(right, out);
        },
        Action::Timeout { action, on_timeout, .. } => {
            collect_idempotency_keys(action, out);
            collect_idempotency_keys(on_timeout, out);
        },
        Action::Scope { inner, .. } => collect_idempotency_keys(inner, out),
        Action::Replace { target } => collect_idempotency_keys(target, out),
        Action::Catch { action, .. } => collect_idempotency_keys(action, out),
        Action::Sequential { current, .. } => collect_idempotency_keys(current, out),
        Action::Pure(_)
        | Action::Syscall { .. }
        | Action::Invoke { .. }
        | Action::Alloc { .. }
        | Action::Sleep { .. }
        | Action::WatchSignal { .. } => {},
    }
    assert(out@.dom() =~= old(out)@.dom().union(declared_keys(*action)));
}

/// Whether two branches get in each other's way and have to run one after the
/// other.
pub fn fork_conflict<B: Host>(reg: &ResourceRegistry, left: &Action<B>, right: &Action<B>) -> (r:
    bool)
    ensures
        r == conflicting(*left, *right),
{
    let mut left_uses: ResourceSet = Vec::new();
    let mut right_uses: ResourceSet = Vec::new();
    collect_syscall_resources(left, &mut left_uses);
    collect_syscall_resources(right, &mut right_uses);
    assert(crate::resource::usages(left_uses@) =~= declared_uses(*left));
    assert(crate::resource::usages(right_uses@) =~= declared_uses(*right));
    if !reg.can_parallel(&left_uses, &right_uses) {
        return true;
    }
    let mut left_keys: Table<String, ()> = Table::new();
    let mut right_keys: Table<String, ()> = Table::new();
    collect_idempotency_keys(left, &mut left_keys);
    collect_idempotency_keys(right, &mut right_keys);
    assert(left_keys@.dom() =~= declared_keys(*left));
    assert(right_keys@.dom() =~= declared_keys(*right));
    !left_keys.disjoint(&right_keys)
}

/// How many regions of numbers there are.
pub const FORK_REGIONS: u64 = 0x1_0000;

/// How many numbers a region has.
pub const FORK_REGION_SIZE: u64 = 0x1_0000_0000_0000;

/// How far a region is above the number that regions are counted from.
pub open spec fn region_offset(k: u64) -> Result<u64, SysError> {
    if k >= FORK_REGIONS {
        Err(SysError::Other(28))
    } else {
        Ok((k * FORK_REGION_SIZE) as u64)
    }
}

/// How far the `k`-th region is above the number that regions are counted from.
/// Once the regions are used up, that is an error.
pub fn fork_region_offset_for(k: u64) -> (r: Result<u64, SysError>)
    ensures
        r == region_offset(k),
{
    if k >= FORK_REGIONS {
        return Err(SysError::Other(28));
    }
    assert(k < 0x1_0000 ==> k * 0x1_0000_0000_0000 <= 0xffff_ffff_ffff_ffff) by (nonlinear_arith);
    Ok(k * FORK_REGION_SIZE)
}

/// The offset of the region that a counter comes to next. Other threads may count
/// on, so which one that is depends on them.
pub fn fork_fd_region_offset(seq: &AtomicU64) -> (r: Result<u64, SysError>)
    ensures
        exists|k: u64| r == #[trigger] region_offset(k),
{
    let k = seq.fetch_add(1, Ordering::Relaxed);
    fork_region_offset_for(k)
}

/// Regions do not overlap: two different regions, counted from one number, have
/// no number in common, and neither has one in common with the numbers below
/// the first region.
pub proof fn law_regions_are_disjoint(j: u64, k: u64, x: int, y: int)
    requires
        0 < j < k < FORK_REGIONS,
        0 <= x < FORK_REGION_SIZE,
        0 <= y < FORK_REGION_SIZE,
    ensures
        region_offset(j) matches Ok(a) && region_offset(k) matches Ok(b) && x < a && a + x < b
            && a + x < b + y && b + y <= u64::MAX,
{
    assert(j * 0x1_0000_0000_0000 + 0x1_0000_0000_0000 <= k * 0x1_0000_0000_0000 && k
        * 0x1_0000_0000_0000 + 0x1_0000_0000_0000 <= 0x1_0000_0000_0000_0000 && j
        * 0x1_0000_0000_0000 >= 0x1_0000_0000_0000) by (nonlinear_arith)
        requires
            0 < j < k < 0x1_0000,
    ;
}

/// Which branches get in each other's way does not depend on which is left.
pub proof fn law_conflict_is_symmetric<B: Host>(left: Action<B>, right: Action<B>)
    ensures
        conflicting(left, right) == conflicting(right, left),
{
    let a = declared_uses(left);
    let b = declared_uses(right);
    assert(crate::resource::sets_agree(a, b, false) == crate::resource::sets_agree(b, a, false)) by {
        crate::resource::law_agreement_is_symmetric(a, b, false);
    }
    assert(declared_keys(left).disjoint(declared_keys(right)) == declared_keys(right).disjoint(
        declared_keys(left),
    ));
}

/// Whether a blueprint stands directly inside another.
pub open spec fn is_child<B: Host>(part: Action<B>, whole: Action<B>) -> bool {
    match whole {
        Action::Sequential { current, .. } => part == *current,
        Action::Scope { inner, .. } => part == *inner,
        Action::Idempotent { inner, .. } => part == *inner,
        Action::Catch { action, .. } => part == *action,
        Action::Replace { target } => part == *target,
        Action::Choose { then_branch, else_branch, .. } => part == *then_branch || part
            == *else_branch,
        Action::Fork { left, right, .. } => part == *left || part == *right,
        Action::Timeout { action, on_timeout, .. } => part == *action || part == *on_timeout,
        _ => false,
    }
}

/// Whether this is a way from a blueprint down to a part of it.
pub open spec fn is_way_down<B: Host>(
    way: Seq<Action<B>>,
    part: Action<B>,
    whole: Action<B>,
) -> bool {
    &&& way.len() > 0
    &&& way.first() == whole
    &&& way.last() == part
    &&& forall|i: int| 0 < i < way.len() ==> is_child(#[trigger] way[i], way[i - 1])
}

/// Whether a blueprint stands somewhere inside another, or is the other.
pub open spec fn is_part<B: Host>(part: Action<B>, whole: Action<B>) -> bool {
    exists|way: Seq<Action<B>>| is_way_down(way, part, whole)
}

/// The uses that a node itself declares.
pub open spec fn has_use<B: Host>(node: Action<B>, u: UsageView) -> bool {
    match node {
        Action::Syscall { resources, .. } => exists|i: int|
            0 <= i < resources@.len() && (#[trigger] resources@[i])@ == u,
        Action::Invoke { captures, .. } => exists|i: int|
            0 <= i < captures@.len() && (#[trigger] captures@[i])@ == u,
        _ => false,
    }
}

/// Whether a node is a keyed section with this key.
pub open spec fn has_key<B: Host>(node: Action<B>, key: Seq<char>) -> bool {
    node matches Action::Idempotent { key: k, .. } && k@ == key
}

proof fn lemma_concat_contains(a: Seq<UsageView>, b: Seq<UsageView>, u: UsageView)
    ensures
        (a + b).contains(u) <==> a.contains(u) || b.contains(u),
{
    if a.contains(u) {
        let i = choose|i: int| 0 <= i < a.len() && a[i] == u;
        assert((a + b)[i] == u);
    }
    if b.contains(u) {
        let i = choose|i: int| 0 <= i < b.len() && b[i] == u;
        assert((a + b)[a.len() + i] == u);
    }
}

proof fn lemma_own_uses(us: Seq<ResourceUsage>, u: UsageView)
    ensures
        crate::resource::usages(us).contains(u) <==> exists|i: int|
            0 <= i < us.len() && (#[trigger] us[i])@ == u,
{
    let vs = crate::resource::usages(us);
    if vs.contains(u) {
        let i = choose|i: int| 0 <= i < vs.len() && vs[i] == u;
        assert(us[i]@ == u);
    }
    if exists|i: int| 0 <= i < us.len() && (#[trigger] us[i])@ == u {
        let i = choose|i: int| 0 <= i < us.len() && (#[trigger] us[i])@ == u;
        assert(vs[i] == u);
    }
}

/// What is inside something inside a blueprint is inside the blueprint.
proof fn lemma_part_of_child<B: Host>(part: Action<B>, child: Action<B>, whole: Action<B>)
    requires
        is_child(child, whole),
        is_part(part, child),
    ensures
        is_part(part, whole),
{
    let way = choose|way: Seq<Action<B>>| is_way_down(way, part, child);
    let longer = seq![whole] + way;
    assert forall|i: int| 0 < i < longer.len() implies is_child(
        #[trigger] longer[i],
        longer[i - 1],
    ) by {
        if i > 1 {
            assert(is_child(way[i - 1], way[i - 2]));
        }
    }
    assert(is_way_down(longer, part, whole));
}

proof fn lemma_part_of_itself<B: Host>(whole: Action<B>)
    ensures
        is_part(whole, whole),
{
    assert(is_way_down(seq![whole], whole, whole));
}

/// A part of a blueprint is the blueprint, or a part of something directly inside.
proof fn lemma_first_step_down<B: Host>(way: Seq<Action<B>>, part: Action<B>, whole: Action<B>)
    requires
        is_way_down(way, part, whole),
        way.len() > 1,
    ensures
        is_child(way[1], whole),
        is_way_down(way.drop_first(), part, way[1]),
{
    let rest = way.drop_first();
    assert(is_child(way[1], way[0]));
    assert forall|i: int| 0 < i < rest.len() implies is_child(#[trigger] rest[i], rest[i - 1]) by {
        assert(is_child(way[i + 1], way[i]));
    }
}

/// A blueprint declares the uses of the operations and foreign calls that stand
/// anywhere inside it, and no others.
pub proof fn law_uses_of_all_parts_are_declared<B: Host>(whole: Action<B>, u: UsageView)
    ensures
        declared_uses(whole).contains(u) <==> exists|part: Action<B>| #[trigger]
            is_part(part, whole) && has_use(part, u),
{
    if declared_uses(whole).contains(u) {
        lemma_declared_by_a_part(whole, u);
    }
    if exists|part: Action<B>| #[trigger] is_part(part, whole) && has_use(part, u) {
        let part = choose|part: Action<B>| #[trigger] is_part(part, whole) && has_use(part, u);
        let way = choose|way: Seq<Action<B>>| is_way_down(way, part, whole);
        lemma_part_declares(way, part, whole, u);
    }
}

proof fn lemma_part_declares<B: Host>(
    way: Seq<Action<B>>,
    part: Action<B>,
    whole: Action<B>,
    u: UsageView,
)
    requires
        is_way_down(way, part, whole),
        has_use(part, u),
    ensures
        declared_uses(whole).contains(u),
    decreases way.len(),
{
    if way.len() == 1 {
        match whole {
            Action::Syscall { resources, .. } => {
                lemma_own_uses(resources@, u);
            },
            Action::Invoke { captures, .. } => {
                lemma_own_uses(captures@, u);
            },
            _ => {},
        }
    } else {
        let child = way[1];
        lemma_first_step_down(way, part, whole);
        lemma_part_declares(way.drop_first(), part, child, u);
        match whole {
            Action::Choose { then_branch, else_branch, .. } => {
                lemma_concat_contains(declared_uses(*then_branch), declared_uses(*else_branch), u);
            },
            Action::Fork { left, right, .. } => {
                lemma_concat_contains(declared_uses(*left), declared_uses(*right), u);
            },
            Action::Timeout { action, on_timeout, .. } => {
                lemma_concat_contains(declared_uses(*action), declared_uses(*on_timeout), u);
            },
            _ => {},
        }
    }
}

proof fn lemma_declared_by_a_part<B: Host>(whole: Action<B>, u: UsageView)
    requires
        declared_uses(whole).contains(u),
    ensures
        exists|part: Action<B>| #[trigger] is_part(part, whole) && has_use(part, u),
    decreases whole, 0int,
{
    lemma_part_of_itself(whole);
    match whole {
        Action::Syscall { resources, .. } => {
            lemma_own_uses(resources@, u);
        },
        Action::Invoke { captures, .. } => {
            lemma_own_uses(captures@, u);
        },
        Action::Choose { then_branch, else_branch, .. } => {
            lemma_concat_contains(declared_uses(*then_branch), declared_uses(*else_branch), u);
            if declared_uses(*then_branch).contains(u) {
                lemma_declared_by_child(*then_branch, whole, u);
            } else {
                lemma_declared_by_child(*else_branch, whole, u);
            }
        },
        Action::Fork { left, right, .. } => {
            lemma_concat_contains(declared_uses(*left), declared_uses(*right), u);
            if declared_uses(*left).contains(u) {
                lemma_declared_by_child(*left, whole, u);
            } else {
                lemma_declared_by_child(*right, whole, u);
            }
        },
        Action::Timeout { action, on_timeout, .. } => {
            lemma_concat_contains(declared_uses(*action), declared_uses(*on_timeout), u);
            if declared_uses(*action).contains(u) {
                lemma_declared_by_child(*action, whole, u);
            } else {
                lemma_declared_by_child(*on_timeout, whole, u);
            }
        },
        Action::Scope { inner, .. } => {
            lemma_declared_by_child(*inner, whole, u);
        },
        Action::Replace { target } => {
            lemma_declared_by_child(*target, whole, u);
        },
        Action::Catch { action, .. } => {
            lemma_declared_by_child(*action, whole, u);
        },
        Action::Sequential { current, .. } => {
            lemma_declared_by_child(*current, whole, u);
        },
        Action::Idempotent { inner, .. } => {
            lemma_declared_by_child(*inner, whole, u);
        },
        _ => {},
    }
}

proof fn lemma_declared_by_child<B: Host>(child: Action<B>, whole: Action<B>, u: UsageView)
    requires
        is_child(child, whole),
        declared_uses(child).contains(u),
        decreases_to!(whole => child),
    ensures
        exists|part: Action<B>| #[trigger] is_part(part, whole) && has_use(part, u),
    decreases child, 1int,
{
    lemma_declared_by_a_part(child, u);
    let part = choose|part: Action<B>| #[trigger] is_part(part, child) && has_use(part, u);
    lemma_part_of_child(part, child, whole);
}

/// A blueprint declares the keys of the keyed sections that stand anywhere inside it,
/// and no others.
pub proof fn law_keys_of_all_parts_are_declared<B: Host>(whole: Action<B>, key: Seq<char>)
    ensures
        declared_keys(whole).contains(key) <==> exists|part: Action<B>| #[trigger]
            is_part(part, whole) && has_key(part, key),
{
    if declared_keys(whole).contains(key) {
        lemma_key_of_a_part(whole, key);
    }
    if exists|part: Action<B>| #[trigger] is_part(part, whole) && has_key(part, key) {
        let part = choose|part: Action<B>| #[trigger] is_part(part, whole) && has_key(part, key);
        let way = choose|way: Seq<Action<B>>| is_way_down(way, part, whole);
        lemma_part_has_key(way, part, whole, key);
    }
}

proof fn lemma_part_has_key<B: Host>(
    way: Seq<Action<B>>,
    part: Action<B>,
    whole: Action<B>,
    key: Seq<char>,
)
    requires
        is_way_down(way, part, whole),
        has_key(part, key),
    ensures
        declared_keys(whole).contains(key),
    decreases way.len(),
{
    if way.len() > 1 {
        lemma_first_step_down(way, part, whole);
        lemma_part_has_key(way.drop_first(), part, way[1], key);
    }
}

proof fn lemma_key_of_a_part<B: Host>(whole: Action<B>, key: Seq<char>)
    requires
        declared_keys(whole).contains(key),
    ensures
        exists|part: Action<B>| #[trigger] is_part(part, whole) && has_key(part, key),
    decreases whole, 0int,
{
    lemma_part_of_itself(whole);
    match whole {
        Action::Idempotent { key: k, inner, .. } => {
            if k@ != key {
                lemma_key_of_child(*inner, whole, key);
            }
        },
        Action::Choose { then_branch, else_branch, .. } => {
            if declared_keys(*then_branch).contains(key) {
                lemma_key_of_child(*then_branch, whole, key);
            } else {
                lemma_key_of_child(*else_branch, whole, key);
            }
        },
        Action::Fork { left, right, .. } => {
            if declared_keys(*left).contains(key) {
                lemma_key_of_child(*left, whole, key);
            } else {
                lemma_key_of_child(*right, whole, key);
            }
        },
        Action::Timeout { action, on_timeout, .. } => {
            if declared_keys(*action).contains(key) {
                lemma_key_of_child(*action, whole, key);
            } else {
                lemma_key_of_child(*on_timeout, whole, key);
            }
        },
        Action::Scope { inner, .. } => {
            lemma_key_of_child(*inner, whole, key);
        },
        Action::Replace { target } => {
            lemma_key_of_child(*target, whole, key);
        },
        Action::Catch { action, .. } => {
            lemma_key_of_child(*action, whole, key);
        },
        Action::Sequential { current, .. } => {
            lemma_key_of_child(*current, whole, key);
        },
        _ => {},
    }
}

proof fn lemma_key_of_child<B: Host>(child: Action<B>, whole: Action<B>, key: Seq<char>)
    requires
        is_child(child, whole),
        declared_keys(child).contains(key),
        decreases_to!(whole => child),
    ensures
        exists|part: Action<B>| #[trigger] is_part(part, whole) && has_key(part, key),
    decreases child, 1int,
{
    lemma_key_of_a_part(child, key);
    let part = choose|part: Action<B>| #[trigger] is_part(part, child) && has_key(part, key);
    lemma_part_of_child(part, child, whole);
}

/// Whether two nodes, one in each branch, get in each other's way: one of them uses a
/// resource that the other uses too, and not both read it, or they are keyed sections
/// with one key.
pub open spec fn parts_clash<B: Host>(a: Action<B>, b: Action<B>) -> bool {
    ||| exists|u: UsageView, v: UsageView| #[trigger]
        has_use(a, u) && #[trigger] has_use(b, v) && u.resource == v.resource && !(u.mode is Read
            && v.mode is Read)
    ||| exists|key: Seq<char>| #[trigger] has_key(a, key) && has_key(b, key)
}

/// Branches get in each other's way exactly if some node of the one and some node of
/// the other do, however deep inside they stand.
pub proof fn law_conflict_of_parts<B: Host>(left: Action<B>, right: Action<B>)
    ensures
        conflicting(left, right) <==> exists|a: Action<B>, b: Action<B>| #[trigger]
            is_part(a, left) && #[trigger] is_part(b, right) && parts_clash(a, b),
{
    let us = declared_uses(left);
    let vs = declared_uses(right);
    if exists|a: Action<B>, b: Action<B>| #[trigger]
        is_part(a, left) && #[trigger] is_part(b, right) && parts_clash(a, b) {
        let (a, b) = choose|a: Action<B>, b: Action<B>| #[trigger]
            is_part(a, left) && #[trigger] is_part(b, right) && parts_clash(a, b);
        if exists|key: Seq<char>| #[trigger] has_key(a, key) && has_key(b, key) {
            let key = choose|key: Seq<char>| #[trigger] has_key(a, key) && has_key(b, key);
            law_keys_of_all_parts_are_declared(left, key);
            law_keys_of_all_parts_are_declared(right, key);
            assert(!declared_keys(left).disjoint(declared_keys(right)));
        } else {
            let (u, v) = choose|u: UsageView, v: UsageView| #[trigger]
                has_use(a, u) && #[trigger] has_use(b, v) && u.resource == v.resource && !(
                u.mode is Read && v.mode is Read);
            law_uses_of_all_parts_are_declared(left, u);
            law_uses_of_all_parts_are_declared(right, v);
            let i = choose|i: int| 0 <= i < us.len() && us[i] == u;
            let j = choose|j: int| 0 <= j < vs.len() && vs[j] == v;
            assert(!crate::resource::uses_agree(us[i], vs[j], false));
        }
    }
    if conflicting(left, right) {
        if !declared_keys(left).disjoint(declared_keys(right)) {
            let key = choose|key: Seq<char>|
                declared_keys(left).contains(key) && declared_keys(right).contains(key);
            law_keys_of_all_parts_are_declared(left, key);
            law_keys_of_all_parts_are_declared(right, key);
            let a = choose|a: Action<B>| #[trigger] is_part(a, left) && has_key(a, key);
            let b = choose|b: Action<B>| #[trigger] is_part(b, right) && has_key(b, key);
            assert(parts_clash(a, b));
        } else {
            let (i, j) = choose|i: int, j: int|
                0 <= i < us.len() && 0 <= j < vs.len() && !crate::resource::uses_agree(
                    #[trigger] us[i],
                    #[trigger] vs[j],
                    false,
                );
            assert(us.contains(us[i]));
            assert(vs.contains(vs[j]));
            law_uses_of_all_parts_are_declared(left, us[i]);
            law_uses_of_all_parts_are_declared(right, vs[j]);
            let a = choose|a: Action<B>| #[trigger] is_part(a, left) && has_use(a, us[i]);
            let b = choose|b: Action<B>| #[trigger] is_part(b, right) && has_use(b, vs[j]);
            assert(has_use(a, us[i]) && has_use(b, vs[j]));
            assert(parts_clash(a, b));
        }
    }
}

/// There are 65536 regions of 2^48 numbers each.
pub proof fn law_region_offsets(k: u64)
    ensures
        k < 65_536 ==> region_offset(k) is Ok && region_offset(k)->Ok_0 == k
            * 281_474_976_710_656,
        k >= 65_536 ==> region_offset(k) == Err::<u64, SysError>(SysError::Other(28)),
{
    if k < 65_536 {
        assert(k * 281_474_976_710_656 <= u64::MAX);
    }
}

} // verus!
