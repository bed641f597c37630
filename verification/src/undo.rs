//! The undo stack: inverse operations in the order in which they were earned.

use vstd::prelude::*;

use crate::cost::EffectCost;
use crate::error::SysError;

verus! {

/// One step back.
pub enum UndoEntry<U> {
    /// An inverse operation that the executor handed out.
    Op(U),
    /// A keyed section's effects are gone once everything above is undone.
    RevertKey(String),
}

/// What an [`UndoEntry`] holds.
#[verifier::ext_equal]
pub enum EntryView<U> {
    Op(U),
    RevertKey(Seq<char>),
}

impl<U> View for UndoEntry<U> {
    type V = EntryView<U>;

    open spec fn view(&self) -> EntryView<U> {
        match *self {
            UndoEntry::Op(op) => EntryView::Op(op),
            UndoEntry::RevertKey(key) => EntryView::RevertKey(key@),
        }
    }
}

/// What has to be undone, whether something cannot be, what it all cost, and how
/// many replacements there were.
pub struct UndoStack<U> {
    ops: Vec<UndoEntry<U>>,
    irreversible: bool,
    accrued: EffectCost,
    replacements: u64,
}

/// What an [`UndoStack`] holds; the last entry is undone first.
#[verifier::reject_recursive_types(U)]
#[verifier::ext_equal]
pub struct UndoView<U> {
    pub ops: Seq<EntryView<U>>,
    pub irreversible: bool,
    pub accrued: EffectCost,
    pub replacements: u64,
}

impl<U> View for UndoStack<U> {
    type V = UndoView<U>;

    closed spec fn view(&self) -> UndoView<U> {
        UndoView {
            ops: self.ops@.map_values(|e: UndoEntry<U>| e@),
            irreversible: self.irreversible,
            accrued: self.accrued,
            replacements: self.replacements,
        }
    }
}

/// The sum of two counts, which start over where they do not fit.
pub open spec fn count_sum(a: u64, b: u64) -> u64 {
    if a + b > u64::MAX {
        (a + b - u64::MAX - 1) as u64
    } else {
        (a + b) as u64
    }
}

/// A stack that nothing has happened to.
pub open spec fn fresh_undo<U>() -> UndoView<U> {
    UndoView {
        ops: Seq::empty(),
        irreversible: false,
        accrued: crate::cost::no_cost(),
        replacements: 0,
    }
}

/// A stack with one more entry.
pub open spec fn with_entry<U>(u: UndoView<U>, e: EntryView<U>) -> UndoView<U> {
    UndoView { ops: u.ops.push(e), ..u }
}

/// A stack without its last entry, unless no more than `mark` are left.
pub open spec fn without_entry<U>(u: UndoView<U>, mark: nat) -> UndoView<U> {
    if u.ops.len() > mark {
        UndoView { ops: u.ops.drop_last(), ..u }
    } else {
        u
    }
}

/// A stack on which one more effect is accounted for.
pub open spec fn with_cost<U>(u: UndoView<U>, cost: EffectCost) -> UndoView<U> {
    UndoView { accrued: crate::cost::cost_sum(u.accrued, cost), ..u }
}

/// A stack that says whether something happened that cannot be undone.
pub open spec fn with_mark<U>(u: UndoView<U>, irreversible: bool) -> UndoView<U> {
    UndoView { irreversible, ..u }
}

/// A stack with another one on top.
pub open spec fn stacked<U>(a: UndoView<U>, b: UndoView<U>) -> UndoView<U> {
    UndoView {
        ops: a.ops + b.ops,
        irreversible: a.irreversible || b.irreversible,
        accrued: crate::cost::cost_sum(a.accrued, b.accrued),
        replacements: count_sum(a.replacements, b.replacements),
    }
}

/// A stack with which one more replacement has begun.
pub open spec fn replacing<U>(u: UndoView<U>) -> UndoView<U> {
    UndoView { replacements: count_sum(u.replacements, 1), ..u }
}

impl<U> Default for UndoStack<U> {
    fn default() -> (r: Self)
        ensures
            r@ == fresh_undo::<U>(),
    {
        UndoStack::new()
    }
}

impl<U> UndoStack<U> {
    /// An empty stack.
    pub fn new() -> (r: Self)
        ensures
            r@ == fresh_undo::<U>(),
    {
        let r = UndoStack {
            ops: Vec::new(),
            irreversible: false,
            accrued: EffectCost::zero(),
            replacements: 0,
        };
        assert(r@ =~= fresh_undo::<U>());
        r
    }

    /// Adds an inverse operation.
    pub fn push(&mut self, op: U)
        ensures
            final(self)@ == with_entry(old(self)@, EntryView::Op(op)),
    {
        self.ops.push(UndoEntry::Op(op));
        assert(self@.ops =~= old(self)@.ops.push(EntryView::Op(op)));
    }

    /// Adds that a keyed section's effects end here.
    pub fn push_revert(&mut self, key: String)
        ensures
            final(self)@ == with_entry(old(self)@, EntryView::RevertKey(key@)),
    {
        self.ops.push(UndoEntry::RevertKey(key));
        assert(self@.ops =~= old(self)@.ops.push(EntryView::RevertKey(key@)));
    }

    /// Whether there is nothing to undo.
    pub fn is_empty(&self) -> (r: bool)
        ensures
            r == (self@.ops.len() == 0),
    {
        self.ops.len() == 0
    }

    /// How much there is to undo.
    pub fn len(&self) -> (n: usize)
        ensures
            n == self@.ops.len(),
    {
        self.ops.len()
    }

    /// Accounts for an effect that happened.
    pub fn add_cost(&mut self, cost: EffectCost)
        ensures
            final(self)@ == with_cost(old(self)@, cost),
    {
        self.accrued = self.accrued.plus(&cost);
    }

    /// What all effects so far cost.
    pub fn accrued_cost(&self) -> (r: EffectCost)
        ensures
            r == self@.accrued,
    {
        self.accrued
    }

    /// Records that something happened that cannot be undone.
    pub fn mark_irreversible(&mut self)
        ensures
            final(self)@ == with_mark(old(self)@, true),
    {
        self.irreversible = true;
    }

    /// Whether something happened that cannot be undone.
    pub fn has_irreversible(&self) -> (r: bool)
        ensures
            r == self@.irreversible,
    {
        self.irreversible
    }

    /// Starts a section in which nothing has happened yet.
    pub fn reset_irreversible(&mut self)
        ensures
            final(self)@ == with_mark(old(self)@, false),
    {
        self.irreversible = false;
    }

    /// Records that a replacement begins.
    pub fn count_replacement(&mut self)
        ensures
            final(self)@ == replacing(old(self)@),
    {
        self.replacements = self.replacements.wrapping_add(1);
    }

    /// How many replacements there were.
    pub fn replacements(&self) -> (n: u64)
        ensures
            n == self@.replacements,
    {
        self.replacements
    }

    /// Puts another stack on top of this one.
    pub fn append(&mut self, other: UndoStack<U>)
        ensures
            final(self)@ == stacked(old(self)@, other@),
    {
        let ghost other_view = other@;
        let mut other = other;
        self.irreversible = self.irreversible || other.irreversible;
        self.accrued = self.accrued.plus(&other.accrued);
        self.replacements = self.replacements.wrapping_add(other.replacements);
        self.ops.append(&mut other.ops);
        assert(self@ =~= stacked(old(self)@, other_view));
    }

    /// Takes the last entry off, unless no more than `mark` are left.
    pub fn pop_above(&mut self, mark: usize) -> (r: Option<UndoEntry<U>>)
        ensures
            final(self)@ == without_entry(old(self)@, mark as nat),
            old(self)@.ops.len() <= mark ==> r is None,
            old(self)@.ops.len() > mark ==> r is Some && r->0@ == old(self)@.ops.last(),
    {
        if self.ops.len() > mark {
            let r = self.ops.pop();
            assert(self@.ops =~= old(self)@.ops.drop_last());
            r
        } else {
            None
        }
    }

    /// Starts to undo everything.
    pub fn recover(&self) -> (r: Rollback)
        ensures
            r.mark() == 0,
            r.error() is None,
    {
        Rollback { mark: 0, first_err: None }
    }

    /// Starts to undo everything above `mark`.
    pub fn rollback_from(&self, mark: usize) -> (r: Rollback)
        ensures
            r.mark() == mark,
            r.error() is None,
    {
        Rollback { mark, first_err: None }
    }
}

/// An undoing that is under way. Every entry is undone, in reverse order, even
/// after one has failed; the first failure is what is reported.
#[derive(Debug, Clone, Copy)]
pub struct Rollback {
    mark: usize,
    first_err: Option<SysError>,
}

/// The first failure, given the one before and the next outcome.
pub open spec fn first_failure(before: Option<SysError>, r: Result<(), SysError>) -> Option<
    SysError,
> {
    match (before, r) {
        (Some(e), _) => Some(e),
        (None, Err(e)) => Some(e),
        (None, Ok(())) => None,
    }
}

impl Rollback {
    /// How many entries stay.
    pub closed spec fn mark(self) -> nat {
        self.mark as nat
    }

    /// The first failure so far.
    pub closed spec fn error(self) -> Option<SysError> {
        self.first_err
    }

    /// The next entry to undo, which is taken off the stack.
    pub fn next<U>(&self, undo: &mut UndoStack<U>) -> (r: Option<UndoEntry<U>>)
        ensures
            final(undo)@ == without_entry(old(undo)@, self.mark()),
            old(undo)@.ops.len() <= self.mark() ==> r is None,
            old(undo)@.ops.len() > self.mark() ==> r is Some && r->0@ == old(undo)@.ops.last(),
    {
        undo.pop_above(self.mark)
    }

    /// Takes note of how undoing an entry went.
    pub fn note(&mut self, r: Result<(), SysError>)
        ensures
            final(self).mark() == old(self).mark(),
            final(self).error() == first_failure(old(self).error(), r),
    {
        if self.first_err.is_none() {
            if let Err(e) = r {
                self.first_err = Some(e);
            }
        }
    }

    /// How undoing went as a whole. If nothing failed, a new section starts.
    pub fn end_section<U>(self, undo: &mut UndoStack<U>) -> (r: Result<(), SysError>)
        ensures
            match self.error() {
                Some(e) => r == Err::<(), SysError>(e) && final(undo)@ == old(undo)@,
                None => r == Ok::<(), SysError>(()) && final(undo)@ == with_mark(
                    old(undo)@,
                    false,
                ),
            },
    {
        let r = self.finish();
        if r.is_ok() {
            undo.reset_irreversible();
        }
        r
    }

    /// How undoing went as a whole.
    pub fn finish(self) -> (r: Result<(), SysError>)
        ensures
            match self.error() {
                Some(e) => r == Err::<(), SysError>(e),
                None => r == Ok::<(), SysError>(()),
            },
    {
        match self.first_err {
            Some(e) => Err(e),
            None => Ok(()),
        }
    }
}

/// The entries in the order in which an undoing down to `mark` takes them off.
pub open spec fn undo_order<U>(ops: Seq<EntryView<U>>, mark: nat) -> Seq<EntryView<U>>
    decreases ops.len(),
{
    if ops.len() <= mark {
        Seq::empty()
    } else {
        seq![ops.last()] + undo_order(ops.drop_last(), mark)
    }
}

/// The outcome of an undoing whose entries went like this, in this order.
pub open spec fn undo_outcome(before: Option<SysError>, rs: Seq<Result<(), SysError>>) -> Option<
    SysError,
>
    decreases rs.len(),
{
    if rs.len() == 0 {
        before
    } else {
        first_failure(undo_outcome(before, rs.drop_last()), rs.last())
    }
}

/// Undoing runs backwards through what is above the mark.
pub proof fn law_undo_is_lifo<U>(ops: Seq<EntryView<U>>, mark: nat)
    requires
        mark <= ops.len(),
    ensures
        undo_order(ops, mark) == ops.subrange(mark as int, ops.len() as int).reverse(),
    decreases ops.len(),
{
    let tail = ops.subrange(mark as int, ops.len() as int);
    if ops.len() > mark {
        law_undo_is_lifo(ops.drop_last(), mark);
        let shorter = ops.drop_last().subrange(mark as int, ops.len() - 1);
        assert(tail.drop_last() =~= shorter);
        assert(tail.reverse() =~= seq![ops.last()] + shorter.reverse());
    } else {
        assert(tail.reverse() =~= Seq::empty());
    }
}

/// Undoing one section after another undoes the later one first.
pub proof fn law_undo_reverses_sections<U>(a: Seq<EntryView<U>>, b: Seq<EntryView<U>>)
    ensures
        undo_order(a + b, 0) == undo_order(b, 0) + undo_order(a, 0),
{
    law_undo_is_lifo(a + b, 0);
    law_undo_is_lifo(a, 0);
    law_undo_is_lifo(b, 0);
    assert(a.subrange(0, a.len() as int) =~= a);
    assert(b.subrange(0, b.len() as int) =~= b);
    assert((a + b).subrange(0, (a + b).len() as int) =~= a + b);
    assert((a + b).reverse() =~= b.reverse() + a.reverse());
}

/// An undoing reports the first failure, and success exactly if nothing failed.
pub proof fn law_first_failure_is_reported(rs: Seq<Result<(), SysError>>)
    ensures
        undo_outcome(None, rs) is None <==> forall|i: int| 0 <= i < rs.len() ==> #[trigger] rs[i] is Ok,
        undo_outcome(None, rs) matches Some(e) ==> exists|i: int|
            0 <= i < rs.len() && #[trigger] rs[i] == Err::<(), SysError>(e) && forall|j: int|
                0 <= j < i ==> #[trigger] rs[j] is Ok,
    decreases rs.len(),
{
    if rs.len() > 0 {
        let rest = rs.drop_last();
        law_first_failure_is_reported(rest);
        assert(forall|j: int| 0 <= j < rest.len() ==> rest[j] == rs[j]);
        assert(rs.last() == rs[rs.len() - 1]);
        if undo_outcome(None, rest) is Some {
            let e = undo_outcome(None, rest)->0;
            let i = choose|i: int|
                0 <= i < rest.len() && #[trigger] rest[i] == Err::<(), SysError>(e) && forall|j: int|
                    0 <= j < i ==> #[trigger] rest[j] is Ok;
            assert(rs[i] == Err::<(), SysError>(e));
            assert(forall|j: int| 0 <= j < i ==> #[trigger] rs[j] == rest[j]);
        } else {
            assert(forall|j: int| 0 <= j < rest.len() ==> rest[j] is Ok);
        }
    }
}

/// Something that happens to a stack. An undoing takes entries off one by one; one
/// that ends a section without a failure then resets the mark.
#[verifier::reject_recursive_types(U)]
pub enum StackChange<U> {
    Push(EntryView<U>),
    TakeOff(nat),
    AddCost(EffectCost),
    MarkIrreversible,
    ResetIrreversible,
    Append(UndoView<U>),
    Replace,
}

/// The stack once something has happened to it.
pub open spec fn stack_changed<U>(u: UndoView<U>, c: StackChange<U>) -> UndoView<U> {
    match c {
        StackChange::Push(e) => with_entry(u, e),
        StackChange::TakeOff(mark) => without_entry(u, mark),
        StackChange::AddCost(cost) => with_cost(u, cost),
        StackChange::MarkIrreversible => with_mark(u, true),
        StackChange::ResetIrreversible => with_mark(u, false),
        StackChange::Append(other) => stacked(u, other),
        StackChange::Replace => replacing(u),
    }
}

/// The stack once these things have happened to it, one after the other.
pub open spec fn stack_changed_all<U>(u: UndoView<U>, cs: Seq<StackChange<U>>) -> UndoView<U>
    decreases cs.len(),
{
    if cs.len() == 0 {
        u
    } else {
        stack_changed(stack_changed_all(u, cs.drop_last()), cs.last())
    }
}

/// The costs that are added on the way, that of an appended stack as one.
pub open spec fn costs_added<U>(cs: Seq<StackChange<U>>) -> Seq<EffectCost>
    decreases cs.len(),
{
    if cs.len() == 0 {
        Seq::empty()
    } else {
        let before = costs_added(cs.drop_last());
        match cs.last() {
            StackChange::AddCost(cost) => before.push(cost),
            StackChange::Append(other) => before.push(other.accrued),
            _ => before,
        }
    }
}

/// The sum of costs, one after the other.
pub open spec fn total_cost(costs: Seq<EffectCost>) -> EffectCost {
    costs.fold_left(
        crate::cost::no_cost(),
        |sum: EffectCost, cost: EffectCost| crate::cost::cost_sum(sum, cost),
    )
}

/// Whether this sets the mark of what is irreversible.
pub open spec fn sets_mark<U>(c: StackChange<U>) -> bool {
    c is MarkIrreversible || (c matches StackChange::Append(other) && other.irreversible)
}

/// What a stack has accrued is what it had and the sum of all costs added since,
/// whatever else happens to it: nothing is left out, and undoing takes nothing
/// back. Of a new stack it is the sum alone.
pub proof fn law_accrued_is_the_sum_of_costs<U>(u: UndoView<U>, cs: Seq<StackChange<U>>)
    ensures
        stack_changed_all(u, cs).accrued == crate::cost::cost_sum(
            u.accrued,
            total_cost(costs_added(cs)),
        ),
        stack_changed_all(fresh_undo::<U>(), cs).accrued == total_cost(costs_added(cs)),
    decreases cs.len(),
{
    let none = crate::cost::no_cost();
    if cs.len() == 0 {
        crate::cost::law_cost_sum_monoid(u.accrued, none, none);
    } else {
        let before = costs_added(cs.drop_last());
        law_accrued_is_the_sum_of_costs(u, cs.drop_last());
        if costs_added(cs).len() > before.len() {
            let cost = costs_added(cs).last();
            assert(costs_added(cs).drop_last() =~= before);
            crate::cost::law_cost_sum_monoid(u.accrued, total_cost(before), cost);
        }
    }
    crate::cost::law_cost_sum_monoid(total_cost(costs_added(cs)), none, none);
}

/// In which order costs are added does not matter, nor what else happens.
pub proof fn law_accrued_in_any_order<U>(
    u: UndoView<U>,
    cs: Seq<StackChange<U>>,
    ds: Seq<StackChange<U>>,
)
    requires
        costs_added(cs).to_multiset() == costs_added(ds).to_multiset(),
    ensures
        stack_changed_all(u, cs).accrued == stack_changed_all(u, ds).accrued,
{
    let f = |sum: EffectCost, cost: EffectCost| crate::cost::cost_sum(sum, cost);
    assert forall|x: EffectCost, y: EffectCost, v: EffectCost| #[trigger]
        f(f(v, x), y) == f(f(v, y), x) by {
        crate::cost::law_cost_sum_monoid(v, x, y);
        crate::cost::law_cost_sum_monoid(v, y, x);
        crate::cost::law_cost_sum_monoid(x, y, v);
    }
    vstd::seq_lib::lemma_fold_left_permutation(
        costs_added(cs),
        costs_added(ds),
        f,
        crate::cost::no_cost(),
    );
    law_accrued_is_the_sum_of_costs(u, cs);
    law_accrued_is_the_sum_of_costs(u, ds);
}

/// What a stack has accrued never falls, and undoing leaves it as it is. Accounting
/// for an effect changes nothing else.
pub proof fn law_accrued_never_falls<U>(
    u: UndoView<U>,
    cs: Seq<StackChange<U>>,
    mark: nat,
    cost: EffectCost,
)
    ensures
        crate::cost::costs_no_more(u.accrued, stack_changed_all(u, cs).accrued),
        without_entry(u, mark).accrued == u.accrued,
        with_cost(u, cost).ops == u.ops,
        with_cost(u, cost).irreversible == u.irreversible,
        with_cost(u, cost).replacements == u.replacements,
{
    law_accrued_is_the_sum_of_costs(u, cs);
}

/// The mark of what is irreversible is set exactly if it was set, at first or by
/// marking or by appending a stack with the mark, and has not been reset since,
/// whatever else was pushed, accounted for, appended or undone.
pub proof fn law_irreversible_until_reset<U>(u: UndoView<U>, cs: Seq<StackChange<U>>)
    ensures
        stack_changed_all(u, cs).irreversible <==> exists|i: int|
            0 <= i <= cs.len() && #[trigger] set_before(u, cs, i) && forall|j: int|
                i <= j < cs.len() ==> !(#[trigger] cs[j] is ResetIrreversible),
    decreases cs.len(),
{
    let n = cs.len() as int;
    if n == 0 {
        assert(set_before(u, cs, 0) == u.irreversible);
    } else {
        let rest = cs.drop_last();
        law_irreversible_until_reset(u, rest);
        assert(forall|j: int| 0 <= j < n - 1 ==> rest[j] == cs[j]);
        assert(cs.last() == cs[n - 1]);
        assert forall|i: int| 0 <= i < n implies set_before(u, rest, i) == #[trigger] set_before(
            u,
            cs,
            i,
        ) by {}
        assert(set_before(u, cs, n) == sets_mark(cs.last()));
        if stack_changed_all(u, cs).irreversible {
            if sets_mark(cs.last()) {
                assert(set_before(u, cs, n));
            } else {
                let i = choose|i: int|
                    0 <= i <= rest.len() && #[trigger] set_before(u, rest, i) && forall|j: int|
                        i <= j < rest.len() ==> !(#[trigger] rest[j] is ResetIrreversible);
                assert(set_before(u, cs, i));
                assert forall|j: int| i <= j < n implies !(#[trigger] cs[j] is ResetIrreversible) by {
                    if j < n - 1 {
                        assert(!(rest[j] is ResetIrreversible));
                    }
                }
            }
        }
        if exists|i: int|
            0 <= i <= n && #[trigger] set_before(u, cs, i) && forall|j: int|
                i <= j < n ==> !(#[trigger] cs[j] is ResetIrreversible) {
            let i = choose|i: int|
                0 <= i <= n && #[trigger] set_before(u, cs, i) && forall|j: int|
                    i <= j < n ==> !(#[trigger] cs[j] is ResetIrreversible);
            if i < n {
                assert(!(cs[n - 1] is ResetIrreversible));
                assert(set_before(u, rest, i));
                assert forall|j: int| i <= j < rest.len() implies !(#[trigger] rest[j]
                    is ResetIrreversible) by {
                    assert(!(cs[j] is ResetIrreversible));
                }
            }
        }
    }
}

/// Whether the mark is set by the last of the first `i` changes, or at the start if
/// there are none.
pub open spec fn set_before<U>(u: UndoView<U>, cs: Seq<StackChange<U>>, i: int) -> bool {
    if i == 0 {
        u.irreversible
    } else {
        sets_mark(cs[i - 1])
    }
}

/// A stack on top of another is undone first and as a whole, and the other is then
/// left as it was. What both cost adds up, and what is irreversible in either stays.
pub proof fn law_stacked<U>(a: UndoView<U>, b: UndoView<U>)
    ensures
        undo_order(stacked(a, b).ops, a.ops.len()) == undo_order(b.ops, 0),
        stacked(a, b).ops.take(a.ops.len() as int) == a.ops,
        stacked(a, b).ops.len() == a.ops.len() + b.ops.len(),
        stacked(a, b).irreversible == (a.irreversible || b.irreversible),
        stacked(a, b).accrued == crate::cost::cost_sum(a.accrued, b.accrued),
        a.replacements + b.replacements <= u64::MAX ==> stacked(a, b).replacements
            == a.replacements + b.replacements,
{
    let n = a.ops.len();
    let all = stacked(a, b).ops;
    law_undo_is_lifo(all, n);
    law_undo_is_lifo(b.ops, 0);
    assert(all.subrange(n as int, all.len() as int) =~= b.ops.subrange(0, b.ops.len() as int));
    assert(all.take(n as int) =~= a.ops);
}

/// What is pushed is the next to be taken off; taking off stops at the mark.
pub proof fn law_last_in_first_out<U>(u: UndoView<U>, e: EntryView<U>, mark: nat)
    ensures
        with_entry(u, e).ops.last() == e,
        mark <= u.ops.len() ==> without_entry(with_entry(u, e), mark) == u,
        u.ops.len() <= mark ==> without_entry(u, mark) == u,
        u.ops.len() > mark ==> without_entry(u, mark).ops.len() == u.ops.len() - 1,
        without_entry(u, mark).irreversible == u.irreversible,
        without_entry(u, mark).replacements == u.replacements,
        with_mark(u, true).irreversible && !with_mark(u, false).irreversible,
        with_mark(u, true).ops == u.ops && with_mark(u, false).ops == u.ops,
{
    assert(with_entry(u, e).ops.drop_last() =~= u.ops);
}

/// An entry holds the inverse operation, or the key, that it was made of.
pub proof fn law_what_entries_hold<U>(e: UndoEntry<U>)
    ensures
        e matches UndoEntry::Op(op) ==> e@ == EntryView::Op(op),
        e matches UndoEntry::RevertKey(key) ==> e@ == EntryView::<U>::RevertKey(key@),
{
}

} // verus!
