//! The cost algebra: what effects are accounted for, in logical units.
//!
//! Three dimensions are kept apart: what is read, what is written and what is
//! held. Each is a closed interval from an optimistic to a pessimistic estimate.
//! Running one effect after another adds intervals, saturating at the top.

use vstd::prelude::*;

use crate::action::DataOp;

verus! {

/// One dimension of a cost: the interval from `min` to `max`.
#[derive(Debug, Clone, Copy, PartialEq, Eq, Structural)]
pub struct Grade {
    pub min: u64,
    pub max: u64,
}

/// A sum that stops at the largest `u64`.
pub open spec fn capped_sum(a: u64, b: u64) -> u64 {
    if a + b > u64::MAX {
        u64::MAX
    } else {
        (a + b) as u64
    }
}

/// The larger of two.
pub open spec fn larger(a: u64, b: u64) -> u64 {
    if a >= b {
        a
    } else {
        b
    }
}

/// The interval `[0, 0]`.
pub open spec fn no_grade() -> Grade {
    Grade { min: 0, max: 0 }
}

/// One grade after the other: bounds add up.
pub open spec fn grade_sum(a: Grade, b: Grade) -> Grade {
    Grade { min: capped_sum(a.min, b.min), max: capped_sum(a.max, b.max) }
}

/// Two grades side by side: the larger bounds.
pub open spec fn grade_peak(a: Grade, b: Grade) -> Grade {
    Grade { min: larger(a.min, b.min), max: larger(a.max, b.max) }
}

/// An interval from one unit up to `len`, and never below one.
pub open spec fn up_to(len: nat) -> Grade {
    Grade { min: 1, max: larger(1, len as u64) }
}

/// The interval `[n, n]`.
pub open spec fn exactly(n: u64) -> Grade {
    Grade { min: n, max: n }
}

/// An interval with its upper bound raised to `max` where it is lower.
pub open spec fn raised(g: Grade, max: u64) -> Grade {
    Grade { min: g.min, max: larger(g.max, max) }
}

fn max_of(a: u64, b: u64) -> (r: u64)
    ensures
        r == larger(a, b),
{
    if a >= b {
        a
    } else {
        b
    }
}

impl Grade {
    /// The interval `[0, 0]`.
    pub fn zero() -> (r: Grade)
        ensures
            r == no_grade(),
    {
        Grade { min: 0, max: 0 }
    }

    /// The interval `[n, n]`.
    pub fn point(n: u64) -> (r: Grade)
        ensures
            r == exactly(n),
    {
        Grade { min: n, max: n }
    }

    /// This interval with its upper bound raised to `max` where it is lower.
    pub fn with_max(self, max: u64) -> (r: Grade)
        ensures
            r == raised(self, max),
    {
        Grade { min: self.min, max: max_of(self.max, max) }
    }

    /// One interval after the other.
    pub fn plus(self, other: Grade) -> (r: Grade)
        ensures
            r == grade_sum(self, other),
    {
        Grade {
            min: self.min.saturating_add(other.min),
            max: self.max.saturating_add(other.max),
        }
    }

    /// The two intervals side by side.
    pub fn peak(self, other: Grade) -> (r: Grade)
        ensures
            r == grade_peak(self, other),
    {
        Grade { min: max_of(self.min, other.min), max: max_of(self.max, other.max) }
    }
}

impl Default for Grade {
    fn default() -> (r: Self)
        ensures
            r == no_grade(),
    {
        Grade::zero()
    }
}

/// The cost of an effect.
#[derive(Debug, Clone, Copy, PartialEq, Eq, Structural)]
pub struct EffectCost {
    pub read: Grade,
    pub write: Grade,
    pub occupy: Grade,
}

/// The cost of doing nothing.
pub open spec fn no_cost() -> EffectCost {
    EffectCost { read: no_grade(), write: no_grade(), occupy: no_grade() }
}

/// One cost after the other, dimension by dimension.
pub open spec fn cost_sum(a: EffectCost, b: EffectCost) -> EffectCost {
    EffectCost {
        read: grade_sum(a.read, b.read),
        write: grade_sum(a.write, b.write),
        occupy: grade_sum(a.occupy, b.occupy),
    }
}

/// Whether no bound of one cost is above that of the other.
pub open spec fn costs_no_more(a: EffectCost, b: EffectCost) -> bool {
    &&& a.read.min <= b.read.min && a.read.max <= b.read.max
    &&& a.write.min <= b.write.min && a.write.max <= b.write.max
    &&& a.occupy.min <= b.occupy.min && a.occupy.max <= b.occupy.max
}

/// How much an operation reads. A read with a length counts up to that many
/// units; any other observation counts one.
pub open spec fn read_grade(op: DataOp) -> Grade {
    match op {
        DataOp::Read { len, .. } => up_to(len as nat),
        DataOp::TcpRead { len, .. } => up_to(len as nat),
        DataOp::UdpRecvFrom { len, .. } => up_to(len as nat),
        DataOp::Stat { .. } => exactly(1),
        DataOp::ReadDir { .. } => exactly(1),
        DataOp::GetTime => exactly(1),
        DataOp::TcpAccept { .. } => exactly(1),
        DataOp::Mmap { .. } => exactly(1),
        _ => no_grade(),
    }
}

/// How much an operation writes. A write with data counts up to that many units;
/// any other change counts one.
pub open spec fn write_grade(op: DataOp) -> Grade {
    match op {
        DataOp::Write { data, .. } => up_to(data@.len()),
        DataOp::TcpWrite { data, .. } => up_to(data@.len()),
        DataOp::UdpSendTo { data, .. } => up_to(data@.len()),
        _ => if read_grade(op) == no_grade() {
            exactly(1)
        } else {
            no_grade()
        },
    }
}

/// How much an operation holds: one unit for a new handle, the length for a
/// mapping that comes or goes.
pub open spec fn occupy_grade(op: DataOp) -> Grade {
    match op {
        DataOp::Open { .. } => exactly(1),
        DataOp::TcpBind { .. } => exactly(1),
        DataOp::TcpConnect { .. } => exactly(1),
        DataOp::UdpBind { .. } => exactly(1),
        DataOp::PipeOpen { .. } => exactly(1),
        DataOp::Spawn { .. } => exactly(1),
        DataOp::Mmap { len, .. } => exactly(len as u64),
        DataOp::Munmap { len, .. } => exactly(len as u64),
        _ => no_grade(),
    }
}

/// The cost of an operation.
pub open spec fn cost_of(op: DataOp) -> EffectCost {
    EffectCost { read: read_grade(op), write: write_grade(op), occupy: occupy_grade(op) }
}

impl Default for EffectCost {
    fn default() -> (r: Self)
        ensures
            r == no_cost(),
    {
        EffectCost::zero()
    }
}

impl EffectCost {
    /// The cost of doing nothing.
    pub fn zero() -> (r: EffectCost)
        ensures
            r == no_cost(),
    {
        EffectCost { read: Grade::zero(), write: Grade::zero(), occupy: Grade::zero() }
    }

    /// One cost after the other.
    pub fn plus(&self, other: &EffectCost) -> (r: EffectCost)
        ensures
            r == cost_sum(*self, *other),
    {
        EffectCost {
            read: self.read.plus(other.read),
            write: self.write.plus(other.write),
            occupy: self.occupy.plus(other.occupy),
        }
    }

    /// The net change in what is held.
    pub fn occupy_net(&self) -> (n: u64)
        ensures
            n == self.occupy.max,
    {
        self.occupy.max
    }

    /// The most that is held at once.
    pub fn occupy_peak(&self) -> (n: u64)
        ensures
            n == self.occupy.max,
    {
        self.occupy.max
    }

    fn reading(read: Grade) -> (r: EffectCost)
        ensures
            r == (EffectCost { read, write: no_grade(), occupy: no_grade() }),
    {
        EffectCost { read, write: Grade::zero(), occupy: Grade::zero() }
    }

    fn writing(write: Grade) -> (r: EffectCost)
        ensures
            r == (EffectCost { read: no_grade(), write, occupy: no_grade() }),
    {
        EffectCost { read: Grade::zero(), write, occupy: Grade::zero() }
    }

    /// The cost that an operation has by its nature, as an upper bound.
    pub fn for_op(op: &DataOp) -> (r: EffectCost)
        ensures
            r == cost_of(*op),
    {
        match op {
            DataOp::Read { len, .. }
            | DataOp::TcpRead { len, .. }
            | DataOp::UdpRecvFrom { len, .. } => EffectCost::reading(
                Grade::point(1).with_max(*len as u64),
            ),
            DataOp::Stat { .. }
            | DataOp::ReadDir { .. }
            | DataOp::GetTime
            | DataOp::TcpAccept { .. } => EffectCost::reading(Grade::point(1)),
            DataOp::Write { data, .. }
            | DataOp::TcpWrite { data, .. }
            | DataOp::UdpSendTo { data, .. } => EffectCost::writing(
                Grade::point(1).with_max(data.len() as u64),
            ),
            DataOp::TcpShutdown { .. }
            | DataOp::Seek { .. }
            | DataOp::Truncate { .. }
            | DataOp::Rename { .. }
            | DataOp::Mkdir { .. }
            | DataOp::Chmod { .. }
            | DataOp::Chown { .. }
            | DataOp::SendFile { .. } => EffectCost::writing(Grade::point(1)),
            DataOp::Open { .. }
            | DataOp::TcpBind { .. }
            | DataOp::TcpConnect { .. }
            | DataOp::UdpBind { .. }
            | DataOp::PipeOpen { .. }
            | DataOp::Spawn { .. } => EffectCost {
                read: Grade::zero(),
                write: Grade::point(1),
                occupy: Grade::point(1),
            },
            DataOp::Close { .. }
            | DataOp::Dup { .. }
            | DataOp::Dup2 { .. }
            | DataOp::Rmdir { .. }
            | DataOp::Unlink { .. } => EffectCost::writing(Grade::point(1)),
            DataOp::Kill { .. }
            | DataOp::Wait { .. }
            | DataOp::SendSignal { .. }
            | DataOp::MutexLock { .. }
            | DataOp::MutexUnlock { .. } => EffectCost::writing(Grade::point(1)),
            DataOp::Mmap { len, .. } => EffectCost {
                read: Grade::point(1),
                write: Grade::zero(),
                occupy: Grade::point(*len as u64),
            },
            DataOp::Munmap { len, .. } => EffectCost {
                read: Grade::zero(),
                write: Grade::point(1),
                occupy: Grade::point(*len as u64),
            },
        }
    }
}

/// The most that an effect may cost in each dimension.
#[derive(Debug, Clone, Copy, Default, PartialEq, Eq, Structural)]
pub struct CostBudget {
    pub read: u64,
    pub write: u64,
    pub occupy: u64,
}

/// Whether a cost may go over a budget, by its upper bounds.
pub open spec fn over_budget(budget: CostBudget, cost: EffectCost) -> bool {
    ||| cost.read.max > budget.read
    ||| cost.write.max > budget.write
    ||| cost.occupy.max > budget.occupy
}

impl CostBudget {
    /// The budget that no cost goes over.
    pub fn unbounded() -> (r: CostBudget)
        ensures
            r == (CostBudget { read: u64::MAX, write: u64::MAX, occupy: u64::MAX }),
            forall|cost: EffectCost| !#[trigger] over_budget(r, cost),
    {
        CostBudget { read: u64::MAX, write: u64::MAX, occupy: u64::MAX }
    }

    /// Whether a cost may go over this budget. Reaching it exactly does not.
    pub fn exceeded_by(&self, cost: &EffectCost) -> (r: bool)
        ensures
            r == over_budget(*self, *cost),
    {
        cost.read.max > self.read || cost.write.max > self.write || cost.occupy.max > self.occupy
    }
}

/// Grades add up in any order and in any grouping, and an empty one adds nothing.
pub proof fn law_grade_sum_monoid(a: Grade, b: Grade, c: Grade)
    ensures
        grade_sum(no_grade(), a) == a,
        grade_sum(a, no_grade()) == a,
        grade_sum(a, b) == grade_sum(b, a),
        grade_sum(grade_sum(a, b), c) == grade_sum(a, grade_sum(b, c)),
{
}

/// Raising an upper bound further gives no lower one, and raising it again to what
/// it was raised to changes nothing.
pub proof fn law_raising_is_monotone(g: Grade, m: u64, n: u64)
    requires
        m <= n,
    ensures
        raised(g, m).max <= raised(g, n).max,
        raised(raised(g, n), m) == raised(g, n),
{
}

/// Costs add up in any order and in any grouping, and doing nothing adds nothing.
pub proof fn law_cost_sum_monoid(a: EffectCost, b: EffectCost, c: EffectCost)
    ensures
        cost_sum(no_cost(), a) == a,
        cost_sum(a, no_cost()) == a,
        cost_sum(a, b) == cost_sum(b, a),
        cost_sum(cost_sum(a, b), c) == cost_sum(a, cost_sum(b, c)),
{
}

/// What runs side by side peaks at the larger of the two: the order and the
/// grouping do not matter, a grade does not raise itself, and an empty one raises
/// nothing.
pub proof fn law_grade_peak_semilattice(a: Grade, b: Grade, c: Grade)
    ensures
        grade_peak(a, a) == a,
        grade_peak(no_grade(), a) == a,
        grade_peak(a, no_grade()) == a,
        grade_peak(a, b) == grade_peak(b, a),
        grade_peak(grade_peak(a, b), c) == grade_peak(a, grade_peak(b, c)),
{
}

/// Adding an effect never brings a cost back under a budget.
pub proof fn law_over_budget_is_kept(budget: CostBudget, a: EffectCost, b: EffectCost)
    requires
        over_budget(budget, a),
    ensures
        over_budget(budget, cost_sum(a, b)),
{
}

/// Every operation costs something, and its intervals are ordered.
pub proof fn law_operations_cost_something(op: DataOp)
    ensures
        cost_of(op).read.min + cost_of(op).write.min == 1,
        cost_of(op).read.min <= cost_of(op).read.max,
        cost_of(op).write.min <= cost_of(op).write.max,
        cost_of(op).occupy.min <= cost_of(op).occupy.max,
{
}

/// Costs that fit add up exactly, bound by bound; a bound that does not fit is the
/// largest there is.
pub proof fn law_bounds_add_up(a: Grade, b: Grade)
    ensures
        a.min + b.min <= u64::MAX ==> grade_sum(a, b).min == a.min + b.min,
        a.max + b.max <= u64::MAX ==> grade_sum(a, b).max == a.max + b.max,
        a.min + b.min > u64::MAX ==> grade_sum(a, b).min == u64::MAX,
        a.max + b.max > u64::MAX ==> grade_sum(a, b).max == u64::MAX,
{
}

/// A sum of costs adds up in each dimension by itself.
pub proof fn law_dimensions_are_apart(a: EffectCost, b: EffectCost)
    ensures
        cost_sum(a, b).read == grade_sum(a.read, b.read),
        cost_sum(a, b).write == grade_sum(a.write, b.write),
        cost_sum(a, b).occupy == grade_sum(a.occupy, b.occupy),
        no_cost().read.max == 0 && no_cost().write.max == 0 && no_cost().occupy.max == 0,
        no_cost().read.min == 0 && no_cost().write.min == 0 && no_cost().occupy.min == 0,
{
}

/// The peak of two is reached by one of them and not below either.
pub proof fn law_peak(a: Grade, b: Grade)
    ensures
        grade_peak(a, b).min == a.min || grade_peak(a, b).min == b.min,
        grade_peak(a, b).max == a.max || grade_peak(a, b).max == b.max,
        grade_peak(a, b).min >= a.min && grade_peak(a, b).min >= b.min,
        grade_peak(a, b).max >= a.max && grade_peak(a, b).max >= b.max,
{
}

/// A cost goes over a budget if it may take more than the budget in some dimension;
/// taking all of it is within the budget.
pub proof fn law_budget(budget: CostBudget, cost: EffectCost)
    ensures
        over_budget(budget, cost) <==> !(cost.read.max <= budget.read && cost.write.max
            <= budget.write && cost.occupy.max <= budget.occupy),
{
}

/// Observations cost reading and everything else costs writing, one unit at least.
/// What moves bytes costs up to as many units as there are bytes, and nothing else
/// costs more than one. What opens something holds one unit, and a mapping as many as
/// it is long.
pub proof fn law_costs_by_kind(op: DataOp)
    requires
        op matches DataOp::Write { data, .. } ==> data@.len() <= usize::MAX,
        op matches DataOp::TcpWrite { data, .. } ==> data@.len() <= usize::MAX,
        op matches DataOp::UdpSendTo { data, .. } ==> data@.len() <= usize::MAX,
    ensures
        match op {
            DataOp::Read { len, .. } => bytes_read(op, len as int),
            DataOp::TcpRead { len, .. } => bytes_read(op, len as int),
            DataOp::UdpRecvFrom { len, .. } => bytes_read(op, len as int),
            DataOp::Write { data, .. } => bytes_written(op, data@.len() as int),
            DataOp::TcpWrite { data, .. } => bytes_written(op, data@.len() as int),
            DataOp::UdpSendTo { data, .. } => bytes_written(op, data@.len() as int),
            DataOp::Stat { .. } => costs(op, 1, 0, 0),
            DataOp::ReadDir { .. } => costs(op, 1, 0, 0),
            DataOp::GetTime => costs(op, 1, 0, 0),
            DataOp::TcpAccept { .. } => costs(op, 1, 0, 0),
            DataOp::Mmap { len, .. } => costs(op, 1, 0, len as int),
            DataOp::Munmap { len, .. } => costs(op, 0, 1, len as int),
            DataOp::Open { .. } => costs(op, 0, 1, 1),
            DataOp::TcpBind { .. } => costs(op, 0, 1, 1),
            DataOp::TcpConnect { .. } => costs(op, 0, 1, 1),
            DataOp::UdpBind { .. } => costs(op, 0, 1, 1),
            DataOp::PipeOpen { .. } => costs(op, 0, 1, 1),
            DataOp::Spawn { .. } => costs(op, 0, 1, 1),
            _ => costs(op, 0, 1, 0),
        },
{
}

/// Whether an operation costs exactly this much reading, writing and holding.
pub open spec fn costs(op: DataOp, read: int, write: int, occupy: int) -> bool {
    let c = cost_of(op);
    &&& c.read.min == read && c.read.max == read
    &&& c.write.min == write && c.write.max == write
    &&& c.occupy.min == occupy && c.occupy.max == occupy
}

/// Whether an operation costs reading up to this many bytes, and nothing else.
pub open spec fn bytes_read(op: DataOp, len: int) -> bool {
    let c = cost_of(op);
    &&& c.read.min == 1
    &&& c.read.max == (if len > 1 {
        len
    } else {
        1
    })
    &&& c.write.max == 0 && c.occupy.max == 0
}

/// Whether an operation costs writing up to this many bytes, and nothing else.
pub open spec fn bytes_written(op: DataOp, len: int) -> bool {
    let c = cost_of(op);
    &&& c.write.min == 1
    &&& c.write.max == (if len > 1 {
        len
    } else {
        1
    })
    &&& c.read.max == 0 && c.occupy.max == 0
}

/// Raising an upper bound leaves the lower one and gives the larger of the two.
pub proof fn law_raised(g: Grade, max: u64)
    ensures
        raised(g, max).min == g.min,
        max >= g.max ==> raised(g, max).max == max,
        max <= g.max ==> raised(g, max).max == g.max,
        exactly(max).min == max && exactly(max).max == max,
{
}

} // verus!
