//! What holds of every blueprint, proved from [`crate::semantics::transition`].

use vstd::prelude::*;

use crate::action::{Action, DataOp, Host, Value, ValueView};
use crate::cost::EffectCost;
use crate::error::SysError;
use crate::idempotency::Keys;
use crate::interpreter::{Event, Outcome};
use crate::registry::RegistryView;
use crate::resource::UsageView;
use crate::semantics::{
    ControlView, FrameView, GoalView, MachineView, RequestView, ResultView, StepView, WorldView,
};
use crate::syscall::UndoCapability;
use crate::undo::{EntryView, UndoView};

verus! {

/// The state that a step leaves, as if it had asked for nothing.
pub open spec fn state<B: Host>(s: StepView<B>) -> (MachineView<B>, WorldView<B::Undo>, Keys) {
    (s.machine, s.world, s.keys)
}

/// A step from the state that another step left.
pub open spec fn then_step<B: Host>(s: StepView<B>, event: Event<B>) -> StepView<B> {
    crate::semantics::transition(s.machine, s.world, s.keys, event)
}

/// A machine that runs a blueprint on top of some frames.
pub open spec fn running<B: Host>(
    m: MachineView<B>,
    frames: Seq<FrameView<B>>,
    action: Action<B>,
    depth: usize,
) -> MachineView<B> {
    MachineView { frames, control: ControlView::Run { action, depth }, ..m }
}

/// A machine that hands a result to some frames.
pub open spec fn returning<B: Host>(
    m: MachineView<B>,
    frames: Seq<FrameView<B>>,
    r: ResultView,
) -> MachineView<B> {
    MachineView { frames, control: ControlView::Return(r), ..m }
}

/// Whether a node at this depth is run, rather than refused.
pub open spec fn admitted<B: Host>(m: MachineView<B>, depth: usize) -> bool {
    &&& depth < crate::semantics::MAX_NESTING_DEPTH
    &&& !crate::semantics::timed_out(m.frames, m.cancelled)
}

/// A run: the states of a machine and its world before and after each step, what
/// each step asked for, and what the driver handed to each step: the registry,
/// which an operation may have changed, the keys, which other branches may have
/// changed, and an answer.
pub open spec fn is_run<B: Host>(
    m: Seq<MachineView<B>>,
    w: Seq<WorldView<B::Undo>>,
    asked: Seq<RequestView<B>>,
    handed: Seq<(RegistryView, Keys, Event<B>)>,
) -> bool {
    &&& m.len() == handed.len() + 1
    &&& w.len() == handed.len() + 1
    &&& asked.len() == handed.len()
    &&& forall|i: int|
        0 <= i < handed.len() ==> {
            let s = crate::semantics::transition(
                m[i],
                crate::semantics::with_reg(w[i], (#[trigger] handed[i]).0),
                handed[i].1,
                handed[i].2,
            );
            m[i + 1] == s.machine && w[i + 1] == s.world && asked[i] == s.request
        }
}

proof fn lemma_replay<B: Host>(
    m: Seq<MachineView<B>>,
    w: Seq<WorldView<B::Undo>>,
    asked: Seq<RequestView<B>>,
    m2: Seq<MachineView<B>>,
    w2: Seq<WorldView<B::Undo>>,
    asked2: Seq<RequestView<B>>,
    handed: Seq<(RegistryView, Keys, Event<B>)>,
    i: int,
)
    requires
        is_run(m, w, asked, handed),
        is_run(m2, w2, asked2, handed),
        m[0] == m2[0],
        w[0] == w2[0],
        0 <= i <= handed.len(),
    ensures
        m[i] == m2[i],
        w[i] == w2[i],
        i < handed.len() ==> asked[i] == asked2[i],
    decreases i,
{
    let now = handed[i];
    if i > 0 {
        lemma_replay(m, w, asked, m2, w2, asked2, handed, i - 1);
        let before = handed[i - 1];
    }
}

/// A run can be replayed: from the same state, the same answers lead through the
/// same states, and the same is asked for in the same order.
pub proof fn law_replay<B: Host>(
    m: Seq<MachineView<B>>,
    w: Seq<WorldView<B::Undo>>,
    asked: Seq<RequestView<B>>,
    m2: Seq<MachineView<B>>,
    w2: Seq<WorldView<B::Undo>>,
    asked2: Seq<RequestView<B>>,
    handed: Seq<(RegistryView, Keys, Event<B>)>,
)
    requires
        is_run(m, w, asked, handed),
        is_run(m2, w2, asked2, handed),
        m[0] == m2[0],
        w[0] == w2[0],
    ensures
        m == m2,
        w == w2,
        asked == asked2,
{
    assert forall|i: int| 0 <= i <= handed.len() implies m[i] == m2[i] && w[i] == w2[i] by {
        lemma_replay(m, w, asked, m2, w2, asked2, handed, i);
    }
    assert forall|i: int| 0 <= i < handed.len() implies asked[i] == asked2[i] by {
        lemma_replay(m, w, asked, m2, w2, asked2, handed, i);
    }
    assert(m =~= m2);
    assert(w =~= w2);
    assert(asked =~= asked2);
}

/// A plain value does nothing: it is handed to the topmost frame, and neither the
/// world nor the keys change.
pub proof fn law_pure_does_nothing<B: Host>(
    m: MachineView<B>,
    w: WorldView<B::Undo>,
    k: Keys,
    v: Value,
    depth: usize,
)
    requires
        admitted(m, depth),
    ensures
        state(
            crate::semantics::transition(
                running(m, m.frames, Action::Pure(v), depth),
                w,
                k,
                Event::Go,
            ),
        ) == (returning(m, m.frames, Ok(v@)), w, k),
{
}

/// A plain value followed by something is that something on the value: the
/// continuation is called on the value, and nothing else has happened.
pub proof fn law_left_identity<B: Host>(
    m: MachineView<B>,
    w: WorldView<B::Undo>,
    k: Keys,
    v: Value,
    next: B::Next,
    depth: usize,
)
    requires
        admitted(m, depth),
        depth + 1 < crate::semantics::MAX_NESTING_DEPTH,
    ensures
        ({
            let whole = Action::Sequential { current: Box::new(Action::Pure(v)), next };
            let s1 = crate::semantics::transition(
                running(m, m.frames, whole, depth),
                w,
                k,
                Event::Go,
            );
            let s3 = then_step(then_step(s1, Event::Go), Event::Go);
            &&& state(s3) == (
                MachineView { control: ControlView::AwaitNext { depth }, ..m },
                w,
                k,
            )
            &&& s3.request == RequestView::<B>::Call { next, value: v@ }
        }),
{
    let frame = FrameView::Then { next, depth };
    let f = m.frames.push(frame);
    assert(f.drop_last() =~= m.frames);
    assert(f.last() == frame);
}

/// Something followed by its own value is that something: where the continuation
/// makes a plain value of the value that it gets, the value is handed to the
/// frame below, and nothing else has happened.
pub proof fn law_right_identity<B: Host>(
    m: MachineView<B>,
    w: WorldView<B::Undo>,
    k: Keys,
    v: Value,
    next: B::Next,
    depth: usize,
)
    requires
        admitted(m, depth),
    ensures
        ({
            let f = m.frames.push(FrameView::Then { next, depth });
            let s1 = crate::semantics::transition(returning(m, f, Ok(v@)), w, k, Event::Go);
            let s3 = then_step(then_step(s1, Event::Action(Action::Pure(v))), Event::Go);
            &&& s1.request == RequestView::<B>::Call { next, value: v@ }
            &&& state(s3) == (returning(m, m.frames, Ok(v@)), w, k)
        }),
{
    let frame = FrameView::Then { next, depth };
    let f = m.frames.push(frame);
    assert(f.drop_last() =~= m.frames);
    assert(f.last() == frame);
}

/// How a sequence is bracketed does not matter. `(a; f); g` and `a; (f; g)` run
/// `a` first, and once `a` has ended they reach the same state: with the value
/// `v` and the blueprint `b` that `f` makes of it, both run `b` and have `g` left
/// to do; with an error, both hand the error on.
pub proof fn law_sequence_is_associative<B: Host>(
    m: MachineView<B>,
    w: WorldView<B::Undo>,
    k: Keys,
    a: Action<B>,
    f: B::Next,
    g: B::Next,
    h: B::Next,
    depth: usize,
    w1: WorldView<B::Undo>,
    k1: Keys,
    v: ValueView,
    e: SysError,
    b: Action<B>,
)
    requires
        admitted(m, depth),
        depth + 1 < crate::semantics::MAX_NESTING_DEPTH,
    ensures
        ({
            let d1 = (depth + 1) as usize;
            let d2 = (depth + 2) as usize;
            let inner = m.frames.push(FrameView::Then { next: g, depth }).push(
                FrameView::Then { next: f, depth: d1 },
            );
            let outer = m.frames.push(FrameView::Then { next: h, depth });
            let rest = m.frames.push(FrameView::Then { next: g, depth });
            let left = Action::Sequential {
                current: Box::new(Action::Sequential { current: Box::new(a), next: f }),
                next: g,
            };
            let right = Action::Sequential { current: Box::new(a), next: h };
            let tail = Action::Sequential { current: Box::new(b), next: g };
            // Both run `a` first.
            &&& state(
                then_step(
                    crate::semantics::transition(
                        running(m, m.frames, left, depth),
                        w,
                        k,
                        Event::Go,
                    ),
                    Event::Go,
                ),
            ) == (running(m, inner, a, d2), w, k)
            &&& state(
                crate::semantics::transition(running(m, m.frames, right, depth), w, k, Event::Go),
            ) == (running(m, outer, a, d1), w, k)
            // With a value, both go on with `b` and have `g` left to do.
            &&& state(
                then_step(
                    crate::semantics::transition(returning(m, inner, Ok(v)), w1, k1, Event::Go),
                    Event::Action(b),
                ),
            ) == (running(m, rest, b, d1), w1, k1)
            &&& state(
                then_step(
                    then_step(
                        crate::semantics::transition(
                            returning(m, outer, Ok(v)),
                            w1,
                            k1,
                            Event::Go,
                        ),
                        Event::Action(tail),
                    ),
                    Event::Go,
                ),
            ) == (running(m, rest, b, d1), w1, k1)
            // With an error, both hand it on.
            &&& state(
                then_step(
                    crate::semantics::transition(returning(m, inner, Err(e)), w1, k1, Event::Go),
                    Event::Go,
                ),
            ) == (returning(m, m.frames, Err(e)), w1, k1)
            &&& state(
                crate::semantics::transition(returning(m, outer, Err(e)), w1, k1, Event::Go),
            ) == (returning(m, m.frames, Err(e)), w1, k1)
        }),
{
    let d1 = (depth + 1) as usize;
    let fg = FrameView::<B>::Then { next: g, depth };
    let ff = FrameView::<B>::Then { next: f, depth: d1 };
    let fh = FrameView::<B>::Then { next: h, depth };
    let rest = m.frames.push(fg);
    let inner = rest.push(ff);
    let outer = m.frames.push(fh);
    assert(rest.drop_last() =~= m.frames && rest.last() == fg);
    assert(inner.drop_last() =~= rest && inner.last() == ff);
    assert(outer.drop_last() =~= m.frames && outer.last() == fh);
    assert(crate::semantics::timed_out(rest, m.cancelled) == crate::semantics::timed_out(
        m.frames,
        m.cancelled,
    ));
}

/// A machine with more frames below, inside something that may have timed out.
pub open spec fn inside<B: Host>(
    m: MachineView<B>,
    below: Seq<FrameView<B>>,
    outer: bool,
) -> MachineView<B> {
    MachineView { frames: below + m.frames, cancelled: outer, ..m }
}

/// A request of a machine with this many more frames below: the levels of timers
/// are counted from further down.
pub open spec fn raised<B: Host>(request: RequestView<B>, by: nat) -> RequestView<B> {
    match request {
        RequestView::ArmTimer { level, duration } => RequestView::ArmTimer {
            level: level + by,
            duration,
        },
        _ => request,
    }
}

/// Timers further down only count where there is none further up.
proof fn lemma_timed_out_inside<B: Host>(
    below: Seq<FrameView<B>>,
    frames: Seq<FrameView<B>>,
    outer: bool,
)
    ensures
        crate::semantics::timed_out(below + frames, outer) == crate::semantics::timed_out(
            frames,
            crate::semantics::timed_out(below, outer),
        ),
    decreases frames.len(),
{
    if frames.len() == 0 {
        assert(below + frames =~= below);
    } else {
        lemma_timed_out_inside(below, frames.drop_last(), outer);
        assert((below + frames).drop_last() =~= below + frames.drop_last());
        assert((below + frames).last() == frames.last());
    }
}

/// Frames on top of more frames.
proof fn lemma_frames_inside<B: Host>(below: Seq<FrameView<B>>, frames: Seq<FrameView<B>>)
    ensures
        forall|x: FrameView<B>| #[trigger] (below + frames).push(x) == below + frames.push(x),
        frames.len() > 0 ==> (below + frames).drop_last() == below + frames.drop_last(),
        frames.len() > 0 ==> (below + frames).last() == frames.last(),
{
    assert forall|x: FrameView<B>| #[trigger]
        (below + frames).push(x) == below + frames.push(x) by {
        assert((below + frames).push(x) =~= below + frames.push(x));
    }
    if frames.len() > 0 {
        assert((below + frames).drop_last() =~= below + frames.drop_last());
    }
}

/// A blueprint runs the same wherever it stands. As long as it has not ended, each
/// step is the same with any frames below it: it changes the world and the keys in
/// the same way, asks for the same, and leaves the frames below alone. What is
/// around it shows only in whether it has timed out.
pub proof fn law_runs_the_same_anywhere<B: Host>(
    m: MachineView<B>,
    below: Seq<FrameView<B>>,
    outer: bool,
    w: WorldView<B::Undo>,
    k: Keys,
    event: Event<B>,
)
    requires
        m.cancelled == crate::semantics::timed_out(below, outer),
        m.frames.len() > 0 || !(m.control is Return),
    ensures
        ({
            let alone = crate::semantics::transition(m, w, k, event);
            let within = crate::semantics::transition(inside(m, below, outer), w, k, event);
            &&& within.machine == inside(alone.machine, below, outer)
            &&& within.world == alone.world
            &&& within.keys == alone.keys
            &&& within.request == raised(alone.request, below.len())
            &&& alone.machine.cancelled == m.cancelled
        }),
{
    lemma_timed_out_inside(below, m.frames, outer);
    lemma_frames_inside(below, m.frames);
    if m.frames.len() > 0 {
        lemma_frames_inside(below, m.frames.drop_last());
    }
    match m.control {
        ControlView::Run { action, depth } => {
            lemma_run_inside(m, below, outer, w, k, action, depth);
        },
        ControlView::Return(r) => {
            lemma_return_inside(m, below, outer, w, k, r);
        },
        ControlView::Undo { mark, error, goal } => {},
        _ => {},
    }
}

/// Running a node is the same anywhere.
proof fn lemma_run_inside<B: Host>(
    m: MachineView<B>,
    below: Seq<FrameView<B>>,
    outer: bool,
    w: WorldView<B::Undo>,
    k: Keys,
    action: Action<B>,
    depth: usize,
)
    requires
        m.cancelled == crate::semantics::timed_out(below, outer),
    ensures
        ({
            let alone = crate::semantics::run_step(m, w, k, action, depth);
            let within = crate::semantics::run_step(inside(m, below, outer), w, k, action, depth);
            &&& within.machine == inside(alone.machine, below, outer)
            &&& within.world == alone.world
            &&& within.keys == alone.keys
            &&& within.request == raised(alone.request, below.len())
            &&& alone.machine.cancelled == m.cancelled
        }),
{
    lemma_timed_out_inside(below, m.frames, outer);
    lemma_frames_inside(below, m.frames);
}

/// Handing a result to a frame is the same anywhere.
proof fn lemma_return_inside<B: Host>(
    m: MachineView<B>,
    below: Seq<FrameView<B>>,
    outer: bool,
    w: WorldView<B::Undo>,
    k: Keys,
    r: ResultView,
)
    requires
        m.frames.len() > 0,
    ensures
        ({
            let alone = crate::semantics::return_step(m, w, k, r);
            let within = crate::semantics::return_step(inside(m, below, outer), w, k, r);
            &&& within.machine == inside(alone.machine, below, outer)
            &&& within.world == alone.world
            &&& within.keys == alone.keys
            &&& within.request == raised(alone.request, below.len())
            &&& alone.machine.cancelled == m.cancelled
        }),
{
    lemma_frames_inside(below, m.frames);
    lemma_frames_inside(below, m.frames.drop_last());
}

/// Of a choice, only the chosen branch runs, and in the state in which the choice
/// was made.
pub proof fn law_only_the_chosen_branch_runs<B: Host>(
    m: MachineView<B>,
    w: WorldView<B::Undo>,
    k: Keys,
    cond: B::Cond,
    then_branch: Action<B>,
    else_branch: Action<B>,
    depth: usize,
    choice: bool,
)
    requires
        admitted(m, depth),
    ensures
        ({
            let whole = Action::Choose {
                cond,
                then_branch: Box::new(then_branch),
                else_branch: Box::new(else_branch),
            };
            let s = crate::semantics::transition(
                running(m, m.frames, whole, depth),
                w,
                k,
                Event::Go,
            );
            let chosen = if choice {
                then_branch
            } else {
                else_branch
            };
            &&& s.request == RequestView::<B>::Test { cond, value: ValueView::Unit }
            &&& state(then_step(s, Event::Choice(choice))) == (
                running(m, m.frames, chosen, depth),
                w,
                k,
            )
        }),
{
}

/// A scope runs in its own working directory, taken from the one around it, and
/// however it ends, the working directory is then the one before.
pub proof fn law_scope_restores_the_directory<B: Host>(
    m: MachineView<B>,
    w: WorldView<B::Undo>,
    k: Keys,
    base: std::path::PathBuf,
    inner: Action<B>,
    next: B::Next,
    depth: usize,
    w1: WorldView<B::Undo>,
    k1: Keys,
    r: ResultView,
)
    requires
        admitted(m, depth),
    ensures
        ({
            let whole = Action::Scope { base, inner: Box::new(inner), next };
            let s = crate::semantics::transition(
                running(m, m.frames, whole, depth),
                w,
                k,
                Event::Go,
            );
            let end = crate::semantics::transition(
                returning(m, s.machine.frames, r),
                w1,
                k1,
                Event::Go,
            );
            &&& s.machine == running(m, s.machine.frames, inner, (depth + 1) as usize)
            &&& s.world == crate::semantics::with_cwd(
                w,
                crate::path::canonical(crate::path::path_text(base), w.ctx.cwd),
            )
            &&& end.world == crate::semantics::with_cwd(w1, w.ctx.cwd)
            &&& end.machine.frames == m.frames
            &&& end.keys == k1
        }),
{
    let frame = FrameView::Scope { cwd: w.ctx.cwd, next, depth };
    let f = m.frames.push(frame);
    assert(f.drop_last() =~= m.frames && f.last() == frame);
}

/// A handler sees errors and nothing else: a value passes by it, an error goes to
/// it, and neither undoes anything.
pub proof fn law_handlers_see_errors_only<B: Host>(
    m: MachineView<B>,
    w: WorldView<B::Undo>,
    k: Keys,
    handler: B::Handler,
    depth: usize,
    v: ValueView,
    e: SysError,
)
    ensures
        ({
            let f = m.frames.push(FrameView::Catch { handler, depth });
            let good = crate::semantics::transition(returning(m, f, Ok(v)), w, k, Event::Go);
            let bad = crate::semantics::transition(returning(m, f, Err(e)), w, k, Event::Go);
            &&& state(good) == (returning(m, m.frames, Ok(v)), w, k)
            &&& bad.request == RequestView::<B>::Handle { handler, error: e }
            &&& bad.machine.frames == m.frames
            &&& bad.world == w
            &&& bad.keys == k
        }),
{
    let frame = FrameView::Catch { handler, depth };
    let f = m.frames.push(frame);
    assert(f.drop_last() =~= m.frames && f.last() == frame);
}

/// Nothing is run too deep, or after it has timed out: the node is refused with
/// an error, and nothing has happened.
pub proof fn law_nothing_runs_when_refused<B: Host>(
    m: MachineView<B>,
    w: WorldView<B::Undo>,
    k: Keys,
    action: Action<B>,
    depth: usize,
)
    requires
        !admitted(m, depth),
    ensures
        ({
            let s = crate::semantics::transition(
                running(m, m.frames, action, depth),
                w,
                k,
                Event::Go,
            );
            let e = if depth >= crate::semantics::MAX_NESTING_DEPTH {
                SysError::Other(105)
            } else {
                SysError::Other(125)
            };
            &&& state(s) == (returning(m, m.frames, Err(e)), w, k)
            &&& s.request == RequestView::<B>::Continue
        }),
{
}

/// An operation that linear use refuses is not run and changes nothing.
pub proof fn law_refused_operation_changes_nothing<B: Host>(
    m: MachineView<B>,
    w: WorldView<B::Undo>,
    k: Keys,
    op: DataOp,
    uses: Seq<UsageView>,
    next: B::Next,
    depth: usize,
)
    requires
        crate::registry::marked_all(w.reg, uses) is None,
    ensures
        ({
            let s = crate::semantics::run_syscall(m, w, k, op, uses, next, depth);
            &&& state(s) == (returning(m, m.frames, Err(SysError::InvalidInput)), w, k)
            &&& s.request == RequestView::<B>::Continue
        }),
{
}

/// An operation that fails leaves no trace of its own: with the registry as the
/// operation found it, the world is as it was before, so the operation can be
/// tried again.
pub proof fn law_failed_operation_leaves_no_trace<B: Host>(
    m: MachineView<B>,
    w: WorldView<B::Undo>,
    k: Keys,
    op: DataOp,
    uses: Seq<UsageView>,
    next: B::Next,
    depth: usize,
    e: SysError,
)
    requires
        crate::registry::marked_all(w.reg, uses) is Some,
        !(op is GetTime && w.ctx.clock is Some),
    ensures
        ({
            let s = crate::semantics::run_syscall(m, w, k, op, uses, next, depth);
            &&& s.request == RequestView::<B>::Execute { op }
            &&& state(then_step(s, Event::Executed(Err(e)))) == (
                returning(m, m.frames, Err(e)),
                w,
                k,
            )
        }),
{
    crate::registry::law_marks_are_taken_back(w.reg, uses);
    let reg = crate::registry::marked_all(w.reg, uses)->0;
    assert(crate::semantics::with_reg(
        crate::semantics::with_reg(w, reg),
        crate::registry::unmarked(reg, uses),
    ) =~= w);
}

/// An operation that succeeds adds exactly its cost, and to the undo stack its
/// inverse, the mark that it has none, or nothing.
pub proof fn law_operation_is_accounted_for<B: Host>(
    m: MachineView<B>,
    w: WorldView<B::Undo>,
    k: Keys,
    v: Value,
    capability: UndoCapability<B::Undo>,
    cost: EffectCost,
    uses: Seq<UsageView>,
    next: B::Next,
    depth: usize,
)
    ensures
        ({
            let s = crate::semantics::executed_step(
                m,
                w,
                k,
                Ok((v, capability)),
                cost,
                uses,
                next,
                depth,
            );
            &&& s.request == RequestView::<B>::Call { next, value: v@ }
            &&& s.world.undo.accrued == crate::cost::cost_sum(w.undo.accrued, cost)
            &&& s.world.reg == w.reg
            &&& s.world.ctx == w.ctx
            &&& s.world.undo.irreversible == (w.undo.irreversible || capability is NonInvertible)
            &&& match capability {
                UndoCapability::Invertible(op) => s.world.undo.ops == w.undo.ops.push(
                    EntryView::Op(op),
                ),
                _ => s.world.undo.ops == w.undo.ops,
            }
        }),
{
}

/// The machine and the world once an undoing has come to its end, where the driver
/// answers for inverse operations like this.
pub open spec fn undone<B: Host>(
    m: MachineView<B>,
    w: WorldView<B::Undo>,
    k: Keys,
    answer: spec_fn(B::Undo) -> Result<(), SysError>,
) -> (MachineView<B>, WorldView<B::Undo>, Keys)
    decreases w.undo.ops.len(),
{
    if m.control is Undo && w.undo.ops.len() > m.control->Undo_mark {
        let s = crate::semantics::transition(m, w, k, Event::Go);
        match s.request {
            RequestView::Undo(op) => {
                let t = then_step(s, Event::Undone(answer(op)));
                undone(t.machine, t.world, t.keys, answer)
            },
            _ => undone(s.machine, s.world, s.keys, answer),
        }
    } else {
        (m, w, k)
    }
}

/// How the driver answers for an entry. Reverting a key does not fail.
pub open spec fn answer_for<U>(
    entry: EntryView<U>,
    answer: spec_fn(U) -> Result<(), SysError>,
) -> Result<(), SysError> {
    match entry {
        EntryView::Op(op) => answer(op),
        EntryView::RevertKey(_) => Ok(()),
    }
}

/// The keys once the keyed sections among these entries are reverted, in order.
pub open spec fn all_reverted<U>(k: Keys, entries: Seq<EntryView<U>>) -> Keys
    decreases entries.len(),
{
    if entries.len() == 0 {
        k
    } else {
        match entries.last() {
            EntryView::Op(_) => all_reverted(k, entries.drop_last()),
            EntryView::RevertKey(key) => crate::idempotency::reverted(
                all_reverted(k, entries.drop_last()),
                key,
            ),
        }
    }
}

proof fn lemma_outcome_first(before: Option<SysError>, r: Result<(), SysError>, rs: Seq<
    Result<(), SysError>,
>)
    ensures
        crate::undo::undo_outcome(before, seq![r] + rs) == crate::undo::undo_outcome(
            crate::undo::first_failure(before, r),
            rs,
        ),
    decreases rs.len(),
{
    let all = seq![r] + rs;
    if rs.len() == 0 {
        reveal_with_fuel(crate::undo::undo_outcome, 2);
        assert(all.drop_last() =~= Seq::empty());
        assert(all.last() == r);
    } else {
        lemma_outcome_first(before, r, rs.drop_last());
        assert(all.drop_last() =~= seq![r] + rs.drop_last());
        assert(all.last() == rs.last());
    }
}

proof fn lemma_reverted_first<U>(k: Keys, e: EntryView<U>, es: Seq<EntryView<U>>)
    ensures
        all_reverted(k, seq![e] + es) == all_reverted(all_reverted(k, seq![e]), es),
    decreases es.len(),
{
    let all = seq![e] + es;
    if es.len() == 0 {
        assert(all =~= seq![e]);
    } else {
        lemma_reverted_first(k, e, es.drop_last());
        assert(all.drop_last() =~= seq![e] + es.drop_last());
        assert(all.last() == es.last());
    }
}

/// Undoing runs every inverse above the mark, the last one first, whether or not
/// some fail. It reports the first failure, leaves the entries below the mark, and
/// touches neither the registry nor the context.
pub proof fn law_undoing_runs_to_its_end<B: Host>(
    m: MachineView<B>,
    w: WorldView<B::Undo>,
    k: Keys,
    mark: nat,
    error: Option<SysError>,
    goal: GoalView<B>,
    answer: spec_fn(B::Undo) -> Result<(), SysError>,
)
    requires
        m.control == (ControlView::<B>::Undo { mark, error, goal }),
        mark <= w.undo.ops.len(),
    ensures
        ({
            let order = crate::undo::undo_order(w.undo.ops, mark);
            let answers = order.map_values(|e: EntryView<B::Undo>| answer_for(e, answer));
            let (m1, w1, k1) = undone(m, w, k, answer);
            &&& m1 == crate::semantics::with_control(
                m,
                ControlView::Undo {
                    mark,
                    error: crate::undo::undo_outcome(error, answers),
                    goal,
                },
            )
            &&& w1 == crate::semantics::with_undo(
                w,
                UndoView { ops: w.undo.ops.take(mark as int), ..w.undo },
            )
            &&& k1 == all_reverted(k, order)
            &&& order == w.undo.ops.subrange(mark as int, w.undo.ops.len() as int).reverse()
        }),
    decreases w.undo.ops.len(),
{
    let ops = w.undo.ops;
    let order = crate::undo::undo_order(ops, mark);
    let f = |e: EntryView<B::Undo>| answer_for(e, answer);
    crate::undo::law_undo_is_lifo(ops, mark);
    if ops.len() <= mark {
        assert(order.map_values(f) =~= Seq::empty());
        assert(ops.take(mark as int) =~= ops);
    } else {
        let e = ops.last();
        let r = answer_for(e, answer);
        let rest = crate::undo::undo_order(ops.drop_last(), mark);
        let err = crate::undo::first_failure(error, r);
        let w2 = crate::semantics::with_undo(w, UndoView { ops: ops.drop_last(), ..w.undo });
        let m2 = crate::semantics::with_control(m, ControlView::Undo { mark, error: err, goal });
        let k2 = all_reverted(k, seq![e]);
        lemma_undo_one(m, w, k, mark, error, goal, answer);
        law_undoing_runs_to_its_end(m2, w2, k2, mark, err, goal, answer);
        assert(order == seq![e] + rest);
        assert(order.map_values(f) =~= seq![r] + rest.map_values(f));
        lemma_outcome_first(error, r, rest.map_values(f));
        lemma_reverted_first(k, e, rest);
        assert(ops.drop_last().take(mark as int) =~= ops.take(mark as int));
    }
}

/// Undoing one entry.
proof fn lemma_undo_one<B: Host>(
    m: MachineView<B>,
    w: WorldView<B::Undo>,
    k: Keys,
    mark: nat,
    error: Option<SysError>,
    goal: GoalView<B>,
    answer: spec_fn(B::Undo) -> Result<(), SysError>,
)
    requires
        m.control == (ControlView::<B>::Undo { mark, error, goal }),
        mark < w.undo.ops.len(),
    ensures
        undone(m, w, k, answer) == undone(
            crate::semantics::with_control(
                m,
                ControlView::Undo {
                    mark,
                    error: crate::undo::first_failure(
                        error,
                        answer_for(w.undo.ops.last(), answer),
                    ),
                    goal,
                },
            ),
            crate::semantics::with_undo(
                w,
                UndoView { ops: w.undo.ops.drop_last(), ..w.undo },
            ),
            all_reverted(k, seq![w.undo.ops.last()]),
            answer,
        ),
{
    let e = w.undo.ops.last();
    assert(seq![e].drop_last() =~= Seq::empty());
    assert(seq![e].last() == e);
    reveal_with_fuel(all_reverted, 2);
}

/// A replacement starts clean: once everything is undone without a failure, and if
/// nothing irreversible had happened, the target runs with nothing to undo,
/// without handles and marks, and with numbering where it was.
pub proof fn law_replacement_starts_clean<B: Host>(
    m: MachineView<B>,
    w: WorldView<B::Undo>,
    k: Keys,
    target: Action<B>,
    depth: usize,
)
    requires
        m.control == (ControlView::<B>::Undo {
            mark: 0,
            error: None,
            goal: GoalView::Replace { target, depth },
        }),
        w.undo.ops.len() == 0,
        !w.undo.irreversible,
    ensures
        ({
            let s = crate::semantics::transition(m, w, k, Event::Go);
            &&& s.machine == running(m, m.frames, target, crate::semantics::deeper(depth))
            &&& s.world.undo == w.undo
            &&& s.world.reg == crate::registry::cleared(w.reg)
            &&& s.world.reg.next_fd == w.reg.next_fd
            &&& s.world.ctx == w.ctx
            &&& s.keys == k
        }),
{
}

/// What cannot be undone is not replaced: after a failure, or once something
/// irreversible has happened, the target does not run. The error says so, the
/// failure first, and the mark of what is irreversible is gone.
pub proof fn law_no_replacement_of_the_irreversible<B: Host>(
    m: MachineView<B>,
    w: WorldView<B::Undo>,
    k: Keys,
    error: Option<SysError>,
    target: Action<B>,
    depth: usize,
)
    requires
        m.control == (ControlView::<B>::Undo {
            mark: 0,
            error,
            goal: GoalView::Replace { target, depth },
        }),
        w.undo.ops.len() == 0,
        error is Some || w.undo.irreversible,
    ensures
        ({
            let s = crate::semantics::transition(m, w, k, Event::Go);
            let e = match error {
                Some(e) => e,
                None => SysError::PermissionDenied,
            };
            &&& s.machine == returning(m, m.frames, Err(e))
            &&& s.world.undo == (UndoView { irreversible: false, ..w.undo })
            &&& s.world.reg == w.reg
            &&& s.world.ctx == w.ctx
        }),
{
}

/// What ends in time keeps its effects: its result passes the timer and nothing
/// else happens.
pub proof fn law_in_time_keeps_effects<B: Host>(
    m: MachineView<B>,
    w: WorldView<B::Undo>,
    k: Keys,
    frame: FrameView<B>,
    r: ResultView,
)
    requires
        match frame {
            FrameView::Timer { expired, .. } => !expired,
            FrameView::Deadline { deadline, .. } => w.ctx.clock matches Some(now) ==> now
                < deadline,
            _ => false,
        },
    ensures
        state(
            crate::semantics::transition(
                returning(m, m.frames.push(frame), r),
                w,
                k,
                Event::Go,
            ),
        ) == (returning(m, m.frames, r), w, k),
{
    let f = m.frames.push(frame);
    assert(f.drop_last() =~= m.frames && f.last() == frame);
}

/// What ends after its timer has expired is undone before the alternative runs:
/// whatever its result was, the entries that were there when it started stay, all
/// others are undone, and the alternative starts without the marks that it made.
/// If undoing fails, the alternative does not run.
pub proof fn law_timed_out_is_undone<B: Host>(
    m: MachineView<B>,
    w: WorldView<B::Undo>,
    k: Keys,
    on_timeout: Action<B>,
    mark: usize,
    marks: crate::registry::LinearView,
    depth: usize,
    r: ResultView,
    answer: spec_fn(B::Undo) -> Result<(), SysError>,
)
    requires
        mark <= w.undo.ops.len(),
    ensures
        ({
            let frame = FrameView::Timer { on_timeout, mark, marks, expired: true, depth };
            let s = crate::semantics::transition(
                returning(m, m.frames.push(frame), r),
                w,
                k,
                Event::Go,
            );
            let (m1, w1, k1) = undone(s.machine, s.world, s.keys, answer);
            let end = crate::semantics::transition(m1, w1, k1, Event::Go);
            let order = crate::undo::undo_order(w.undo.ops, mark as nat);
            let failed = crate::undo::undo_outcome(
                None,
                order.map_values(|e: EntryView<B::Undo>| answer_for(e, answer)),
            );
            &&& end.world.undo.ops == w.undo.ops.take(mark as int)
            &&& end.machine == (match failed {
                None => running(m, m.frames, on_timeout, crate::semantics::deeper(depth)),
                Some(e) => returning(m, m.frames, Err(e)),
            })
            &&& failed is None ==> end.world.reg == crate::registry::rolled_back_to(w.reg, marks)
            &&& failed is Some ==> end.world.reg == w.reg
            &&& end.world.ctx == w.ctx
        }),
{
    let frame = FrameView::<B>::Timer { on_timeout, mark, marks, expired: true, depth };
    let f = m.frames.push(frame);
    assert(f.drop_last() =~= m.frames && f.last() == frame);
    let s = crate::semantics::transition(returning(m, f, r), w, k, Event::Go);
    law_undoing_runs_to_its_end(
        s.machine,
        s.world,
        s.keys,
        mark as nat,
        None,
        GoalView::Timeout { on_timeout, marks, depth },
        answer,
    );
}

/// A keyed section whose effects stand is not run: its value is handed on, and
/// nothing else happens, so it costs nothing.
pub proof fn law_standing_section_is_not_run<B: Host>(
    m: MachineView<B>,
    w: WorldView<B::Undo>,
    k: Keys,
    key: String,
    inner: Action<B>,
    next: B::Next,
    depth: usize,
)
    requires
        admitted(m, depth),
        crate::idempotency::is_committed(k, key@),
    ensures
        ({
            let whole = Action::Idempotent { key, inner: Box::new(inner), next };
            let s = crate::semantics::transition(
                running(m, m.frames, whole, depth),
                w,
                k,
                Event::Go,
            );
            &&& crate::idempotency::standing_value(k, key@) matches Some(v) && s.request
                == RequestView::<B>::Call { next, value: v }
            &&& state(s) == (MachineView { control: ControlView::AwaitNext { depth }, ..m }, w, k)
        }),
{
}

/// A keyed section that succeeded is committed, unless a replacement in it has
/// undone what was done. If it left something to undo, undoing that takes the
/// commitment back; if not, nothing else changes. A section that failed or replaced
/// leaves its key alone.
pub proof fn law_section_is_committed_while_it_stands<B: Host>(
    m: MachineView<B>,
    w: WorldView<B::Undo>,
    k: Keys,
    key: Seq<char>,
    mark: usize,
    replacements: u64,
    next: B::Next,
    depth: usize,
    r: ResultView,
)
    ensures
        ({
            let frame = FrameView::Keyed { key, mark, replacements, next, depth };
            let s = crate::semantics::transition(
                returning(m, m.frames.push(frame), r),
                w,
                k,
                Event::Go,
            );
            match r {
                Ok(v) => if w.undo.replacements == replacements {
                    &&& s.keys == crate::idempotency::committed(k, key, v)
                    &&& crate::idempotency::is_committed(s.keys, key)
                    &&& w.undo.ops.len() <= mark ==> s.world == w
                    &&& w.undo.ops.len() > mark ==> {
                        &&& s.world.undo.ops == w.undo.ops.push(EntryView::RevertKey(key))
                        &&& !crate::idempotency::is_committed(
                            all_reverted(
                                s.keys,
                                crate::undo::undo_order(s.world.undo.ops, mark as nat),
                            ),
                            key,
                        )
                    }
                } else {
                    s.keys == k && s.world == w
                },
                Err(_) => s.keys == k && s.world == w,
            }
        }),
{
    let frame = FrameView::<B>::Keyed { key, mark, replacements, next, depth };
    let f = m.frames.push(frame);
    assert(f.drop_last() =~= m.frames && f.last() == frame);
    let s = crate::semantics::transition(returning(m, f, r), w, k, Event::Go);
    if r is Ok && w.undo.replacements == replacements && w.undo.ops.len() > mark {
        let ops = s.world.undo.ops;
        let rest = crate::undo::undo_order(ops.drop_last(), mark as nat);
        let e = EntryView::<B::Undo>::RevertKey(key);
        assert(ops.last() == e);
        assert(crate::undo::undo_order(ops, mark as nat) == seq![e] + rest);
        lemma_reverted_first(s.keys, e, rest);
        assert(seq![e].drop_last() =~= Seq::empty());
        lemma_reverted_stays(all_reverted(s.keys, seq![e]), rest, key);
    }
}

proof fn lemma_reverted_stays<U>(k: Keys, entries: Seq<EntryView<U>>, key: Seq<char>)
    requires
        !crate::idempotency::is_committed(k, key),
    ensures
        !crate::idempotency::is_committed(all_reverted(k, entries), key),
    decreases entries.len(),
{
    if entries.len() > 0 {
        lemma_reverted_stays(k, entries.drop_last(), key);
    }
}

/// Giving up what runs above a timer undoes it like an expiry does: everything
/// that was to be undone when it started stays, all above goes, and the forks in
/// between are forgotten. No frame above the timer is left, and the working
/// directory is the one before the outermost scope above it.
pub proof fn law_abandoned_is_undone<B: Host>(
    m: MachineView<B>,
    w: WorldView<B::Undo>,
    k: Keys,
    level: nat,
    on_timeout: Action<B>,
    mark: usize,
    marks: crate::registry::LinearView,
    depth: usize,
    expired: bool,
    answer: spec_fn(B::Undo) -> Result<(), SysError>,
)
    requires
        level < m.frames.len(),
        m.frames[level as int] == (FrameView::<B>::Timer { on_timeout, mark, marks, expired, depth }),
        !(m.control is AwaitBranches),
        mark <= w.undo.ops.len(),
    ensures
        ({
            let s = crate::semantics::abandonment(m, w, k, level);
            let (m1, w1, k1) = undone(s.machine, s.world, s.keys, answer);
            let end = crate::semantics::transition(m1, w1, k1, Event::Go);
            let reg = crate::semantics::registry_below(m.frames, level, w.reg);
            let failed = crate::undo::undo_outcome(
                None,
                crate::undo::undo_order(w.undo.ops, mark as nat).map_values(
                    |e: EntryView<B::Undo>| answer_for(e, answer),
                ),
            );
            let frames = m.frames.take(level as int);
            &&& end.world.undo.ops == w.undo.ops.take(mark as int)
            &&& end.machine == (match failed {
                None => running(m, frames, on_timeout, crate::semantics::deeper(depth)),
                Some(e) => returning(m, frames, Err(e)),
            })
            &&& failed is None ==> end.world.reg == crate::registry::rolled_back_to(reg, marks)
            &&& failed is Some ==> end.world.reg == reg
            &&& end.world.ctx.cwd == crate::semantics::directory_below(
                m.frames,
                level,
                w.ctx.cwd,
            )
        }),
{
    let s = crate::semantics::abandonment(m, w, k, level);
    law_undoing_runs_to_its_end(
        s.machine,
        s.world,
        s.keys,
        mark as nat,
        None,
        GoalView::Timeout { on_timeout, marks, depth },
        answer,
    );
}

/// Giving up leaves scopes like their ends do: if there is a scope among what is
/// dropped above a timer, the working directory is then the one before the
/// outermost; if there is none, it stays.
pub proof fn law_giving_up_leaves_scopes<B: Host>(
    frames: Seq<FrameView<B>>,
    level: nat,
    i: int,
    before: Seq<char>,
    next: B::Next,
    depth: usize,
    cwd: Seq<char>,
)
    requires
        level < frames.len(),
        level < i <= frames.len(),
        forall|j: int| level < j < i ==> !(#[trigger] frames[j] is Scope),
        i < frames.len() ==> frames[i] == (FrameView::<B>::Scope { cwd: before, next, depth }),
    ensures
        crate::semantics::directory_below(frames, level, cwd) == (if i < frames.len() {
            before
        } else {
            cwd
        }),
    decreases frames.len(),
{
    if frames.len() > level + 1 {
        let rest = frames.drop_last();
        assert(forall|j: int| 0 <= j < rest.len() ==> rest[j] == frames[j]);
        if i == frames.len() {
            law_giving_up_leaves_scopes(rest, level, i - 1, before, next, depth, cwd);
        } else {
            let now = match frames.last() {
                FrameView::Scope { cwd: b, .. } => b,
                _ => cwd,
            };
            law_giving_up_leaves_scopes(rest, level, i, before, next, depth, now);
        }
    }
}

/// Branches that run one after the other both run, even if the left one fails, and
/// what they did to the registry is taken in, the left one first. If one fails,
/// the fork does, with the left error first.
pub proof fn law_both_branches_count<B: Host>(
    m: MachineView<B>,
    w: WorldView<B::Undo>,
    k: Keys,
    right: Action<B>,
    right_reg: RegistryView,
    parent: RegistryView,
    combine: B::Combine,
    depth: usize,
    l: ResultView,
    r: ResultView,
    w1: WorldView<B::Undo>,
    k1: Keys,
)
    ensures
        ({
            let f = m.frames.push(FrameView::Left { right, right_reg, parent, combine, depth });
            let s = crate::semantics::transition(returning(m, f, l), w, k, Event::Go);
            let end = crate::semantics::transition(
                returning(m, s.machine.frames, r),
                w1,
                k1,
                Event::Go,
            );
            &&& s.machine == running(
                m,
                s.machine.frames,
                right,
                crate::semantics::deeper(depth),
            )
            &&& s.world == crate::semantics::with_reg(w, right_reg)
            &&& end.world == crate::semantics::with_reg(
                w1,
                crate::registry::merged(crate::registry::merged(parent, w.reg), w1.reg),
            )
            &&& end.machine.frames == m.frames
            &&& match (l, r) {
                (Err(e), _) => end.machine.control == ControlView::<B>::Return(Err(e)),
                (Ok(_), Err(e)) => end.machine.control == ControlView::<B>::Return(Err(e)),
                (Ok(x), Ok(y)) => end.request == RequestView::<B>::Combine {
                    combine,
                    left: x,
                    right: y,
                },
            }
        }),
{
    let frame = FrameView::<B>::Left { right, right_reg, parent, combine, depth };
    let f = m.frames.push(frame);
    assert(f.drop_last() =~= m.frames && f.last() == frame);
    let frame2 = FrameView::<B>::Right { left: l, left_reg: w.reg, parent, combine, depth };
    let f2 = m.frames.push(frame2);
    assert(f2.drop_last() =~= m.frames && f2.last() == frame2);
}

/// Branches that run side by side start alike: each in a copy of the world with
/// nothing to undo, the right one with numbers from a region of its own, and the
/// world itself does not change.
pub proof fn law_branches_start_apart<B: Host>(
    m: MachineView<B>,
    w: WorldView<B::Undo>,
    k: Keys,
    number: u64,
    left: Action<B>,
    right: Action<B>,
    combine: B::Combine,
    depth: usize,
)
    ensures
        ({
            let s = crate::semantics::fork_step(m, w, k, number, left, right, combine, depth);
            &&& s.world == w
            &&& s.keys == k
            &&& s.request matches RequestView::Spawn { left: l, right: r } ==> {
                &&& !crate::fork::conflicting(left, right)
                &&& l.1.undo == crate::undo::fresh_undo::<B::Undo>()
                &&& r.1.undo == crate::undo::fresh_undo::<B::Undo>()
                &&& l.1.reg == w.reg
                &&& r.1.reg.handles == w.reg.handles
                &&& r.1.reg.consumed == w.reg.consumed
                &&& r.1.reg.owned == w.reg.owned
                &&& crate::fork::region_offset(number) matches Ok(offset) && r.1.reg.next_fd
                    == crate::registry::region_base(w.reg) + offset
                &&& l.1.ctx == w.ctx
                &&& r.1.ctx == w.ctx
                &&& l.0.frames.len() == 0
                &&& r.0.frames.len() == 0
            }
        }),
{
}

/// Which of two branches that run side by side is done first does not matter: they
/// are taken in in the same order, the left one first.
pub proof fn law_order_of_completion_does_not_matter<B: Host>(
    m: MachineView<B>,
    w: WorldView<B::Undo>,
    k: Keys,
    combine: B::Combine,
    depth: usize,
    base: nat,
    l: Outcome<B::Undo>,
    r: Outcome<B::Undo>,
)
    requires
        m.control == (ControlView::<B>::AwaitBranches {
            combine,
            depth,
            left: None,
            stash: None,
            base,
        }),
    ensures
        ({
            let left_first = then_step(
                crate::semantics::transition(m, w, k, Event::Left(l)),
                Event::Right(r),
            );
            let right_first = then_step(
                crate::semantics::transition(m, w, k, Event::Right(r)),
                Event::Left(l),
            );
            &&& state(left_first) == state(right_first)
            &&& crate::semantics::joined(w, l.world@, base).1 ==> left_first.request
                == right_first.request
        }),
{
}

/// Running branches side by side or one after the other gives the registry the
/// same: what the left branch did, then what the right one did.
pub proof fn law_branches_are_taken_in_alike<B: Host>(
    m: MachineView<B>,
    w: WorldView<B::Undo>,
    k: Keys,
    combine: B::Combine,
    depth: usize,
    base: nat,
    l: Outcome<B::Undo>,
    r: Outcome<B::Undo>,
)
    requires
        m.control == (ControlView::<B>::AwaitBranches {
            combine,
            depth,
            left: None,
            stash: None,
            base,
        }),
        crate::semantics::joined(w, l.world@, base).1,
        crate::semantics::joined(crate::semantics::joined(w, l.world@, base).0, r.world@, base).1,
    ensures
        ({
            let end = then_step(
                crate::semantics::transition(m, w, k, Event::Left(l)),
                Event::Right(r),
            );
            &&& end.world.reg == crate::registry::merged(
                crate::registry::merged(w.reg, l.world@.reg),
                r.world@.reg,
            )
            &&& end.world.undo == crate::undo::stacked(
                crate::undo::stacked(w.undo, l.world@.undo),
                r.world@.undo,
            )
            &&& end.world.ctx.clock == (match w.ctx.clock {
                Some(now) => Some(
                    now + crate::semantics::branch_delay(l.world@.ctx, base)
                        + crate::semantics::branch_delay(r.world@.ctx, base),
                ),
                None => None,
            })
            &&& end.world.ctx.cwd == w.ctx.cwd
            &&& end.machine.frames == m.frames
        }),
{
}

/// Branches commute: taken in in the other order, they leave the same cost, the
/// same mark of what is irreversible, the same count of replacements, the same clock,
/// the same handles and marks, and the same to undo, in another order. Neither may
/// have a handle of its own under a number that the other has.
pub proof fn law_branches_commute<U>(
    w: WorldView<U>,
    l: WorldView<U>,
    r: WorldView<U>,
    base: nat,
)
    requires
        forall|fd: crate::action::Fd|
            #![trigger l.reg.handles[fd]]
            #![trigger r.reg.handles[fd]]
            l.reg.handles.contains_key(fd) && r.reg.handles.contains_key(fd)
                ==> l.reg.handles[fd] == r.reg.handles[fd],
        crate::semantics::joined(w, l, base).1,
        crate::semantics::joined(crate::semantics::joined(w, l, base).0, r, base).1,
    ensures
        ({
            let lr = crate::semantics::joined(crate::semantics::joined(w, l, base).0, r, base);
            let rl = crate::semantics::joined(crate::semantics::joined(w, r, base).0, l, base);
            &&& crate::semantics::joined(w, r, base).1 && rl.1
            &&& lr.0.ctx == rl.0.ctx
            &&& lr.0.undo.accrued == rl.0.undo.accrued
            &&& lr.0.undo.irreversible == rl.0.undo.irreversible
            &&& lr.0.undo.replacements == rl.0.undo.replacements
            &&& lr.0.undo.ops.to_multiset() == rl.0.undo.ops.to_multiset()
            &&& lr.0.reg.handles == rl.0.reg.handles
            &&& lr.0.reg.consumed == rl.0.reg.consumed
            &&& lr.0.reg.owned == rl.0.reg.owned
            &&& lr.0.reg.next_fd == rl.0.reg.next_fd
        }),
{
    crate::registry::law_taking_in_commutes(w.reg, l.reg, r.reg);
    crate::cost::law_cost_sum_monoid(l.undo.accrued, r.undo.accrued, w.undo.accrued);
    crate::cost::law_cost_sum_monoid(w.undo.accrued, l.undo.accrued, r.undo.accrued);
    crate::cost::law_cost_sum_monoid(w.undo.accrued, r.undo.accrued, l.undo.accrued);
    vstd::seq_lib::lemma_multiset_commutative(w.undo.ops, l.undo.ops);
    vstd::seq_lib::lemma_multiset_commutative(w.undo.ops + l.undo.ops, r.undo.ops);
    vstd::seq_lib::lemma_multiset_commutative(w.undo.ops, r.undo.ops);
    vstd::seq_lib::lemma_multiset_commutative(w.undo.ops + r.undo.ops, l.undo.ops);
    let a = (w.undo.ops + l.undo.ops + r.undo.ops).to_multiset();
    let b = (w.undo.ops + r.undo.ops + l.undo.ops).to_multiset();
    assert(a =~= b);
}

} // verus!
