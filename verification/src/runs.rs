//! What holds of whole runs: a blueprint, started afresh, with a driver that always
//! acts alike.

use vstd::prelude::*;

use crate::action::{Action, Host, ValueView};
use crate::idempotency::Keys;
use crate::interpreter::Event;
use crate::registry::RegistryView;
use crate::semantics::{
    ControlView, FrameView, GoalView, MachineView, RequestView, ResultView, StepView, WorldView,
};

verus! {

/// What a driver does about a request that it does not answer by itself: it answers,
/// with a registry that an operation may have changed, or a timer goes off before
/// that. Timers are counted from the outermost.
#[verifier::reject_recursive_types(B)]
pub enum Reaction<B: Host> {
    Answer(RegistryView, Event<B>),
    Expire(nat),
    Abandon(RegistryView, nat),
}

/// What a driver notes down.
#[verifier::reject_recursive_types(B)]
pub enum Note<B: Host> {
    Asked(RequestView<B>),
    Expired(nat),
    Abandoned(nat),
}

/// A driver that always acts alike: what continuations make of a value, and what is
/// done about everything else, given its notes and the registry.
#[verifier::reject_recursive_types(B)]
pub struct Driver<B: Host> {
    pub call: spec_fn(B::Next, ValueView) -> Action<B>,
    pub react: spec_fn(Seq<Note<B>>, RegistryView, RequestView<B>) -> Reaction<B>,
}

/// A run at some point: the machine with its world and its keys, what the machine
/// asks for now, and the driver's notes.
#[verifier::reject_recursive_types(B)]
#[verifier::ext_equal]
pub struct RunView<B: Host> {
    pub machine: MachineView<B>,
    pub world: WorldView<B::Undo>,
    pub keys: Keys,
    pub request: RequestView<B>,
    pub notes: Seq<Note<B>>,
}

/// A run that begins.
pub open spec fn begun<B: Host>(
    action: Action<B>,
    parallel: bool,
    w: WorldView<B::Undo>,
    k: Keys,
) -> RunView<B> {
    RunView {
        machine: crate::semantics::starting(action, parallel, false),
        world: w,
        keys: k,
        request: RequestView::Continue,
        notes: Seq::empty(),
    }
}

/// What a driver sees of a request: a timer, but not the level that it is for.
pub open spec fn seen<B: Host>(request: RequestView<B>) -> RequestView<B> {
    match request {
        RequestView::ArmTimer { duration, .. } => RequestView::ArmTimer { level: 0, duration },
        _ => request,
    }
}

/// A run after a step.
pub open spec fn stepped_to<B: Host>(step: StepView<B>, notes: Seq<Note<B>>) -> RunView<B> {
    RunView {
        machine: step.machine,
        world: step.world,
        keys: step.keys,
        request: step.request,
        notes,
    }
}

/// A run after an answer.
pub open spec fn answered<B: Host>(
    s: RunView<B>,
    w: WorldView<B::Undo>,
    event: Event<B>,
    notes: Seq<Note<B>>,
) -> RunView<B> {
    stepped_to(crate::semantics::transition(s.machine, w, s.keys, event), notes)
}

/// How many timers there are.
pub open spec fn timers_in<B: Host>(frames: Seq<FrameView<B>>) -> nat
    decreases frames.len(),
{
    if frames.len() == 0 {
        0
    } else {
        timers_in(frames.drop_last()) + if is_timer(frames.last()) {
            1nat
        } else {
            0nat
        }
    }
}

/// Whether a frame is that of a timer.
pub open spec fn is_timer<B: Host>(f: FrameView<B>) -> bool {
    f is Timer || f is Deadline
}

/// The level of a timer, or above all frames where there is none.
pub open spec fn timer_level<B: Host>(frames: Seq<FrameView<B>>, i: nat) -> nat
    decreases frames.len(),
{
    if frames.len() == 0 {
        0
    } else {
        let before = frames.drop_last();
        if timers_in(before) > i {
            timer_level(before, i)
        } else if timers_in(before) == i && is_timer(frames.last()) {
            before.len()
        } else {
            frames.len()
        }
    }
}

/// A run after the driver has done something about the request.
pub open spec fn reacted<B: Host>(s: RunView<B>, reaction: Reaction<B>) -> RunView<B> {
    match reaction {
        Reaction::Answer(reg, event) => answered(
            s,
            crate::semantics::with_reg(s.world, reg),
            event,
            s.notes.push(Note::Asked(seen(s.request))),
        ),
        Reaction::Expire(i) => RunView {
            machine: MachineView {
                frames: crate::semantics::expired_from(
                    s.machine.frames,
                    timer_level(s.machine.frames, i) as int,
                ),
                ..s.machine
            },
            notes: s.notes.push(Note::Expired(i)),
            ..s
        },
        Reaction::Abandon(reg, i) => stepped_to(
            crate::semantics::abandonment(
                s.machine,
                crate::semantics::with_reg(s.world, reg),
                s.keys,
                timer_level(s.machine.frames, i),
            ),
            s.notes.push(Note::Abandoned(i)),
        ),
    }
}

/// A run after the next thing that the driver does. One that is over stays as it is.
#[verifier::opaque]
pub open spec fn advanced<B: Host>(d: Driver<B>, s: RunView<B>) -> RunView<B> {
    match s.request {
        RequestView::Finished(_) => s,
        RequestView::Overflow => s,
        RequestView::Continue => answered(s, s.world, Event::Go, s.notes),
        RequestView::Call { next, value } => answered(
            s,
            s.world,
            Event::Action((d.call)(next, value)),
            s.notes,
        ),
        _ => reacted(s, (d.react)(s.notes, s.world.reg, seen(s.request))),
    }
}

/// A run after this many things that the driver did.
pub open spec fn after<B: Host>(d: Driver<B>, s: RunView<B>, n: nat) -> RunView<B>
    decreases n,
{
    if n == 0 {
        s
    } else {
        advanced(d, after(d, s, (n - 1) as nat))
    }
}

/// Whether a run ends with this result, leaving this world, these keys and these
/// notes.
pub open spec fn ends<B: Host>(
    d: Driver<B>,
    s: RunView<B>,
    r: ResultView,
    w: WorldView<B::Undo>,
    k: Keys,
    notes: Seq<Note<B>>,
) -> bool {
    exists|n: nat| is_end(#[trigger] after(d, s, n), r, w, k, notes)
}

/// Whether a run is over, with this result, world, keys and notes.
pub open spec fn is_end<B: Host>(
    s: RunView<B>,
    r: ResultView,
    w: WorldView<B::Undo>,
    k: Keys,
    notes: Seq<Note<B>>,
) -> bool {
    s.request == RequestView::<B>::Finished(r) && s.world == w && s.keys == k && s.notes == notes
}

/// Whether no node of a run is refused for its depth.
pub open spec fn stays_shallow<B: Host>(d: Driver<B>, s: RunView<B>) -> bool {
    forall|n: nat|
        (#[trigger] after(d, s, n)).machine.control matches ControlView::Run { depth, .. }
            ==> depth < crate::semantics::MAX_NESTING_DEPTH
}

/// A frame one level deeper.
spec fn deeper_frame<B: Host>(f: FrameView<B>) -> FrameView<B> {
    match f {
        FrameView::Then { next, depth } => FrameView::Then { next, depth: (depth + 1) as usize },
        FrameView::Scope { cwd, next, depth } => FrameView::Scope {
            cwd,
            next,
            depth: (depth + 1) as usize,
        },
        FrameView::Catch { handler, depth } => FrameView::Catch {
            handler,
            depth: (depth + 1) as usize,
        },
        FrameView::Keyed { key, mark, replacements, next, depth } => FrameView::Keyed {
            key,
            mark,
            replacements,
            next,
            depth: (depth + 1) as usize,
        },
        FrameView::Left { right, right_reg, parent, combine, depth } => FrameView::Left {
            right,
            right_reg,
            parent,
            combine,
            depth: (depth + 1) as usize,
        },
        FrameView::Right { left, left_reg, parent, combine, depth } => FrameView::Right {
            left,
            left_reg,
            parent,
            combine,
            depth: (depth + 1) as usize,
        },
        FrameView::Timer { on_timeout, mark, marks, expired, depth } => FrameView::Timer {
            on_timeout,
            mark,
            marks,
            expired,
            depth: (depth + 1) as usize,
        },
        FrameView::Deadline { on_timeout, deadline, mark, marks, depth } => FrameView::Deadline {
            on_timeout,
            deadline,
            mark,
            marks,
            depth: (depth + 1) as usize,
        },
    }
}

/// What follows an undoing, one level deeper.
spec fn deeper_goal<B: Host>(g: GoalView<B>) -> GoalView<B> {
    match g {
        GoalView::Replace { target, depth } => GoalView::Replace {
            target,
            depth: (depth + 1) as usize,
        },
        GoalView::Timeout { on_timeout, marks, depth } => GoalView::Timeout {
            on_timeout,
            marks,
            depth: (depth + 1) as usize,
        },
    }
}

/// A control one level deeper.
spec fn deeper_control<B: Host>(c: ControlView<B>) -> ControlView<B> {
    match c {
        ControlView::Run { action, depth } => ControlView::Run {
            action,
            depth: (depth + 1) as usize,
        },
        ControlView::Undo { mark, error, goal } => ControlView::Undo {
            mark,
            error,
            goal: deeper_goal(goal),
        },
        ControlView::AwaitNext { depth } => ControlView::AwaitNext { depth: (depth + 1) as usize },
        ControlView::AwaitChoice { then_branch, else_branch, depth } => ControlView::AwaitChoice {
            then_branch,
            else_branch,
            depth: (depth + 1) as usize,
        },
        ControlView::AwaitExecuted { cost, uses, next, depth } => ControlView::AwaitExecuted {
            cost,
            uses,
            next,
            depth: (depth + 1) as usize,
        },
        ControlView::AwaitReply { next, depth } => ControlView::AwaitReply {
            next,
            depth: (depth + 1) as usize,
        },
        ControlView::AwaitSlept { next, depth } => ControlView::AwaitSlept {
            next,
            depth: (depth + 1) as usize,
        },
        ControlView::AwaitUndone { mark, error, goal } => ControlView::AwaitUndone {
            mark,
            error,
            goal: deeper_goal(goal),
        },
        ControlView::AwaitRegion { left, right, combine, depth } => ControlView::AwaitRegion {
            left,
            right,
            combine,
            depth: (depth + 1) as usize,
        },
        ControlView::AwaitBranches { combine, depth, left, stash, base } => ControlView::AwaitBranches {
            combine,
            depth: (depth + 1) as usize,
            left,
            stash,
            base,
        },
        ControlView::Return(r) => ControlView::Return(r),
        ControlView::Finished => ControlView::Finished,
    }
}

/// Frames one level deeper.
spec fn deeper_frames<B: Host>(frames: Seq<FrameView<B>>) -> Seq<FrameView<B>> {
    frames.map_values(|f: FrameView<B>| deeper_frame(f))
}

/// A machine one level deeper.
spec fn deeper_machine<B: Host>(m: MachineView<B>) -> MachineView<B> {
    MachineView {
        frames: deeper_frames(m.frames),
        control: deeper_control(m.control),
        ..m
    }
}

/// How deep the node of a frame is.
spec fn frame_depth<B: Host>(f: FrameView<B>) -> usize {
    match f {
        FrameView::Then { depth, .. } => depth,
        FrameView::Scope { depth, .. } => depth,
        FrameView::Catch { depth, .. } => depth,
        FrameView::Keyed { depth, .. } => depth,
        FrameView::Left { depth, .. } => depth,
        FrameView::Right { depth, .. } => depth,
        FrameView::Timer { depth, .. } => depth,
        FrameView::Deadline { depth, .. } => depth,
    }
}

/// How deep the node is that an undoing is for.
spec fn goal_depth<B: Host>(g: GoalView<B>) -> usize {
    match g {
        GoalView::Replace { depth, .. } => depth,
        GoalView::Timeout { depth, .. } => depth,
    }
}

/// Whether there is room for one more level: under the nodes that run, and above
/// the node that is about to.
spec fn has_a_level_left<B: Host>(m: MachineView<B>) -> bool {
    let last = crate::semantics::MAX_NESTING_DEPTH - 1;
    &&& forall|i: int| 0 <= i < m.frames.len() ==> frame_depth(#[trigger] m.frames[i]) < last
    &&& match m.control {
        ControlView::Run { depth, .. } => depth <= last,
        ControlView::AwaitNext { depth } => depth <= last,
        ControlView::Undo { goal, .. } => goal_depth(goal) < last,
        ControlView::AwaitUndone { goal, .. } => goal_depth(goal) < last,
        ControlView::AwaitChoice { depth, .. } => depth < last,
        ControlView::AwaitExecuted { depth, .. } => depth < last,
        ControlView::AwaitReply { depth, .. } => depth < last,
        ControlView::AwaitSlept { depth, .. } => depth < last,
        ControlView::AwaitRegion { depth, .. } => depth < last,
        ControlView::AwaitBranches { depth, .. } => depth < last,
        ControlView::Return(_) => true,
        ControlView::Finished => true,
    }
}

proof fn lemma_deeper_frames<B: Host>(frames: Seq<FrameView<B>>)
    ensures
        forall|x: FrameView<B>| #[trigger]
            deeper_frames(frames.push(x)) == deeper_frames(frames).push(deeper_frame(x)),
        frames.len() > 0 ==> deeper_frames(frames.drop_last()) == deeper_frames(
            frames,
        ).drop_last(),
        frames.len() > 0 ==> deeper_frames(frames).last() == deeper_frame(frames.last()),
{
    assert forall|x: FrameView<B>| #[trigger]
        deeper_frames(frames.push(x)) == deeper_frames(frames).push(deeper_frame(x)) by {
        assert(deeper_frames(frames.push(x)) =~= deeper_frames(frames).push(deeper_frame(x)));
    }
    if frames.len() > 0 {
        assert(deeper_frames(frames.drop_last()) =~= deeper_frames(frames).drop_last());
    }
}

proof fn lemma_deeper_timed_out<B: Host>(frames: Seq<FrameView<B>>, outer: bool)
    ensures
        crate::semantics::timed_out(deeper_frames(frames), outer) == crate::semantics::timed_out(
            frames,
            outer,
        ),
    decreases frames.len(),
{
    if frames.len() > 0 {
        lemma_deeper_frames(frames);
        lemma_deeper_timed_out(frames.drop_last(), outer);
    }
}

/// Depth does not show: one level deeper, a step is the same, as long as nothing is
/// refused for its depth.
proof fn lemma_deeper_step<B: Host>(
    m: MachineView<B>,
    w: WorldView<B::Undo>,
    k: Keys,
    event: Event<B>,
)
    requires
        has_a_level_left(m),
        m.control matches ControlView::Run { depth, .. } ==> depth + 1
            < crate::semantics::MAX_NESTING_DEPTH,
    ensures
        ({
            let s = crate::semantics::transition(m, w, k, event);
            let t = crate::semantics::transition(deeper_machine(m), w, k, event);
            &&& t.machine == deeper_machine(s.machine)
            &&& t.world == s.world
            &&& t.keys == s.keys
            &&& t.request == s.request
            &&& has_a_level_left(s.machine)
        }),
{
    lemma_deeper_frames(m.frames);
    lemma_deeper_timed_out(m.frames, m.cancelled);
    match m.control {
        ControlView::Run { action, depth } => {
            lemma_deeper_run(m, w, k, action, depth);
        },
        ControlView::Return(r) => {
            lemma_deeper_return(m, w, k, r);
        },
        _ => {},
    }
}

proof fn lemma_deeper_run<B: Host>(
    m: MachineView<B>,
    w: WorldView<B::Undo>,
    k: Keys,
    action: Action<B>,
    depth: usize,
)
    requires
        has_a_level_left(m),
        m.control == (ControlView::<B>::Run { action, depth }),
        depth + 1 < crate::semantics::MAX_NESTING_DEPTH,
    ensures
        ({
            let s = crate::semantics::run_step(m, w, k, action, depth);
            let t = crate::semantics::run_step(
                deeper_machine(m),
                w,
                k,
                action,
                (depth + 1) as usize,
            );
            &&& t.machine == deeper_machine(s.machine)
            &&& t.world == s.world
            &&& t.keys == s.keys
            &&& t.request == s.request
            &&& has_a_level_left(s.machine)
        }),
{
    lemma_deeper_frames(m.frames);
    lemma_deeper_timed_out(m.frames, m.cancelled);
}

proof fn lemma_deeper_return<B: Host>(
    m: MachineView<B>,
    w: WorldView<B::Undo>,
    k: Keys,
    r: ResultView,
)
    requires
        has_a_level_left(m),
    ensures
        ({
            let s = crate::semantics::return_step(m, w, k, r);
            let t = crate::semantics::return_step(deeper_machine(m), w, k, r);
            &&& t.machine == deeper_machine(s.machine)
            &&& t.world == s.world
            &&& t.keys == s.keys
            &&& t.request == s.request
            &&& has_a_level_left(s.machine)
        }),
{
    lemma_deeper_frames(m.frames);
    if m.frames.len() > 0 {
        lemma_deeper_frames(m.frames.drop_last());
    }
}

/// Depth does not show when timers go off.
proof fn lemma_deeper_alarm<B: Host>(
    m: MachineView<B>,
    w: WorldView<B::Undo>,
    k: Keys,
    i: nat,
)
    requires
        has_a_level_left(m),
    ensures
        ({
            let level = timer_level(m.frames, i);
            let e = crate::semantics::expired_from(m.frames, level as int);
            let s = crate::semantics::abandonment(m, w, k, level);
            let t = crate::semantics::abandonment(deeper_machine(m), w, k, level);
            &&& timer_level(deeper_frames(m.frames), i) == level
            &&& crate::semantics::expired_from(deeper_frames(m.frames), level as int)
                == deeper_frames(e)
            &&& has_a_level_left(MachineView { frames: e, ..m })
            &&& t.machine == deeper_machine(s.machine)
            &&& t.world == s.world
            &&& t.keys == s.keys
            &&& t.request == s.request
            &&& has_a_level_left(s.machine)
        }),
{
    let level = timer_level(m.frames, i);
    let e = crate::semantics::expired_from(m.frames, level as int);
    lemma_deeper_timers(m.frames, i);
    assert(crate::semantics::expired_from(deeper_frames(m.frames), level as int) =~= deeper_frames(
        e,
    ));
    assert forall|j: int| 0 <= j < e.len() implies frame_depth(#[trigger] e[j]) == frame_depth(
        m.frames[j],
    ) by {}
    if level < m.frames.len() {
        assert(deeper_frames(m.frames).take(level as int) =~= deeper_frames(
            m.frames.take(level as int),
        ));
        let taken = match m.control {
            ControlView::AwaitBranches { stash: Some((_, branch)), base, .. } => {
                crate::semantics::joined(w, branch, base)
            },
            _ => (w, true),
        };
        lemma_deeper_below(m.frames, level, taken.0.reg, taken.0.ctx.cwd);
    }
}

proof fn lemma_deeper_timers<B: Host>(frames: Seq<FrameView<B>>, i: nat)
    ensures
        timers_in(deeper_frames(frames)) == timers_in(frames),
        timer_level(deeper_frames(frames), i) == timer_level(frames, i),
    decreases frames.len(),
{
    lemma_deeper_frames(frames);
    if frames.len() > 0 {
        lemma_deeper_timers(frames.drop_last(), i);
    }
}

proof fn lemma_deeper_below<B: Host>(
    frames: Seq<FrameView<B>>,
    level: nat,
    reg: RegistryView,
    cwd: Seq<char>,
)
    ensures
        crate::semantics::registry_below(deeper_frames(frames), level, reg)
            == crate::semantics::registry_below(frames, level, reg),
        crate::semantics::directory_below(deeper_frames(frames), level, cwd)
            == crate::semantics::directory_below(frames, level, cwd),
    decreases frames.len(),
{
    lemma_deeper_frames(frames);
    if frames.len() > level + 1 {
        lemma_deeper_below(
            frames.drop_last(),
            level,
            match frames.last() {
                FrameView::Left { parent, .. } => parent,
                FrameView::Right { parent, .. } => parent,
                _ => reg,
            },
            match frames.last() {
                FrameView::Scope { cwd: before, .. } => before,
                _ => cwd,
            },
        );
    }
}

/// Frames below without a timer do not show when timers go off.
proof fn lemma_alarm_inside<B: Host>(
    m: MachineView<B>,
    below: Seq<FrameView<B>>,
    w: WorldView<B::Undo>,
    k: Keys,
    i: nat,
)
    requires
        timers_in(below) == 0,
        !m.cancelled,
    ensures
        ({
            let level = timer_level(m.frames, i);
            let within = crate::laws::inside(m, below, false);
            let s = crate::semantics::abandonment(m, w, k, level);
            let t = crate::semantics::abandonment(within, w, k, level + below.len());
            &&& timer_level(within.frames, i) == level + below.len()
            &&& crate::semantics::expired_from(within.frames, (level + below.len()) as int) == below
                + crate::semantics::expired_from(m.frames, level as int)
            &&& t.machine == crate::laws::inside(s.machine, below, false)
            &&& t.world == s.world
            &&& t.keys == s.keys
            &&& t.request == s.request
            &&& !s.machine.cancelled
        }),
{
    let level = timer_level(m.frames, i);
    lemma_timers_inside(below, m.frames, i);
    let all = below + m.frames;
    assert(crate::semantics::expired_from(all, (level + below.len()) as int) =~= below
        + crate::semantics::expired_from(m.frames, level as int));
    if level < m.frames.len() {
        assert(all.take((level + below.len()) as int) =~= below + m.frames.take(level as int));
        assert(all[(level + below.len()) as int] == m.frames[level as int]);
        let taken = match m.control {
            ControlView::AwaitBranches { stash: Some((_, branch)), base, .. } => {
                crate::semantics::joined(w, branch, base)
            },
            _ => (w, true),
        };
        lemma_below_inside(below, m.frames, level, taken.0.reg, taken.0.ctx.cwd);
    }
}

proof fn lemma_timers_inside<B: Host>(
    below: Seq<FrameView<B>>,
    frames: Seq<FrameView<B>>,
    i: nat,
)
    requires
        timers_in(below) == 0,
    ensures
        timers_in(below + frames) == timers_in(frames),
        timer_level(below + frames, i) == below.len() + timer_level(frames, i),
    decreases frames.len(),
{
    if frames.len() == 0 {
        assert(below + frames =~= below);
    } else {
        assert((below + frames).drop_last() =~= below + frames.drop_last());
        assert((below + frames).last() == frames.last());
        lemma_timers_inside(below, frames.drop_last(), i);
    }
}

proof fn lemma_below_inside<B: Host>(
    below: Seq<FrameView<B>>,
    frames: Seq<FrameView<B>>,
    level: nat,
    reg: RegistryView,
    cwd: Seq<char>,
)
    ensures
        crate::semantics::registry_below(below + frames, level + below.len(), reg)
            == crate::semantics::registry_below(frames, level, reg),
        crate::semantics::directory_below(below + frames, level + below.len(), cwd)
            == crate::semantics::directory_below(frames, level, cwd),
    decreases frames.len(),
{
    if frames.len() > level + 1 {
        assert((below + frames).drop_last() =~= below + frames.drop_last());
        assert((below + frames).last() == frames.last());
        lemma_below_inside(
            below,
            frames.drop_last(),
            level,
            match frames.last() {
                FrameView::Left { parent, .. } => parent,
                FrameView::Right { parent, .. } => parent,
                _ => reg,
            },
            match frames.last() {
                FrameView::Scope { cwd: before, .. } => before,
                _ => cwd,
            },
        );
    }
}

/// A run on top of more frames.
spec fn on_top<B: Host>(s: RunView<B>, below: Seq<FrameView<B>>) -> RunView<B> {
    RunView {
        machine: crate::laws::inside(s.machine, below, false),
        request: crate::laws::raised(s.request, below.len()),
        ..s
    }
}

/// A run one level deeper.
spec fn deeper_run<B: Host>(s: RunView<B>) -> RunView<B> {
    RunView { machine: deeper_machine(s.machine), ..s }
}

/// Whether the blueprint of a run has ended, before its result is handed out.
spec fn is_done<B: Host>(s: RunView<B>) -> bool {
    s.machine.control is Return && s.machine.frames.len() == 0
}

proof fn lemma_not_timed_out<B: Host>(below: Seq<FrameView<B>>)
    requires
        timers_in(below) == 0,
    ensures
        !crate::semantics::timed_out(below, false),
    decreases below.len(),
{
    if below.len() > 0 {
        lemma_not_timed_out(below.drop_last());
    }
}

proof fn lemma_advance_on_top<B: Host>(d: Driver<B>, s: RunView<B>, below: Seq<FrameView<B>>)
    requires
        timers_in(below) == 0,
        !s.machine.cancelled,
        !is_done(s),
    ensures
        advanced(d, on_top(s, below)) == on_top(advanced(d, s), below),
        !advanced(d, s).machine.cancelled,
{
    reveal(advanced);
    lemma_not_timed_out(below);
    let t = on_top(s, below);
    match s.request {
        RequestView::Finished(_) => {},
        RequestView::Overflow => {},
        RequestView::Continue => {
            crate::laws::law_runs_the_same_anywhere(
                s.machine,
                below,
                false,
                s.world,
                s.keys,
                Event::Go,
            );
        },
        RequestView::Call { next, value } => {
            crate::laws::law_runs_the_same_anywhere(
                s.machine,
                below,
                false,
                s.world,
                s.keys,
                Event::Action((d.call)(next, value)),
            );
        },
        _ => {
            assert(seen(t.request) == seen(s.request));
            match (d.react)(s.notes, s.world.reg, seen(s.request)) {
                Reaction::Answer(reg, event) => {
                    crate::laws::law_runs_the_same_anywhere(
                        s.machine,
                        below,
                        false,
                        crate::semantics::with_reg(s.world, reg),
                        s.keys,
                        event,
                    );
                },
                Reaction::Expire(i) => {
                    lemma_alarm_inside(s.machine, below, s.world, s.keys, i);
                },
                Reaction::Abandon(reg, i) => {
                    let w = crate::semantics::with_reg(s.world, reg);
                    lemma_alarm_inside(s.machine, below, w, s.keys, i);
                },
            }
        },
    }
}

proof fn lemma_advance_deeper<B: Host>(d: Driver<B>, s: RunView<B>)
    requires
        has_a_level_left(s.machine),
        s.machine.control matches ControlView::Run { depth, .. } ==> depth + 1
            < crate::semantics::MAX_NESTING_DEPTH,
    ensures
        advanced(d, deeper_run(s)) == deeper_run(advanced(d, s)),
        has_a_level_left(advanced(d, s).machine),
{
    reveal(advanced);
    match s.request {
        RequestView::Finished(_) => {},
        RequestView::Overflow => {},
        RequestView::Continue => {
            lemma_deeper_step(s.machine, s.world, s.keys, Event::Go);
        },
        RequestView::Call { next, value } => {
            lemma_deeper_step(s.machine, s.world, s.keys, Event::Action((d.call)(next, value)));
        },
        _ => {
            match (d.react)(s.notes, s.world.reg, seen(s.request)) {
                Reaction::Answer(reg, event) => {
                    let w = crate::semantics::with_reg(s.world, reg);
                    lemma_deeper_step(s.machine, w, s.keys, event);
                },
                Reaction::Expire(i) => {
                    lemma_deeper_alarm(s.machine, s.world, s.keys, i);
                },
                Reaction::Abandon(reg, i) => {
                    let w = crate::semantics::with_reg(s.world, reg);
                    lemma_deeper_alarm(s.machine, w, s.keys, i);
                },
            }
        },
    }
}

/// What a run looks like whenever it hands a result on, and that it is not over
/// before its blueprint is.
spec fn is_regular<B: Host>(s: RunView<B>) -> bool {
    &&& s.machine.control is Return ==> s.request is Continue
    &&& !(s.request is Finished)
}

proof fn lemma_advance_regular<B: Host>(d: Driver<B>, s: RunView<B>)
    requires
        is_regular(s),
        !is_done(s),
    ensures
        is_regular(advanced(d, s)),
{
    reveal(advanced);
    match s.request {
        RequestView::Overflow => {},
        RequestView::Continue => {
            lemma_step_regular(s.machine, s.world, s.keys, Event::Go);
        },
        RequestView::Call { next, value } => {
            lemma_step_regular(s.machine, s.world, s.keys, Event::Action((d.call)(next, value)));
        },
        _ => {
            match (d.react)(s.notes, s.world.reg, seen(s.request)) {
                Reaction::Answer(reg, event) => {
                    let w = crate::semantics::with_reg(s.world, reg);
                    lemma_step_regular(s.machine, w, s.keys, event);
                },
                Reaction::Expire(i) => {},
                Reaction::Abandon(reg, i) => {},
            }
        },
    }
}

proof fn lemma_step_regular<B: Host>(
    m: MachineView<B>,
    w: WorldView<B::Undo>,
    k: Keys,
    event: Event<B>,
)
    requires
        m.control is Return ==> event is Go && m.frames.len() > 0,
    ensures
        ({
            let s = crate::semantics::transition(m, w, k, event);
            &&& s.machine.control is Return ==> s.request is Continue
            &&& !(s.request is Finished)
        }),
{
}

/// `(a; f); g`
pub open spec fn left_bracketed<B: Host>(a: Action<B>, f: B::Next, g: B::Next) -> Action<B> {
    Action::Sequential {
        current: Box::new(Action::Sequential { current: Box::new(a), next: f }),
        next: g,
    }
}

/// `a; h`
pub open spec fn followed<B: Host>(a: Action<B>, h: B::Next) -> Action<B> {
    Action::Sequential { current: Box::new(a), next: h }
}

/// The run of a blueprint that is part of another.
spec fn part<B: Host>(a: Action<B>, parallel: bool, w: WorldView<B::Undo>, k: Keys) -> RunView<B> {
    let s = begun(a, parallel, w, k);
    RunView {
        machine: MachineView { control: ControlView::Run { action: a, depth: 1 }, ..s.machine },
        ..s
    }
}

/// What is left to do after `a` in `(a; f); g`.
spec fn left_rest<B: Host>(f: B::Next, g: B::Next) -> Seq<FrameView<B>> {
    seq![FrameView::Then { next: g, depth: 0 }, FrameView::Then { next: f, depth: 1 }]
}

/// What is left to do after `a` in `a; h`.
spec fn right_rest<B: Host>(h: B::Next) -> Seq<FrameView<B>> {
    seq![FrameView::Then { next: h, depth: 0 }]
}

proof fn lemma_rests<B: Host>(f: B::Next, g: B::Next, h: B::Next)
    ensures
        timers_in(left_rest::<B>(f, g)) == 0,
        timers_in(right_rest::<B>(h)) == 0,
{
    reveal_with_fuel(timers_in, 3);
}

/// While `a` runs, both bracketings run it alike.
proof fn lemma_together<B: Host>(
    d: Driver<B>,
    parallel: bool,
    w: WorldView<B::Undo>,
    k: Keys,
    a: Action<B>,
    f: B::Next,
    g: B::Next,
    h: B::Next,
    j: nat,
)
    requires
        stays_shallow(d, begun(left_bracketed(a, f, g), parallel, w, k)),
        forall|i: nat| i < j ==> !is_done(#[trigger] after(d, part(a, parallel, w, k), i)),
    ensures
        ({
            let s = after(d, part(a, parallel, w, k), j);
            &&& after(d, begun(left_bracketed(a, f, g), parallel, w, k), j + 2) == on_top(
                deeper_run(s),
                left_rest(f, g),
            )
            &&& after(d, begun(followed(a, h), parallel, w, k), j + 1) == on_top(s, right_rest(h))
            &&& has_a_level_left(s.machine)
            &&& !s.machine.cancelled
            &&& is_regular(s)
        }),
    decreases j,
{
    let left = begun(left_bracketed(a, f, g), parallel, w, k);
    let right = begun(followed(a, h), parallel, w, k);
    let alone = part(a, parallel, w, k);
    lemma_rests::<B>(f, g, h);
    if j == 0 {
        reveal_with_fuel(after, 3);
        reveal(advanced);
        let one = Seq::<FrameView<B>>::empty().push(FrameView::Then { next: g, depth: 0 });
        let l1 = advanced(d, left);
        assert(l1.machine.frames =~= one);
        assert(!crate::semantics::timed_out(one, false)) by {
            reveal_with_fuel(crate::semantics::timed_out, 2);
        }
        let l2 = advanced(d, l1);
        assert(l2.machine.frames =~= left_rest(f, g) + deeper_frames(alone.machine.frames));
        let r1 = advanced(d, right);
        assert(r1.machine.frames =~= right_rest(h) + alone.machine.frames);
    } else {
        let i = (j - 1) as nat;
        lemma_together(d, parallel, w, k, a, f, g, h, i);
        let s = after(d, alone, i);
        assert(!is_done(s));
        let l = after(d, left, i + 2);
        assert(l.machine.control == deeper_control(s.machine.control));
        lemma_advance_deeper(d, s);
        lemma_advance_on_top(d, deeper_run(s), left_rest(f, g));
        lemma_advance_on_top(d, s, right_rest(h));
        lemma_advance_regular(d, s);
        assert((i + 2 + 1) as nat == j + 2);
        assert((i + 1 + 1) as nat == j + 1);
    }
}

proof fn lemma_after_sum<B: Host>(d: Driver<B>, s: RunView<B>, m: nat, n: nat)
    ensures
        after(d, s, m + n) == after(d, after(d, s, m), n),
    decreases n,
{
    if n > 0 {
        lemma_after_sum(d, s, m, (n - 1) as nat);
    }
}

proof fn lemma_over_stays<B: Host>(d: Driver<B>, s: RunView<B>, n: nat)
    requires
        s.request is Finished,
    ensures
        after(d, s, n) == s,
    decreases n,
{
    reveal(advanced);
    if n > 0 {
        lemma_over_stays(d, s, (n - 1) as nat);
    }
}

/// A result is handed to what is left of `(a; f); g`.
proof fn lemma_left_goes_on<B: Host>(
    d: Driver<B>,
    s: RunView<B>,
    f: B::Next,
    g: B::Next,
    result: ResultView,
)
    requires
        s.machine.frames == left_rest::<B>(f, g),
        s.machine.control == ControlView::<B>::Return(result),
        s.request is Continue,
    ensures
        ({
            let t = advanced(d, advanced(d, s));
            match result {
                Ok(v) => t == (RunView {
                    machine: MachineView {
                        frames: seq![FrameView::Then { next: g, depth: 0 }],
                        control: ControlView::Run { action: (d.call)(f, v), depth: 1 },
                        ..s.machine
                    },
                    ..s
                }),
                Err(e) => advanced(d, t) == (RunView {
                    machine: MachineView {
                        frames: Seq::empty(),
                        control: ControlView::Finished,
                        ..s.machine
                    },
                    request: RequestView::Finished(result),
                    ..s
                }),
            }
        }),
{
    reveal(advanced);
    let rest = seq![FrameView::<B>::Then { next: g, depth: 0 }];
    assert(s.machine.frames.drop_last() =~= rest);
    assert(rest.drop_last() =~= Seq::empty());
}

/// A result is handed to what is left of `a; h`.
proof fn lemma_right_goes_on<B: Host>(
    d: Driver<B>,
    s: RunView<B>,
    f: B::Next,
    g: B::Next,
    h: B::Next,
    result: ResultView,
)
    requires
        s.machine.frames == right_rest::<B>(h),
        s.machine.control == ControlView::<B>::Return(result),
        s.request is Continue,
        !s.machine.cancelled,
        result matches Ok(v) ==> (d.call)(h, v) == followed((d.call)(f, v), g),
    ensures
        ({
            let t = advanced(d, advanced(d, s));
            match result {
                Ok(v) => advanced(d, t) == (RunView {
                    machine: MachineView {
                        frames: seq![FrameView::Then { next: g, depth: 0 }],
                        control: ControlView::Run { action: (d.call)(f, v), depth: 1 },
                        ..s.machine
                    },
                    ..s
                }),
                Err(e) => t == (RunView {
                    machine: MachineView {
                        frames: Seq::empty(),
                        control: ControlView::Finished,
                        ..s.machine
                    },
                    request: RequestView::Finished(result),
                    ..s
                }),
            }
        }),
{
    reveal(advanced);
    let none = Seq::<FrameView<B>>::empty();
    let rest = seq![FrameView::<B>::Then { next: g, depth: 0 }];
    assert(s.machine.frames.drop_last() =~= none);
    assert(none.push(FrameView::<B>::Then { next: g, depth: 0 }) =~= rest);
}

/// Once `a` has ended, both bracketings come to the same.
proof fn lemma_apart_and_together<B: Host>(
    d: Driver<B>,
    parallel: bool,
    w: WorldView<B::Undo>,
    k: Keys,
    a: Action<B>,
    f: B::Next,
    g: B::Next,
    h: B::Next,
    p: nat,
)
    requires
        stays_shallow(d, begun(left_bracketed(a, f, g), parallel, w, k)),
        forall|v: ValueView| #[trigger] (d.call)(h, v) == followed((d.call)(f, v), g),
        forall|i: nat| i < p ==> !is_done(#[trigger] after(d, part(a, parallel, w, k), i)),
        is_done(after(d, part(a, parallel, w, k), p)),
    ensures
        ({
            let left = begun(left_bracketed(a, f, g), parallel, w, k);
            let right = begun(followed(a, h), parallel, w, k);
            ||| after(d, left, p + 4) == after(d, right, p + 4)
            ||| same_end(after(d, left, p + 5), after(d, right, p + 3))
        }),
{
    let left = begun(left_bracketed(a, f, g), parallel, w, k);
    let right = begun(followed(a, h), parallel, w, k);
    lemma_together(d, parallel, w, k, a, f, g, h, p);
    let s = after(d, part(a, parallel, w, k), p);
    let l0 = after(d, left, p + 2);
    let r0 = after(d, right, p + 1);
    let result = s.machine.control->Return_0;
    assert(l0.machine.frames =~= left_rest(f, g));
    assert(r0.machine.frames =~= right_rest(h));
    lemma_left_goes_on(d, l0, f, g, result);
    lemma_right_goes_on(d, r0, f, g, h, result);
    lemma_three_more(d, left, p + 2);
    lemma_three_more(d, right, p + 1);
}

/// Whether two runs are over alike.
spec fn same_end<B: Host>(s: RunView<B>, t: RunView<B>) -> bool {
    &&& s.request is Finished
    &&& t.request == s.request
    &&& t.world == s.world
    &&& t.keys == s.keys
    &&& t.notes == s.notes
}

proof fn lemma_three_more<B: Host>(d: Driver<B>, s: RunView<B>, n: nat)
    ensures
        after(d, s, n + 2) == advanced(d, advanced(d, after(d, s, n))),
        after(d, s, n + 3) == advanced(d, advanced(d, advanced(d, after(d, s, n)))),
{
    assert(after(d, s, n + 1) == advanced(d, after(d, s, n)));
    assert(after(d, s, n + 2) == advanced(d, after(d, s, n + 1)));
    assert(after(d, s, n + 3) == advanced(d, after(d, s, n + 2)));
}

proof fn lemma_first_done<B: Host>(d: Driver<B>, s: RunView<B>, n: nat) -> (p: nat)
    requires
        exists|i: nat| i < n && is_done(#[trigger] after(d, s, i)),
    ensures
        p < n,
        is_done(after(d, s, p)),
        forall|i: nat| i < p ==> !is_done(#[trigger] after(d, s, i)),
    decreases n,
{
    if exists|i: nat| i < n - 1 && is_done(#[trigger] after(d, s, i)) {
        lemma_first_done(d, s, (n - 1) as nat)
    } else {
        (n - 1) as nat
    }
}

/// A run that ends has come to the end of its first part.
proof fn lemma_first_part_ends<B: Host>(
    d: Driver<B>,
    parallel: bool,
    w: WorldView<B::Undo>,
    k: Keys,
    a: Action<B>,
    f: B::Next,
    g: B::Next,
    h: B::Next,
    n: nat,
) -> (p: nat)
    requires
        stays_shallow(d, begun(left_bracketed(a, f, g), parallel, w, k)),
        after(d, begun(left_bracketed(a, f, g), parallel, w, k), n).request is Finished || after(
            d,
            begun(followed(a, h), parallel, w, k),
            n,
        ).request is Finished,
    ensures
        is_done(after(d, part(a, parallel, w, k), p)),
        forall|i: nat| i < p ==> !is_done(#[trigger] after(d, part(a, parallel, w, k), i)),
{
    let left = begun(left_bracketed(a, f, g), parallel, w, k);
    let right = begun(followed(a, h), parallel, w, k);
    let alone = part(a, parallel, w, k);
    if !(exists|i: nat| i < n && is_done(#[trigger] after(d, alone, i))) {
        if after(d, right, n).request is Finished {
            if n > 0 {
                lemma_together(d, parallel, w, k, a, f, g, h, (n - 1) as nat);
            }
        } else {
            lemma_together(d, parallel, w, k, a, f, g, h, n);
            lemma_after_sum(d, left, n, 2);
            lemma_over_stays(d, after(d, left, n), 2);
        }
        assert(false);
    }
    lemma_first_done(d, alone, n)
}

/// Two runs that come to the same, or to the same end, end alike.
proof fn lemma_ends_alike<B: Host>(
    d: Driver<B>,
    s: RunView<B>,
    t: RunView<B>,
    n: nat,
    i: nat,
    j: nat,
)
    requires
        after(d, s, n).request is Finished,
    ensures
        after(d, s, i) == after(d, t, j) || same_end(after(d, s, i), after(d, t, j)) || same_end(
            after(d, t, j),
            after(d, s, i),
        ) ==> exists|m: nat| same_end(after(d, s, n), #[trigger] after(d, t, m)),
{
    let x = after(d, s, i);
    let y = after(d, t, j);
    lemma_after_sum(d, s, n, i);
    lemma_over_stays(d, after(d, s, n), i);
    lemma_after_sum(d, s, i, n);
    assert(n + i == i + n);
    assert(after(d, s, n) == after(d, x, n));
    if x == y {
        lemma_after_sum(d, t, j, n);
        assert(same_end(after(d, s, n), after(d, t, j + n)));
    } else if same_end(x, y) || same_end(y, x) {
        lemma_over_stays(d, x, n);
        assert(same_end(after(d, s, n), after(d, t, j)));
    }
}

/// How a sequence is bracketed does not matter to whole runs. With `h` as `f` and
/// then `g`, `(a; f); g` ends exactly if `a; h` does, with the same result, world and
/// keys, and the driver has been asked for the same in the same order, and has
/// let the same timers go off. Nothing may be nested so deep that it is refused.
pub proof fn law_runs_can_be_bracketed_either_way<B: Host>(
    d: Driver<B>,
    parallel: bool,
    w: WorldView<B::Undo>,
    k: Keys,
    a: Action<B>,
    f: B::Next,
    g: B::Next,
    h: B::Next,
    r: ResultView,
    w1: WorldView<B::Undo>,
    k1: Keys,
    notes: Seq<Note<B>>,
)
    requires
        forall|v: ValueView| #[trigger] (d.call)(h, v) == followed((d.call)(f, v), g),
        stays_shallow(d, begun(left_bracketed(a, f, g), parallel, w, k)),
    ensures
        ends(d, begun(left_bracketed(a, f, g), parallel, w, k), r, w1, k1, notes) <==> ends(
            d,
            begun(followed(a, h), parallel, w, k),
            r,
            w1,
            k1,
            notes,
        ),
{
    let left = begun(left_bracketed(a, f, g), parallel, w, k);
    let right = begun(followed(a, h), parallel, w, k);
    if ends(d, left, r, w1, k1, notes) {
        let n = choose|n: nat| is_end(#[trigger] after(d, left, n), r, w1, k1, notes);
        let p = lemma_first_part_ends(d, parallel, w, k, a, f, g, h, n);
        lemma_apart_and_together(d, parallel, w, k, a, f, g, h, p);
        lemma_ends_alike(d, left, right, n, p + 4, p + 4);
        lemma_ends_alike(d, left, right, n, p + 5, p + 3);
    }
    if ends(d, right, r, w1, k1, notes) {
        let n = choose|n: nat| is_end(#[trigger] after(d, right, n), r, w1, k1, notes);
        let p = lemma_first_part_ends(d, parallel, w, k, a, f, g, h, n);
        lemma_apart_and_together(d, parallel, w, k, a, f, g, h, p);
        lemma_ends_alike(d, right, left, n, p + 4, p + 4);
        lemma_ends_alike(d, right, left, n, p + 3, p + 5);
    }
}

} // verus!
