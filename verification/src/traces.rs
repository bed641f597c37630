//! What holds of a node from the step that starts it to the step that ends it,
//! whatever happens in between.

use vstd::prelude::*;

use crate::action::{Action, Host, ValueView};
use crate::error::SysError;
use crate::idempotency::Keys;
use crate::interpreter::Event;
use crate::laws::{admitted, running};
use crate::registry::RegistryView;
use crate::semantics::{
    ControlView, FrameView, GoalView, MachineView, RequestView, ResultView, StepView, WorldView,
};
use crate::undo::EntryView;

verus! {

/// Something that happens to a machine: the driver answers, with a registry that an
/// operation may have changed and keys that other branches may have changed, or a
/// timer goes off, or what the machine is part of has timed out.
#[verifier::reject_recursive_types(B)]
pub enum Happening<B: Host> {
    Answer(RegistryView, Keys, Event<B>),
    Expire(nat),
    Cancel,
    Abandon(RegistryView, Keys, nat),
}

/// What is there once something has happened.
pub open spec fn happened<B: Host>(s: StepView<B>, h: Happening<B>) -> StepView<B> {
    match h {
        Happening::Answer(reg, keys, event) => crate::semantics::transition(
            s.machine,
            crate::semantics::with_reg(s.world, reg),
            keys,
            event,
        ),
        Happening::Expire(level) => StepView {
            machine: MachineView {
                frames: crate::semantics::expired_from(s.machine.frames, level as int),
                ..s.machine
            },
            ..s
        },
        Happening::Cancel => StepView {
            machine: MachineView {
                frames: crate::semantics::expired_from(s.machine.frames, 0),
                cancelled: true,
                ..s.machine
            },
            ..s
        },
        Happening::Abandon(reg, keys, level) => crate::semantics::abandonment(
            s.machine,
            crate::semantics::with_reg(s.world, reg),
            keys,
            level,
        ),
    }
}

/// Whether these things happened one after the other, and left this each time, with
/// at least `height` frames all the time.
pub open spec fn is_trace<B: Host>(
    s: Seq<StepView<B>>,
    h: Seq<Happening<B>>,
    height: nat,
) -> bool {
    &&& s.len() == h.len() + 1
    &&& forall|i: int| 0 <= i < s.len() ==> (#[trigger] s[i]).machine.frames.len() >= height
    &&& forall|i: int| 0 <= i < s.len() ==> (#[trigger] s[i]).world.undo.ops.len() <= usize::MAX
    &&& forall|i: int| 0 <= i < h.len() ==> s[i + 1] == happened(s[i], #[trigger] h[i])
}

/// Whether a replacement starts here: the machine comes to a node that replaces, and
/// the node is run rather than refused.
pub open spec fn replaces<B: Host>(s: StepView<B>, h: Happening<B>) -> bool {
    &&& h matches Happening::Answer(_, _, Event::Go)
    &&& s.machine.control matches ControlView::Run { action, depth } && action is Replace
        && admitted(s.machine, depth)
}

/// Whether this is not the end of a branch in which something was replaced.
pub open spec fn no_branch_replaced<B: Host>(h: Happening<B>) -> bool {
    match h {
        Happening::Answer(_, _, Event::Left(o)) => o.world@.undo.replacements == 0,
        Happening::Answer(_, _, Event::Right(o)) => o.world@.undo.replacements == 0,
        _ => true,
    }
}

/// How many replacements start among the first `n` of these.
pub open spec fn replacements_in<B: Host>(
    s: Seq<StepView<B>>,
    h: Seq<Happening<B>>,
    n: nat,
) -> nat
    decreases n,
{
    if n == 0 {
        0
    } else {
        replacements_in(s, h, (n - 1) as nat) + if replaces(s[n - 1], h[n - 1]) {
            1nat
        } else {
            0nat
        }
    }
}

/// Whether a frame is still there. A timer may have expired.
pub open spec fn frame_kept<B: Host>(before: FrameView<B>, now: FrameView<B>) -> bool {
    ||| now == before
    ||| before matches FrameView::Timer { on_timeout, mark, marks, depth, .. } && now
        == (FrameView::<B>::Timer { on_timeout, mark, marks, expired: true, depth })
}

/// Whether the branch that is kept, if one is, has replaced nothing.
spec fn stash_is_plain<B: Host>(c: ControlView<B>) -> bool {
    c matches ControlView::AwaitBranches { stash: Some((_, branch)), .. }
        ==> branch.undo.replacements == 0
}

/// Frames that stay under what happens stay as they are, and a machine does not
/// reach below them.
#[verifier::rlimit(40)]
proof fn lemma_frames_stay<B: Host>(s: StepView<B>, h: Happening<B>, n: nat)
    requires
        0 < n <= s.machine.frames.len(),
        n <= happened(s, h).machine.frames.len(),
        !(s.machine.frames[n - 1] is Left),
    ensures
        forall|j: int|
            0 <= j < n ==> frame_kept(
                s.machine.frames[j],
                #[trigger] happened(s, h).machine.frames[j],
            ),
{
    let f = s.machine.frames;
    let g = happened(s, h).machine.frames;
    match h {
        Happening::Answer(reg, keys, event) => {
            assert(g == f || (g.len() > f.len() && g.drop_last() =~= f) || (f.len() > 0 && g
                =~= f.drop_last()) || (f.len() > 0 && f.last() is Left && g.len() == f.len()
                && g.drop_last() =~= f.drop_last()));
            assert forall|j: int| 0 <= j < n implies f[j] == #[trigger] g[j] by {
                if g.len() > f.len() {
                    assert(g.drop_last()[j] == g[j]);
                } else if g != f && g.len() == f.len() {
                    assert(j < f.len() - 1);
                    assert(g.drop_last()[j] == f.drop_last()[j]);
                }
            }
        },
        _ => {},
    }
}

/// The count of replacements goes up where one starts, and nowhere else.
#[verifier::rlimit(40)]
proof fn lemma_count_step<B: Host>(s: StepView<B>, h: Happening<B>)
    requires
        stash_is_plain(s.machine.control),
        no_branch_replaced(h),
    ensures
        stash_is_plain(happened(s, h).machine.control),
        happened(s, h).world.undo.replacements as int == (s.world.undo.replacements + (if replaces(
            s,
            h,
        ) {
            1int
        } else {
            0int
        })) % 0x1_0000_0000_0000_0000,
{
}

proof fn lemma_count<B: Host>(s: Seq<StepView<B>>, h: Seq<Happening<B>>, height: nat, n: nat)
    requires
        is_trace(s, h, height),
        n <= h.len(),
        stash_is_plain(s[0].machine.control),
        forall|i: int| 0 <= i < h.len() ==> no_branch_replaced(#[trigger] h[i]),
    ensures
        stash_is_plain(s[n as int].machine.control),
        s[n as int].world.undo.replacements as int == (s[0].world.undo.replacements
            + replacements_in(s, h, n)) % 0x1_0000_0000_0000_0000,
        replacements_in(s, h, n) <= n,
        replacements_in(s, h, n) == 0 <==> forall|i: int|
            0 <= i < n ==> !replaces(#[trigger] s[i], h[i]),
    decreases n,
{
    if n > 0 {
        let p = (n - 1) as nat;
        lemma_count(s, h, height, p);
        assert(s[p as int + 1] == happened(s[p as int], h[p as int]));
        lemma_count_step(s[p as int], h[p as int]);
        if replacements_in(s, h, n) == 0 {
            assert forall|i: int| 0 <= i < n implies !replaces(#[trigger] s[i], h[i]) by {}
        }
    }
}

proof fn lemma_frame_stays<B: Host>(
    s: Seq<StepView<B>>,
    h: Seq<Happening<B>>,
    height: nat,
    n: nat,
)
    requires
        height > 0,
        is_trace(s, h, height),
        n <= h.len(),
        !(s[0].machine.frames[height - 1] is Left),
    ensures
        forall|j: int|
            0 <= j < height ==> frame_kept(
                s[0].machine.frames[j],
                #[trigger] s[n as int].machine.frames[j],
            ),
    decreases n,
{
    if n > 0 {
        let p = (n - 1) as nat;
        lemma_frame_stays(s, h, height, p);
        let a = s[p as int];
        assert(s[p as int + 1] == happened(a, h[p as int]));
        assert(frame_kept(s[0].machine.frames[height - 1], a.machine.frames[height - 1]));
        lemma_frames_stay(a, h[p as int], height);
        assert forall|j: int| 0 <= j < height implies frame_kept(
            s[0].machine.frames[j],
            #[trigger] s[n as int].machine.frames[j],
        ) by {
            assert(frame_kept(s[0].machine.frames[j], a.machine.frames[j]));
        }
    }
}

/// A keyed section runs once and then stands. Started in any world, with a key that
/// does not stand, its inner blueprint runs one level deeper. If that ends with a
/// value and no replacement has started in it, the key is committed with the value,
/// and the value is handed on. No other key changes.
pub proof fn law_section_stands_once_it_has_run<B: Host>(
    m: MachineView<B>,
    w: WorldView<B::Undo>,
    k: Keys,
    key: String,
    inner: Action<B>,
    next: B::Next,
    depth: usize,
    s: Seq<StepView<B>>,
    h: Seq<Happening<B>>,
    v: ValueView,
    reg: RegistryView,
    k1: Keys,
)
    requires
        admitted(m, depth),
        w.undo.ops.len() <= usize::MAX,
        !(k.contains_key(key@) && k[key@].status is Committed),
        is_trace(s, h, m.frames.len() + 1),
        s[0] == crate::semantics::transition(
            running(
                m,
                m.frames,
                Action::Idempotent { key, inner: Box::new(inner), next },
                depth,
            ),
            w,
            k,
            Event::Go,
        ),
        s.last().machine.frames.len() == m.frames.len() + 1,
        s.last().machine.control == ControlView::<B>::Return(Ok(v)),
        forall|i: int| 0 <= i < h.len() ==> !replaces(#[trigger] s[i], h[i]),
        forall|i: int| 0 <= i < h.len() ==> no_branch_replaced(#[trigger] h[i]),
        !(k1.contains_key(key@) && k1[key@].status is Committed),
    ensures
        s[0].machine.control == (ControlView::<B>::Run {
            action: inner,
            depth: (depth + 1) as usize,
        }),
        s[0].machine.frames.drop_last() == m.frames,
        s[0].world == w,
        s[0].keys == k,
        ({
            let last = s.last();
            let end = crate::semantics::transition(
                last.machine,
                crate::semantics::with_reg(last.world, reg),
                k1,
                Event::Go,
            );
            let ops = last.world.undo.ops;
            &&& end.request == RequestView::<B>::Call { next, value: v }
            &&& end.machine.control == (ControlView::<B>::AwaitNext { depth })
            &&& end.machine.frames == last.machine.frames.drop_last()
            &&& end.keys.contains_key(key@) && end.keys[key@].status is Committed
            &&& end.keys[key@].value == (if crate::action::holds_handle(v) {
                None
            } else {
                Some(v)
            })
            &&& end.keys.remove(key@) == k1.remove(key@)
            &&& end.world.undo.ops == (if ops.len() > w.undo.ops.len() {
                ops.push(EntryView::RevertKey(key@))
            } else {
                ops
            })
            &&& end.world.reg == reg
            &&& end.world.ctx == last.world.ctx
            &&& end.world.undo.accrued == last.world.undo.accrued
            &&& end.world.undo.irreversible == last.world.undo.irreversible
        }),
{
    let n = h.len();
    let f = s[0].machine.frames;
    assert(f.drop_last() =~= m.frames);
    lemma_frame_stays(s, h, m.frames.len() + 1, n);
    lemma_count(s, h, m.frames.len() + 1, n);
    let last = s.last();
    assert(last == s[n as int]);
    assert(frame_kept(f[m.frames.len() as int], last.machine.frames[m.frames.len() as int]));
    assert(last.machine.frames.last() == f.last());
    assert(last.world.undo.replacements == w.undo.replacements);
    let end = crate::semantics::transition(
        last.machine,
        crate::semantics::with_reg(last.world, reg),
        k1,
        Event::Go,
    );
    assert(end.keys.remove(key@) =~= k1.remove(key@));
}

/// A keyed section that fails, or in which a replacement has started, does not
/// stand: its key stays as it was, so a retry runs it again.
pub proof fn law_section_that_replaced_does_not_stand<B: Host>(
    m: MachineView<B>,
    w: WorldView<B::Undo>,
    k: Keys,
    key: String,
    inner: Action<B>,
    next: B::Next,
    depth: usize,
    s: Seq<StepView<B>>,
    h: Seq<Happening<B>>,
    r: ResultView,
    reg: RegistryView,
    k1: Keys,
)
    requires
        admitted(m, depth),
        w.undo.ops.len() <= usize::MAX,
        !(k.contains_key(key@) && k[key@].status is Committed),
        is_trace(s, h, m.frames.len() + 1),
        s[0] == crate::semantics::transition(
            running(
                m,
                m.frames,
                Action::Idempotent { key, inner: Box::new(inner), next },
                depth,
            ),
            w,
            k,
            Event::Go,
        ),
        s.last().machine.frames.len() == m.frames.len() + 1,
        s.last().machine.control == ControlView::<B>::Return(r),
        r is Err || exists|i: int| 0 <= i < h.len() && replaces(#[trigger] s[i], h[i]),
        forall|i: int| 0 <= i < h.len() ==> no_branch_replaced(#[trigger] h[i]),
        h.len() <= u64::MAX,
    ensures
        ({
            let last = s.last();
            let world = crate::semantics::with_reg(last.world, reg);
            let end = crate::semantics::transition(last.machine, world, k1, Event::Go);
            &&& end.keys == k1
            &&& end.world == world
            &&& end.machine.frames == last.machine.frames.drop_last()
            &&& match r {
                Ok(v) => end.request == RequestView::<B>::Call { next, value: v },
                Err(e) => end.machine.control == ControlView::<B>::Return(Err(e)),
            }
        }),
{
    let n = h.len();
    let f = s[0].machine.frames;
    assert(f.drop_last() =~= m.frames);
    lemma_frame_stays(s, h, m.frames.len() + 1, n);
    lemma_count(s, h, m.frames.len() + 1, n);
    let last = s.last();
    assert(last == s[n as int]);
    assert(frame_kept(f[m.frames.len() as int], last.machine.frames[m.frames.len() as int]));
    assert(last.machine.frames.last() == f.last());
    if r is Ok {
        let c = replacements_in(s, h, n);
        assert(0 < c <= n);
        assert(last.world.undo.replacements != w.undo.replacements);
    }
}

/// Whether a timer at a level is among those that were told to stop.
pub open spec fn is_told<B: Host>(h: Happening<B>, level: nat) -> bool {
    match h {
        Happening::Expire(l) => l <= level,
        Happening::Cancel => true,
        _ => false,
    }
}

/// A timer has expired exactly if it was told to.
proof fn lemma_expired_when_told<B: Host>(
    s: Seq<StepView<B>>,
    h: Seq<Happening<B>>,
    level: nat,
    n: nat,
)
    requires
        is_trace(s, h, level + 1),
        n <= h.len(),
        s[0].machine.frames[level as int] matches FrameView::Timer { expired, .. } && !expired,
    ensures
        s[n as int].machine.frames[level as int] matches FrameView::Timer { expired, .. } && (expired
            <==> exists|i: int| 0 <= i < n && is_told(#[trigger] h[i], level)),
    decreases n,
{
    if n > 0 {
        let p = (n - 1) as nat;
        lemma_expired_when_told(s, h, level, p);
        let a = s[p as int];
        let b = s[n as int];
        assert(b == happened(a, h[p as int]));
        lemma_frame_stays(s, h, level + 1, p);
        lemma_frames_stay(a, h[p as int], level + 1);
        assert(frame_kept(a.machine.frames[level as int], b.machine.frames[level as int]));
        if is_told(h[p as int], level) {
            assert(b.machine.frames[level as int]->expired);
        } else {
            lemma_only_telling_expires(a, h[p as int], level);
        }
    }
}

#[verifier::rlimit(40)]
proof fn lemma_only_telling_expires<B: Host>(s: StepView<B>, h: Happening<B>, level: nat)
    requires
        level < s.machine.frames.len(),
        level < happened(s, h).machine.frames.len(),
        !(s.machine.frames[level as int] is Left),
        !is_told(h, level),
    ensures
        happened(s, h).machine.frames[level as int] == s.machine.frames[level as int],
{
    let f = s.machine.frames;
    let g = happened(s, h).machine.frames;
    if let Happening::Answer(reg, keys, event) = h {
        assert(g == f || (g.len() > f.len() && g.drop_last() =~= f) || (f.len() > 0 && g
            =~= f.drop_last()) || (f.len() > 0 && f.last() is Left && g.len() == f.len()
            && g.drop_last() =~= f.drop_last()));
        if g.len() > f.len() {
            assert(g.drop_last()[level as int] == g[level as int]);
        } else if g != f && g.len() == f.len() {
            assert(g.drop_last()[level as int] == f.drop_last()[level as int]);
        }
    }
}

/// Frames that hold the same scopes lead to the same working directory.
proof fn lemma_same_scopes<B: Host>(
    f: Seq<FrameView<B>>,
    g: Seq<FrameView<B>>,
    level: nat,
    cwd: Seq<char>,
)
    requires
        f.len() == g.len(),
        forall|j: int| 0 <= j < f.len() ==> frame_kept(f[j], #[trigger] g[j]),
    ensures
        crate::semantics::directory_below(f, level, cwd) == crate::semantics::directory_below(
            g,
            level,
            cwd,
        ),
    decreases f.len(),
{
    if f.len() > level + 1 {
        assert(frame_kept(f[f.len() - 1], g[f.len() - 1]));
        let here = match f.last() {
            FrameView::Scope { cwd: before, .. } => before,
            _ => cwd,
        };
        assert forall|j: int| 0 <= j < f.len() - 1 implies frame_kept(
            f.drop_last()[j],
            #[trigger] g.drop_last()[j],
        ) by {
            assert(frame_kept(f[j], g[j]));
        }
        lemma_same_scopes(f.drop_last(), g.drop_last(), level, here);
    }
}

/// Dropping frames in two goes leads to the same working directory.
proof fn lemma_directory_in_two_goes<B: Host>(
    f: Seq<FrameView<B>>,
    level: nat,
    middle: nat,
    cwd: Seq<char>,
)
    requires
        level < middle < f.len(),
        !(f[middle as int] is Scope),
    ensures
        crate::semantics::directory_below(
            f.take(middle as int),
            level,
            crate::semantics::directory_below(f, middle, cwd),
        ) == crate::semantics::directory_below(f, level, cwd),
    decreases f.len(),
{
    let here = match f.last() {
        FrameView::Scope { cwd: before, .. } => before,
        _ => cwd,
    };
    if f.len() == middle + 1 {
        assert(f.take(middle as int) =~= f.drop_last());
    } else {
        assert(f.drop_last().take(middle as int) =~= f.take(middle as int));
        lemma_directory_in_two_goes(f.drop_last(), level, middle, here);
    }
}

/// The working directory that is left in the end does not change on the way.
#[verifier::rlimit(60)]
proof fn lemma_directory_step<B: Host>(s: StepView<B>, h: Happening<B>, level: nat)
    requires
        level < s.machine.frames.len(),
        level < happened(s, h).machine.frames.len(),
    ensures
        crate::semantics::directory_below(
            happened(s, h).machine.frames,
            level,
            happened(s, h).world.ctx.cwd,
        ) == crate::semantics::directory_below(s.machine.frames, level, s.world.ctx.cwd),
{
    let f = s.machine.frames;
    let t = happened(s, h);
    let g = t.machine.frames;
    match h {
        Happening::Answer(reg, keys, event) => {
            if g == f {
                assert(t.world.ctx.cwd == s.world.ctx.cwd);
            } else if g.len() > f.len() {
                assert(g.drop_last() =~= f);
                assert(t.world.ctx.cwd == s.world.ctx.cwd || g.last() == (FrameView::<B>::Scope {
                    cwd: s.world.ctx.cwd,
                    next: g.last()->Scope_next,
                    depth: g.last()->Scope_depth,
                }));
                assert(g.last() is Scope ==> g.last()->Scope_cwd == s.world.ctx.cwd);
            } else if g.len() == f.len() {
                assert(f.last() is Left && g.last() is Right);
                assert(g.drop_last() =~= f.drop_last());
                assert(t.world.ctx.cwd == s.world.ctx.cwd);
            } else {
                assert(g =~= f.drop_last());
                assert(f.last() is Scope ==> t.world.ctx.cwd == f.last()->Scope_cwd);
                assert(!(f.last() is Scope) ==> t.world.ctx.cwd == s.world.ctx.cwd);
            }
        },
        Happening::Expire(l) => {
            lemma_same_scopes(f, g, level, s.world.ctx.cwd);
        },
        Happening::Cancel => {
            lemma_same_scopes(f, g, level, s.world.ctx.cwd);
        },
        Happening::Abandon(reg, keys, l) => {
            if g != f {
                assert(l < f.len());
                assert(g == f.take(l as int));
                lemma_directory_in_two_goes(f, level, l, s.world.ctx.cwd);
            }
        },
    }
}

/// However something ends, once it has ended the working directory is the one in
/// which it started.
pub proof fn law_directory_is_kept<B: Host>(
    s: Seq<StepView<B>>,
    h: Seq<Happening<B>>,
    height: nat,
    n: nat,
)
    requires
        height > 0,
        is_trace(s, h, height),
        n <= h.len(),
        s[0].machine.frames.len() == height,
    ensures
        s[n as int].machine.frames.len() == height ==> s[n as int].world.ctx.cwd
            == s[0].world.ctx.cwd,
        crate::semantics::directory_below(
            s[n as int].machine.frames,
            (height - 1) as nat,
            s[n as int].world.ctx.cwd,
        ) == s[0].world.ctx.cwd,
    decreases n,
{
    if n > 0 {
        let p = (n - 1) as nat;
        law_directory_is_kept(s, h, height, p);
        assert(s[p as int + 1] == happened(s[p as int], h[p as int]));
        lemma_directory_step(s[p as int], h[p as int], (height - 1) as nat);
    }
}

/// How many entries stay when what this frame stands for is undone.
pub open spec fn mark_of<B: Host>(f: FrameView<B>) -> Option<usize> {
    match f {
        FrameView::Timer { mark, .. } => Some(mark),
        FrameView::Deadline { mark, .. } => Some(mark),
        _ => None,
    }
}

/// Whether these entries are at the bottom of the undo stack, and nothing that is
/// under way or may come undoes them.
spec fn entries_safe<B: Host>(s: StepView<B>, ops: Seq<EntryView<B::Undo>>, level: nat) -> bool {
    &&& ops.len() <= s.world.undo.ops.len()
    &&& s.world.undo.ops.take(ops.len() as int) == ops
    &&& s.machine.control matches ControlView::Undo { mark, .. } ==> mark >= ops.len()
    &&& s.machine.control matches ControlView::AwaitUndone { mark, .. } ==> mark >= ops.len()
    &&& forall|j: int|
        level <= j < s.machine.frames.len() ==> (mark_of(#[trigger] s.machine.frames[j]) matches Some(
            mark,
        ) ==> mark >= ops.len())
}

#[verifier::rlimit(80)]
proof fn lemma_entries_step<B: Host>(
    s: StepView<B>,
    h: Happening<B>,
    ops: Seq<EntryView<B::Undo>>,
    level: nat,
)
    requires
        entries_safe(s, ops, level),
        level < s.machine.frames.len(),
        level < happened(s, h).machine.frames.len(),
        s.world.undo.ops.len() <= usize::MAX,
        !replaces(s, h),
    ensures
        entries_safe(happened(s, h), ops, level),
{
    let t = happened(s, h);
    let f = s.machine.frames;
    let g = t.machine.frames;
    let n = ops.len() as int;
    match h {
        Happening::Answer(reg, keys, event) => {
            assert(t.world.undo.ops.len() >= n && t.world.undo.ops.take(n) =~= ops) by {
                assert forall|i: int| 0 <= i < n implies s.world.undo.ops[i] == #[trigger] ops[i] by {
                    assert(s.world.undo.ops.take(n)[i] == ops[i]);
                }
            }
            assert(g == f || (g.len() > f.len() && g.drop_last() =~= f) || (f.len() > 0 && g
                =~= f.drop_last()) || (f.len() > 0 && f.last() is Left && g.len() == f.len()
                && g.drop_last() =~= f.drop_last()));
            assert(g.len() > f.len() ==> (mark_of(g.last()) matches Some(mark) ==> mark
                >= ops.len()));
            assert(g != f && g.len() == f.len() ==> mark_of(g.last()) is None);
            assert forall|j: int| level <= j < g.len() implies (mark_of(#[trigger] g[j]) matches Some(
                mark,
            ) ==> mark >= ops.len()) by {
                if j < f.len() {
                    assert(mark_of(f[j]) matches Some(mark) ==> mark >= ops.len());
                    if j < g.len() - 1 {
                        assert(g.drop_last()[j] == g[j]);
                    }
                }
            }
        },
        Happening::Expire(l) => {
            assert forall|j: int| level <= j < g.len() implies (mark_of(#[trigger] g[j]) matches Some(
                mark,
            ) ==> mark >= ops.len()) by {
                assert(mark_of(f[j]) matches Some(mark) ==> mark >= ops.len());
            }
        },
        Happening::Cancel => {
            assert forall|j: int| level <= j < g.len() implies (mark_of(#[trigger] g[j]) matches Some(
                mark,
            ) ==> mark >= ops.len()) by {
                assert(mark_of(f[j]) matches Some(mark) ==> mark >= ops.len());
            }
        },
        Happening::Abandon(reg, keys, l) => {
            assert(t.world.undo.ops.len() >= n && t.world.undo.ops.take(n) =~= ops) by {
                assert forall|i: int| 0 <= i < n implies s.world.undo.ops[i] == #[trigger] ops[i] by {
                    assert(s.world.undo.ops.take(n)[i] == ops[i]);
                }
            }
            if l < f.len() {
                assert(l >= level ==> (mark_of(f[l as int]) matches Some(mark) ==> mark
                    >= ops.len()));
            }
            assert forall|j: int| level <= j < g.len() implies (mark_of(#[trigger] g[j]) matches Some(
                mark,
            ) ==> mark >= ops.len()) by {
                assert(mark_of(f[j]) matches Some(mark) ==> mark >= ops.len());
            }
        },
    }
}

proof fn lemma_entries_stay<B: Host>(
    s: Seq<StepView<B>>,
    h: Seq<Happening<B>>,
    ops: Seq<EntryView<B::Undo>>,
    level: nat,
    n: nat,
)
    requires
        is_trace(s, h, level + 1),
        n <= h.len(),
        entries_safe(s[0], ops, level),
        forall|i: int| 0 <= i < h.len() ==> !replaces(#[trigger] s[i], h[i]),
    ensures
        entries_safe(s[n as int], ops, level),
    decreases n,
{
    if n > 0 {
        let p = (n - 1) as nat;
        lemma_entries_stay(s, h, ops, level, p);
        assert(s[p as int + 1] == happened(s[p as int], h[p as int]));
        lemma_entries_step(s[p as int], h[p as int], ops, level);
    }
}

/// The entries above a number of entries, the last one first.
pub open spec fn entries_above<U>(ops: Seq<EntryView<U>>, n: nat) -> Seq<EntryView<U>> {
    ops.subrange(n as int, ops.len() as int).reverse()
}

/// How undoing these entries, one after the other, goes as a whole: nothing, or the
/// first failure.
pub open spec fn goes_like<U>(
    entries: Seq<EntryView<U>>,
    answer: spec_fn(U) -> Result<(), SysError>,
    failed: Option<SysError>,
) -> bool {
    match failed {
        None => forall|i: int|
            0 <= i < entries.len() ==> crate::laws::answer_for(#[trigger] entries[i], answer) is Ok,
        Some(e) => exists|i: int|
            0 <= i < entries.len() && crate::laws::answer_for(#[trigger] entries[i], answer) == Err::<
                (),
                SysError,
            >(e) && forall|j: int|
                0 <= j < i ==> crate::laws::answer_for(#[trigger] entries[j], answer) is Ok,
    }
}

pub(crate) proof fn lemma_goes_like<U>(
    entries: Seq<EntryView<U>>,
    answer: spec_fn(U) -> Result<(), SysError>,
)
    ensures
        goes_like(
            entries,
            answer,
            crate::undo::undo_outcome(
                None,
                entries.map_values(|e: EntryView<U>| crate::laws::answer_for(e, answer)),
            ),
        ),
{
    let rs = entries.map_values(|e: EntryView<U>| crate::laws::answer_for(e, answer));
    let failed = crate::undo::undo_outcome(None, rs);
    crate::undo::law_first_failure_is_reported(rs);
    match failed {
        None => {
            assert forall|i: int| 0 <= i < entries.len() implies crate::laws::answer_for(
                #[trigger] entries[i],
                answer,
            ) is Ok by {
                assert(rs[i] is Ok);
            }
        },
        Some(e) => {
            let i = choose|i: int|
                0 <= i < rs.len() && #[trigger] rs[i] == Err::<(), SysError>(e) && forall|j: int|
                    0 <= j < i ==> #[trigger] rs[j] is Ok;
            assert(crate::laws::answer_for(entries[i], answer) == Err::<(), SysError>(e));
            assert forall|j: int| 0 <= j < i implies crate::laws::answer_for(
                #[trigger] entries[j],
                answer,
            ) is Ok by {
                assert(rs[j] is Ok);
            }
        },
    }
}

/// What is there once an undoing that is due to a timeout is over: nothing is left
/// of what was timed out, and everything that was there when it started.
#[verifier::opaque]
pub open spec fn is_undone_since<B: Host>(
    w: WorldView<B::Undo>,
    last: WorldView<B::Undo>,
    frames: Seq<FrameView<B>>,
    on_timeout: Action<B>,
    depth: usize,
    reg: RegistryView,
    keys: Keys,
    answer: spec_fn(B::Undo) -> Result<(), SysError>,
    end: StepView<B>,
) -> bool {
    &&& end.machine.frames == frames
    &&& end.keys == crate::laws::all_reverted(
        keys,
        entries_above(last.undo.ops, w.undo.ops.len()),
    )
    &&& end.world.undo.replacements == last.undo.replacements
    &&& end.world.undo.ops == w.undo.ops
    &&& end.world.undo.accrued == last.undo.accrued
    &&& end.world.undo.irreversible == last.undo.irreversible
    &&& end.world.ctx.cwd == w.ctx.cwd
    &&& end.world.ctx.clock == last.ctx.clock
    &&& end.world.reg.handles == reg.handles
    &&& end.world.reg.next_fd == reg.next_fd
    &&& end.world.reg.fork_region == reg.fork_region
    &&& match end.machine.control {
        // The alternative runs, without the marks that were made since the start.
        ControlView::Run { action, depth: d } => {
            &&& goes_like(entries_above(last.undo.ops, w.undo.ops.len()), answer, None)
            &&& action == on_timeout
            &&& d == depth + 1
            &&& forall|x: crate::resource::ResourceView| #[trigger]
                end.world.reg.consumed.contains(x) <==> reg.consumed.contains(x)
                    && w.reg.consumed.contains(x)
            &&& forall|x: crate::resource::ResourceView| #[trigger]
                end.world.reg.owned.contains(x) <==> reg.owned.contains(x)
                    && w.reg.owned.contains(x)
        },
        // Or undoing has failed, and the first failure is the result.
        ControlView::Return(Err(e)) => {
            &&& goes_like(entries_above(last.undo.ops, w.undo.ops.len()), answer, Some(e))
            &&& end.world.reg == reg
        },
        _ => false,
    }
}

/// A timeout in real time gives back what was done within it and nothing else. Its
/// blueprint is started one level deeper in the world as it is, with a timer for the
/// duration. What ends without its timer being told to expire keeps its effects and
/// passes its result on. What ends after that is undone, whatever its result: the
/// undo stack is the one at the start, of the marks only those that were there at
/// the start are left, and the alternative runs one level deeper, in the directory
/// in which it all started. If undoing fails, its first failure is the result.
#[verifier::rlimit(60)]
pub proof fn law_timeout_gives_back_its_own<B: Host>(
    m: MachineView<B>,
    w: WorldView<B::Undo>,
    k: Keys,
    action: Action<B>,
    duration: std::time::Duration,
    on_timeout: Action<B>,
    depth: usize,
    s: Seq<StepView<B>>,
    h: Seq<Happening<B>>,
    r: ResultView,
    reg: RegistryView,
    k1: Keys,
    answer: spec_fn(B::Undo) -> Result<(), SysError>,
)
    requires
        admitted(m, depth),
        w.ctx.clock is None,
        w.undo.ops.len() <= usize::MAX,
        is_trace(s, h, m.frames.len() + 1),
        s[0] == crate::semantics::transition(
            running(
                m,
                m.frames,
                Action::Timeout {
                    action: Box::new(action),
                    duration,
                    on_timeout: Box::new(on_timeout),
                },
                depth,
            ),
            w,
            k,
            Event::Go,
        ),
        s.last().machine.frames.len() == m.frames.len() + 1,
        s.last().machine.control == ControlView::<B>::Return(r),
        forall|i: int| 0 <= i < h.len() ==> !replaces(#[trigger] s[i], h[i]),
    ensures
        s[0].machine.control == (ControlView::<B>::Run { action, depth: (depth + 1) as usize }),
        s[0].request == (RequestView::<B>::ArmTimer { level: m.frames.len(), duration }),
        s[0].world == w,
        s[0].keys == k,
        ({
            let last = s.last();
            let world = crate::semantics::with_reg(last.world, reg);
            let below = last.machine.frames.drop_last();
            let t = crate::semantics::transition(last.machine, world, k1, Event::Go);
            let (m1, w1, k2) = crate::laws::undone(t.machine, t.world, t.keys, answer);
            let end = crate::semantics::transition(m1, w1, k2, Event::Go);
            if exists|i: int| 0 <= i < h.len() && is_told(#[trigger] h[i], m.frames.len()) {
                is_undone_since(w, last.world, below, on_timeout, depth, reg, k1, answer, end)
            } else {
                &&& t.machine.control == ControlView::<B>::Return(r)
                &&& t.machine.frames == below
                &&& t.world == world
                &&& t.keys == k1
            }
        }),
{
    let n = h.len();
    let level = m.frames.len();
    let f = s[0].machine.frames;
    let last = s.last();
    lemma_timeout_starts(m, w, k, action, duration, on_timeout, depth, s[0]);
    assert(last == s[n as int]);
    lemma_frame_stays(s, h, level + 1, n);
    lemma_expired_when_told(s, h, level, n);
    law_directory_is_kept(s, h, level + 1, n);
    lemma_entries_stay(s, h, w.undo.ops, level, n);
    assert(frame_kept(f[level as int], last.machine.frames[level as int]));
    let world = crate::semantics::with_reg(last.world, reg);
    let t = crate::semantics::transition(last.machine, world, k1, Event::Go);
    assert(last.machine.frames.last() == last.machine.frames[level as int]);
    if last.machine.frames[level as int]->expired {
        lemma_undone_since(w, last, level, on_timeout, depth, reg, t, answer);
    }
}

/// The start of a timeout.
proof fn lemma_timeout_starts<B: Host>(
    m: MachineView<B>,
    w: WorldView<B::Undo>,
    k: Keys,
    action: Action<B>,
    duration: std::time::Duration,
    on_timeout: Action<B>,
    depth: usize,
    s: StepView<B>,
)
    requires
        admitted(m, depth),
        w.undo.ops.len() <= usize::MAX,
        s == crate::semantics::transition(
            running(
                m,
                m.frames,
                Action::Timeout {
                    action: Box::new(action),
                    duration,
                    on_timeout: Box::new(on_timeout),
                },
                depth,
            ),
            w,
            k,
            Event::Go,
        ),
    ensures
        s.machine.control == (ControlView::<B>::Run { action, depth: (depth + 1) as usize }),
        s.request == (RequestView::<B>::ArmTimer { level: m.frames.len(), duration }),
        s.world == w,
        s.keys == k,
        s.machine.frames.len() == m.frames.len() + 1,
        s.machine.frames.drop_last() == m.frames,
        entries_safe(s, w.undo.ops, m.frames.len()),
        ({
            let marks = crate::registry::LinearView {
                consumed: w.reg.consumed,
                owned: w.reg.owned,
            };
            let mark = w.undo.ops.len() as usize;
            match s.machine.frames[m.frames.len() as int] {
                FrameView::Timer { on_timeout: a, mark: n, marks: l, expired, depth: d } => {
                    w.ctx.clock is None && a == on_timeout && n == mark && l == marks && !expired
                        && d == depth
                },
                FrameView::Deadline { on_timeout: a, mark: n, marks: l, depth: d, .. } => {
                    w.ctx.clock is Some && a == on_timeout && n == mark && l == marks && d
                        == depth
                },
                _ => false,
            }
        }),
{
    assert(s.machine.frames.drop_last() =~= m.frames);
    assert(w.undo.ops.take(w.undo.ops.len() as int) =~= w.undo.ops);
}

/// From the start of an undoing that is due to a timeout to its end.
proof fn lemma_undone_since<B: Host>(
    w: WorldView<B::Undo>,
    last: StepView<B>,
    level: nat,
    on_timeout: Action<B>,
    depth: usize,
    reg: RegistryView,
    t: StepView<B>,
    answer: spec_fn(B::Undo) -> Result<(), SysError>,
)
    requires
        depth < 64,
        w.undo.ops.len() <= usize::MAX,
        entries_safe(last, w.undo.ops, level),
        t.world.undo == last.world.undo,
        t.world.reg == reg,
        t.world.ctx.cwd == w.ctx.cwd,
        t.world.ctx.clock == last.world.ctx.clock,
        t.machine.control == (ControlView::<B>::Undo {
            mark: w.undo.ops.len(),
            error: None,
            goal: GoalView::Timeout {
                on_timeout,
                marks: crate::registry::LinearView {
                    consumed: w.reg.consumed,
                    owned: w.reg.owned,
                },
                depth,
            },
        }),
    ensures
        ({
            let (m1, w1, k2) = crate::laws::undone(t.machine, t.world, t.keys, answer);
            let end = crate::semantics::transition(m1, w1, k2, Event::Go);
            is_undone_since(
                w,
                last.world,
                t.machine.frames,
                on_timeout,
                depth,
                reg,
                t.keys,
                answer,
                end,
            )
        }),
{
    reveal(is_undone_since);
    let mark = w.undo.ops.len();
    let goal = GoalView::<B>::Timeout {
        on_timeout,
        marks: crate::registry::LinearView { consumed: w.reg.consumed, owned: w.reg.owned },
        depth,
    };
    crate::laws::law_undoing_runs_to_its_end(
        t.machine,
        t.world,
        t.keys,
        mark,
        None,
        goal,
        answer,
    );
    lemma_goes_like(entries_above(last.world.undo.ops, mark), answer);
}

/// What is given up, in real time or not, is undone in the same way, at whatever
/// point it was. The handles are those that there were before the outermost fork
/// that is given up.
#[verifier::rlimit(60)]
pub proof fn law_giving_up_gives_back_its_own<B: Host>(
    m: MachineView<B>,
    w: WorldView<B::Undo>,
    k: Keys,
    action: Action<B>,
    duration: std::time::Duration,
    on_timeout: Action<B>,
    depth: usize,
    s: Seq<StepView<B>>,
    h: Seq<Happening<B>>,
    reg: RegistryView,
    k1: Keys,
    answer: spec_fn(B::Undo) -> Result<(), SysError>,
)
    requires
        admitted(m, depth),
        w.undo.ops.len() <= usize::MAX,
        is_trace(s, h, m.frames.len() + 1),
        s[0] == crate::semantics::transition(
            running(
                m,
                m.frames,
                Action::Timeout {
                    action: Box::new(action),
                    duration,
                    on_timeout: Box::new(on_timeout),
                },
                depth,
            ),
            w,
            k,
            Event::Go,
        ),
        !(s.last().machine.control is AwaitBranches),
        forall|i: int| 0 <= i < h.len() ==> !replaces(#[trigger] s[i], h[i]),
    ensures
        ({
            let last = s.last();
            let world = crate::semantics::with_reg(last.world, reg);
            let t = crate::semantics::abandonment(last.machine, world, k1, m.frames.len());
            let (m1, w1, k2) = crate::laws::undone(t.machine, t.world, t.keys, answer);
            let end = crate::semantics::transition(m1, w1, k2, Event::Go);
            is_undone_since(
                w,
                last.world,
                last.machine.frames.take(m.frames.len() as int),
                on_timeout,
                depth,
                crate::semantics::registry_below(last.machine.frames, m.frames.len(), reg),
                k1,
                answer,
                end,
            )
        }),
{
    let n = h.len();
    let level = m.frames.len();
    let f = s[0].machine.frames;
    let last = s.last();
    lemma_timeout_starts(m, w, k, action, duration, on_timeout, depth, s[0]);
    assert(last == s[n as int]);
    lemma_frame_stays(s, h, level + 1, n);
    law_directory_is_kept(s, h, level + 1, n);
    lemma_entries_stay(s, h, w.undo.ops, level, n);
    assert(frame_kept(f[level as int], last.machine.frames[level as int]));
    let world = crate::semantics::with_reg(last.world, reg);
    let t = crate::semantics::abandonment(last.machine, world, k1, level);
    let kept = crate::semantics::registry_below(last.machine.frames, level, reg);
    lemma_undone_since(w, last, level, on_timeout, depth, kept, t, answer);
}

/// With a virtual clock, what is late by that clock gives way to the alternative,
/// whether it ended with a value or an error. It is late if the clock has moved on
/// by the duration or more since the start, or shows the latest time there is. The
/// alternative runs one level deeper, and nothing is undone. What is not late passes
/// its result on.
pub proof fn law_late_by_the_virtual_clock<B: Host>(
    m: MachineView<B>,
    w: WorldView<B::Undo>,
    k: Keys,
    action: Action<B>,
    duration: std::time::Duration,
    on_timeout: Action<B>,
    depth: usize,
    s: Seq<StepView<B>>,
    h: Seq<Happening<B>>,
    r: ResultView,
    started: nat,
    ended: nat,
    reg: RegistryView,
    k1: Keys,
)
    requires
        admitted(m, depth),
        w.ctx.clock == Some(started),
        is_trace(s, h, m.frames.len() + 1),
        s[0] == crate::semantics::transition(
            running(
                m,
                m.frames,
                Action::Timeout {
                    action: Box::new(action),
                    duration,
                    on_timeout: Box::new(on_timeout),
                },
                depth,
            ),
            w,
            k,
            Event::Go,
        ),
        s.last().machine.frames.len() == m.frames.len() + 1,
        s.last().machine.control == ControlView::<B>::Return(r),
        s.last().world.ctx.clock == Some(ended),
    ensures
        s[0].machine.control == (ControlView::<B>::Run { action, depth: (depth + 1) as usize }),
        s[0].request == (RequestView::<B>::ArmTimer { level: m.frames.len(), duration }),
        s[0].world == w,
        ({
            let last = s.last();
            let world = crate::semantics::with_reg(last.world, reg);
            let t = crate::semantics::transition(last.machine, world, k1, Event::Go);
            let late = ended >= started + crate::virtual_clock::duration_nanos(duration) || ended
                >= 18_446_744_073_709_551_615_999_999_999nat;
            &&& t.world == world
            &&& t.keys == k1
            &&& t.machine.frames == last.machine.frames.drop_last()
            &&& t.machine.control == (if late {
                ControlView::<B>::Run { action: on_timeout, depth: (depth + 1) as usize }
            } else {
                ControlView::<B>::Return(r)
            })
        }),
{
    let n = h.len();
    let level = m.frames.len();
    let f = s[0].machine.frames;
    let last = s.last();
    assert(f.drop_last() =~= m.frames);
    assert(last == s[n as int]);
    lemma_frame_stays(s, h, level + 1, n);
    assert(frame_kept(f[level as int], last.machine.frames[level as int]));
    assert(last.machine.frames.last() == f.last());
}

} // verus!
