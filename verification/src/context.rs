//! The state that an execution runs in: working directory, environment, clock.

use vstd::prelude::*;

use crate::virtual_clock::VirtualClock;

verus! {

/// Working directory, environment variables, and the virtual clock. Without a
/// virtual clock, time is real.
#[derive(Debug)]
pub struct Context {
    pub cwd: String,
    pub env: Vec<(String, String)>,
    pub virtual_clock: Option<VirtualClock>,
}

/// What a [`Context`] holds; the clock in nanoseconds.
#[verifier::ext_equal]
pub struct ContextView {
    pub cwd: Seq<char>,
    pub env: Seq<(Seq<char>, Seq<char>)>,
    pub clock: Option<nat>,
}

/// What a sequence of variables holds.
pub open spec fn variables(env: Seq<(String, String)>) -> Seq<(Seq<char>, Seq<char>)> {
    env.map_values(|e: (String, String)| (e.0@, e.1@))
}

/// What a clock shows, if there is one.
pub open spec fn clock_view(c: Option<VirtualClock>) -> Option<nat> {
    match c {
        Some(c) => Some(c@),
        None => None,
    }
}

impl View for Context {
    type V = ContextView;

    open spec fn view(&self) -> ContextView {
        ContextView {
            cwd: self.cwd@,
            env: variables(self.env@),
            clock: clock_view(self.virtual_clock),
        }
    }
}

impl Clone for Context {
    fn clone(&self) -> (r: Self)
        ensures
            r@ == self@,
    {
        let mut env: Vec<(String, String)> = Vec::new();
        let mut i: usize = 0;
        while i < self.env.len()
            invariant
                i <= self.env@.len(),
                env@ == self.env@.take(i as int),
            decreases self.env@.len() - i,
        {
            let name = self.env[i].0.clone();
            let value = self.env[i].1.clone();
            env.push((name, value));
            assert(self.env@.take(i + 1) =~= self.env@.take(i as int).push(self.env@[i as int]));
            i += 1;
        }
        assert(self.env@.take(i as int) =~= self.env@);
        Context { cwd: self.cwd.clone(), env, virtual_clock: self.virtual_clock }
    }
}

impl Context {
    /// A context with this directory, these variables and this clock.
    pub fn new(
        cwd: String,
        env: Vec<(String, String)>,
        virtual_clock: Option<VirtualClock>,
    ) -> (r: Self)
        ensures
            r@ == (ContextView {
                cwd: cwd@,
                env: variables(env@),
                clock: clock_view(virtual_clock),
            }),
    {
        Context { cwd, env, virtual_clock }
    }

    /// The virtual clock, to be moved.
    pub fn virtual_clock_mut(&mut self) -> (r: Option<&mut VirtualClock>)
        ensures
            match r {
                Some(c) => {
                    &&& old(self)@.clock == Some((*c)@)
                    &&& final(self)@ == (ContextView { clock: Some((*final(c))@), ..old(self)@ })
                },
                None => old(self)@.clock is None && final(self)@ == old(self)@,
            },
    {
        match &mut self.virtual_clock {
            Some(c) => Some(c),
            None => None,
        }
    }

    /// Changes the working directory and gives back the one before.
    pub fn enter(&mut self, cwd: String) -> (before: String)
        ensures
            before@ == old(self)@.cwd,
            final(self)@ == (ContextView { cwd: cwd@, ..old(self)@ }),
    {
        let before = self.cwd.clone();
        self.cwd = cwd;
        before
    }
}

/// A context holds its directory, its variables in order, and what its clock shows.
pub proof fn law_parts_of_a_context(c: Context, i: int)
    requires
        0 <= i < c.env@.len(),
    ensures
        c@.cwd == c.cwd@,
        c@.env.len() == c.env@.len(),
        c@.env[i].0 == c.env@[i].0@,
        c@.env[i].1 == c.env@[i].1@,
        c@.clock is Some <==> c.virtual_clock is Some,
        c.virtual_clock matches Some(clock) ==> c@.clock == Some(clock@),
{
}

} // verus!
