//! Dependencies: a table of what is provided, and components that are active while
//! all that they depend on is provided.

use std::collections::{HashMap, HashSet};
use vstd::prelude::*;
use vstd::string::*;

use crate::action::{Value, ValueView};
use crate::error::SysError;

verus! {

broadcast use vstd::std_specs::hash::group_hash_axioms;

/// What names a dependency.
pub type DepKey = u64;

/// What a change of the table means for a component.
#[derive(Debug, Clone, Copy, PartialEq, Eq, Structural)]
pub enum Activation {
    Activating,
    Deactivating,
    Neutral,
}

/// The dependencies that are provided, with their values.
#[derive(Debug, PartialEq)]
pub struct DependencyTable {
    entries: HashMap<DepKey, Value>,
}

/// The dependencies that are provided.
pub type Provided = Map<DepKey, ValueView>;

/// What entries hold.
spec fn provided(entries: Map<DepKey, Value>) -> Provided {
    entries.map_values(|v: Value| v@)
}

proof fn lemma_provide(entries: Map<DepKey, Value>, k: DepKey, v: Value)
    ensures
        provided(entries.insert(k, v)) == provided(entries).insert(k, v@),
{
    assert(provided(entries.insert(k, v)) =~= provided(entries).insert(k, v@));
}

impl View for DependencyTable {
    type V = Provided;

    closed spec fn view(&self) -> Provided {
        provided(self.entries@)
    }
}

/// How to take a change of the table back.
#[derive(Debug)]
pub struct Restore {
    key: DepKey,
    old: Option<Value>,
}

/// What a [`Restore`] holds: a key, and what was there.
pub struct RestoreView {
    pub key: DepKey,
    pub old: Option<ValueView>,
}

impl View for Restore {
    type V = RestoreView;

    closed spec fn view(&self) -> RestoreView {
        RestoreView {
            key: self.key,
            old: match self.old {
                Some(v) => Some(v@),
                None => None,
            },
        }
    }
}

impl Clone for Restore {
    fn clone(&self) -> (r: Self)
        ensures
            r@ == self@,
    {
        let old = match &self.old {
            Some(v) => Some(v.clone()),
            None => None,
        };
        Restore { key: self.key, old }
    }
}

/// What is provided at a key.
pub open spec fn binding(m: Provided, key: DepKey) -> RestoreView {
    RestoreView {
        key,
        old: if m.contains_key(key) {
            Some(m[key])
        } else {
            None
        },
    }
}

/// The table once a change is taken back.
pub open spec fn restored(m: Provided, r: RestoreView) -> Provided {
    match r.old {
        Some(v) => m.insert(r.key, v),
        None => m.remove(r.key),
    }
}

/// Whether all of these dependencies are provided.
pub open spec fn satisfied(m: Provided, deps: Set<DepKey>) -> bool {
    deps.subset_of(m.dom())
}

/// What it means that something is satisfied now that was or was not before.
pub open spec fn change(before: bool, now: bool) -> Activation {
    if !before && now {
        Activation::Activating
    } else if before && !now {
        Activation::Deactivating
    } else {
        Activation::Neutral
    }
}

impl Clone for DependencyTable {
    fn clone(&self) -> (r: Self)
        ensures
            r@ == self@,
    {
        let mut entries: HashMap<DepKey, Value> = HashMap::new();
        let ghost all = self.entries@;
        let ghost mut seen = Set::<DepKey>::empty();
        assert(provided(entries@) =~= provided(all.restrict(seen)));
        for entry in it: self.entries.iter()
            invariant
                it.seq() == vstd::std_specs::iter::IteratorSpec::remaining(&vstd::std_specs::hash::spec_hash_map_iter(&self.entries)),
                all == self.entries@,
                provided(entries@) == provided(all.restrict(seen)),
                forall|j: int| 0 <= j < it.index() ==> seen.contains(*(#[trigger] it.seq()[j]).0),
        {
            let (k, v) = entry;
            assert(all.contains_key(*k) && all[*k] == *v);
            let ghost before = entries@;
            let copy = v.clone();
            let _ = entries.insert(*k, copy);
            proof {
                let next = seen.insert(*k);
                assert(all.restrict(next) =~= all.restrict(seen).insert(*k, *v));
                lemma_provide(before, *k, copy);
                lemma_provide(all.restrict(seen), *k, *v);
                seen = next;
            }
        }
        assert(all.restrict(seen) =~= all) by {
            assert forall|k: DepKey| all.contains_key(k) implies seen.contains(k) by {
                let items = vstd::std_specs::iter::IteratorSpec::remaining(&vstd::std_specs::hash::spec_hash_map_iter(&self.entries));
                assert(items.contains((&k, &all[k])));
            }
        }
        DependencyTable { entries }
    }
}

impl Default for DependencyTable {
    fn default() -> (r: Self)
        ensures
            r@ == Map::<DepKey, ValueView>::empty(),
    {
        DependencyTable::new()
    }
}

impl DependencyTable {
    /// A table in which nothing is provided.
    pub fn new() -> (r: Self)
        ensures
            r@ == Map::<DepKey, ValueView>::empty(),
    {
        let r = DependencyTable { entries: HashMap::new() };
        assert(r@ =~= Map::empty());
        r
    }

    /// What is provided at a key.
    pub fn get(&self, k: &DepKey) -> (r: Option<&Value>)
        ensures
            match r {
                Some(v) => self@.contains_key(*k) && self@[*k] == v@,
                None => !self@.contains_key(*k),
            },
    {
        self.entries.get(k)
    }

    /// Whether something is provided at a key.
    pub fn contains(&self, k: &DepKey) -> (r: bool)
        ensures
            r == self@.contains_key(*k),
    {
        self.entries.contains_key(k)
    }

    /// All that is provided, in no particular order.
    pub fn iter(&self) -> (r: Vec<(DepKey, &Value)>)
        ensures
            r@.len() == self@.dom().len(),
            forall|i: int|
                0 <= i < r@.len() ==> self@.contains_key((#[trigger] r@[i]).0) && self@[r@[i].0]
                    == r@[i].1@,
            forall|k: DepKey| #[trigger]
                self@.contains_key(k) ==> exists|i: int|
                    0 <= i < r@.len() && (#[trigger] r@[i]).0 == k,
    {
        let mut r: Vec<(DepKey, &Value)> = Vec::new();
        let ghost all = vstd::std_specs::iter::IteratorSpec::remaining(&vstd::std_specs::hash::spec_hash_map_iter(&self.entries));
        for entry in it: self.entries.iter()
            invariant
                it.seq() == all,
                all == vstd::std_specs::iter::IteratorSpec::remaining(&vstd::std_specs::hash::spec_hash_map_iter(&self.entries)),
                r@.len() == it.index(),
                forall|j: int|
                    0 <= j < r@.len() ==> (#[trigger] r@[j]).0 == *all[j].0 && r@[j].1 == all[j].1,
        {
            let (k, v) = entry;
            r.push((*k, v));
        }
        proof {
            assert(self@.dom() =~= self.entries@.dom());
            assert forall|i: int| 0 <= i < r@.len() implies self@.contains_key(
                (#[trigger] r@[i]).0,
            ) && self@[r@[i].0] == r@[i].1@ by {
                assert(self.entries@.contains_key(*all[i].0));
            }
            assert forall|k: DepKey| #[trigger] self@.contains_key(k) implies exists|i: int|
                0 <= i < r@.len() && (#[trigger] r@[i]).0 == k by {
                assert(self.entries@.contains_key(k));
                assert(all.contains((&k, &self.entries@[k])));
                let i = choose|i: int| 0 <= i < all.len() && all[i] == (&k, &self.entries@[k]);
                assert(r@[i].0 == k);
            }
        }
        r
    }

    /// Provides a value and returns how to take that back.
    pub fn set(&mut self, k: DepKey, v: Value) -> (r: Restore)
        ensures
            final(self)@ == old(self)@.insert(k, v@),
            r@ == binding(old(self)@, k),
    {
        let before = self.entries.insert(k, v);
        assert(self@ =~= old(self)@.insert(k, v@));
        Restore { key: k, old: before }
    }

    /// Provides a value and returns how to take that back, twice: only one of the
    /// two is to be used.
    pub fn set_replicated(&mut self, k: DepKey, v: Value) -> (r: (Restore, Restore))
        ensures
            final(self)@ == old(self)@.insert(k, v@),
            r.0@ == binding(old(self)@, k),
            r.1@ == binding(old(self)@, k),
    {
        let restore = self.set(k, v);
        let copy = restore.clone();
        (restore, copy)
    }

    /// Takes a change back.
    pub fn restore(&mut self, r: Restore)
        ensures
            final(self)@ == restored(old(self)@, r@),
    {
        match r.old {
            Some(v) => {
                let _ = self.entries.insert(r.key, v);
            },
            None => {
                let _ = self.entries.remove(&r.key);
            },
        }
        assert(self@ =~= restored(old(self)@, r@));
    }

    /// Whether all of these dependencies are provided.
    pub fn satisfies(&self, deps: &HashSet<DepKey>) -> (r: bool)
        ensures
            r == satisfied(self@, deps@),
    {
        let ghost all = vstd::std_specs::iter::IteratorSpec::remaining(&vstd::std_specs::hash::spec_hash_keys_iter(deps));
        for k in it: deps.iter()
            invariant
                it.seq() == all,
                all == vstd::std_specs::iter::IteratorSpec::remaining(&vstd::std_specs::hash::spec_hash_keys_iter(deps)),
                forall|j: int| 0 <= j < it.index() ==> self@.contains_key(*(#[trigger] all[j])),
        {
            if !self.contains(k) {
                proof {
                    let j = it.index();
                    assert(all.unref()[j] == *k);
                    assert(all.unref().to_set().contains(*k));
                    assert(!self@.dom().contains(*k));
                }
                return false;
            }
        }
        proof {
            assert forall|k: DepKey| deps@.contains(k) implies self@.dom().contains(k) by {
                assert(all.unref().to_set().contains(k));
                let j = choose|j: int| 0 <= j < all.unref().len() && all.unref()[j] == k;
                assert(self@.contains_key(*all[j]));
            }
        }
        true
    }
}

/// A component and what it depends on.
#[derive(Debug)]
pub struct Component {
    pub name: String,
    pub deps: HashSet<DepKey>,
}

impl Clone for Component {
    fn clone(&self) -> (r: Self)
        ensures
            r.name@ == self.name@,
            r.deps@ == self.deps@,
    {
        let mut deps: HashSet<DepKey> = HashSet::new();
        let ghost all = vstd::std_specs::iter::IteratorSpec::remaining(&vstd::std_specs::hash::spec_hash_keys_iter(&self.deps));
        for k in it: self.deps.iter()
            invariant
                it.seq() == all,
                all == vstd::std_specs::iter::IteratorSpec::remaining(&vstd::std_specs::hash::spec_hash_keys_iter(&self.deps)),
                forall|k: DepKey| #[trigger] deps@.contains(k) ==> self.deps@.contains(k),
                forall|j: int| 0 <= j < it.index() ==> deps@.contains(*(#[trigger] all[j])),
        {
            proof {
                assert(all.unref()[it.index()] == *k);
                assert(all.unref().to_set().contains(*k));
            }
            let _ = deps.insert(*k);
        }
        assert(deps@ =~= self.deps@) by {
            assert forall|k: DepKey| self.deps@.contains(k) implies deps@.contains(k) by {
                assert(all.unref().to_set().contains(k));
                let j = choose|j: int| 0 <= j < all.unref().len() && all.unref()[j] == k;
                assert(deps@.contains(*all[j]));
            }
        }
        Component { name: self.name.clone(), deps }
    }
}

impl Default for Component {
    fn default() -> (r: Self)
        ensures
            r.name@ == ""@,
            r.deps@ == Set::<DepKey>::empty(),
    {
        Component::new("")
    }
}

impl Component {
    /// A component that depends on nothing.
    pub fn new(name: &str) -> (r: Self)
        ensures
            r.name@ == name@,
            r.deps@ == Set::<DepKey>::empty(),
    {
        Component { name: name.to_owned(), deps: HashSet::new() }
    }

    /// The component with one more dependency.
    pub fn depends_on(self, k: DepKey) -> (r: Self)
        ensures
            r.name == self.name,
            r.deps@ == self.deps@.insert(k),
    {
        let mut r = self;
        let _ = r.deps.insert(k);
        r
    }
}

/// What a change from one table to another means for something with these
/// dependencies.
pub fn notify(
    sigma: &DependencyTable,
    sigma_prime: &DependencyTable,
    deps: &HashSet<DepKey>,
) -> (r: Activation)
    ensures
        r == change(satisfied(sigma@, deps@), satisfied(sigma_prime@, deps@)),
{
    match (sigma.satisfies(deps), sigma_prime.satisfies(deps)) {
        (false, true) => Activation::Activating,
        (true, false) => Activation::Deactivating,
        _ => Activation::Neutral,
    }
}

/// Which components were active when they were last looked at.
#[derive(Debug)]
pub struct ComponentState {
    active: Vec<bool>,
}

/// Whether a component was active; one that is new was not.
pub open spec fn was_active(active: Seq<bool>, i: int) -> bool {
    0 <= i < active.len() && active[i]
}

/// Which components are active now.
pub open spec fn active_now(components: Seq<Component>, m: Provided) -> Seq<bool> {
    Seq::new(components.len(), |i: int| satisfied(m, components[i].deps@))
}

/// The components among the first `n` that are active now and were not before, or
/// the other way round, in order.
pub open spec fn flips(active: Seq<bool>, now: Seq<bool>, n: nat) -> Seq<(usize, Activation)>
    decreases n,
{
    if n == 0 {
        Seq::empty()
    } else {
        let i = n - 1;
        let before = flips(active, now, i as nat);
        let c = change(was_active(active, i), now[i]);
        if c is Neutral {
            before
        } else {
            before.push((i as usize, c))
        }
    }
}

impl Default for ComponentState {
    fn default() -> (r: Self)
        ensures
            r.active() == Seq::<bool>::empty(),
    {
        ComponentState::new()
    }
}

impl ComponentState {
    /// Which components were active.
    pub closed spec fn active(self) -> Seq<bool> {
        self.active@
    }

    /// No component is active.
    pub fn new() -> (r: Self)
        ensures
            r.active() == Seq::<bool>::empty(),
    {
        ComponentState { active: Vec::new() }
    }

    /// Looks at the components and returns which of them became active or
    /// inactive, in order.
    pub fn sync(&mut self, components: &Vec<Component>, table: &DependencyTable) -> (r: Vec<
        (usize, Activation),
    >)
        ensures
            final(self).active() == active_now(components@, table@),
            r@ == flips(
                old(self).active(),
                active_now(components@, table@),
                components@.len(),
            ),
    {
        let ghost now = active_now(components@, table@);
        let mut r: Vec<(usize, Activation)> = Vec::new();
        let mut active: Vec<bool> = Vec::new();
        let mut i: usize = 0;
        while i < components.len()
            invariant
                i <= components@.len(),
                self.active == old(self).active,
                now == active_now(components@, table@),
                active@ == now.take(i as int),
                r@ == flips(old(self).active(), now, i as nat),
            decreases components@.len() - i,
        {
            let before = i < self.active.len() && self.active[i];
            let after = table.satisfies(&components[i].deps);
            if !before && after {
                r.push((i, Activation::Activating));
            } else if before && !after {
                r.push((i, Activation::Deactivating));
            }
            active.push(after);
            assert(now.take(i + 1) =~= now.take(i as int).push(now[i as int]));
            i += 1;
        }
        assert(now.take(i as int) =~= now);
        self.active = active;
        r
    }
}

/// The dependencies and the components of an execution. Each part may be missing.
#[derive(Debug)]
pub struct Coeffects {
    table: Option<DependencyTable>,
    components: Option<Vec<Component>>,
    state: Option<ComponentState>,
}

impl Coeffects {
    /// What is provided, if there is a table.
    pub closed spec fn provided(self) -> Option<Provided> {
        match self.table {
            Some(t) => Some(t@),
            None => None,
        }
    }

    /// The components, if there are any to look at.
    pub closed spec fn loaded(self) -> Option<Seq<Component>> {
        match self.components {
            Some(c) => Some(c@),
            None => None,
        }
    }

    /// Which components were active, if that is kept.
    pub closed spec fn active(self) -> Option<Seq<bool>> {
        match self.state {
            Some(s) => Some(s.active()),
            None => None,
        }
    }

    /// Nothing is provided, and there are no components.
    pub fn new() -> (r: Self)
        ensures
            r.provided() == Some(Map::<DepKey, ValueView>::empty()),
            r.loaded() == Some(Seq::<Component>::empty()),
            r.active() == Some(Seq::<bool>::empty()),
    {
        let r = Coeffects {
            table: Some(DependencyTable::new()),
            components: Some(Vec::new()),
            state: Some(ComponentState::new()),
        };
        assert(r.loaded()->0 =~= Seq::empty());
        r
    }

    /// There is neither a table nor anything else.
    pub fn disabled() -> (r: Self)
        ensures
            r.provided() is None,
            r.loaded() is None,
            r.active() is None,
    {
        Coeffects { table: None, components: None, state: None }
    }

    /// The table.
    pub fn dependency_table(&self) -> (r: Option<&DependencyTable>)
        ensures
            match r {
                Some(t) => self.provided() == Some(t@),
                None => self.provided() is None,
            },
    {
        match &self.table {
            Some(t) => Some(t),
            None => None,
        }
    }

    /// Adds a component, if components are kept.
    pub fn load(&mut self, component: Component)
        ensures
            final(self).provided() == old(self).provided(),
            final(self).active() == old(self).active(),
            final(self).loaded() == (match old(self).loaded() {
                Some(c) => Some(c.push(component)),
                None => None,
            }),
    {
        if let Some(c) = &mut self.components {
            c.push(component);
        }
    }

    /// How many components there are.
    pub fn components(&self) -> (r: Option<usize>)
        ensures
            match r {
                Some(n) => self.loaded() matches Some(c) && n == c.len(),
                None => self.loaded() is None,
            },
    {
        match &self.components {
            Some(c) => Some(c.len()),
            None => None,
        }
    }

    /// Provides a value and returns how to take that back, twice: one for the undo
    /// stack and one for the caller. Without a table there is an error.
    pub fn set_dependency(&mut self, k: DepKey, v: Value) -> (r: Result<
        (Restore, Restore),
        SysError,
    >)
        ensures
            final(self).loaded() == old(self).loaded(),
            final(self).active() == old(self).active(),
            match old(self).provided() {
                None => r == Err::<(Restore, Restore), SysError>(SysError::Other(38))
                    && final(self).provided() is None,
                Some(m) => r matches Ok(pair) && pair.0@ == binding(m, k) && pair.1@ == binding(m, k)
                    && final(self).provided() == Some(m.insert(k, v@)),
            },
    {
        match &mut self.table {
            Some(t) => Ok(t.set_replicated(k, v)),
            None => Err(SysError::Other(38)),
        }
    }

    /// Takes a change back, if there is a table.
    pub fn restore(&mut self, r: Restore)
        ensures
            final(self).loaded() == old(self).loaded(),
            final(self).active() == old(self).active(),
            final(self).provided() == (match old(self).provided() {
                Some(m) => Some(restored(m, r@)),
                None => None,
            }),
    {
        if let Some(t) = &mut self.table {
            t.restore(r);
        }
    }

    /// Looks at the components and returns which of them became active or
    /// inactive, in order. Where a part is missing, there are none.
    pub fn sync_components(&mut self) -> (r: Vec<(usize, Activation)>)
        ensures
            final(self).provided() == old(self).provided(),
            final(self).loaded() == old(self).loaded(),
            match (old(self).provided(), old(self).loaded(), old(self).active()) {
                (Some(m), Some(c), Some(active)) => {
                    &&& final(self).active() == Some(active_now(c, m))
                    &&& r@ == flips(active, active_now(c, m), c.len())
                },
                _ => r@.len() == 0 && final(self).active() == old(self).active(),
            },
    {
        if let Some(table) = &self.table {
            if let Some(components) = &self.components {
                if let Some(state) = &mut self.state {
                    return state.sync(components, table);
                }
            }
        }
        Vec::new()
    }
}

/// What is provided once these values were provided, in order.
pub open spec fn all_set(m: Provided, sets: Seq<(DepKey, ValueView)>) -> Provided
    decreases sets.len(),
{
    if sets.len() == 0 {
        m
    } else {
        all_set(m, sets.drop_last()).insert(sets.last().0, sets.last().1)
    }
}

/// What is provided once these changes are taken back, the last one first.
pub open spec fn all_restored(m: Provided, start: Provided, sets: Seq<(DepKey, ValueView)>) -> Provided
    decreases sets.len(),
{
    if sets.len() == 0 {
        m
    } else {
        let before = all_set(start, sets.drop_last());
        all_restored(restored(m, binding(before, sets.last().0)), start, sets.drop_last())
    }
}

/// Taking changes back, the last one first, leaves the table as it was before the
/// first.
pub proof fn law_sets_are_reversible(m: Provided, sets: Seq<(DepKey, ValueView)>)
    ensures
        all_restored(all_set(m, sets), m, sets) == m,
    decreases sets.len(),
{
    if sets.len() > 0 {
        let before = all_set(m, sets.drop_last());
        law_set_is_reversible(before, sets.last().0, sets.last().1);
        law_sets_are_reversible(m, sets.drop_last());
    }
}

/// Taking a change back right after it leaves the table as it was.
pub proof fn law_set_is_reversible(m: Provided, k: DepKey, v: ValueView)
    ensures
        restored(m.insert(k, v), binding(m, k)) == m,
{
    assert(restored(m.insert(k, v), binding(m, k)) =~= m);
}

/// Looking at the components again without a change finds nothing.
pub proof fn law_sync_settles(now: Seq<bool>, n: nat)
    requires
        n <= now.len(),
    ensures
        flips(now, now, n) == Seq::<(usize, Activation)>::empty(),
    decreases n,
{
    if n > 0 {
        law_sync_settles(now, (n - 1) as nat);
    }
}

/// A change and the change back are opposite, and no change means nothing.
pub proof fn law_changes_are_opposite(a: bool, b: bool)
    ensures
        change(a, a) == Activation::Neutral,
        change(a, b) is Activating <==> change(b, a) is Deactivating,
{
}

/// A component is active exactly if everything that it depends on is provided.
pub proof fn law_active_while_provided(components: Seq<Component>, m: Provided, i: int)
    requires
        0 <= i < components.len(),
    ensures
        active_now(components, m).len() == components.len(),
        active_now(components, m)[i] <==> forall|k: DepKey| #[trigger]
            components[i].deps@.contains(k) ==> m.contains_key(k),
{
    let deps = components[i].deps@;
    if forall|k: DepKey| #[trigger] deps.contains(k) ==> m.contains_key(k) {
        assert forall|k: DepKey| deps.contains(k) implies m.dom().contains(k) by {}
    }
    if satisfied(m, deps) {
        assert forall|k: DepKey| #[trigger] deps.contains(k) implies m.contains_key(k) by {
            assert(m.dom().contains(k));
        }
    }
}

/// What is reported of the components is what has changed, in their order and each
/// once: one that is active and was not, or was not there, becomes active; one that
/// was active and is not becomes inactive; of any other nothing is said.
pub proof fn law_changes_are_reported(active: Seq<bool>, now: Seq<bool>, n: nat, i: int)
    requires
        n <= now.len() <= usize::MAX,
        0 <= i < n,
    ensures
        flips(active, now, n).contains((i as usize, Activation::Activating)) <==> now[i] && !(i
            < active.len() && active[i]),
        flips(active, now, n).contains((i as usize, Activation::Deactivating)) <==> !now[i] && i
            < active.len() && active[i],
        !flips(active, now, n).contains((i as usize, Activation::Neutral)),
        forall|a: int, b: int|
            0 <= a < b < flips(active, now, n).len() ==> (#[trigger] flips(active, now, n)[a]).0 < (
            #[trigger] flips(active, now, n)[b]).0,
{
    lemma_flips(active, now, n);
    let all = flips(active, now, n);
    let c = change(was_active(active, i), now[i]);
    if !(c is Neutral) {
        assert(all.contains((i as usize, c)));
    }
    assert forall|a: Activation| #[trigger] all.contains((i as usize, a)) implies a == c && !(
    a is Neutral) by {
        let j = choose|j: int| 0 <= j < all.len() && all[j] == (i as usize, a);
        assert(all[j].0 == i);
    }
    assert(all.contains((i as usize, Activation::Activating)) ==> c is Activating);
    assert(all.contains((i as usize, Activation::Deactivating)) ==> c is Deactivating);
}

proof fn lemma_flips(active: Seq<bool>, now: Seq<bool>, n: nat)
    requires
        n <= now.len() <= usize::MAX,
    ensures
        forall|j: int|
            0 <= j < flips(active, now, n).len() ==> {
                let (i, c) = #[trigger] flips(active, now, n)[j];
                i < n && c == change(was_active(active, i as int), now[i as int]) && !(c is Neutral)
            },
        forall|i: int|
            0 <= i < n && !(change(was_active(active, i), #[trigger] now[i]) is Neutral) ==> flips(
                active,
                now,
                n,
            ).contains((i as usize, change(was_active(active, i), now[i]))),
        forall|a: int, b: int|
            0 <= a < b < flips(active, now, n).len() ==> (#[trigger] flips(active, now, n)[a]).0 < (
            #[trigger] flips(active, now, n)[b]).0,
    decreases n,
{
    if n > 0 {
        let p = (n - 1) as nat;
        lemma_flips(active, now, p);
        let before = flips(active, now, p);
        let all = flips(active, now, n);
        let c = change(was_active(active, p as int), now[p as int]);
        assert forall|i: int|
            0 <= i < n && !(change(was_active(active, i), #[trigger] now[i]) is Neutral) implies all.contains(
            (i as usize, change(was_active(active, i), now[i])),
        ) by {
            let e = (i as usize, change(was_active(active, i), now[i]));
            if i < p {
                assert(before.contains(e));
                let j = choose|j: int| 0 <= j < before.len() && before[j] == e;
                assert(all[j] == e);
            } else {
                assert(all[before.len() as int] == e);
            }
        }
    }
}

/// Taking a change back puts back what was at its key, or nothing where nothing was,
/// and touches no other key.
pub proof fn law_restoring_one(m: Provided, before: Provided, key: DepKey, other: DepKey)
    ensures
        restored(m, binding(before, key)).contains_key(key) == before.contains_key(key),
        before.contains_key(key) ==> restored(m, binding(before, key))[key] == before[key],
        other != key ==> restored(m, binding(before, key)).contains_key(other)
            == m.contains_key(other),
        other != key && m.contains_key(other) ==> restored(m, binding(before, key))[other]
            == m[other],
{
}

/// What a change of what is satisfied means.
pub proof fn law_what_a_change_means(before: bool, now: bool)
    ensures
        change(before, now) is Activating <==> !before && now,
        change(before, now) is Deactivating <==> before && !now,
{
}

} // verus!
