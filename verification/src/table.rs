//! Association tables for keys that are compared by what they hold.
//!
//! A [`Table`] keeps its entries in a vector; of two entries with one key the
//! later counts. What it holds is a [`Map`] from the keys' views.

use vstd::prelude::*;

verus! {

/// A key that can be compared and copied by its view.
pub trait Key: View + Sized {
    /// Whether two keys hold the same.
    fn same(&self, other: &Self) -> (r: bool)
        ensures
            r == (self@ == other@),
    ;

    /// A key that holds the same.
    fn copy_key(&self) -> (r: Self)
        ensures
            r@ == self@,
    ;
}

impl Key for String {
    fn same(&self, other: &Self) -> (r: bool) {
        *self == *other
    }

    fn copy_key(&self) -> (r: Self) {
        self.clone()
    }
}

/// A table from keys to values.
#[derive(Debug)]
pub struct Table<K, V> {
    entries: Vec<(K, V)>,
}

/// What a sequence of entries holds.
pub open spec fn entries_map<K: View, V>(entries: Seq<(K, V)>) -> Map<K::V, V>
    decreases entries.len(),
{
    if entries.len() == 0 {
        Map::empty()
    } else {
        entries_map(entries.drop_last()).insert(entries.last().0@, entries.last().1)
    }
}

impl<K: View, V> View for Table<K, V> {
    type V = Map<K::V, V>;

    closed spec fn view(&self) -> Map<K::V, V> {
        entries_map(self.entries@)
    }
}

/// An entry that is looked up is the last one with its key.
proof fn lemma_last_entry<K: View, V>(entries: Seq<(K, V)>, i: int)
    requires
        0 <= i < entries.len(),
        forall|j: int| i < j < entries.len() ==> (#[trigger] entries[j]).0@ != entries[i].0@,
    ensures
        entries_map(entries).contains_key(entries[i].0@),
        entries_map(entries)[entries[i].0@] == entries[i].1,
    decreases entries.len(),
{
    if i < entries.len() - 1 {
        lemma_last_entry(entries.drop_last(), i);
        assert(entries.drop_last()[i] == entries[i]);
        assert(entries.last() == entries[entries.len() - 1]);
    }
}

/// A key is held exactly if some entry has it.
proof fn lemma_keys<K: View, V>(entries: Seq<(K, V)>, k: K::V)
    ensures
        entries_map(entries).contains_key(k) <==> exists|i: int|
            0 <= i < entries.len() && (#[trigger] entries[i]).0@ == k,
    decreases entries.len(),
{
    if entries.len() > 0 {
        let rest = entries.drop_last();
        lemma_keys(rest, k);
        if entries.last().0@ == k {
            assert(entries[entries.len() - 1].0@ == k);
        }
        if exists|i: int| 0 <= i < rest.len() && (#[trigger] rest[i]).0@ == k {
            let i = choose|i: int| 0 <= i < rest.len() && (#[trigger] rest[i]).0@ == k;
            assert(entries[i] == rest[i]);
        }
        if exists|i: int| 0 <= i < entries.len() && (#[trigger] entries[i]).0@ == k {
            let i = choose|i: int| 0 <= i < entries.len() && (#[trigger] entries[i]).0@ == k;
            if i < entries.len() - 1 {
                assert(entries[i] == rest[i]);
            } else {
                assert(entries.last() == entries[i]);
            }
        }
    }
}

/// Dropping an entry changes nothing at the other keys.
proof fn lemma_drop_entry<K: View, V>(entries: Seq<(K, V)>, i: int)
    requires
        0 <= i < entries.len(),
    ensures
        entries_map(entries.remove(i)).remove(entries[i].0@) == entries_map(entries).remove(
            entries[i].0@,
        ),
    decreases entries.len(),
{
    let k = entries[i].0@;
    if i == entries.len() - 1 {
        assert(entries.remove(i) =~= entries.drop_last());
        assert(entries.last() == entries[i]);
        assert(entries_map(entries.drop_last()).insert(k, entries.last().1).remove(k)
            =~= entries_map(entries.drop_last()).remove(k));
    } else {
        let rest = entries.drop_last();
        lemma_drop_entry(rest, i);
        assert(rest[i] == entries[i]);
        assert(entries.remove(i).drop_last() =~= rest.remove(i));
        assert(entries.remove(i).last() == entries.last());
        let e = entries.last();
        let a = entries_map(rest.remove(i));
        let b = entries_map(rest);
        assert(a.remove(k) == b.remove(k));
        let l = a.insert(e.0@, e.1).remove(k);
        let r = b.insert(e.0@, e.1).remove(k);
        assert forall|x: K::V| #[trigger] l.contains_key(x) == r.contains_key(x) by {
            assert(a.remove(k).contains_key(x) == b.remove(k).contains_key(x));
        }
        assert forall|x: K::V| #[trigger] l.contains_key(x) implies l[x] == r[x] by {
            if x != e.0@ {
                assert(a.remove(k)[x] == b.remove(k)[x]);
            }
        }
        assert(l =~= r);
    }
}

/// Entries with the same keys and values hold the same.
proof fn lemma_same_entries<K: View, V>(a: Seq<(K, V)>, b: Seq<(K, V)>)
    requires
        a.len() == b.len(),
        forall|i: int| 0 <= i < a.len() ==> (#[trigger] a[i]).0@ == b[i].0@ && a[i].1 == b[i].1,
    ensures
        entries_map(a) == entries_map(b),
    decreases a.len(),
{
    if a.len() > 0 {
        lemma_same_entries(a.drop_last(), b.drop_last());
        assert(a.last() == a[a.len() - 1]);
    }
}

impl<K: Key, V> Table<K, V> {
    /// An empty table.
    pub fn new() -> (r: Self)
        ensures
            r@ == Map::<K::V, V>::empty(),
    {
        Table { entries: Vec::new() }
    }

    /// The position of the last entry with this key.
    fn position(&self, k: &K) -> (r: Option<usize>)
        ensures
            match r {
                Some(i) => {
                    &&& i < self.entries@.len()
                    &&& self.entries@[i as int].0@ == k@
                    &&& self@.contains_key(k@)
                    &&& self@[k@] == self.entries@[i as int].1
                },
                None => !self@.contains_key(k@),
            },
    {
        let mut i: usize = self.entries.len();
        while i > 0
            invariant
                i <= self.entries@.len(),
                forall|j: int| i <= j < self.entries@.len() ==> (#[trigger] self.entries@[j]).0@
                    != k@,
            decreases i,
        {
            i -= 1;
            if self.entries[i].0.same(k) {
                proof {
                    lemma_last_entry(self.entries@, i as int);
                }
                return Some(i);
            }
        }
        proof {
            lemma_keys(self.entries@, k@);
        }
        None
    }

    /// The value at a key.
    pub fn get(&self, k: &K) -> (r: Option<&V>)
        ensures
            match r {
                Some(v) => self@.contains_key(k@) && self@[k@] == *v,
                None => !self@.contains_key(k@),
            },
    {
        match self.position(k) {
            Some(i) => Some(&self.entries[i].1),
            None => None,
        }
    }

    /// Whether there is a value at a key.
    pub fn contains(&self, k: &K) -> (r: bool)
        ensures
            r == self@.contains_key(k@),
    {
        self.position(k).is_some()
    }

    /// Drops what is held at a key.
    pub fn remove(&mut self, k: &K)
        ensures
            final(self)@ == old(self)@.remove(k@),
    {
        let ghost start = self@;
        loop
            invariant
                self@.remove(k@) == start.remove(k@),
            ensures
                self@.remove(k@) == start.remove(k@),
                !self@.contains_key(k@),
            decreases self.entries@.len(),
        {
            match self.position(k) {
                Some(i) => {
                    proof {
                        lemma_drop_entry(self.entries@, i as int);
                    }
                    let _ = self.entries.remove(i);
                },
                None => {
                    break;
                },
            }
        }
        assert(self@ =~= self@.remove(k@));
    }

    /// Puts a value at a key, in place of what was held there.
    pub fn insert(&mut self, k: K, v: V)
        ensures
            final(self)@ == old(self)@.insert(k@, v),
    {
        self.remove(&k);
        let ghost before = self.entries@;
        self.entries.push((k, v));
        assert(self.entries@.drop_last() =~= before);
        assert(old(self)@.remove(k@).insert(k@, v) =~= old(self)@.insert(k@, v));
    }

    /// Drops everything.
    pub fn clear(&mut self)
        ensures
            final(self)@ == Map::<K::V, V>::empty(),
    {
        self.entries.clear();
    }

    /// Whether nothing is held.
    pub fn is_empty(&self) -> (r: bool)
        ensures
            r == (self@ == Map::<K::V, V>::empty()),
    {
        let r = self.entries.len() == 0;
        proof {
            if !r {
                lemma_keys(self.entries@, self.entries@[0].0@);
            }
        }
        r
    }

    /// Whether no key is held in both tables.
    pub fn disjoint<W>(&self, other: &Table<K, W>) -> (r: bool)
        ensures
            r == self@.dom().disjoint(other@.dom()),
    {
        let mut i: usize = 0;
        while i < self.entries.len()
            invariant
                i <= self.entries@.len(),
                forall|j: int|
                    0 <= j < i ==> !other@.contains_key((#[trigger] self.entries@[j]).0@),
            decreases self.entries@.len() - i,
        {
            if other.contains(&self.entries[i].0) {
                proof {
                    let k = self.entries@[i as int].0@;
                    lemma_keys(self.entries@, k);
                    assert(self@.dom().contains(k) && other@.dom().contains(k));
                }
                return false;
            }
            i += 1;
        }
        assert forall|k: K::V| self@.dom().contains(k) implies !other@.dom().contains(k) by {
            lemma_keys(self.entries@, k);
        }
        true
    }

    /// Drops what the other table does not hold.
    pub fn keep_only<W>(&mut self, other: &Table<K, W>)
        ensures
            final(self)@ == old(self)@.restrict(other@.dom()),
    {
        let ghost start = self@;
        let ghost keep = other@.dom();
        let mut i: usize = 0;
        while i < self.entries.len()
            invariant
                i <= self.entries@.len(),
                keep == other@.dom(),
                self@.restrict(keep) == start.restrict(keep),
                forall|j: int| 0 <= j < i ==> keep.contains((#[trigger] self.entries@[j]).0@),
            decreases self.entries@.len() - i,
        {
            if other.contains(&self.entries[i].0) {
                i += 1;
            } else {
                let ghost before = self@;
                let ghost k = self.entries@[i as int].0@;
                proof {
                    lemma_drop_entry(self.entries@, i as int);
                }
                let _ = self.entries.remove(i);
                assert(self@.restrict(keep) =~= before.restrict(keep)) by {
                    assert forall|x: K::V| #![auto] keep.contains(x) implies self@.contains_key(x)
                        == before.contains_key(x) && (self@.contains_key(x) ==> self@[x]
                        == before[x]) by {
                        assert(x != k);
                        assert(self@.remove(k).contains_key(x) == before.remove(k).contains_key(x));
                        if self@.contains_key(x) {
                            assert(self@.remove(k)[x] == before.remove(k)[x]);
                        }
                    }
                }
            }
        }
        assert(self@ =~= self@.restrict(keep)) by {
            assert forall|x: K::V| self@.contains_key(x) implies keep.contains(x) by {
                lemma_keys(self.entries@, x);
            }
        }
    }
}

impl<K: Key, V: Copy> Table<K, V> {
    /// A table that holds the same.
    pub fn copy_table(&self) -> (r: Self)
        ensures
            r@ == self@,
    {
        let mut entries: Vec<(K, V)> = Vec::new();
        let mut i: usize = 0;
        while i < self.entries.len()
            invariant
                i <= self.entries@.len(),
                entries@.len() == i,
                forall|j: int|
                    0 <= j < i ==> (#[trigger] entries@[j]).0@ == self.entries@[j].0@
                        && entries@[j].1 == self.entries@[j].1,
            decreases self.entries@.len() - i,
        {
            entries.push((self.entries[i].0.copy_key(), self.entries[i].1));
            i += 1;
        }
        proof {
            lemma_same_entries(entries@, self.entries@);
        }
        Table { entries }
    }

    /// Adds what the other table holds, which counts where both hold a key.
    pub fn add_all(&mut self, other: &Table<K, V>)
        ensures
            final(self)@ == old(self)@.union_prefer_right(other@),
    {
        let mut i: usize = 0;
        assert(other.entries@.take(0) =~= Seq::empty());
        assert(self@ =~= old(self)@.union_prefer_right(entries_map(other.entries@.take(0))));
        while i < other.entries.len()
            invariant
                i <= other.entries@.len(),
                self@ == old(self)@.union_prefer_right(entries_map(other.entries@.take(i as int))),
            decreases other.entries@.len() - i,
        {
            let ghost done = entries_map(other.entries@.take(i as int));
            let ghost e = other.entries@[i as int];
            self.insert(other.entries[i].0.copy_key(), other.entries[i].1);
            proof {
                let next = other.entries@.take(i + 1);
                assert(next.drop_last() =~= other.entries@.take(i as int));
                assert(next.last() == e);
                assert(old(self)@.union_prefer_right(done).insert(e.0@, e.1)
                    =~= old(self)@.union_prefer_right(done.insert(e.0@, e.1)));
            }
            i += 1;
        }
        assert(other.entries@.take(i as int) =~= other.entries@);
    }
}

} // verus!
