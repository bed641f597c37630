//! The arbiter of resources that are claimed while an execution runs.
//!
//! A claim takes all the resources it names or none of them, and never waits:
//! whoever is refused may try again. As nobody waits while holding a claim, no
//! two claims can block each other.

use vstd::prelude::*;

use crate::resource::{AccessMode, Resource, ResourceSet, ResourceUsage, ResourceView, UsageView};
use crate::table::Table;

verus! {

/// The count that stands for one exclusive claim.
pub const EXCLUSIVE_CLAIM: usize = usize::MAX;

/// Who holds what: for each claimed resource the number of readers, or
/// [`EXCLUSIVE_CLAIM`].
#[derive(Debug)]
pub struct ResourceArbiter {
    claims: Table<Resource, usize>,
}

/// The claims of an arbiter.
pub type Claims = Map<ResourceView, usize>;

impl View for ResourceArbiter {
    type V = Claims;

    closed spec fn view(&self) -> Claims {
        self.claims@
    }
}

/// The count at a resource, zero where nothing is recorded.
pub open spec fn count(m: Claims, x: ResourceView) -> usize {
    if m.contains_key(x) {
        m[x]
    } else {
        0
    }
}

/// The claims with one more: a reader joins other readers, anyone else has to be
/// alone.
pub open spec fn with_claim(m: Claims, u: UsageView) -> Option<Claims> {
    let c = count(m, u.resource);
    if u.mode is Read {
        if c == EXCLUSIVE_CLAIM {
            None
        } else {
            Some(m.insert(u.resource, (c + 1) as usize))
        }
    } else if c != 0 {
        None
    } else {
        Some(m.insert(u.resource, EXCLUSIVE_CLAIM))
    }
}

/// The claims with all of these, one after the other, if each can be had.
pub open spec fn with_claims(m: Claims, us: Seq<UsageView>) -> Option<Claims>
    decreases us.len(),
{
    if us.len() == 0 {
        Some(m)
    } else {
        match with_claims(m, us.drop_last()) {
            Some(n) => with_claim(n, us.last()),
            None => None,
        }
    }
}

/// The claims with one given back: the exclusive one, or one reader.
pub open spec fn without_claim(m: Claims, x: ResourceView) -> Claims {
    let c = count(m, x);
    if c == 0 {
        m
    } else if c == EXCLUSIVE_CLAIM || c == 1 {
        m.remove(x)
    } else {
        m.insert(x, (c - 1) as usize)
    }
}

/// The claims with all of these given back, one after the other.
pub open spec fn without_claims(m: Claims, us: Seq<UsageView>) -> Claims
    decreases us.len(),
{
    if us.len() == 0 {
        m
    } else {
        without_claim(without_claims(m, us.drop_last()), us.last().resource)
    }
}

/// Whether every recorded count is a claim.
pub open spec fn all_held(m: Claims) -> bool {
    forall|x: ResourceView| #[trigger] m.contains_key(x) ==> m[x] != 0
}

impl ResourceArbiter {
    /// Nothing is recorded that is not claimed.
    #[verifier::type_invariant]
    spec fn records_claims(&self) -> bool {
        all_held(self.claims@)
    }
}

impl Default for ResourceArbiter {
    fn default() -> (r: Self)
        ensures
            r@ == Map::<ResourceView, usize>::empty(),
            all_held(r@),
    {
        ResourceArbiter::new()
    }
}

impl Clone for ResourceArbiter {
    fn clone(&self) -> (r: Self)
        ensures
            r@ == self@,
            all_held(r@),
    {
        proof {
            use_type_invariant(self);
        }
        ResourceArbiter { claims: self.claims.copy_table() }
    }
}

impl ResourceArbiter {
    /// An arbiter that nothing is claimed from.
    pub fn new() -> (r: Self)
        ensures
            r@ == Map::<ResourceView, usize>::empty(),
            all_held(r@),
    {
        ResourceArbiter { claims: Table::new() }
    }

    /// Claims all of these resources, or none.
    pub fn try_claim(&mut self, set: &ResourceSet) -> (r: bool)
        ensures
            r == with_claims(old(self)@, crate::resource::usages(set@)) is Some,
            r ==> Some(final(self)@) == with_claims(old(self)@, crate::resource::usages(set@)),
            !r ==> final(self)@ == old(self)@,
            all_held(old(self)@),
            all_held(final(self)@),
    {
        let ghost us = crate::resource::usages(set@);
        proof {
            use_type_invariant(&*self);
            law_recorded_means_held(self@, us);
        }
        let mut trial = self.claims.copy_table();
        let mut i: usize = 0;
        while i < set.len()
            invariant
                i <= set@.len(),
                us == crate::resource::usages(set@),
                self@ == old(self)@,
                all_held(self@),
                Some(trial@) == with_claims(self@, us.take(i as int)),
            decreases set@.len() - i,
        {
            proof {
                assert(us.take(i + 1).drop_last() =~= us.take(i as int));
                assert(us.take(i + 1).last() == set@[i as int]@);
            }
            if !Self::claim_one(&mut trial, &set[i]) {
                proof {
                    lemma_refused_prefix(self@, us, i + 1);
                }
                return false;
            }
            i += 1;
        }
        assert(us.take(i as int) =~= us);
        self.claims = trial;
        true
    }

    /// Claims one resource on a table of claims.
    fn claim_one(claims: &mut Table<Resource, usize>, usage: &ResourceUsage) -> (r: bool)
        ensures
            r == with_claim(old(claims)@, usage@) is Some,
            r ==> Some(final(claims)@) == with_claim(old(claims)@, usage@),
            !r ==> final(claims)@ == old(claims)@,
    {
        let c: usize = match claims.get(&usage.resource) {
            Some(c) => *c,
            None => 0,
        };
        match usage.mode {
            AccessMode::Read => {
                if c == EXCLUSIVE_CLAIM {
                    return false;
                }
                claims.insert(usage.resource.clone(), c + 1);
            },
            AccessMode::Write | AccessMode::Own | AccessMode::Append => {
                if c != 0 {
                    return false;
                }
                claims.insert(usage.resource.clone(), EXCLUSIVE_CLAIM);
            },
        }
        true
    }

    /// Gives these claims back. A resource that is not claimed is passed over.
    pub fn release(&mut self, set: &ResourceSet)
        ensures
            final(self)@ == without_claims(old(self)@, crate::resource::usages(set@)),
            all_held(old(self)@),
            all_held(final(self)@),
    {
        let ghost us = crate::resource::usages(set@);
        let ghost before = self@;
        proof {
            use_type_invariant(&*self);
            law_recorded_means_held(before, us);
        }
        let mut claims: Table<Resource, usize> = Table::new();
        std::mem::swap(&mut claims, &mut self.claims);
        let mut i: usize = 0;
        while i < set.len()
            invariant
                i <= set@.len(),
                us == crate::resource::usages(set@),
                claims@ == without_claims(before, us.take(i as int)),
            decreases set@.len() - i,
        {
            proof {
                assert(us.take(i + 1).drop_last() =~= us.take(i as int));
                assert(us.take(i + 1).last() == set@[i as int]@);
            }
            let res = &set[i].resource;
            let c: usize = match claims.get(res) {
                Some(c) => *c,
                None => 0,
            };
            if c == EXCLUSIVE_CLAIM || c == 1 {
                claims.remove(res);
            } else if c > 0 {
                claims.insert(res.clone(), c - 1);
            }
            i += 1;
        }
        assert(us.take(i as int) =~= us);
        self.claims = claims;
    }

    /// Whether a resource is claimed.
    pub fn held(&self, r: &Resource) -> (b: bool)
        ensures
            b == (count(self@, r@) != 0),
    {
        match self.claims.get(r) {
            Some(c) => *c != 0,
            None => false,
        }
    }

    /// Whether nothing is claimed.
    pub fn is_clean(&self) -> (b: bool)
        ensures
            b == (self@ == Map::<ResourceView, usize>::empty()),
            b == forall|x: ResourceView| count(self@, x) == 0,
    {
        proof {
            use_type_invariant(self);
            law_recorded_means_held(self@, Seq::empty());
        }
        self.claims.is_empty()
    }
}

proof fn lemma_refused_prefix(m: Claims, us: Seq<UsageView>, n: int)
    requires
        0 <= n <= us.len(),
        with_claims(m, us.take(n)) is None,
    ensures
        with_claims(m, us) is None,
    decreases us.len() - n,
{
    if n == us.len() {
        assert(us.take(n) =~= us);
    } else {
        assert(us.take(n + 1).drop_last() =~= us.take(n));
        lemma_refused_prefix(m, us, n + 1);
    }
}

/// Claims and releases keep every recorded count a claim, so an arbiter is clean
/// exactly when nothing is held.
pub proof fn law_recorded_means_held(m: Claims, us: Seq<UsageView>)
    requires
        all_held(m),
    ensures
        with_claims(m, us) matches Some(n) ==> all_held(n),
        all_held(without_claims(m, us)),
        m == Map::<ResourceView, usize>::empty() <==> forall|x: ResourceView| count(m, x) == 0,
    decreases us.len(),
{
    if us.len() > 0 {
        law_recorded_means_held(m, us.drop_last());
    } else {
        if forall|x: ResourceView| count(m, x) == 0 {
            assert forall|x: ResourceView| !m.contains_key(x) by {
                assert(count(m, x) == 0);
            }
            assert(m =~= Map::empty());
        }
    }
}

/// Two claims can both be had only where reads share a resource: with anyone else
/// on a resource, the next claim on it is refused.
pub proof fn law_claims_exclude(m: Claims, u: UsageView, v: UsageView)
    requires
        with_claim(m, u) is Some,
        u.resource == v.resource,
        !(u.mode is Read && v.mode is Read),
    ensures
        with_claim(with_claim(m, u)->0, v) is None,
{
}

/// How many of these uses are of this resource.
pub open spec fn uses_of(us: Seq<UsageView>, x: ResourceView) -> nat
    decreases us.len(),
{
    if us.len() == 0 {
        0
    } else {
        uses_of(us.drop_last(), x) + if us.last().resource == x {
            1nat
        } else {
            0nat
        }
    }
}

/// Whether the readers of a resource stay countable when these uses are added.
pub open spec fn readers_fit(m: Claims, us: Seq<UsageView>) -> bool {
    forall|x: ResourceView|
        count(m, x) == EXCLUSIVE_CLAIM || #[trigger] count(m, x) + uses_of(us, x) < EXCLUSIVE_CLAIM
}

/// A successful claim raises each count by the uses of it, or makes it exclusive
/// with a single use.
proof fn lemma_claimed_counts(m: Claims, us: Seq<UsageView>, x: ResourceView)
    requires
        all_held(m),
        readers_fit(m, us),
        with_claims(m, us) is Some,
    ensures
        ({
            let n = with_claims(m, us)->0;
            let k = uses_of(us, x);
            &&& k == 0 ==> count(n, x) == count(m, x)
            &&& k > 0 ==> (count(n, x) == count(m, x) + k && count(m, x) != EXCLUSIVE_CLAIM) || (
            count(n, x) == EXCLUSIVE_CLAIM && count(m, x) == 0 && k == 1)
        }),
    decreases us.len(),
{
    if us.len() > 0 {
        let rest = us.drop_last();
        assert(readers_fit(m, rest)) by {
            assert forall|y: ResourceView|
                count(m, y) == EXCLUSIVE_CLAIM || #[trigger] count(m, y) + uses_of(rest, y)
                    < EXCLUSIVE_CLAIM by {
                assert(count(m, y) == EXCLUSIVE_CLAIM || count(m, y) + uses_of(us, y)
                    < EXCLUSIVE_CLAIM);
            }
        }
        lemma_claimed_counts(m, rest, x);
        assert(count(m, x) == EXCLUSIVE_CLAIM || count(m, x) + uses_of(us, x) < EXCLUSIVE_CLAIM);
    }
}

/// Giving uses back lowers each count by the uses of it, down to nothing.
proof fn lemma_released_counts(m: Claims, us: Seq<UsageView>, x: ResourceView)
    requires
        count(m, x) == EXCLUSIVE_CLAIM ==> uses_of(us, x) <= 1,
    ensures
        count(m, x) != EXCLUSIVE_CLAIM && uses_of(us, x) <= count(m, x) ==> count(
            without_claims(m, us),
            x,
        ) == count(m, x) - uses_of(us, x),
        count(m, x) == EXCLUSIVE_CLAIM ==> count(without_claims(m, us), x) == (if uses_of(us, x)
            == 1 {
            0
        } else {
            EXCLUSIVE_CLAIM
        }),
    decreases us.len(),
{
    if us.len() > 0 {
        lemma_released_counts(m, us.drop_last(), x);
    }
}

/// Giving back what a claim took restores the arbiter, as long as no resource has
/// so many readers that they cannot be counted.
pub proof fn law_release_undoes_claim(m: Claims, us: Seq<UsageView>)
    requires
        all_held(m),
        readers_fit(m, us),
        with_claims(m, us) is Some,
    ensures
        without_claims(with_claims(m, us)->0, us) == m,
{
    let n = with_claims(m, us)->0;
    let back = without_claims(n, us);
    law_recorded_means_held(m, us);
    law_recorded_means_held(n, us);
    assert forall|x: ResourceView| count(back, x) == count(m, x) by {
        lemma_claimed_counts(m, us, x);
        assert(count(m, x) == EXCLUSIVE_CLAIM || count(m, x) + uses_of(us, x) < EXCLUSIVE_CLAIM);
        lemma_released_counts(n, us, x);
    }
    assert forall|x: ResourceView| #[trigger] back.contains_key(x) == m.contains_key(x) by {
        assert(count(back, x) == count(m, x));
    }
    assert forall|x: ResourceView| #[trigger] back.contains_key(x) implies back[x] == m[x] by {
        assert(count(back, x) == count(m, x));
    }
    assert(back =~= m);
}

/// A reader gets a resource that nobody has exclusively; anyone else gets one that
/// nobody has. The claim shows on that resource alone.
pub proof fn law_claim_of_one(m: Claims, u: UsageView, x: ResourceView)
    ensures
        u.mode is Read ==> (with_claim(m, u) is Some <==> count(m, u.resource) < usize::MAX),
        !(u.mode is Read) ==> (with_claim(m, u) is Some <==> count(m, u.resource) == 0),
        with_claim(m, u) matches Some(n) ==> {
            &&& x != u.resource ==> count(n, x) == count(m, x)
            &&& u.mode is Read ==> count(n, u.resource) == count(m, u.resource) + 1
            &&& !(u.mode is Read) ==> count(n, u.resource) == usize::MAX
        },
{
}

/// Giving back one claim frees an exclusive one, and takes one reader off; what is
/// not claimed is passed over. It shows on that resource alone.
pub proof fn law_release_of_one(m: Claims, r: ResourceView, x: ResourceView)
    ensures
        x != r ==> count(without_claim(m, r), x) == count(m, x),
        count(m, r) == usize::MAX ==> count(without_claim(m, r), r) == 0,
        0 < count(m, r) < usize::MAX ==> count(without_claim(m, r), r) == count(m, r) - 1,
        count(m, r) == 0 ==> count(without_claim(m, r), r) == 0,
{
}

/// A claim of several takes each use into account: a resource that is used some
/// number of times gets that many more readers, or goes to a single user that is not
/// a reader, and one that is not used keeps its count.
pub proof fn law_claimed_counts(m: Claims, us: Seq<UsageView>, x: ResourceView)
    requires
        all_held(m),
        readers_fit(m, us),
        with_claims(m, us) is Some,
    ensures
        ({
            let n = with_claims(m, us)->0;
            let used = uses_of(us, x);
            &&& used == 0 ==> count(n, x) == count(m, x)
            &&& used > 0 ==> (count(n, x) == count(m, x) + used) || (count(n, x) == usize::MAX
                && count(m, x) == 0 && used == 1)
        }),
{
    lemma_claimed_counts(m, us, x);
}

/// A claim of several can be had exactly if each can be had after the ones before.
pub proof fn law_claims_in_turn(m: Claims, us: Seq<UsageView>, v: UsageView)
    ensures
        with_claims(m, Seq::empty()) == Some(m),
        with_claims(m, us.push(v)) == (match with_claims(m, us) {
            Some(n) => with_claim(n, v),
            None => None,
        }),
        without_claims(m, Seq::empty()) == m,
        without_claims(m, us.push(v)) == without_claim(without_claims(m, us), v.resource),
{
    assert(us.push(v).drop_last() =~= us);
}

} // verus!
