//! Capability sets derived only from registered operations, and the
//! capabilities a profile needs before it reports readiness.
use vstd::prelude::*;

use crate::error::{ErrorCode, ZapError};
use crate::names::CapabilityId;

verus! {

/// The registry keys of a sequence of capability ids.
pub open spec fn capability_views(ids: Seq<CapabilityId>) -> Seq<Seq<char>> {
    ids.map_values(|c: CapabilityId| c@)
}

/// The union of a sequence of sets.
pub open spec fn union_all(sets: Seq<Set<Seq<char>>>) -> Set<Seq<char>>
    decreases sets.len(),
{
    if sets.len() == 0 {
        Set::empty()
    } else {
        union_all(sets.drop_last()).union(sets.last())
    }
}

/// No key is registered by two of the sets.
pub open spec fn pairwise_disjoint(sets: Seq<Set<Seq<char>>>) -> bool {
    forall|i: int, j: int| 0 <= i < j < sets.len() ==> (#[trigger] sets[i]).disjoint(#[trigger] sets[j])
}

/// Capabilities derived only from actually registered operations.
pub struct CapabilitySet {
    ids: Vec<CapabilityId>,
}

impl View for CapabilitySet {
    type V = Set<Seq<char>>;

    closed spec fn view(&self) -> Set<Seq<char>> {
        capability_views(self.ids@).to_set()
    }
}

/// The views of a sequence of capability sets.
pub open spec fn set_views(sets: Seq<CapabilitySet>) -> Seq<Set<Seq<char>>> {
    sets.map_values(|s: CapabilitySet| s@)
}

proof fn lemma_union_all_member(sets: Seq<Set<Seq<char>>>, x: Seq<char>)
    requires
        union_all(sets).contains(x),
    ensures
        exists|k: int| 0 <= k < sets.len() && (#[trigger] sets[k]).contains(x),
    decreases sets.len(),
{
    if sets.len() > 0 {
        if sets.last().contains(x) {
            assert(sets[sets.len() - 1].contains(x));
        } else {
            lemma_union_all_member(sets.drop_last(), x);
            let k = choose|k: int| 0 <= k < sets.drop_last().len() && (#[trigger] sets.drop_last()[k]).contains(x);
            assert(sets[k] == sets.drop_last()[k]);
        }
    }
}

proof fn lemma_union_all_take(sets: Seq<Set<Seq<char>>>, i: int)
    requires
        0 <= i < sets.len(),
    ensures
        union_all(sets.take(i + 1)) == union_all(sets.take(i)).union(sets[i]),
{
    assert(sets.take(i + 1).drop_last() =~= sets.take(i));
}

/// Composing with the empty set changes nothing, on either side: the empty
/// set is disjoint from every set, and the union is the other set.
pub proof fn law_compose_with_empty(s: Set<Seq<char>>)
    ensures
        pairwise_disjoint(seq![Set::<Seq<char>>::empty(), s]),
        union_all(seq![Set::<Seq<char>>::empty(), s]) == s,
        pairwise_disjoint(seq![s, Set::<Seq<char>>::empty()]),
        union_all(seq![s, Set::<Seq<char>>::empty()]) == s,
{
    let a = seq![Set::<Seq<char>>::empty(), s];
    let b = seq![s, Set::<Seq<char>>::empty()];
    assert(a.drop_last() =~= seq![Set::<Seq<char>>::empty()]);
    assert(seq![Set::<Seq<char>>::empty()].drop_last() =~= Seq::<Set<Seq<char>>>::empty());
    assert(b.drop_last() =~= seq![s]);
    assert(seq![s].drop_last() =~= Seq::<Set<Seq<char>>>::empty());
    let none = Seq::<Set<Seq<char>>>::empty();
    assert(union_all(none) == Set::<Seq<char>>::empty());
    assert(union_all(seq![Set::<Seq<char>>::empty()]) == union_all(none).union(Set::<Seq<char>>::empty()));
    assert(union_all(seq![s]) == union_all(none).union(s));
    assert(union_all(a) == union_all(seq![Set::<Seq<char>>::empty()]).union(s));
    assert(union_all(b) == union_all(seq![s]).union(Set::<Seq<char>>::empty()));
    assert(union_all(a) =~= s);
    assert(union_all(b) =~= s);
    assert(a[0].disjoint(a[1]));
    assert(b[0].disjoint(b[1]));
}

/// A union of sets is empty exactly when every set is empty.
pub proof fn law_composed_is_empty(sets: Seq<Set<Seq<char>>>)
    ensures
        union_all(sets) == Set::<Seq<char>>::empty() <==> forall|k: int| 0 <= k < sets.len() ==> #[trigger] sets[k] == Set::<Seq<char>>::empty(),
    decreases sets.len(),
{
    if sets.len() > 0 {
        let rest = sets.drop_last();
        law_composed_is_empty(rest);
        if union_all(sets) == Set::<Seq<char>>::empty() {
            assert forall|k: int| 0 <= k < sets.len() implies #[trigger] sets[k] == Set::<Seq<char>>::empty() by {
                if k < sets.len() - 1 {
                    assert(union_all(rest) =~= Set::<Seq<char>>::empty()) by {
                        assert forall|x: Seq<char>| !union_all(rest).contains(x) by {
                            assert(!union_all(sets).contains(x));
                        }
                    }
                    assert(rest[k] == sets[k]);
                } else {
                    assert(sets[k] =~= Set::<Seq<char>>::empty()) by {
                        assert forall|x: Seq<char>| !sets[k].contains(x) by {
                            assert(!union_all(sets).contains(x));
                        }
                    }
                }
            }
        }
        if forall|k: int| 0 <= k < sets.len() ==> #[trigger] sets[k] == Set::<Seq<char>>::empty() {
            assert forall|k: int| 0 <= k < rest.len() implies #[trigger] rest[k] == Set::<Seq<char>>::empty() by {
                assert(rest[k] == sets[k]);
            }
            assert(sets.last() == sets[sets.len() - 1]);
            assert(union_all(sets) =~= Set::<Seq<char>>::empty());
        }
    }
}

/// Whether `v` holds an id with this key.
fn holds_capability(v: &Vec<CapabilityId>, id: &CapabilityId) -> (r: bool)
    ensures
        r == capability_views(v@).contains(id@),
{
    let mut k: usize = 0;
    while k < v.len()
        invariant
            k <= v.len(),
            forall|m: int| 0 <= m < k ==> capability_views(v@)[m] != id@,
        decreases v.len() - k,
    {
        if v[k].same(id) {
            assert(capability_views(v@)[k as int] == id@);
            return true;
        }
        k += 1;
    }
    false
}

impl CapabilitySet {
    #[verifier::type_invariant]
    spec fn inv(self) -> bool {
        capability_views(self.ids@).no_duplicates()
    }

    /// The set with no capability.
    pub fn empty() -> (r: CapabilitySet)
        ensures
            r@ == Set::<Seq<char>>::empty(),
    {
        let r = CapabilitySet { ids: Vec::new() };
        assert(capability_views(r.ids@) =~= Seq::<Seq<char>>::empty());
        r
    }

    /// The set holding exactly the given capability.
    pub fn single(id: CapabilityId) -> (r: CapabilitySet)
        ensures
            r@ == set![id@],
    {
        let mut ids = Vec::new();
        ids.push(id);
        let r = CapabilitySet { ids };
        assert(capability_views(r.ids@) =~= seq![id@]);
        assert(capability_views(r.ids@)[0] == id@);
        assert(r@ =~= set![id@]);
        r
    }

    /// Unions the sets; a capability registered by two of them is a duplicate
    /// registry identity.
    pub fn compose(sets: Vec<CapabilitySet>) -> (r: Result<CapabilitySet, ZapError>)
        ensures
            r is Ok <==> pairwise_disjoint(set_views(sets@)),
            r matches Ok(c) ==> c@ == union_all(set_views(sets@)),
            r matches Err(e) ==> e.code == ErrorCode::DuplicateIdentity,
    {
        let ghost views = set_views(sets@);
        let mut result: Vec<CapabilityId> = Vec::new();
        let mut i: usize = 0;
        while i < sets.len()
            invariant
                i <= sets.len(),
                views == set_views(sets@),
                capability_views(result@).no_duplicates(),
                capability_views(result@).to_set() == union_all(views.take(i as int)),
                pairwise_disjoint(views.take(i as int)),
            decreases sets.len() - i,
        {
            let current = &sets[i];
            proof {
                use_type_invariant(current);
            }
            let ghost before = capability_views(result@).to_set();
            let mut j: usize = 0;
            while j < current.ids.len()
                invariant
                    i < sets.len(),
                    current == &sets@[i as int],
                    views == set_views(sets@),
                    capability_views(current.ids@).no_duplicates(),
                    j <= current.ids.len(),
                    before == union_all(views.take(i as int)),
                    pairwise_disjoint(views.take(i as int)),
                    capability_views(result@).no_duplicates(),
                    capability_views(result@).to_set() == before.union(capability_views(current.ids@).take(j as int).to_set()),
                    before.disjoint(capability_views(current.ids@).take(j as int).to_set()),
                decreases current.ids.len() - j,
            {
                let id = &current.ids[j];
                let ghost x = id@;
                assert(capability_views(current.ids@)[j as int] == x);
                if holds_capability(&result, id) {
                    proof {
                        assert(capability_views(result@).to_set().contains(x));
                        if capability_views(current.ids@).take(j as int).to_set().contains(x) {
                            let m = choose|m: int| 0 <= m < j && capability_views(current.ids@).take(j as int)[m] == x;
                            assert(capability_views(current.ids@).take(j as int)[m] == capability_views(current.ids@)[m]);
                            assert(capability_views(current.ids@)[m] == capability_views(current.ids@)[j as int]);
                            assert(false);
                        }
                        assert(before.contains(x));
                        lemma_union_all_member(views.take(i as int), x);
                        let k = choose|k: int| 0 <= k < views.take(i as int).len() && (#[trigger] views.take(i as int)[k]).contains(x);
                        assert(views[k].contains(x));
                        assert(views[i as int] == sets@[i as int]@);
                        assert(capability_views(current.ids@).contains(x));
                        assert(views[i as int].contains(x));
                        assert(!views[k].disjoint(views[i as int]));
                    }
                    return Err(ZapError::new(ErrorCode::DuplicateIdentity));
                }
                let ghost old_result = result@;
                result.push(id.clone());
                proof {
                    assert(capability_views(result@) =~= capability_views(old_result).push(x));
                    assert(capability_views(current.ids@).take(j as int + 1) =~= capability_views(current.ids@).take(j as int).push(x));
                    capability_views(old_result).lemma_push_to_set_commute(x);
                    capability_views(current.ids@).take(j as int).lemma_push_to_set_commute(x);
                    assert(!capability_views(old_result).to_set().contains(x));
                    assert(capability_views(result@).to_set() =~= before.union(capability_views(current.ids@).take(j as int + 1).to_set()));
                    assert(!before.contains(x));
                }
                j += 1;
            }
            proof {
                assert(capability_views(current.ids@).take(j as int) =~= capability_views(current.ids@));
                assert(views[i as int] == sets@[i as int]@);
                lemma_union_all_take(views, i as int);
                assert(views.take(i as int + 1).drop_last() =~= views.take(i as int));
                assert forall|a: int, b: int| 0 <= a < b < views.take(i as int + 1).len() implies
                    (#[trigger] views.take(i as int + 1)[a]).disjoint(#[trigger] views.take(i as int + 1)[b]) by {
                    if b < i {
                        assert(views.take(i as int)[a] == views[a]);
                        assert(views.take(i as int)[b] == views[b]);
                    } else {
                        assert forall|x: Seq<char>| views[a].contains(x) implies !views[b].contains(x) by {
                            assert(views.take(i as int)[a].contains(x));
                            assert(union_all(views.take(i as int)).contains(x)) by {
                                lemma_union_all_has(views.take(i as int), a, x);
                            }
                        }
                    }
                }
            }
            i += 1;
        }
        proof {
            assert(views.take(sets.len() as int) =~= views);
        }
        Ok(CapabilitySet { ids: result })
    }

    /// Whether no capability is registered.
    pub fn is_empty(&self) -> (r: bool)
        ensures
            r == (self@ == Set::<Seq<char>>::empty()),
    {
        let r = self.ids.len() == 0;
        proof {
            if !r {
                assert(capability_views(self.ids@).contains(capability_views(self.ids@)[0]));
                assert(self@.contains(capability_views(self.ids@)[0]));
            } else {
                assert(capability_views(self.ids@) =~= Seq::<Seq<char>>::empty());
                assert(self@ =~= Set::<Seq<char>>::empty());
            }
        }
        r
    }

    /// Whether the capability is registered.
    pub fn contains(&self, id: &CapabilityId) -> (r: bool)
        ensures
            r == self@.contains(id@),
    {
        holds_capability(&self.ids, id)
    }
}

proof fn lemma_union_all_has(sets: Seq<Set<Seq<char>>>, k: int, x: Seq<char>)
    requires
        0 <= k < sets.len(),
        sets[k].contains(x),
    ensures
        union_all(sets).contains(x),
    decreases sets.len(),
{
    if k < sets.len() - 1 {
        assert(sets.drop_last()[k] == sets[k]);
        lemma_union_all_has(sets.drop_last(), k, x);
    }
}

/// Capability IDs required before a profile can report readiness.
pub struct RequiredCapabilities {
    ids: Vec<CapabilityId>,
}

impl View for RequiredCapabilities {
    type V = Set<Seq<char>>;

    closed spec fn view(&self) -> Set<Seq<char>> {
        capability_views(self.ids@).to_set()
    }
}

impl RequiredCapabilities {
    /// Requires nothing.
    pub fn empty() -> (r: RequiredCapabilities)
        ensures
            r@ == Set::<Seq<char>>::empty(),
    {
        let r = RequiredCapabilities { ids: Vec::new() };
        assert(capability_views(r.ids@) =~= Seq::<Seq<char>>::empty());
        r
    }

    /// Requires exactly one capability.
    pub fn single(id: CapabilityId) -> (r: RequiredCapabilities)
        ensures
            r@ == set![id@],
    {
        let mut ids = Vec::new();
        ids.push(id);
        let r = RequiredCapabilities { ids };
        assert(capability_views(r.ids@) =~= seq![id@]);
        assert(capability_views(r.ids@)[0] == id@);
        assert(r@ =~= set![id@]);
        r
    }

    /// Readiness holds exactly when every required capability is available.
    pub fn validate(&self, available: &CapabilitySet) -> (r: Result<(), ZapError>)
        ensures
            r is Ok <==> self@.subset_of(available@),
            r matches Err(e) ==> e.code == ErrorCode::Unavailable,
    {
        let mut k: usize = 0;
        while k < self.ids.len()
            invariant
                k <= self.ids.len(),
                forall|m: int| 0 <= m < k ==> available@.contains(#[trigger] capability_views(self.ids@)[m]),
            decreases self.ids.len() - k,
        {
            if !available.contains(&self.ids[k]) {
                assert(self@.contains(capability_views(self.ids@)[k as int]));
                return Err(ZapError::new(ErrorCode::Unavailable));
            }
            k += 1;
        }
        proof {
            assert forall|x: Seq<char>| self@.contains(x) implies available@.contains(x) by {
                assert(capability_views(self.ids@).contains(x));
                let m = choose|m: int| 0 <= m < capability_views(self.ids@).len() && capability_views(self.ids@)[m] == x;
                assert(available@.contains(capability_views(self.ids@)[m]));
            }
        }
        Ok(())
    }
}

} // verus!
