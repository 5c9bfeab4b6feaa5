//! The dependent-work closure of a change's affected scope: every work that
//! depends on, or is a child of, affected or already dependent work.
use vstd::prelude::*;

use crate::error::{ErrorCode, ZapError};
use crate::holds::{holds_work, increasing_works, insert_work};
use crate::active_context::PlanningRevisionState;
use crate::ids::{DigestValue, HoldId, ObligationId, OutcomeId, Revision, SourceId, StrategicRevisionId, WorkId};
use crate::milestone_planning::{MilestonePlanKey, MilestonePlanStateRecord};
use crate::subjects::{holds_subject_ref, insert_subject_ref, insert_subjects, subjects_increasing, SubjectRef};

verus! {

/// A work record, as the closure reads it.
pub struct WorkNode {
    pub work_id: WorkId,
    pub depends_on: Vec<WorkId>,
    pub parent_id: Option<WorkId>,
}

/// A row is pulled in by a set of known work when one of its prerequisites or
/// its parent is known.
pub open spec fn pulled_by(row: WorkNode, known: Set<WorkId>) -> bool {
    (exists|k: int| 0 <= k < row.depends_on@.len() && known.contains(#[trigger] row.depends_on@[k]))
        || (row.parent_id matches Some(p) && known.contains(p))
}

/// A set of dependent work is closed when every row pulled in by the affected
/// and dependent work is itself affected or dependent.
pub open spec fn closed(rows: Seq<WorkNode>, affected: Set<WorkId>, dependent: Set<WorkId>) -> bool {
    forall|i: int| 0 <= i < rows.len() && pulled_by(#[trigger] rows[i], affected.union(dependent))
        ==> affected.union(dependent).contains(rows[i].work_id)
}

/// Each work in `order` is not affected and was pulled in by the affected work
/// and the work before it.
pub open spec fn justified(rows: Seq<WorkNode>, affected: Set<WorkId>, order: Seq<WorkId>) -> bool {
    forall|k: int| 0 <= k < order.len() ==> !affected.contains(#[trigger] order[k]) && exists|i: int| 0 <= i < rows.len()
        && (#[trigger] rows[i]).work_id == order[k] && pulled_by(rows[i], affected.union(order.take(k).to_set()))
}

proof fn lemma_pulled_monotone(row: WorkNode, a: Set<WorkId>, b: Set<WorkId>)
    requires
        pulled_by(row, a),
        a.subset_of(b),
    ensures
        pulled_by(row, b),
{
    if exists|k: int| 0 <= k < row.depends_on@.len() && a.contains(#[trigger] row.depends_on@[k]) {
        let k = choose|k: int| 0 <= k < row.depends_on@.len() && a.contains(#[trigger] row.depends_on@[k]);
        assert(b.contains(row.depends_on@[k]));
    }
}

/// Justified work lies in every closed set: the closure is the least one.
proof fn lemma_justified_within_closed(rows: Seq<WorkNode>, affected: Set<WorkId>, order: Seq<WorkId>, other: Set<WorkId>, n: int)
    requires
        justified(rows, affected, order),
        closed(rows, affected, other),
        0 <= n <= order.len(),
    ensures
        forall|k: int| 0 <= k < n ==> other.contains(#[trigger] order[k]),
    decreases n,
{
    if n > 0 {
        lemma_justified_within_closed(rows, affected, order, other, n - 1);
        let k = n - 1;
        assert(!affected.contains(order[k]));
        let i = choose|i: int| 0 <= i < rows.len() && (#[trigger] rows[i]).work_id == order[k]
            && pulled_by(rows[i], affected.union(order.take(k).to_set()));
        assert(affected.union(order.take(k).to_set()).subset_of(affected.union(other))) by {
            assert forall|w: WorkId| order.take(k).to_set().contains(w) implies other.contains(w) by {
                let m = choose|m: int| 0 <= m < order.take(k).len() && order.take(k)[m] == w;
                assert(order[m] == w);
            }
        }
        lemma_pulled_monotone(rows[i], affected.union(order.take(k).to_set()), affected.union(other));
    }
}

/// The dependent work of an affected scope is exactly the least closed set:
/// it is closed, and it lies within every closed set.
pub open spec fn least_closure(rows: Seq<WorkNode>, affected: Set<WorkId>, dependent: Set<WorkId>) -> bool {
    &&& closed(rows, affected, dependent)
    &&& dependent.disjoint(affected)
    &&& exists|order: Seq<WorkId>| #[trigger] justified(rows, affected, order) && order.to_set() == dependent
}

/// The least closure lies within every closed set of dependent work.
pub proof fn law_dependent_closure_is_least(rows: Seq<WorkNode>, affected: Set<WorkId>, dependent: Set<WorkId>, other: Set<WorkId>)
    requires
        least_closure(rows, affected, dependent),
        closed(rows, affected, other),
    ensures
        dependent.subset_of(other),
{
    let order = choose|order: Seq<WorkId>| #[trigger] justified(rows, affected, order) && order.to_set() == dependent;
    lemma_justified_within_closed(rows, affected, order, other, order.len() as int);
    assert forall|w: WorkId| dependent.contains(w) implies other.contains(w) by {
        assert(order.to_set().contains(w));
        let m = choose|m: int| 0 <= m < order.len() && order[m] == w;
    }
}

fn pulled(row: &WorkNode, affected: &[WorkId], dependent: &Vec<WorkId>) -> (r: bool)
    ensures
        r == pulled_by(*row, affected@.to_set().union(dependent@.to_set())),
{
    let ghost known = affected@.to_set().union(dependent@.to_set());
    let mut k: usize = 0;
    while k < row.depends_on.len()
        invariant
            k <= row.depends_on.len(),
            known == affected@.to_set().union(dependent@.to_set()),
            forall|m: int| 0 <= m < k ==> !known.contains(#[trigger] row.depends_on@[m]),
        decreases row.depends_on.len() - k,
    {
        let d = row.depends_on[k];
        if holds_work(affected, d) || holds_work(dependent.as_slice(), d) {
            assert(known.contains(row.depends_on@[k as int]));
            return true;
        }
        k += 1;
    }
    match row.parent_id {
        Some(p) => holds_work(affected, p) || holds_work(dependent.as_slice(), p),
        None => false,
    }
}

proof fn lemma_sorted_unique(s: Seq<WorkId>)
    requires
        increasing_works(s),
    ensures
        s.no_duplicates(),
{
    assert forall|i: int, j: int| 0 <= i < s.len() && 0 <= j < s.len() && i != j implies s[i] != s[j] by {
        if i < j {
            assert(s[i].0 < s[j].0);
        } else {
            assert(s[j].0 < s[i].0);
        }
    }
}

/// The dependent work of an affected scope, in increasing order: the least
/// set of work rows not affected themselves whose prerequisites or parent are
/// affected or dependent.
pub fn dependent_work(rows: &[WorkNode], affected: &[WorkId]) -> (r: Vec<WorkId>)
    ensures
        increasing_works(r@),
        least_closure(rows@, affected@.to_set(), r@.to_set()),
{
    let ghost a = affected@.to_set();
    let ghost ids = rows@.map_values(|n: WorkNode| n.work_id);
    let mut dependent: Vec<WorkId> = Vec::new();
    let ghost mut order: Seq<WorkId> = Seq::empty();
    proof {
        assert(dependent@.to_set() =~= Set::<WorkId>::empty());
        assert(order.to_set() =~= Set::<WorkId>::empty());
    }
    loop
        invariant
            a == affected@.to_set(),
            ids == rows@.map_values(|n: WorkNode| n.work_id),
            increasing_works(dependent@),
            justified(rows@, a, order),
            order.to_set() == dependent@.to_set(),
            dependent@.to_set().disjoint(a),
            dependent@.to_set().subset_of(ids.to_set()),
        decreases rows@.len() - dependent@.len(),
    {
        let mut changed = false;
        let ghost start_len = dependent@.len();
        let mut i: usize = 0;
        while i < rows.len()
            invariant
                a == affected@.to_set(),
                ids == rows@.map_values(|n: WorkNode| n.work_id),
                increasing_works(dependent@),
                justified(rows@, a, order),
                order.to_set() == dependent@.to_set(),
                dependent@.to_set().disjoint(a),
                dependent@.to_set().subset_of(ids.to_set()),
                i <= rows.len(),
                changed ==> dependent@.len() > start_len,
                !changed ==> dependent@.len() == start_len,
                !changed ==> forall|m: int| 0 <= m < i && pulled_by(#[trigger] rows@[m], a.union(dependent@.to_set()))
                    ==> a.union(dependent@.to_set()).contains(rows@[m].work_id),
            decreases rows.len() - i,
        {
            let row = &rows[i];
            let id = row.work_id;
            if !holds_work(affected, id) && !holds_work(dependent.as_slice(), id) && pulled(row, affected, &dependent) {
                let ghost before = dependent@;
                let ghost old_order = order;
                proof {
                    let known = a.union(order.to_set());
                    assert(order.take(order.len() as int) =~= order);
                    assert(ids[i as int] == id);
                    let new_order = order.push(id);
                    assert forall|k: int| 0 <= k < new_order.len() implies !a.contains(#[trigger] new_order[k]) && exists|j: int| 0 <= j < rows@.len()
                        && (#[trigger] rows@[j]).work_id == new_order[k] && pulled_by(rows@[j], a.union(new_order.take(k).to_set())) by {
                        if k < order.len() {
                            assert(new_order.take(k) =~= order.take(k));
                            assert(new_order[k] == order[k]);
                        } else {
                            assert(new_order.take(k) =~= order);
                            assert(rows@[i as int].work_id == new_order[k]);
                        }
                    }
                    order = new_order;
                }
                insert_work(&mut dependent, id);
                proof {
                    assert(dependent@.to_set() =~= before.to_set().insert(id));
                    old_order.lemma_push_to_set_commute(id);
                    assert(order == old_order.push(id));
                    assert(order.to_set() =~= dependent@.to_set());
                    lemma_sorted_unique(before);
                    lemma_sorted_unique(dependent@);
                    before.unique_seq_to_set();
                    dependent@.unique_seq_to_set();
                    assert(!before.to_set().contains(id));
                    assert(ids.to_set().contains(id)) by {
                        assert(ids[i as int] == id);
                    }
                }
                changed = true;
            }
            i += 1;
        }
        if !changed {
            proof {
                assert forall|m: int| 0 <= m < rows@.len() && pulled_by(#[trigger] rows@[m], a.union(dependent@.to_set()))
                    implies a.union(dependent@.to_set()).contains(rows@[m].work_id) by {}
                assert(justified(rows@, a, order) && order.to_set() == dependent@.to_set());
            }
            return dependent;
        }
        proof {
            lemma_sorted_unique(dependent@);
            dependent@.unique_seq_to_set();
            vstd::set_lib::lemma_len_subset(dependent@.to_set(), ids.to_set());
            ids.lemma_cardinality_of_set();
        }
    }
}


/// A task contract, as the affected scope reads it.
pub struct ContractFacts {
    pub work_id: WorkId,
    pub active: bool,
    pub read_subjects: Vec<SubjectRef>,
    pub write_subjects: Vec<SubjectRef>,
    pub obligation_ids: Vec<ObligationId>,
    pub source_handles: Vec<SourceId>,
}

/// An obligation and the work that owns it.
pub struct ObligationOwners {
    pub obligation_id: ObligationId,
    pub owners: Vec<WorkId>,
}

/// The active contract of a work: the last active one in scan order.
pub open spec fn active_contract(cs: Seq<ContractFacts>, w: WorkId) -> Option<ContractFacts>
    decreases cs.len(),
{
    if cs.len() == 0 {
        None
    } else if cs.last().active && cs.last().work_id == w {
        Some(cs.last())
    } else {
        active_contract(cs.drop_last(), w)
    }
}

proof fn lemma_active_contract(cs: Seq<ContractFacts>, w: WorkId)
    ensures
        active_contract(cs, w) matches Some(c) ==> c.active && c.work_id == w,
        active_contract(cs, w) is None ==> forall|i: int| 0 <= i < cs.len() ==> !((#[trigger] cs[i]).active && cs[i].work_id == w),
    decreases cs.len(),
{
    if cs.len() > 0 {
        lemma_active_contract(cs.drop_last(), w);
        if active_contract(cs, w) is None {
            assert forall|i: int| 0 <= i < cs.len() implies !((#[trigger] cs[i]).active && cs[i].work_id == w) by {
                if i < cs.len() - 1 {
                    assert(cs[i] == cs.drop_last()[i]);
                }
            }
        }
    }
}

fn find_active_contract(cs: &[ContractFacts], w: WorkId) -> (r: Option<usize>)
    ensures
        match active_contract(cs@, w) {
            Some(c) => r matches Some(i) && i < cs@.len() && cs@[i as int] == c,
            None => r is None,
        },
{
    let mut k: usize = cs.len();
    assert(cs@.take(k as int) =~= cs@);
    while k > 0
        invariant
            k <= cs@.len(),
            active_contract(cs@.take(k as int), w) == active_contract(cs@, w),
        decreases k,
    {
        assert(cs@.take(k as int).drop_last() =~= cs@.take(k - 1));
        assert(cs@.take(k as int).last() == cs@[k - 1]);
        if cs[k - 1].active && cs[k - 1].work_id.0 == w.0 {
            return Some(k - 1);
        }
        k -= 1;
    }
    assert(cs@.take(0) =~= Seq::<ContractFacts>::empty());
    None
}

/// The contract reads or writes a subject of the set.
pub open spec fn contract_touches(c: ContractFacts, subjects: Set<SubjectRef>) -> bool {
    (exists|k: int| 0 <= k < c.read_subjects@.len() && subjects.contains(#[trigger] c.read_subjects@[k]))
        || (exists|k: int| 0 <= k < c.write_subjects@.len() && subjects.contains(#[trigger] c.write_subjects@[k]))
}

fn any_held(list: &Vec<SubjectRef>, roots: &[SubjectRef]) -> (r: bool)
    ensures
        r == exists|k: int| 0 <= k < list@.len() && roots@.to_set().contains(#[trigger] list@[k]),
{
    let mut k: usize = 0;
    while k < list.len()
        invariant
            k <= list@.len(),
            forall|m: int| 0 <= m < k ==> !roots@.to_set().contains(#[trigger] list@[m]),
        decreases list@.len() - k,
    {
        if holds_subject_ref(roots, list[k]) {
            assert(roots@.to_set().contains(list@[k as int]));
            return true;
        }
        k += 1;
    }
    false
}

/// Some obligation among the subjects is owned by the work.
pub open spec fn owns_subject_obligation(obs: Seq<ObligationOwners>, subjects: Set<SubjectRef>, w: WorkId) -> bool {
    exists|k: int| 0 <= k < obs.len() && subjects.contains(SubjectRef::Obligation((#[trigger] obs[k]).obligation_id)) && obs[k].owners@.contains(w)
}

/// The work a change affects before dependents: the work it names directly,
/// the work among its roots, the work whose active contract reads or writes
/// a root, and the owners of root obligations.
pub open spec fn initially_affected(direct: Seq<WorkId>, roots: Set<SubjectRef>, cs: Seq<ContractFacts>, obs: Seq<ObligationOwners>) -> Set<WorkId> {
    Set::new(|w: WorkId| direct.contains(w) || roots.contains(SubjectRef::Work(w))
        || (active_contract(cs, w) matches Some(c) && contract_touches(c, roots))
        || owns_subject_obligation(obs, roots, w))
}

fn insert_works(v: &mut Vec<WorkId>, from: &Vec<WorkId>)
    requires
        increasing_works(old(v)@),
    ensures
        increasing_works(final(v)@),
        final(v)@.to_set() == old(v)@.to_set().union(from@.to_set()),
{
    let ghost start = v@.to_set();
    let mut k: usize = 0;
    while k < from.len()
        invariant
            k <= from@.len(),
            increasing_works(v@),
            v@.to_set() == start.union(from@.take(k as int).to_set()),
        decreases from@.len() - k,
    {
        let ghost before = v@;
        insert_work(v, from[k]);
        proof {
            assert(v@.to_set() =~= before.to_set().insert(from@[k as int]));
            assert(from@.take(k as int + 1) =~= from@.take(k as int).push(from@[k as int]));
            from@.take(k as int).lemma_push_to_set_commute(from@[k as int]);
            assert(v@.to_set() =~= start.union(from@.take(k as int + 1).to_set()));
        }
        k += 1;
    }
    assert(from@.take(from@.len() as int) =~= from@);
}

/// The initially affected work, in increasing order.
pub fn initially_affected_work(direct: &[WorkId], roots: &[SubjectRef], contracts: &[ContractFacts], obligations: &[ObligationOwners]) -> (r: Vec<WorkId>)
    ensures
        increasing_works(r@),
        r@.to_set() == initially_affected(direct@, roots@.to_set(), contracts@, obligations@),
{
    let ghost rs = roots@.to_set();
    let ghost target = initially_affected(direct@, rs, contracts@, obligations@);
    let mut out: Vec<WorkId> = Vec::new();
    let mut i: usize = 0;
    proof {
        assert(out@.to_set() =~= Set::<WorkId>::empty());
    }
    while i < direct.len()
        invariant
            i <= direct@.len(),
            increasing_works(out@),
            rs == roots@.to_set(),
            target == initially_affected(direct@, rs, contracts@, obligations@),
            out@.to_set().subset_of(target),
            forall|k: int| 0 <= k < i ==> out@.to_set().contains(#[trigger] direct@[k]),
        decreases direct@.len() - i,
    {
        let ghost before = out@;
        insert_work(&mut out, direct[i]);
        proof {
            assert(out@.to_set() =~= before.to_set().insert(direct@[i as int]));
            assert(direct@.contains(direct@[i as int]));
            assert(target.contains(direct@[i as int]));
        }
        i += 1;
    }
    let mut j: usize = 0;
    while j < roots.len()
        invariant
            j <= roots@.len(),
            rs == roots@.to_set(),
            increasing_works(out@),
            rs == roots@.to_set(),
            target == initially_affected(direct@, rs, contracts@, obligations@),
            out@.to_set().subset_of(target),
            forall|k: int| 0 <= k < direct@.len() ==> out@.to_set().contains(#[trigger] direct@[k]),
            forall|k: int| 0 <= k < j ==> (#[trigger] roots@[k] matches SubjectRef::Work(w) ==> out@.to_set().contains(w)),
        decreases roots@.len() - j,
    {
        match roots[j] {
            SubjectRef::Work(w) => {
                let ghost before = out@;
                insert_work(&mut out, w);
                proof {
                    assert(out@.to_set() =~= before.to_set().insert(w));
                    assert(rs.contains(roots@[j as int]));
                    assert(target.contains(w));
                }
            },
            _ => {},
        }
        j += 1;
    }
    let mut c: usize = 0;
    while c < contracts.len()
        invariant
            c <= contracts@.len(),
            rs == roots@.to_set(),
            increasing_works(out@),
            rs == roots@.to_set(),
            target == initially_affected(direct@, rs, contracts@, obligations@),
            out@.to_set().subset_of(target),
            forall|k: int| 0 <= k < direct@.len() ==> out@.to_set().contains(#[trigger] direct@[k]),
            forall|k: int| 0 <= k < roots@.len() ==> (#[trigger] roots@[k] matches SubjectRef::Work(w) ==> out@.to_set().contains(w)),
            forall|k: int| 0 <= k < c && (#[trigger] contracts@[k]).active
                && (active_contract(contracts@, contracts@[k].work_id) matches Some(a) && contract_touches(a, rs))
                ==> out@.to_set().contains(contracts@[k].work_id),
        decreases contracts@.len() - c,
    {
        if contracts[c].active {
            let w = contracts[c].work_id;
            match find_active_contract(contracts, w) {
                Some(a) => {
                    let ac = &contracts[a];
                    if any_held(&ac.read_subjects, roots) || any_held(&ac.write_subjects, roots) {
                        let ghost before = out@;
                        insert_work(&mut out, w);
                        proof {
                            assert(out@.to_set() =~= before.to_set().insert(w));
                            assert(target.contains(w));
                        }
                    }
                },
                None => {
                    proof {
                        lemma_active_contract(contracts@, w);
                        assert(contracts@[c as int].active && contracts@[c as int].work_id == w);
                    }
                },
            }
        }
        c += 1;
    }
    let mut o: usize = 0;
    while o < obligations.len()
        invariant
            o <= obligations@.len(),
            rs == roots@.to_set(),
            increasing_works(out@),
            rs == roots@.to_set(),
            target == initially_affected(direct@, rs, contracts@, obligations@),
            out@.to_set().subset_of(target),
            forall|k: int| 0 <= k < direct@.len() ==> out@.to_set().contains(#[trigger] direct@[k]),
            forall|k: int| 0 <= k < roots@.len() ==> (#[trigger] roots@[k] matches SubjectRef::Work(w) ==> out@.to_set().contains(w)),
            forall|k: int| 0 <= k < contracts@.len() && (#[trigger] contracts@[k]).active
                && (active_contract(contracts@, contracts@[k].work_id) matches Some(a) && contract_touches(a, rs))
                ==> out@.to_set().contains(contracts@[k].work_id),
            forall|k: int, m: int| 0 <= k < o && rs.contains(SubjectRef::Obligation((#[trigger] obligations@[k]).obligation_id))
                && 0 <= m < obligations@[k].owners@.len() ==> out@.to_set().contains(#[trigger] obligations@[k].owners@[m]),
        decreases obligations@.len() - o,
    {
        let ob = &obligations[o];
        if holds_subject_ref(roots, SubjectRef::Obligation(ob.obligation_id)) {
            let ghost before = out@;
            insert_works(&mut out, &ob.owners);
            proof {
                assert forall|w: WorkId| ob.owners@.to_set().contains(w) implies target.contains(w) by {
                    assert(ob.owners@.contains(w));
                    assert(owns_subject_obligation(obligations@, rs, w)) by {
                        assert(obligations@[o as int] == *ob);
                    }
                }
                assert forall|m: int| 0 <= m < ob.owners@.len() implies out@.to_set().contains(#[trigger] ob.owners@[m]) by {
                    assert(ob.owners@.to_set().contains(ob.owners@[m]));
                }
            }
        }
        o += 1;
    }
    proof {
        assert forall|w: WorkId| target.contains(w) implies out@.to_set().contains(w) by {
            if direct@.contains(w) {
                let k = choose|k: int| 0 <= k < direct@.len() && direct@[k] == w;
            } else if rs.contains(SubjectRef::Work(w)) {
                let k = choose|k: int| 0 <= k < roots@.len() && roots@[k] == SubjectRef::Work(w);
                assert(roots@[k] matches SubjectRef::Work(x) ==> out@.to_set().contains(x));
            } else if active_contract(contracts@, w) matches Some(a) && contract_touches(a, rs) {
                lemma_active_contract(contracts@, w);
                let a = active_contract(contracts@, w)->0;
                lemma_active_contract_in(contracts@, w);
                let k = choose|k: int| 0 <= k < contracts@.len() && contracts@[k] == a;
                assert(contracts@[k].active);
            } else {
                let k = choose|k: int| 0 <= k < obligations@.len() && rs.contains(SubjectRef::Obligation((#[trigger] obligations@[k]).obligation_id)) && obligations@[k].owners@.contains(w);
                let m = choose|m: int| 0 <= m < obligations@[k].owners@.len() && obligations@[k].owners@[m] == w;
                assert(out@.to_set().contains(obligations@[k].owners@[m]));
            }
        }
        assert(out@.to_set() =~= target);
    }
    out
}

proof fn lemma_active_contract_in(cs: Seq<ContractFacts>, w: WorkId)
    ensures
        active_contract(cs, w) matches Some(c) ==> exists|k: int| 0 <= k < cs.len() && cs[k] == c,
    decreases cs.len(),
{
    if cs.len() > 0 {
        lemma_active_contract_in(cs.drop_last(), w);
        if active_contract(cs, w) is Some {
            if cs.last().active && cs.last().work_id == w {
                assert(cs[cs.len() - 1] == cs.last());
            } else {
                let c = active_contract(cs, w)->0;
                let k = choose|k: int| 0 <= k < cs.drop_last().len() && cs.drop_last()[k] == c;
                assert(cs[k] == c);
            }
        }
    }
}


/// A knowledge dependency between two subjects, where both ends are
/// subjects.
#[derive(Clone, Copy, Debug, PartialEq, Eq, Structural)]
pub struct DependencyEdge {
    pub prerequisite: Option<SubjectRef>,
    pub dependent: Option<SubjectRef>,
}

/// The edge's prerequisite is in the set and it has a dependent subject.
pub open spec fn edge_fires(e: DependencyEdge, s: Set<SubjectRef>) -> bool {
    &&& e.prerequisite matches Some(p)
    &&& s.contains(p)
    &&& e.dependent is Some
}

/// Every dependent of a prerequisite in the set is in the set.
pub open spec fn edges_closed(edges: Seq<DependencyEdge>, s: Set<SubjectRef>) -> bool {
    forall|i: int| 0 <= i < edges.len() && edge_fires(#[trigger] edges[i], s) ==> s.contains(edges[i].dependent->0)
}

/// Each subject of `order` is outside the base and is the dependent of an
/// edge whose prerequisite is in the base or before it.
pub open spec fn edge_justified(edges: Seq<DependencyEdge>, base: Set<SubjectRef>, order: Seq<SubjectRef>) -> bool {
    forall|k: int| 0 <= k < order.len() ==> !base.contains(#[trigger] order[k]) && exists|i: int| 0 <= i < edges.len()
        && (#[trigger] edges[i]).dependent == Some(order[k]) && edge_fires(edges[i], base.union(order.take(k).to_set()))
}

/// The subjects are the least set that holds the base and is closed under
/// the dependency edges.
pub open spec fn least_edge_closure(edges: Seq<DependencyEdge>, base: Set<SubjectRef>, result: Set<SubjectRef>) -> bool {
    &&& base.subset_of(result)
    &&& edges_closed(edges, result)
    &&& exists|order: Seq<SubjectRef>| #[trigger] edge_justified(edges, base, order) && base.union(order.to_set()) == result
}

proof fn lemma_edge_justified_within(edges: Seq<DependencyEdge>, base: Set<SubjectRef>, order: Seq<SubjectRef>, other: Set<SubjectRef>, n: int)
    requires
        edge_justified(edges, base, order),
        base.subset_of(other),
        edges_closed(edges, other),
        0 <= n <= order.len(),
    ensures
        forall|k: int| 0 <= k < n ==> other.contains(#[trigger] order[k]),
    decreases n,
{
    if n > 0 {
        lemma_edge_justified_within(edges, base, order, other, n - 1);
        let k = n - 1;
        let i = choose|i: int| 0 <= i < edges.len() && (#[trigger] edges[i]).dependent == Some(order[k])
            && edge_fires(edges[i], base.union(order.take(k).to_set()));
        let p = edges[i].prerequisite->0;
        assert(other.contains(p)) by {
            if !base.contains(p) {
                assert(order.take(k).to_set().contains(p));
                let m = choose|m: int| 0 <= m < order.take(k).len() && order.take(k)[m] == p;
                assert(order[m] == p);
            }
        }
        assert(edge_fires(edges[i], other));
    }
}

/// The least closure lies within every closed set that holds the base.
pub proof fn law_subject_closure_is_least(edges: Seq<DependencyEdge>, base: Set<SubjectRef>, result: Set<SubjectRef>, other: Set<SubjectRef>)
    requires
        least_edge_closure(edges, base, result),
        base.subset_of(other),
        edges_closed(edges, other),
    ensures
        result.subset_of(other),
{
    let order = choose|order: Seq<SubjectRef>| #[trigger] edge_justified(edges, base, order) && base.union(order.to_set()) == result;
    lemma_edge_justified_within(edges, base, order, other, order.len() as int);
    assert forall|s: SubjectRef| result.contains(s) implies other.contains(s) by {
        if !base.contains(s) {
            assert(order.to_set().contains(s));
            let m = choose|m: int| 0 <= m < order.len() && order[m] == s;
        }
    }
}

/// How many edges have a dependent subject outside the set.
pub open spec fn pending(edges: Seq<DependencyEdge>, s: Set<SubjectRef>) -> nat
    decreases edges.len(),
{
    if edges.len() == 0 {
        0
    } else {
        pending(edges.drop_last(), s) + if edges.last().dependent matches Some(d) && !s.contains(d) { 1nat } else { 0nat }
    }
}

proof fn lemma_pending_shrinks(edges: Seq<DependencyEdge>, s: Set<SubjectRef>, t: Set<SubjectRef>, i: int)
    requires
        s.subset_of(t),
        0 <= i < edges.len(),
        edges[i].dependent matches Some(d) && !s.contains(d) && t.contains(d),
    ensures
        pending(edges, t) < pending(edges, s),
    decreases edges.len(),
{
    lemma_pending_monotone(edges.drop_last(), s, t);
    if i < edges.len() - 1 {
        assert(edges.drop_last()[i] == edges[i]);
        lemma_pending_shrinks(edges.drop_last(), s, t, i);
    }
}

proof fn lemma_pending_monotone(edges: Seq<DependencyEdge>, s: Set<SubjectRef>, t: Set<SubjectRef>)
    requires
        s.subset_of(t),
    ensures
        pending(edges, t) <= pending(edges, s),
    decreases edges.len(),
{
    if edges.len() > 0 {
        lemma_pending_monotone(edges.drop_last(), s, t);
    }
}

proof fn lemma_subjects_unique(s: Seq<SubjectRef>)
    requires
        subjects_increasing(s),
    ensures
        s.no_duplicates(),
{
    assert forall|i: int, j: int| 0 <= i < s.len() && 0 <= j < s.len() && i != j implies s[i] != s[j] by {
        if i < j {
            assert(crate::subjects::key_lt(crate::subjects::subject_key(s[i]), crate::subjects::subject_key(s[j])));
        } else {
            assert(crate::subjects::key_lt(crate::subjects::subject_key(s[j]), crate::subjects::subject_key(s[i])));
        }
    }
}

/// Closes a set of subjects under the dependency edges: a dependent is added
/// once its prerequisite is held, until no edge adds one.
pub fn close_subjects(edges: &[DependencyEdge], base: Vec<SubjectRef>) -> (r: Vec<SubjectRef>)
    requires
        subjects_increasing(base@),
    ensures
        subjects_increasing(r@),
        least_edge_closure(edges@, base@.to_set(), r@.to_set()),
{
    let ghost b = base@.to_set();
    let mut subjects = base;
    let ghost mut order: Seq<SubjectRef> = Seq::empty();
    proof {
        assert(b.union(order.to_set()) =~= b);
    }
    loop
        invariant
            b == base@.to_set(),
            b.union(order.to_set()) == subjects@.to_set(),
            subjects_increasing(subjects@),
            edge_justified(edges@, b, order),
        decreases pending(edges@, subjects@.to_set()),
    {
        let ghost start = subjects@.to_set();
        let mut changed = false;
        let mut i: usize = 0;
        while i < edges.len()
            invariant
                i <= edges@.len(),
                b.union(order.to_set()) == subjects@.to_set(),
                subjects_increasing(subjects@),
                edge_justified(edges@, b, order),
                start.subset_of(subjects@.to_set()),
                changed ==> pending(edges@, subjects@.to_set()) < pending(edges@, start),
                !changed ==> subjects@.to_set() == start,
                !changed ==> forall|m: int| 0 <= m < i && edge_fires(#[trigger] edges@[m], subjects@.to_set())
                    ==> subjects@.to_set().contains(edges@[m].dependent->0),
            decreases edges@.len() - i,
        {
            let e = edges[i];
            match (e.prerequisite, e.dependent) {
                (Some(p), Some(d)) => {
                    if holds_subject_ref(subjects.as_slice(), p) && !holds_subject_ref(subjects.as_slice(), d) {
                        let ghost before = subjects@.to_set();
                        let ghost old_order = order;
                        proof {
                            assert(subjects@.to_set().contains(p));
                            assert(!subjects@.to_set().contains(d));
                            assert(!b.contains(d));
                            let new_order = order.push(d);
                            assert(order.take(order.len() as int) =~= order);
                            assert forall|k: int| 0 <= k < new_order.len() implies !b.contains(#[trigger] new_order[k]) && exists|j: int| 0 <= j < edges@.len()
                                && (#[trigger] edges@[j]).dependent == Some(new_order[k]) && edge_fires(edges@[j], b.union(new_order.take(k).to_set())) by {
                                if k < order.len() {
                                    assert(new_order.take(k) =~= order.take(k));
                                    assert(new_order[k] == order[k]);
                                } else {
                                    assert(new_order.take(k) =~= order);
                                    assert(edges@[i as int].dependent == Some(new_order[k]));
                                    assert(subjects@.to_set().contains(p));
                                }
                            }
                            order = new_order;
                        }
                        insert_subject_ref(&mut subjects, d);
                        proof {
                            old_order.lemma_push_to_set_commute(d);
                            assert(b.union(order.to_set()) =~= subjects@.to_set());
                            if changed {
                                lemma_pending_monotone(edges@, before, subjects@.to_set());
                            } else {
                                lemma_pending_shrinks(edges@, start, subjects@.to_set(), i as int);
                            }
                        }
                        changed = true;
                    }
                },
                _ => {},
            }
            i += 1;
        }
        if !changed {
            proof {
                assert(edge_justified(edges@, b, order) && b.union(order.to_set()) == subjects@.to_set());
                assert(edges_closed(edges@, subjects@.to_set()));
                assert(b.subset_of(subjects@.to_set()));
            }
            return subjects;
        }
    }
}


/// The subjects a contract binds: what it reads and writes, its obligations
/// and its source handles.
pub open spec fn contract_subjects(c: ContractFacts, s: SubjectRef) -> bool {
    ||| c.read_subjects@.contains(s)
    ||| c.write_subjects@.contains(s)
    ||| (s matches SubjectRef::Obligation(o) && c.obligation_ids@.contains(o))
    ||| (s matches SubjectRef::Source(x) && c.source_handles@.contains(x))
}

/// The subjects of a scope before dependency edges: its roots, its work, and
/// what the active contracts of its work bind.
pub open spec fn scope_base(roots: Set<SubjectRef>, scope: Seq<WorkId>, cs: Seq<ContractFacts>) -> Set<SubjectRef> {
    Set::new(|s: SubjectRef| roots.contains(s) || (s matches SubjectRef::Work(w) && scope.contains(w))
        || exists|k: int| 0 <= k < scope.len() && (active_contract(cs, #[trigger] scope[k]) matches Some(c) && contract_subjects(c, s)))
}

pub(crate) fn insert_obligation_subjects(v: &mut Vec<SubjectRef>, from: &Vec<ObligationId>)
    requires
        subjects_increasing(old(v)@),
    ensures
        subjects_increasing(final(v)@),
        forall|s: SubjectRef| #[trigger] final(v)@.to_set().contains(s) <==> (old(v)@.to_set().contains(s)
            || (s matches SubjectRef::Obligation(o) && from@.contains(o))),
{
    let ghost start = v@.to_set();
    let mut k: usize = 0;
    while k < from.len()
        invariant
            k <= from@.len(),
            subjects_increasing(v@),
            forall|s: SubjectRef| #[trigger] v@.to_set().contains(s) <==> (start.contains(s)
                || (s matches SubjectRef::Obligation(o) && from@.take(k as int).contains(o))),
        decreases from@.len() - k,
    {
        insert_subject_ref(v, SubjectRef::Obligation(from[k]));
        proof {
            assert(from@.take(k as int + 1) =~= from@.take(k as int).push(from@[k as int]));
            assert forall|o: ObligationId| #[trigger] from@.take(k as int + 1).contains(o) <==> (from@.take(k as int).contains(o) || o == from@[k as int]) by {
                if from@.take(k as int + 1).contains(o) {
                    let m = choose|m: int| 0 <= m < k + 1 && #[trigger] from@.take(k as int + 1)[m] == o;
                    if m < k as int {
                        assert(from@.take(k as int)[m] == o);
                    }
                }
                if from@.take(k as int).contains(o) {
                    let m = choose|m: int| 0 <= m < k && #[trigger] from@.take(k as int)[m] == o;
                    assert(from@.take(k as int + 1)[m] == o);
                }
                if o == from@[k as int] {
                    assert(from@.take(k as int + 1)[k as int] == o);
                }
            }
        }
        k += 1;
    }
    assert(from@.take(from@.len() as int) =~= from@);
}

fn insert_source_subjects(v: &mut Vec<SubjectRef>, from: &Vec<SourceId>)
    requires
        subjects_increasing(old(v)@),
    ensures
        subjects_increasing(final(v)@),
        forall|s: SubjectRef| #[trigger] final(v)@.to_set().contains(s) <==> (old(v)@.to_set().contains(s)
            || (s matches SubjectRef::Source(x) && from@.contains(x))),
{
    let ghost start = v@.to_set();
    let mut k: usize = 0;
    while k < from.len()
        invariant
            k <= from@.len(),
            subjects_increasing(v@),
            forall|s: SubjectRef| #[trigger] v@.to_set().contains(s) <==> (start.contains(s)
                || (s matches SubjectRef::Source(x) && from@.take(k as int).contains(x))),
        decreases from@.len() - k,
    {
        insert_subject_ref(v, SubjectRef::Source(from[k]));
        proof {
            assert(from@.take(k as int + 1) =~= from@.take(k as int).push(from@[k as int]));
            assert forall|x: SourceId| #[trigger] from@.take(k as int + 1).contains(x) <==> (from@.take(k as int).contains(x) || x == from@[k as int]) by {
                if from@.take(k as int + 1).contains(x) {
                    let m = choose|m: int| 0 <= m < k + 1 && #[trigger] from@.take(k as int + 1)[m] == x;
                    if m < k as int {
                        assert(from@.take(k as int)[m] == x);
                    }
                }
                if from@.take(k as int).contains(x) {
                    let m = choose|m: int| 0 <= m < k && #[trigger] from@.take(k as int)[m] == x;
                    assert(from@.take(k as int + 1)[m] == x);
                }
                if x == from@[k as int] {
                    assert(from@.take(k as int + 1)[k as int] == x);
                }
            }
        }
        k += 1;
    }
    assert(from@.take(from@.len() as int) =~= from@);
}

/// The subjects of a scope before dependency edges, in subject order.
pub fn scope_base_subjects(roots: &[SubjectRef], scope: &[WorkId], contracts: &[ContractFacts]) -> (r: Vec<SubjectRef>)
    ensures
        subjects_increasing(r@),
        r@.to_set() == scope_base(roots@.to_set(), scope@, contracts@),
{
    let ghost target = scope_base(roots@.to_set(), scope@, contracts@);
    let mut out: Vec<SubjectRef> = Vec::new();
    proof {
        assert(out@.to_set() =~= Set::<SubjectRef>::empty());
    }
    insert_subjects(&mut out, roots);
    proof {
        assert(out@.to_set() =~= roots@.to_set());
    }
    let mut i: usize = 0;
    while i < scope.len()
        invariant
            i <= scope@.len(),
            target == scope_base(roots@.to_set(), scope@, contracts@),
            subjects_increasing(out@),
            forall|s: SubjectRef| #[trigger] out@.to_set().contains(s) <==> (roots@.to_set().contains(s)
                || (s matches SubjectRef::Work(w) && scope@.take(i as int).contains(w))
                || exists|k: int| 0 <= k < i && (active_contract(contracts@, #[trigger] scope@[k]) matches Some(c) && contract_subjects(c, s))),
        decreases scope@.len() - i,
    {
        let w = scope[i];
        let ghost before = out@.to_set();
        insert_subject_ref(&mut out, SubjectRef::Work(w));
        let ghost after_work = out@.to_set();
        match find_active_contract(contracts, w) {
            Some(a) => {
                let c = &contracts[a];
                insert_subjects(&mut out, c.read_subjects.as_slice());
                insert_subjects(&mut out, c.write_subjects.as_slice());
                insert_obligation_subjects(&mut out, &c.obligation_ids);
                insert_source_subjects(&mut out, &c.source_handles);
                proof {
                    assert forall|s: SubjectRef| #[trigger] out@.to_set().contains(s) <==> (after_work.contains(s) || contract_subjects(*c, s)) by {
                        if c.read_subjects@.contains(s) {
                            assert(c.read_subjects@.to_set().contains(s));
                        }
                        if c.write_subjects@.contains(s) {
                            assert(c.write_subjects@.to_set().contains(s));
                        }
                    }
                }
            },
            None => {},
        }
        proof {
            assert(scope@.take(i as int + 1) =~= scope@.take(i as int).push(w));
            assert forall|x: WorkId| #[trigger] scope@.take(i as int + 1).contains(x) <==> (scope@.take(i as int).contains(x) || x == w) by {
                if scope@.take(i as int + 1).contains(x) {
                    let m = choose|m: int| 0 <= m < i + 1 && #[trigger] scope@.take(i as int + 1)[m] == x;
                    if m < i as int {
                        assert(scope@.take(i as int)[m] == x);
                    }
                }
                if scope@.take(i as int).contains(x) {
                    let m = choose|m: int| 0 <= m < i && #[trigger] scope@.take(i as int)[m] == x;
                    assert(scope@.take(i as int + 1)[m] == x);
                }
                if x == w {
                    assert(scope@.take(i as int + 1)[i as int] == x);
                }
            }
            assert forall|s: SubjectRef| #[trigger] out@.to_set().contains(s) <==> (roots@.to_set().contains(s)
                || (s matches SubjectRef::Work(x) && scope@.take(i as int + 1).contains(x))
                || exists|k: int| 0 <= k < i + 1 && (active_contract(contracts@, #[trigger] scope@[k]) matches Some(c) && contract_subjects(c, s))) by {
                if exists|k: int| 0 <= k < i + 1 && (active_contract(contracts@, #[trigger] scope@[k]) matches Some(c) && contract_subjects(c, s)) {
                    let k = choose|k: int| 0 <= k < i + 1 && (active_contract(contracts@, #[trigger] scope@[k]) matches Some(c) && contract_subjects(c, s));
                    if k < i as int {
                        assert(before.contains(s));
                    } else {
                        assert(scope@[k] == w);
                    }
                }
                if out@.to_set().contains(s) && !before.contains(s) && s != SubjectRef::Work(w) {
                    assert(active_contract(contracts@, scope@[i as int]) matches Some(c) && contract_subjects(c, s));
                }
            }
        }
        i += 1;
    }
    proof {
        assert(scope@.take(scope@.len() as int) =~= scope@);
        assert(out@.to_set() =~= target);
    }
    out
}

/// A knowledge closure of a subject, with the boundary and missing
/// endpoints that are subjects.
pub struct ClosureFacts {
    pub subject: Option<SubjectRef>,
    pub complete: bool,
    pub boundary: Vec<SubjectRef>,
    pub missing: Vec<SubjectRef>,
}

/// The closure is incomplete for a subject of the scope.
pub open spec fn open_closure(c: ClosureFacts, subjects: Set<SubjectRef>) -> bool {
    &&& c.subject matches Some(x)
    &&& subjects.contains(x)
    &&& !c.complete
}

/// Where the scope's knowledge is unknown: every subject of the scope whose
/// closure is incomplete, with that closure's boundary and missing subjects.
pub open spec fn unknown_boundary_of(closures: Seq<ClosureFacts>, subjects: Set<SubjectRef>) -> Set<SubjectRef> {
    Set::new(|u: SubjectRef| exists|k: int| 0 <= k < closures.len() && open_closure(#[trigger] closures[k], subjects)
        && (closures[k].subject == Some(u) || closures[k].boundary@.contains(u) || closures[k].missing@.contains(u)))
}

/// The unknown boundary of a scope, in subject order.
pub fn unknown_boundary(closures: &[ClosureFacts], subjects: &[SubjectRef]) -> (r: Vec<SubjectRef>)
    ensures
        subjects_increasing(r@),
        r@.to_set() == unknown_boundary_of(closures@, subjects@.to_set()),
{
    let ghost ss = subjects@.to_set();
    let mut out: Vec<SubjectRef> = Vec::new();
    proof {
        assert(out@.to_set() =~= Set::<SubjectRef>::empty());
    }
    let mut k: usize = 0;
    while k < closures.len()
        invariant
            k <= closures@.len(),
            ss == subjects@.to_set(),
            subjects_increasing(out@),
            out@.to_set() == unknown_boundary_of(closures@.take(k as int), ss),
        decreases closures@.len() - k,
    {
        let c = &closures[k];
        let ghost before = out@.to_set();
        let open = match c.subject {
            Some(x) => !c.complete && holds_subject_ref(subjects, x),
            None => false,
        };
        if open {
            let x = c.subject.unwrap();
            insert_subject_ref(&mut out, x);
            insert_subjects(&mut out, c.boundary.as_slice());
            insert_subjects(&mut out, c.missing.as_slice());
        }
        proof {
            let prev = closures@.take(k as int);
            let next = closures@.take(k as int + 1);
            assert(next =~= prev.push(*c));
            assert forall|u: SubjectRef| #[trigger] out@.to_set().contains(u) <==> unknown_boundary_of(next, ss).contains(u) by {
                if unknown_boundary_of(next, ss).contains(u) {
                    let j = choose|j: int| 0 <= j < next.len() && open_closure(#[trigger] next[j], ss)
                        && (next[j].subject == Some(u) || next[j].boundary@.contains(u) || next[j].missing@.contains(u));
                    if j < k as int {
                        assert(prev[j] == next[j]);
                        assert(unknown_boundary_of(prev, ss).contains(u));
                    } else {
                        assert(next[j] == *c);
                        if c.boundary@.contains(u) {
                            assert(c.boundary@.to_set().contains(u));
                        }
                        if c.missing@.contains(u) {
                            assert(c.missing@.to_set().contains(u));
                        }
                    }
                }
                if out@.to_set().contains(u) {
                    if before.contains(u) {
                        let j = choose|j: int| 0 <= j < prev.len() && open_closure(#[trigger] prev[j], ss)
                            && (prev[j].subject == Some(u) || prev[j].boundary@.contains(u) || prev[j].missing@.contains(u));
                        assert(next[j] == prev[j]);
                    } else {
                        assert(next[k as int] == *c);
                    }
                }
            }
            assert(out@.to_set() =~= unknown_boundary_of(next, ss));
        }
        k += 1;
    }
    assert(closures@.take(closures@.len() as int) =~= closures@);
    out
}


/// Some work row carries the identity.
pub open spec fn work_known(rows: Seq<WorkNode>, w: WorkId) -> bool {
    exists|i: int| 0 <= i < rows.len() && (#[trigger] rows[i]).work_id == w
}

/// The affected work that no work row carries, in increasing order.
pub fn missing_work(affected: &[WorkId], rows: &[WorkNode]) -> (r: Vec<WorkId>)
    ensures
        increasing_works(r@),
        forall|w: WorkId| #[trigger] r@.to_set().contains(w) <==> (affected@.contains(w) && !work_known(rows@, w)),
{
    let mut out: Vec<WorkId> = Vec::new();
    let mut k: usize = 0;
    while k < affected.len()
        invariant
            k <= affected@.len(),
            increasing_works(out@),
            forall|w: WorkId| #[trigger] out@.to_set().contains(w) <==> (affected@.take(k as int).contains(w) && !work_known(rows@, w)),
        decreases affected@.len() - k,
    {
        let w = affected[k];
        let mut known = false;
        let mut i: usize = 0;
        while i < rows.len()
            invariant
                i <= rows@.len(),
                known ==> work_known(rows@, w),
                !known ==> forall|j: int| 0 <= j < i ==> (#[trigger] rows@[j]).work_id != w,
            decreases rows@.len() - i,
        {
            if rows[i].work_id.0 == w.0 {
                assert(rows@[i as int].work_id == w);
                known = true;
            }
            i += 1;
        }
        let ghost before = out@.to_set();
        if !known {
            insert_work(&mut out, w);
            assert(out@.to_set() =~= before.insert(w));
        }
        proof {
            assert(affected@.take(k as int + 1) =~= affected@.take(k as int).push(w));
            assert forall|x: WorkId| #[trigger] affected@.take(k as int + 1).contains(x) <==> (affected@.take(k as int).contains(x) || x == w) by {
                if affected@.take(k as int + 1).contains(x) {
                    let m = choose|m: int| 0 <= m < k + 1 && #[trigger] affected@.take(k as int + 1)[m] == x;
                    if m < k as int {
                        assert(affected@.take(k as int)[m] == x);
                    }
                }
                if affected@.take(k as int).contains(x) {
                    let m = choose|m: int| 0 <= m < k && #[trigger] affected@.take(k as int)[m] == x;
                    assert(affected@.take(k as int + 1)[m] == x);
                }
                if x == w {
                    assert(affected@.take(k as int + 1)[k as int] == x);
                }
            }
        }
        k += 1;
    }
    assert(affected@.take(affected@.len() as int) =~= affected@);
    out
}

/// A milestone plan proposal, as the scope reads it; `fingerprint_current`
/// says whether the plan's recomputed fingerprint equals the one it carries.
#[derive(Clone, Copy, Debug, PartialEq, Eq, Structural)]
pub struct PlanFacts {
    pub key: MilestonePlanKey,
    pub semantic_fingerprint: DigestValue,
    pub fingerprint_current: bool,
    pub strategic_revision_id: StrategicRevisionId,
    pub strategic_record_revision: Revision,
    pub strategic_semantic_digest: DigestValue,
}

/// A strategic plan and the work its nodes name.
pub struct StrategyNodes {
    pub strategic_revision_id: StrategicRevisionId,
    pub outcome_id: OutcomeId,
    pub revision: Revision,
    pub semantic_digest: DigestValue,
    pub state: PlanningRevisionState,
    pub node_work_ids: Vec<WorkId>,
}

/// The planning records that let a pre-execution milestone plan name work
/// that does not exist yet.
pub struct MilestoneScopeFacts {
    pub plan_states: Vec<MilestonePlanStateRecord>,
    pub plans: Vec<PlanFacts>,
    pub strategies: Vec<StrategyNodes>,
}

pub open spec fn plan_state_of(states: Seq<MilestonePlanStateRecord>, o: OutcomeId) -> Option<MilestonePlanStateRecord>
    decreases states.len(),
{
    if states.len() == 0 {
        None
    } else if states[0].outcome_id == o {
        Some(states[0])
    } else {
        plan_state_of(states.drop_first(), o)
    }
}

pub open spec fn plan_of(plans: Seq<PlanFacts>, key: MilestonePlanKey) -> Option<PlanFacts>
    decreases plans.len(),
{
    if plans.len() == 0 {
        None
    } else if plans[0].key == key {
        Some(plans[0])
    } else {
        plan_of(plans.drop_first(), key)
    }
}

pub open spec fn strategy_of(strategies: Seq<StrategyNodes>, id: StrategicRevisionId) -> Option<StrategyNodes>
    decreases strategies.len(),
{
    if strategies.len() == 0 {
        None
    } else if strategies[0].strategic_revision_id == id {
        Some(strategies[0])
    } else {
        strategy_of(strategies.drop_first(), id)
    }
}

pub open spec fn owners_of(obs: Seq<ObligationOwners>, id: ObligationId) -> Option<ObligationOwners>
    decreases obs.len(),
{
    if obs.len() == 0 {
        None
    } else if obs[0].obligation_id == id {
        Some(obs[0])
    } else {
        owners_of(obs.drop_first(), id)
    }
}

/// The outcomes among the subjects that have an adopted plan state.
pub open spec fn planned_outcomes(subjects: Set<SubjectRef>, states: Seq<MilestonePlanStateRecord>) -> Set<OutcomeId> {
    Set::new(|o: OutcomeId| subjects.contains(SubjectRef::Outcome(o)) && plan_state_of(states, o) is Some)
}

/// The outcome is the only one among the subjects with a plan state.
pub open spec fn sole_planned(subjects: Set<SubjectRef>, states: Seq<MilestonePlanStateRecord>, o: OutcomeId) -> bool {
    &&& planned_outcomes(subjects, states).contains(o)
    &&& forall|p: OutcomeId| #[trigger] planned_outcomes(subjects, states).contains(p) ==> p == o
}

/// The adopted plan, its strategy and the store still stand where the
/// plan was adopted, before any work or lowering exists.
pub open spec fn plan_binding_holds(st: MilestonePlanStateRecord, plan: PlanFacts, strategy: StrategyNodes, work_exists: bool, lowerings_exist: bool) -> bool {
    &&& plan.key == st.adopted_plan
    &&& plan.key.outcome_id == st.outcome_id
    &&& plan.semantic_fingerprint == st.adopted_fingerprint
    &&& plan.fingerprint_current
    &&& strategy.outcome_id == st.outcome_id
    &&& strategy.revision == plan.strategic_record_revision
    &&& strategy.semantic_digest == plan.strategic_semantic_digest
    &&& strategy.strategic_revision_id == plan.strategic_revision_id
    &&& strategy.state != PlanningRevisionState::Superseded
    &&& !work_exists
    &&& !lowerings_exist
}

/// The obligation's record names the work among its owners.
pub open spec fn owned_by(obs: Seq<ObligationOwners>, o: ObligationId, w: WorkId) -> bool {
    &&& owners_of(obs, o) matches Some(r)
    &&& r.owners@.contains(w)
}

/// Work the adopted plan may name before it exists: the work of its
/// strategy's nodes and the owners of obligations among the subjects.
pub open spec fn plan_allows(strategy: StrategyNodes, subjects: Set<SubjectRef>, obs: Seq<ObligationOwners>, w: WorkId) -> bool {
    strategy.node_work_ids@.contains(w) || exists|o: ObligationId| subjects.contains(SubjectRef::Obligation(o)) && #[trigger] owned_by(obs, o, w)
}

/// Whether missing work is allowed because exactly one adopted
/// pre-execution milestone plan names it; a plan state whose plan or
/// strategy record is missing is a conflict.
pub open spec fn milestone_missing_allowed(
    subjects: Set<SubjectRef>,
    missing: Set<WorkId>,
    facts: MilestoneScopeFacts,
    obs: Seq<ObligationOwners>,
    work_exists: bool,
    lowerings_exist: bool,
) -> Result<bool, ErrorCode> {
    if missing == Set::<WorkId>::empty() {
        Ok(false)
    } else if !exists|o: OutcomeId| #[trigger] sole_planned(subjects, facts.plan_states@, o) {
        Ok(false)
    } else {
        let o = choose|o: OutcomeId| #[trigger] sole_planned(subjects, facts.plan_states@, o);
        let st = plan_state_of(facts.plan_states@, o)->0;
        match plan_of(facts.plans@, st.adopted_plan) {
            None => Err(ErrorCode::Conflict),
            Some(plan) => match strategy_of(facts.strategies@, plan.strategic_revision_id) {
                None => Err(ErrorCode::Conflict),
                Some(strategy) => if !plan_binding_holds(st, plan, strategy, work_exists, lowerings_exist) {
                    Ok(false)
                } else {
                    Ok(forall|w: WorkId| missing.contains(w) ==> plan_allows(strategy, subjects, obs, w))
                },
            },
        }
    }
}


/// The outcome a root names, when it has a plan state.
pub open spec fn root_planned(r: SubjectRef, states: Seq<MilestonePlanStateRecord>) -> Option<OutcomeId> {
    match r {
        SubjectRef::Outcome(o) => if plan_state_of(states, o) is Some { Some(o) } else { None },
        _ => None,
    }
}

fn find_plan_state(states: &[MilestonePlanStateRecord], o: OutcomeId) -> (r: Option<MilestonePlanStateRecord>)
    ensures
        r == plan_state_of(states@, o),
{
    let ghost s = states@;
    let mut i: usize = 0;
    assert(s.skip(0) =~= s);
    while i < states.len()
        invariant
            i <= s.len(),
            s == states@,
            plan_state_of(s.skip(i as int), o) == plan_state_of(s, o),
        decreases s.len() - i,
    {
        assert(s.skip(i as int).drop_first() =~= s.skip(i as int + 1));
        if states[i].outcome_id.0 == o.0 {
            return Some(states[i]);
        }
        i += 1;
    }
    None
}

fn find_plan(plans: &[PlanFacts], key: MilestonePlanKey) -> (r: Option<PlanFacts>)
    ensures
        r == plan_of(plans@, key),
{
    let ghost s = plans@;
    let mut i: usize = 0;
    assert(s.skip(0) =~= s);
    while i < plans.len()
        invariant
            i <= s.len(),
            s == plans@,
            plan_of(s.skip(i as int), key) == plan_of(s, key),
        decreases s.len() - i,
    {
        assert(s.skip(i as int).drop_first() =~= s.skip(i as int + 1));
        if plans[i].key.outcome_id.0 == key.outcome_id.0 {
            return Some(plans[i]);
        }
        i += 1;
    }
    None
}

fn find_strategy(strategies: &[StrategyNodes], id: StrategicRevisionId) -> (r: Option<usize>)
    ensures
        match strategy_of(strategies@, id) {
            Some(x) => r matches Some(i) && i < strategies@.len() && strategies@[i as int] == x,
            None => r is None,
        },
{
    let ghost s = strategies@;
    let mut i: usize = 0;
    assert(s.skip(0) =~= s);
    while i < strategies.len()
        invariant
            i <= s.len(),
            s == strategies@,
            strategy_of(s.skip(i as int), id) == strategy_of(s, id),
        decreases s.len() - i,
    {
        assert(s.skip(i as int).drop_first() =~= s.skip(i as int + 1));
        if strategies[i].strategic_revision_id.0 == id.0 {
            return Some(i);
        }
        i += 1;
    }
    None
}

fn find_owners(obs: &[ObligationOwners], id: ObligationId) -> (r: Option<usize>)
    ensures
        match owners_of(obs@, id) {
            Some(x) => r matches Some(i) && i < obs@.len() && obs@[i as int] == x,
            None => r is None,
        },
{
    let ghost s = obs@;
    let mut i: usize = 0;
    assert(s.skip(0) =~= s);
    while i < obs.len()
        invariant
            i <= s.len(),
            s == obs@,
            owners_of(s.skip(i as int), id) == owners_of(s, id),
        decreases s.len() - i,
    {
        assert(s.skip(i as int).drop_first() =~= s.skip(i as int + 1));
        if obs[i].obligation_id.0 == id.0 {
            return Some(i);
        }
        i += 1;
    }
    None
}

fn allowed_by_plan(strategy: &StrategyNodes, roots: &[SubjectRef], obligations: &[ObligationOwners], w: WorkId) -> (r: bool)
    ensures
        r == plan_allows(*strategy, roots@.to_set(), obligations@, w),
{
    if holds_work(strategy.node_work_ids.as_slice(), w) {
        return true;
    }
    let mut k: usize = 0;
    while k < roots.len()
        invariant
            k <= roots@.len(),
            !strategy.node_work_ids@.contains(w),
            forall|j: int| 0 <= j < k ==> (#[trigger] roots@[j] matches SubjectRef::Obligation(o) ==> !owned_by(obligations@, o, w)),
        decreases roots@.len() - k,
    {
        match roots[k] {
            SubjectRef::Obligation(o) => {
                match find_owners(obligations, o) {
                    Some(i) => {
                        if holds_work(obligations[i].owners.as_slice(), w) {
                            assert(owned_by(obligations@, o, w));
                            assert(roots@.to_set().contains(roots@[k as int]));
                            return true;
                        }
                    },
                    None => {},
                }
            },
            _ => {},
        }
        k += 1;
    }
    proof {
        assert forall|o: ObligationId| roots@.to_set().contains(SubjectRef::Obligation(o)) implies !#[trigger] owned_by(obligations@, o, w) by {
            let j = choose|j: int| 0 <= j < roots@.len() && roots@[j] == SubjectRef::Obligation(o);
            assert(roots@[j] matches SubjectRef::Obligation(x) ==> !owned_by(obligations@, x, w));
        }
    }
    false
}

/// Whether missing work is allowed because exactly one adopted
/// pre-execution milestone plan names it.
#[verifier::loop_isolation(false)]
pub fn allows_preexecution_milestone_missing(
    roots: &[SubjectRef],
    missing: &[WorkId],
    facts: &MilestoneScopeFacts,
    obligations: &[ObligationOwners],
    work_exists: bool,
    lowerings_exist: bool,
) -> (r: Result<bool, ZapError>)
    ensures
        match milestone_missing_allowed(roots@.to_set(), missing@.to_set(), *facts, obligations@, work_exists, lowerings_exist) {
            Ok(b) => r == Ok::<bool, ZapError>(b),
            Err(c) => r matches Err(e) && e.code == c,
        },
{
    let ghost rs = roots@.to_set();
    let ghost states = facts.plan_states@;
    if missing.len() == 0 {
        assert(missing@.to_set() =~= Set::<WorkId>::empty());
        return Ok(false);
    }
    assert(missing@.to_set().contains(missing@[0]));
    let mut first: Option<OutcomeId> = None;
    let mut several = false;
    let mut k: usize = 0;
    while k < roots.len()
        invariant
            k <= roots@.len(),
            rs == roots@.to_set(),
            states == facts.plan_states@,
            first is None ==> forall|j: int| 0 <= j < k ==> root_planned(#[trigger] roots@[j], states) is None,
            first matches Some(f) ==> planned_outcomes(rs, states).contains(f),
            several ==> exists|a: OutcomeId, b: OutcomeId| a != b && #[trigger] planned_outcomes(rs, states).contains(a) && #[trigger] planned_outcomes(rs, states).contains(b),
            !several && first is Some ==> forall|j: int| 0 <= j < k ==> (root_planned(#[trigger] roots@[j], states) is Some ==> root_planned(roots@[j], states) == first),
        decreases roots@.len() - k,
    {
        match roots[k] {
            SubjectRef::Outcome(o) => {
                if find_plan_state(&facts.plan_states, o).is_some() {
                    assert(rs.contains(roots@[k as int]));
                    assert(planned_outcomes(rs, states).contains(o));
                    match first {
                        None => {
                            first = Some(o);
                        },
                        Some(f) => {
                            if f.0 != o.0 {
                                several = true;
                            }
                        },
                    }
                }
            },
            _ => {},
        }
        k += 1;
    }
    let sole = match first {
        Some(f) => {
            if several {
                None
            } else {
                Some(f)
            }
        },
        None => None,
    };
    let o = match sole {
        Some(o) => o,
        None => {
            proof {
                if exists|o: OutcomeId| #[trigger] sole_planned(rs, states, o) {
                    let o = choose|o: OutcomeId| #[trigger] sole_planned(rs, states, o);
                    let j = choose|j: int| 0 <= j < roots@.len() && roots@[j] == SubjectRef::Outcome(o);
                    assert(root_planned(roots@[j], states) == Some(o));
                    if several {
                        let (a, b) = choose|a: OutcomeId, b: OutcomeId| a != b && #[trigger] planned_outcomes(rs, states).contains(a) && #[trigger] planned_outcomes(rs, states).contains(b);
                        assert(a == o && b == o);
                    }
                }
            }
            return Ok(false);
        },
    };
    proof {
        assert forall|p: OutcomeId| #[trigger] planned_outcomes(rs, states).contains(p) implies p == o by {
            let j = choose|j: int| 0 <= j < roots@.len() && roots@[j] == SubjectRef::Outcome(p);
            assert(root_planned(roots@[j], states) == Some(p));
        }
        assert(sole_planned(rs, states, o));
        assert forall|x: OutcomeId| #[trigger] sole_planned(rs, states, x) implies x == o by {}
    }
    let st = find_plan_state(&facts.plan_states, o).unwrap();
    let plan = match find_plan(&facts.plans, st.adopted_plan) {
        Some(p) => p,
        None => return Err(ZapError::new(ErrorCode::Conflict)),
    };
    let si = match find_strategy(&facts.strategies, plan.strategic_revision_id) {
        Some(i) => i,
        None => return Err(ZapError::new(ErrorCode::Conflict)),
    };
    let strategy = &facts.strategies[si];
    let holds = plan.key.outcome_id.0 == st.adopted_plan.outcome_id.0 && plan.key.outcome_id.0 == st.outcome_id.0
        && plan.semantic_fingerprint.0 == st.adopted_fingerprint.0 && plan.fingerprint_current
        && strategy.outcome_id.0 == st.outcome_id.0 && strategy.revision.0 == plan.strategic_record_revision.0
        && strategy.semantic_digest.0 == plan.strategic_semantic_digest.0
        && strategy.strategic_revision_id.0 == plan.strategic_revision_id.0
        && !matches!(strategy.state, PlanningRevisionState::Superseded) && !work_exists && !lowerings_exist;
    if !holds {
        return Ok(false);
    }
    let mut m: usize = 0;
    while m < missing.len()
        invariant
            m <= missing@.len(),
            forall|j: int| 0 <= j < m ==> plan_allows(*strategy, roots@.to_set(), obligations@, #[trigger] missing@[j]),
        decreases missing@.len() - m,
    {
        if !allowed_by_plan(strategy, roots, obligations, missing[m]) {
            proof {
                assert(missing@.to_set().contains(missing@[m as int]));
            }
            return Ok(false);
        }
        m += 1;
    }
    proof {
        assert forall|w: WorkId| missing@.to_set().contains(w) implies plan_allows(*strategy, roots@.to_set(), obligations@, w) by {
            let j = choose|j: int| 0 <= j < missing@.len() && missing@[j] == w;
        }
    }
    Ok(true)
}


/// What an affected-scope request names: its direct work, its root
/// subjects, and whether its initial work may not exist yet.
pub struct ScopeRequest {
    /// The digest of the request's canonical encoding.
    pub request_digest: DigestValue,
    pub direct_work_ids: Vec<WorkId>,
    pub roots: Vec<SubjectRef>,
    pub allows_missing_initial_work: bool,
}

/// The records the affected scope reads from the store.
pub struct ScopeStore {
    /// The revision the records were read at.
    pub revision: Revision,
    pub work: Vec<WorkNode>,
    pub contracts: Vec<ContractFacts>,
    pub obligations: Vec<ObligationOwners>,
    pub dependencies: Vec<DependencyEdge>,
    pub closures: Vec<ClosureFacts>,
    pub lowerings_exist: bool,
    pub milestones: MilestoneScopeFacts,
}

/// The affected scope of a change: the request it answers and the revision
/// it observed, the work it affects, the work that depends on it, the
/// subjects they bind, and where knowledge is unknown.
pub struct DerivedAffectedScope {
    pub request_digest: DigestValue,
    pub observed_revision: Revision,
    pub affected_work_ids: Vec<WorkId>,
    pub dependent_work_ids: Vec<WorkId>,
    pub subjects: Vec<SubjectRef>,
    pub unknown_boundary: Vec<SubjectRef>,
    pub complete: bool,
}

/// The initially affected work that no work row carries.
pub open spec fn missing_set(req: ScopeRequest, store: ScopeStore) -> Set<WorkId> {
    Set::new(|w: WorkId| initially_affected(req.direct_work_ids@, req.roots@.to_set(), store.contracts@, store.obligations@).contains(w)
        && !work_known(store.work@, w))
}

/// The missing work is exactly the request's initial work, which may be
/// missing, before any lowering exists.
pub open spec fn exact_initial_missing(req: ScopeRequest, store: ScopeStore) -> bool {
    &&& req.allows_missing_initial_work
    &&& increasing_works(req.direct_work_ids@)
    &&& req.direct_work_ids@.to_set() == missing_set(req, store)
    &&& !store.lowerings_exist
}

fn increasing_exec(v: &[WorkId]) -> (r: bool)
    ensures
        r == increasing_works(v@),
{
    if v.len() == 0 {
        return true;
    }
    let mut i: usize = 1;
    while i < v.len()
        invariant
            1 <= i <= v@.len(),
            forall|a: int, b: int| 0 <= a < b < i ==> (#[trigger] v@[a]).0 < (#[trigger] v@[b]).0,
        decreases v@.len() - i,
    {
        if v[i - 1].0 >= v[i].0 {
            return false;
        }
        i += 1;
    }
    true
}

fn same_work_set(a: &[WorkId], b: &[WorkId]) -> (r: bool)
    ensures
        r == (a@.to_set() == b@.to_set()),
{
    let mut i: usize = 0;
    while i < a.len()
        invariant
            i <= a@.len(),
            forall|k: int| 0 <= k < i ==> b@.contains(#[trigger] a@[k]),
        decreases a@.len() - i,
    {
        if !holds_work(b, a[i]) {
            assert(a@.to_set().contains(a@[i as int]) && !b@.to_set().contains(a@[i as int]));
            return false;
        }
        i += 1;
    }
    let mut j: usize = 0;
    while j < b.len()
        invariant
            j <= b@.len(),
            forall|k: int| 0 <= k < a@.len() ==> b@.contains(#[trigger] a@[k]),
            forall|k: int| 0 <= k < j ==> a@.contains(#[trigger] b@[k]),
        decreases b@.len() - j,
    {
        if !holds_work(a, b[j]) {
            assert(b@.to_set().contains(b@[j as int]) && !a@.to_set().contains(b@[j as int]));
            return false;
        }
        j += 1;
    }
    proof {
        assert forall|w: WorkId| a@.to_set().contains(w) <==> b@.to_set().contains(w) by {
            if a@.contains(w) {
                let k = choose|k: int| 0 <= k < a@.len() && a@[k] == w;
            }
            if b@.contains(w) {
                let k = choose|k: int| 0 <= k < b@.len() && b@[k] == w;
            }
        }
        assert(a@.to_set() =~= b@.to_set());
    }
    true
}

/// Derives the affected scope of a change from a full scan of the store:
/// the initially affected work (missing work is refused unless it is the
/// request's own initial work or an adopted pre-execution milestone plan
/// names it), its dependents, the subjects they bind closed under knowledge
/// dependencies, and the unknown boundary of incomplete closures.
pub fn derive_affected_scope(req: &ScopeRequest, store: &ScopeStore) -> (r: Result<DerivedAffectedScope, ZapError>)
    ensures
        match milestone_missing_allowed(req.roots@.to_set(), missing_set(*req, *store), store.milestones, store.obligations@,
            store.work@.len() > 0, store.lowerings_exist) {
            Err(c) => r matches Err(e) && e.code == c,
            Ok(planned) => if missing_set(*req, *store) != Set::<WorkId>::empty() && !exact_initial_missing(*req, *store) && !planned {
                r matches Err(e) && e.code == ErrorCode::Conflict
            } else {
                r matches Ok(d) && {
                    &&& d.request_digest == req.request_digest
                    &&& d.observed_revision == store.revision
                    &&& increasing_works(d.affected_work_ids@)
                    &&& d.affected_work_ids@.to_set() == initially_affected(req.direct_work_ids@, req.roots@.to_set(), store.contracts@, store.obligations@)
                    &&& increasing_works(d.dependent_work_ids@)
                    &&& least_closure(store.work@, d.affected_work_ids@.to_set(), d.dependent_work_ids@.to_set())
                    &&& subjects_increasing(d.subjects@)
                    &&& least_edge_closure(store.dependencies@,
                        scope_base(req.roots@.to_set(), d.affected_work_ids@ + d.dependent_work_ids@, store.contracts@), d.subjects@.to_set())
                    &&& subjects_increasing(d.unknown_boundary@)
                    &&& d.unknown_boundary@.to_set() == unknown_boundary_of(store.closures@, d.subjects@.to_set())
                    &&& d.complete == (d.unknown_boundary@.len() == 0)
                }
            },
        },
{
    let affected = initially_affected_work(
        req.direct_work_ids.as_slice(),
        req.roots.as_slice(),
        store.contracts.as_slice(),
        store.obligations.as_slice(),
    );
    let missing = missing_work(affected.as_slice(), store.work.as_slice());
    proof {
        assert(missing@.to_set() =~= missing_set(*req, *store));
    }
    let exact = req.allows_missing_initial_work && increasing_exec(req.direct_work_ids.as_slice())
        && same_work_set(req.direct_work_ids.as_slice(), missing.as_slice()) && !store.lowerings_exist;
    let planned = allows_preexecution_milestone_missing(
        req.roots.as_slice(),
        missing.as_slice(),
        &store.milestones,
        store.obligations.as_slice(),
        store.work.len() > 0,
        store.lowerings_exist,
    )?;
    if missing.len() > 0 && !exact && !planned {
        proof {
            assert(missing@.to_set().contains(missing@[0]));
        }
        return Err(ZapError::new(ErrorCode::Conflict));
    }
    proof {
        if missing.len() == 0 {
            assert(missing@.to_set() =~= Set::<WorkId>::empty());
        }
    }
    let dependent = dependent_work(store.work.as_slice(), affected.as_slice());
    let mut scope: Vec<WorkId> = Vec::new();
    let mut i: usize = 0;
    while i < affected.len()
        invariant
            i <= affected@.len(),
            scope@ == affected@.take(i as int),
        decreases affected@.len() - i,
    {
        scope.push(affected[i]);
        assert(affected@.take(i as int + 1) =~= affected@.take(i as int).push(affected@[i as int]));
        i += 1;
    }
    assert(affected@.take(affected@.len() as int) =~= affected@);
    let mut j: usize = 0;
    while j < dependent.len()
        invariant
            j <= dependent@.len(),
            scope@ == affected@ + dependent@.take(j as int),
        decreases dependent@.len() - j,
    {
        scope.push(dependent[j]);
        assert(dependent@.take(j as int + 1) =~= dependent@.take(j as int).push(dependent@[j as int]));
        assert(scope@ =~= affected@ + dependent@.take(j as int + 1));
        j += 1;
    }
    assert(dependent@.take(dependent@.len() as int) =~= dependent@);
    let base = scope_base_subjects(req.roots.as_slice(), scope.as_slice(), store.contracts.as_slice());
    let subjects = close_subjects(store.dependencies.as_slice(), base);
    let unknown = unknown_boundary(store.closures.as_slice(), subjects.as_slice());
    let complete = unknown.len() == 0;
    Ok(DerivedAffectedScope {
        request_digest: req.request_digest,
        observed_revision: store.revision,
        affected_work_ids: affected,
        dependent_work_ids: dependent,
        subjects,
        unknown_boundary: unknown,
        complete,
    })
}


/// A change hold, as the independence assessment reads it.
pub struct ScopeHold {
    pub hold_id: HoldId,
    pub affected_scope_digest: DigestValue,
    pub independence_basis: DigestValue,
    pub affected_work_ids: Vec<WorkId>,
    pub dependent_work_ids: Vec<WorkId>,
    pub subject_ids: Vec<SubjectRef>,
    pub unknown_boundary: Vec<SubjectRef>,
    pub hold_all_starts: bool,
}

/// A request to assess a candidate against a hold, bound to the scope and
/// basis the hold was assessed on.
#[derive(Clone, Copy, Debug, PartialEq, Eq, Structural)]
pub struct IndependenceRequest {
    pub hold_id: HoldId,
    pub held_scope: DigestValue,
    pub relevant_basis: DigestValue,
}

/// A candidate change's affected scope.
pub struct CandidateScopeView {
    pub affected_work_ids: Vec<WorkId>,
    pub dependent_work_ids: Vec<WorkId>,
    pub subjects: Vec<SubjectRef>,
    pub unknown_boundary: Vec<SubjectRef>,
}

/// Whether a candidate is independent of a hold, and the subjects whose
/// knowledge is unknown between them.
pub struct IndependenceView {
    pub independent: bool,
    pub unknown: Vec<SubjectRef>,
}

pub open spec fn scope_hold_of(holds: Seq<ScopeHold>, id: HoldId) -> Option<ScopeHold>
    decreases holds.len(),
{
    if holds.len() == 0 {
        None
    } else if holds[0].hold_id == id {
        Some(holds[0])
    } else {
        scope_hold_of(holds.drop_first(), id)
    }
}

/// Some work of the hold is affected by, or depends on, the candidate.
pub open spec fn work_intersects(h: ScopeHold, c: CandidateScopeView) -> bool {
    exists|w: WorkId| (h.affected_work_ids@.contains(w) || h.dependent_work_ids@.contains(w))
        && (#[trigger] c.affected_work_ids@.contains(w) || c.dependent_work_ids@.contains(w))
}

/// Some subject of the hold is a subject of the candidate.
pub open spec fn subject_intersects(h: ScopeHold, c: CandidateScopeView) -> bool {
    exists|s: SubjectRef| h.subject_ids@.contains(s) && #[trigger] c.subjects@.contains(s)
}

/// The unknown subjects between them: the hold's unknown boundary within the
/// candidate's subjects, and the candidate's own unknown boundary.
pub open spec fn joint_unknown(h: ScopeHold, c: CandidateScopeView) -> Set<SubjectRef> {
    Set::new(|s: SubjectRef| (h.unknown_boundary@.contains(s) && c.subjects@.contains(s)) || c.unknown_boundary@.contains(s))
}

/// A candidate shares work with a hold exactly when some work id stands
/// both among the hold's affected or dependent work and among the
/// candidate's affected or dependent work; a candidate that shares work is
/// never independent of the hold.
pub proof fn law_shared_work_breaks_independence(h: ScopeHold, c: CandidateScopeView)
    ensures
        work_intersects(h, c) <==> exists|i: int, j: int|
            0 <= i < (h.affected_work_ids@ + h.dependent_work_ids@).len() && 0 <= j < (c.affected_work_ids@
                + c.dependent_work_ids@).len() && (#[trigger] (h.affected_work_ids@ + h.dependent_work_ids@)[i]) == (
            #[trigger] (c.affected_work_ids@ + c.dependent_work_ids@)[j]),
{
    let hw = h.affected_work_ids@ + h.dependent_work_ids@;
    let cw = c.affected_work_ids@ + c.dependent_work_ids@;
    if work_intersects(h, c) {
        let w = choose|w: WorkId| (h.affected_work_ids@.contains(w) || h.dependent_work_ids@.contains(w))
            && (#[trigger] c.affected_work_ids@.contains(w) || c.dependent_work_ids@.contains(w));
        let i = if h.affected_work_ids@.contains(w) {
            choose|i: int| 0 <= i < h.affected_work_ids@.len() && h.affected_work_ids@[i] == w
        } else {
            let k = choose|k: int| 0 <= k < h.dependent_work_ids@.len() && h.dependent_work_ids@[k] == w;
            h.affected_work_ids@.len() + k
        };
        let j = if c.affected_work_ids@.contains(w) {
            choose|j: int| 0 <= j < c.affected_work_ids@.len() && c.affected_work_ids@[j] == w
        } else {
            let k = choose|k: int| 0 <= k < c.dependent_work_ids@.len() && c.dependent_work_ids@[k] == w;
            c.affected_work_ids@.len() + k
        };
        assert(hw[i] == w);
        assert(cw[j] == w);
        assert(0 <= i < hw.len() && 0 <= j < cw.len() && hw[i] == cw[j]);
    }
    if exists|i: int, j: int| 0 <= i < hw.len() && 0 <= j < cw.len() && #[trigger] hw[i] == #[trigger] cw[j] {
        let (i, j) = choose|i: int, j: int| 0 <= i < hw.len() && 0 <= j < cw.len() && #[trigger] hw[i] == #[trigger] cw[j];
        let w = hw[i];
        if i < h.affected_work_ids@.len() {
            assert(h.affected_work_ids@[i] == w);
            assert(h.affected_work_ids@.contains(w));
        } else {
            assert(h.dependent_work_ids@[i - h.affected_work_ids@.len()] == w);
            assert(h.dependent_work_ids@.contains(w));
        }
        if j < c.affected_work_ids@.len() {
            assert(c.affected_work_ids@[j] == w);
            assert(c.affected_work_ids@.contains(w));
        } else {
            assert(c.dependent_work_ids@[j - c.affected_work_ids@.len()] == w);
            assert(c.dependent_work_ids@.contains(w));
        }
        assert(c.affected_work_ids@.contains(w) || c.dependent_work_ids@.contains(w));
        assert(work_intersects(h, c));
    }
}

/// A candidate shares a subject with a hold exactly when some subject of the
/// hold is a subject of the candidate; the subjects unknown between them are
/// the hold's unknown subjects that the candidate touches, and the
/// candidate's own unknown boundary.
pub proof fn law_shared_subjects_and_unknown_boundary(h: ScopeHold, c: CandidateScopeView, x: SubjectRef)
    ensures
        subject_intersects(h, c) <==> exists|i: int, j: int|
            0 <= i < h.subject_ids@.len() && 0 <= j < c.subjects@.len() && #[trigger] h.subject_ids@[i] == #[trigger] c.subjects@[j],
        joint_unknown(h, c).contains(x) <==> ((exists|i: int| 0 <= i < h.unknown_boundary@.len() && #[trigger] h.unknown_boundary@[i] == x)
            && (exists|j: int| 0 <= j < c.subjects@.len() && #[trigger] c.subjects@[j] == x)) || (exists|k: int|
            0 <= k < c.unknown_boundary@.len() && #[trigger] c.unknown_boundary@[k] == x),
{
    if subject_intersects(h, c) {
        let w = choose|w: SubjectRef| h.subject_ids@.contains(w) && #[trigger] c.subjects@.contains(w);
        let i = choose|i: int| 0 <= i < h.subject_ids@.len() && h.subject_ids@[i] == w;
        let j = choose|j: int| 0 <= j < c.subjects@.len() && c.subjects@[j] == w;
        assert(h.subject_ids@[i] == c.subjects@[j]);
    }
    if exists|i: int, j: int| 0 <= i < h.subject_ids@.len() && 0 <= j < c.subjects@.len() && #[trigger] h.subject_ids@[i] == #[trigger] c.subjects@[j] {
        let (i, j) = choose|i: int, j: int| 0 <= i < h.subject_ids@.len() && 0 <= j < c.subjects@.len() && #[trigger] h.subject_ids@[i] == #[trigger] c.subjects@[j];
        assert(h.subject_ids@.contains(h.subject_ids@[i]));
        assert(c.subjects@.contains(h.subject_ids@[i]));
    }
}

fn find_scope_hold(holds: &[ScopeHold], id: HoldId) -> (r: Option<usize>)
    ensures
        match scope_hold_of(holds@, id) {
            Some(h) => r matches Some(i) && i < holds@.len() && holds@[i as int] == h,
            None => r is None,
        },
{
    let ghost s = holds@;
    let mut i: usize = 0;
    assert(s.skip(0) =~= s);
    while i < holds.len()
        invariant
            i <= s.len(),
            s == holds@,
            scope_hold_of(s.skip(i as int), id) == scope_hold_of(s, id),
        decreases s.len() - i,
    {
        assert(s.skip(i as int).drop_first() =~= s.skip(i as int + 1));
        if holds[i].hold_id.0 == id.0 {
            return Some(i);
        }
        i += 1;
    }
    None
}

fn any_work_in_candidate(from: &Vec<WorkId>, c: &CandidateScopeView) -> (r: bool)
    ensures
        r == exists|w: WorkId| from@.contains(w) && (#[trigger] c.affected_work_ids@.contains(w) || c.dependent_work_ids@.contains(w)),
{
    let mut k: usize = 0;
    while k < from.len()
        invariant
            k <= from@.len(),
            forall|m: int| 0 <= m < k ==> !(c.affected_work_ids@.contains(#[trigger] from@[m]) || c.dependent_work_ids@.contains(from@[m])),
        decreases from@.len() - k,
    {
        if holds_work(c.affected_work_ids.as_slice(), from[k]) || holds_work(c.dependent_work_ids.as_slice(), from[k]) {
            assert(from@.contains(from@[k as int]));
            return true;
        }
        k += 1;
    }
    proof {
        assert forall|w: WorkId| from@.contains(w) implies !(#[trigger] c.affected_work_ids@.contains(w) || c.dependent_work_ids@.contains(w)) by {
            let m = choose|m: int| 0 <= m < from@.len() && from@[m] == w;
        }
    }
    false
}

/// Assesses whether a candidate change is independent of a hold: the hold
/// must exist and be assessed on the request's scope and basis; the
/// candidate is independent when the hold does not stop all starts, shares
/// no work and no subject with it, and nothing between them is unknown.
pub fn assess_independence(holds: &[ScopeHold], request: IndependenceRequest, candidate: &CandidateScopeView) -> (r: Result<IndependenceView, ZapError>)
    ensures
        match scope_hold_of(holds@, request.hold_id) {
            None => r matches Err(e) && e.code == ErrorCode::Conflict,
            Some(h) => if h.affected_scope_digest != request.held_scope || h.independence_basis != request.relevant_basis {
                r matches Err(e) && e.code == ErrorCode::Conflict
            } else {
                r matches Ok(v) && {
                    &&& subjects_increasing(v.unknown@)
                    &&& v.unknown@.to_set() == joint_unknown(h, *candidate)
                    &&& v.independent == (!h.hold_all_starts && !work_intersects(h, *candidate) && !subject_intersects(h, *candidate)
                        && v.unknown@.len() == 0)
                }
            },
        },
{
    let hi = match find_scope_hold(holds, request.hold_id) {
        Some(i) => i,
        None => return Err(ZapError::new(ErrorCode::Conflict)),
    };
    let hold = &holds[hi];
    if hold.affected_scope_digest.0 != request.held_scope.0 || hold.independence_basis.0 != request.relevant_basis.0 {
        return Err(ZapError::new(ErrorCode::Conflict));
    }
    let work_hit = any_work_in_candidate(&hold.affected_work_ids, candidate) || any_work_in_candidate(&hold.dependent_work_ids, candidate);
    proof {
        assert(work_hit == work_intersects(*hold, *candidate));
    }
    let mut subject_hit = false;
    let mut k: usize = 0;
    while k < hold.subject_ids.len()
        invariant
            k <= hold.subject_ids@.len(),
            subject_hit == exists|m: int| 0 <= m < k && candidate.subjects@.contains(#[trigger] hold.subject_ids@[m]),
        decreases hold.subject_ids@.len() - k,
    {
        if holds_subject_ref(candidate.subjects.as_slice(), hold.subject_ids[k]) {
            subject_hit = true;
        }
        k += 1;
    }
    proof {
        if subject_hit {
            let m = choose|m: int| 0 <= m < hold.subject_ids@.len() && candidate.subjects@.contains(#[trigger] hold.subject_ids@[m]);
            assert(hold.subject_ids@.contains(hold.subject_ids@[m]));
        } else {
            assert forall|s: SubjectRef| hold.subject_ids@.contains(s) implies !#[trigger] candidate.subjects@.contains(s) by {
                let m = choose|m: int| 0 <= m < hold.subject_ids@.len() && hold.subject_ids@[m] == s;
            }
        }
    }
    let mut unknown: Vec<SubjectRef> = Vec::new();
    proof {
        assert(unknown@.to_set() =~= Set::<SubjectRef>::empty());
    }
    let mut u: usize = 0;
    while u < hold.unknown_boundary.len()
        invariant
            u <= hold.unknown_boundary@.len(),
            subjects_increasing(unknown@),
            forall|s: SubjectRef| #[trigger] unknown@.to_set().contains(s) <==> (hold.unknown_boundary@.take(u as int).contains(s) && candidate.subjects@.contains(s)),
        decreases hold.unknown_boundary@.len() - u,
    {
        let x = hold.unknown_boundary[u];
        let ghost before = unknown@.to_set();
        if holds_subject_ref(candidate.subjects.as_slice(), x) {
            insert_subject_ref(&mut unknown, x);
        }
        proof {
            let t = hold.unknown_boundary@;
            assert(t.take(u as int + 1) =~= t.take(u as int).push(x));
            assert forall|y: SubjectRef| #[trigger] t.take(u as int + 1).contains(y) <==> (t.take(u as int).contains(y) || y == x) by {
                if t.take(u as int + 1).contains(y) {
                    let m = choose|m: int| 0 <= m < u + 1 && #[trigger] t.take(u as int + 1)[m] == y;
                    if m < u as int {
                        assert(t.take(u as int)[m] == y);
                    }
                }
                if t.take(u as int).contains(y) {
                    let m = choose|m: int| 0 <= m < u && #[trigger] t.take(u as int)[m] == y;
                    assert(t.take(u as int + 1)[m] == y);
                }
                if y == x {
                    assert(t.take(u as int + 1)[u as int] == y);
                }
            }
        }
        u += 1;
    }
    assert(hold.unknown_boundary@.take(hold.unknown_boundary@.len() as int) =~= hold.unknown_boundary@);
    let ghost held = unknown@.to_set();
    insert_subjects(&mut unknown, candidate.unknown_boundary.as_slice());
    proof {
        assert forall|s: SubjectRef| #[trigger] unknown@.to_set().contains(s) <==> joint_unknown(*hold, *candidate).contains(s) by {
            if candidate.unknown_boundary@.contains(s) {
                assert(candidate.unknown_boundary@.to_set().contains(s));
            }
        }
        assert(unknown@.to_set() =~= joint_unknown(*hold, *candidate));
    }
    let independent = !hold.hold_all_starts && !work_hit && !subject_hit && unknown.len() == 0;
    Ok(IndependenceView { independent, unknown })
}

} // verus!
