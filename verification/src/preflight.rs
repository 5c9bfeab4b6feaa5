//! The consistency rules of effect preflight: what each preflighted effect
//! must agree with, and the bases a bundle of effects starts and ends on.
use vstd::prelude::*;

use crate::error::{ErrorCode, ZapError};
use crate::ids::{DigestValue, WorkId};
use crate::holds::{increasing_works, insert_work};
use crate::subjects::{insert_subjects, subjects_increasing, SubjectRef};

verus! {

/// What a preflight expects of an effect that it replays: the subjects and
/// basis request it declared and the relevant basis before and after it.
pub struct ExpectedEffect {
    pub declared_subjects: Vec<SubjectRef>,
    pub basis_request: DigestValue,
    pub relevant_before: DigestValue,
    pub declared_relevant_after: DigestValue,
}

/// The affected-scope request an effect's cell makes.
pub struct AffectedScopeRequestFacts {
    pub direct_work_ids: Vec<WorkId>,
    pub roots: Vec<SubjectRef>,
}

/// What preflighting one effect observed: the scope its cell declares, the
/// relevant basis before simulating it on the state so far, its
/// affected-scope request, whether the simulation applied, and the relevant
/// basis on the state with its changes laid over.
pub struct EffectObservation {
    pub scope_subjects: Vec<SubjectRef>,
    pub scope_work_ids: Vec<WorkId>,
    pub scope_basis_request: DigestValue,
    pub relevant_before: DigestValue,
    pub affected_request: Option<AffectedScopeRequestFacts>,
    pub simulated: bool,
    pub relevant_after: DigestValue,
}

/// An observed effect agrees with what was expected of it, its affected-scope
/// request names exactly its scope, and its simulation applied.
pub open spec fn effect_consistent(expected: Option<ExpectedEffect>, observed: EffectObservation) -> bool {
    &&& (expected matches Some(e) ==> {
        &&& observed.scope_subjects@ == e.declared_subjects@
        &&& observed.scope_basis_request == e.basis_request
        &&& observed.relevant_before == e.relevant_before
        &&& observed.relevant_after == e.declared_relevant_after
    })
    &&& (observed.affected_request matches Some(a) ==> {
        &&& a.direct_work_ids@ == observed.scope_work_ids@
        &&& a.roots@ == observed.scope_subjects@
    })
    &&& observed.simulated
}

fn same_subjects(a: &Vec<SubjectRef>, b: &Vec<SubjectRef>) -> (r: bool)
    ensures
        r == (a@ == b@),
{
    if a.len() != b.len() {
        return false;
    }
    let mut i: usize = 0;
    while i < a.len()
        invariant
            i <= a@.len(),
            a@.len() == b@.len(),
            forall|k: int| 0 <= k < i ==> a@[k] == b@[k],
        decreases a@.len() - i,
    {
        if a[i] != b[i] {
            return false;
        }
        i += 1;
    }
    assert(a@ =~= b@);
    true
}

fn same_work_ids(a: &Vec<WorkId>, b: &Vec<WorkId>) -> (r: bool)
    ensures
        r == (a@ == b@),
{
    if a.len() != b.len() {
        return false;
    }
    let mut i: usize = 0;
    while i < a.len()
        invariant
            i <= a@.len(),
            a@.len() == b@.len(),
            forall|k: int| 0 <= k < i ==> a@[k] == b@[k],
        decreases a@.len() - i,
    {
        if a[i].0 != b[i].0 {
            return false;
        }
        i += 1;
    }
    assert(a@ =~= b@);
    true
}

/// Refuses an effect whose preflight observation disagrees with what was
/// expected of it or with its own scope, or whose simulation did not apply.
pub fn check_effect_observation(expected: Option<&ExpectedEffect>, observed: &EffectObservation) -> (r: Result<(), ZapError>)
    ensures
        r is Ok <==> effect_consistent(
            match expected {
                Some(e) => Some(*e),
                None => None,
            },
            *observed,
        ),
        r matches Err(e) ==> e.code == ErrorCode::Conflict,
{
    match expected {
        Some(e) => {
            if !same_subjects(&observed.scope_subjects, &e.declared_subjects) || observed.scope_basis_request.0 != e.basis_request.0
                || observed.relevant_before.0 != e.relevant_before.0
                || observed.relevant_after.0 != e.declared_relevant_after.0
            {
                return Err(ZapError::new(ErrorCode::Conflict));
            }
        },
        None => {},
    }
    match &observed.affected_request {
        Some(a) => {
            if !same_work_ids(&a.direct_work_ids, &observed.scope_work_ids) || !same_subjects(&a.roots, &observed.scope_subjects) {
                return Err(ZapError::new(ErrorCode::Conflict));
            }
        },
        None => {},
    }
    if !observed.simulated {
        return Err(ZapError::new(ErrorCode::Conflict));
    }
    Ok(())
}

/// The relevant basis before and after one preflighted effect.
#[derive(Clone, Copy, Debug, PartialEq, Eq, Structural)]
pub struct EffectBases {
    pub relevant_before: DigestValue,
    pub relevant_after: DigestValue,
}

/// The basis a bundle ends on: the basis after its last effect, or the
/// basis it starts on when it has none.
pub open spec fn final_basis(initial: DigestValue, effects: Seq<EffectBases>) -> DigestValue {
    if effects.len() == 0 {
        initial
    } else {
        effects.last().relevant_after
    }
}

/// The initial and final basis of a replayed bundle: it must have an effect,
/// and the first must start on the bundle's initial basis.
pub fn replayed_bundle_bases(initial: DigestValue, effects: &[EffectBases]) -> (r: Result<(DigestValue, DigestValue), ZapError>)
    ensures
        effects@.len() > 0 && effects@[0].relevant_before == initial ==> r == Ok::<(DigestValue, DigestValue), ZapError>(
            (initial, final_basis(initial, effects@)),
        ),
        !(effects@.len() > 0 && effects@[0].relevant_before == initial) ==> (r matches Err(e) && e.code == ErrorCode::Conflict),
{
    if effects.len() == 0 || effects[0].relevant_before.0 != initial.0 {
        return Err(ZapError::new(ErrorCode::Conflict));
    }
    Ok((initial, effects[effects.len() - 1].relevant_after))
}

/// The initial and final basis of a freshly prepared bundle: it starts on
/// the basis before its first effect, and must have one.
pub fn prepared_bundle_bases(effects: &[EffectBases]) -> (r: Result<(DigestValue, DigestValue), ZapError>)
    ensures
        effects@.len() == 0 ==> (r matches Err(e) && e.code == ErrorCode::Conflict),
        effects@.len() > 0 ==> r == Ok::<(DigestValue, DigestValue), ZapError>(
            (effects@[0].relevant_before, final_basis(effects@[0].relevant_before, effects@)),
        ),
{
    if effects.len() == 0 {
        return Err(ZapError::new(ErrorCode::Conflict));
    }
    Ok((effects[0].relevant_before, effects[effects.len() - 1].relevant_after))
}

/// The basis of a replayed bundle with no effects: the basis observed for
/// its no-op request must be the one it declared.
pub fn no_op_bundle_basis(initial: DigestValue, observed: DigestValue) -> (r: Result<DigestValue, ZapError>)
    ensures
        observed == initial ==> r == Ok::<DigestValue, ZapError>(initial),
        observed != initial ==> (r matches Err(e) && e.code == ErrorCode::Conflict),
{
    if observed.0 != initial.0 {
        return Err(ZapError::new(ErrorCode::Conflict));
    }
    Ok(initial)
}

/// What one effect of a prepared alternative declares: the roots of its
/// basis request and the subjects it touches.
pub struct PreparedEffectScope {
    pub basis_roots: Vec<SubjectRef>,
    pub declared_subjects: Vec<SubjectRef>,
}

/// Every basis root of the effects.
pub open spec fn effects_roots(es: Seq<PreparedEffectScope>) -> Set<SubjectRef>
    decreases es.len(),
{
    if es.len() == 0 {
        Set::empty()
    } else {
        effects_roots(es.drop_last()).union(es.last().basis_roots@.to_set())
    }
}

/// Every basis root of every alternative's effects.
pub open spec fn alternatives_roots(alts: Seq<Vec<PreparedEffectScope>>) -> Set<SubjectRef>
    decreases alts.len(),
{
    if alts.len() == 0 {
        Set::empty()
    } else {
        alternatives_roots(alts.drop_last()).union(effects_roots(alts.last()@))
    }
}

/// Every subject the effects declare.
pub open spec fn effects_declared(es: Seq<PreparedEffectScope>) -> Set<SubjectRef>
    decreases es.len(),
{
    if es.len() == 0 {
        Set::empty()
    } else {
        effects_declared(es.drop_last()).union(es.last().declared_subjects@.to_set())
    }
}

/// The basis roots a comparison of alternatives is assessed on: every root
/// of every effect of every alternative, once each, in order.
pub fn comparison_basis_roots(alternatives: &[Vec<PreparedEffectScope>]) -> (r: Vec<SubjectRef>)
    ensures
        subjects_increasing(r@),
        r@.to_set() == alternatives_roots(alternatives@),
{
    let mut out: Vec<SubjectRef> = Vec::new();
    let mut i: usize = 0;
    assert(out@.to_set() =~= Set::<SubjectRef>::empty());
    while i < alternatives.len()
        invariant
            i <= alternatives@.len(),
            subjects_increasing(out@),
            out@.to_set() == alternatives_roots(alternatives@.take(i as int)),
        decreases alternatives@.len() - i,
    {
        let effects = &alternatives[i];
        let ghost before = out@.to_set();
        let mut j: usize = 0;
        assert(effects@.take(0) =~= Seq::<PreparedEffectScope>::empty());
        assert(before.union(Set::<SubjectRef>::empty()) =~= before);
        while j < effects.len()
            invariant
                j <= effects@.len(),
                effects == &alternatives@[i as int],
                subjects_increasing(out@),
                out@.to_set() == before.union(effects_roots(effects@.take(j as int))),
            decreases effects@.len() - j,
        {
            insert_subjects(&mut out, effects[j].basis_roots.as_slice());
            proof {
                assert(effects@.take(j as int + 1).drop_last() =~= effects@.take(j as int));
                assert(out@.to_set() =~= before.union(effects_roots(effects@.take(j as int + 1))));
            }
            j += 1;
        }
        proof {
            assert(effects@.take(j as int) =~= effects@);
            assert(alternatives@.take(i as int + 1).drop_last() =~= alternatives@.take(i as int));
            assert(out@.to_set() =~= alternatives_roots(alternatives@.take(i as int + 1)));
        }
        i += 1;
    }
    assert(alternatives@.take(i as int) =~= alternatives@);
    out
}

/// The affected-scope request of one alternative: every subject its effects
/// declare, and every work among them, once each, in order.
pub fn alternative_scope_request(effects: &[PreparedEffectScope]) -> (r: (Vec<SubjectRef>, Vec<WorkId>))
    ensures
        subjects_increasing(r.0@),
        r.0@.to_set() == effects_declared(effects@),
        increasing_works(r.1@),
        forall|w: WorkId| #[trigger] r.1@.contains(w) <==> effects_declared(effects@).contains(SubjectRef::Work(w)),
{
    let mut roots: Vec<SubjectRef> = Vec::new();
    let mut works: Vec<WorkId> = Vec::new();
    let mut j: usize = 0;
    assert(roots@.to_set() =~= Set::<SubjectRef>::empty());
    while j < effects.len()
        invariant
            j <= effects@.len(),
            subjects_increasing(roots@),
            roots@.to_set() == effects_declared(effects@.take(j as int)),
            increasing_works(works@),
            forall|w: WorkId| #[trigger] works@.contains(w) <==> effects_declared(effects@.take(j as int)).contains(SubjectRef::Work(w)),
        decreases effects@.len() - j,
    {
        let declared = &effects[j].declared_subjects;
        insert_subjects(&mut roots, declared.as_slice());
        let ghost prior = effects_declared(effects@.take(j as int));
        let mut k: usize = 0;
        while k < declared.len()
            invariant
                k <= declared@.len(),
                declared == &effects@[j as int].declared_subjects,
                increasing_works(works@),
                forall|w: WorkId| #[trigger] works@.contains(w) <==> (prior.contains(SubjectRef::Work(w))
                    || declared@.take(k as int).contains(SubjectRef::Work(w))),
            decreases declared@.len() - k,
        {
            let ghost old_works = works@;
            match declared[k] {
                SubjectRef::Work(w) => insert_work(&mut works, w),
                _ => {},
            }
            assert(forall|w: WorkId| #[trigger] works@.contains(w) <==> (old_works.contains(w) || declared@[k as int] == SubjectRef::Work(w)));
            proof {
                assert(declared@.take(k as int + 1) =~= declared@.take(k as int).push(declared@[k as int]));
                assert forall|w: WorkId| #[trigger] works@.contains(w) <==> (prior.contains(SubjectRef::Work(w))
                    || declared@.take(k as int + 1).contains(SubjectRef::Work(w))) by {
                    let x = SubjectRef::Work(w);
                    assert(old_works.contains(w) <==> (prior.contains(x) || declared@.take(k as int).contains(x)));
                    let t = declared@.take(k as int);
                    assert(declared@.take(k as int + 1) == t.push(declared@[k as int]));
                    if t.push(declared@[k as int]).contains(x) && !t.contains(x) {
                        let m = choose|m: int| 0 <= m < t.len() + 1 && #[trigger] t.push(declared@[k as int])[m] == x;
                        if m < t.len() {
                            assert(t[m] == x);
                        }
                    }
                    if t.contains(x) {
                        let m = choose|m: int| 0 <= m < t.len() && #[trigger] t[m] == x;
                        assert(t.push(declared@[k as int])[m] == x);
                    }
                    if declared@[k as int] == x {
                        assert(t.push(declared@[k as int])[t.len() as int] == x);
                    }
                }
            }
            k += 1;
        }
        proof {
            assert(declared@.take(k as int) =~= declared@);
            assert(effects@.take(j as int + 1).drop_last() =~= effects@.take(j as int));
            assert(roots@.to_set() =~= effects_declared(effects@.take(j as int + 1)));
            assert forall|w: WorkId| #[trigger] works@.contains(w) <==> effects_declared(effects@.take(j as int + 1)).contains(SubjectRef::Work(w)) by {
                assert(declared@.contains(SubjectRef::Work(w)) <==> declared@.to_set().contains(SubjectRef::Work(w)));
            }
        }
        j += 1;
    }
    assert(effects@.take(j as int) =~= effects@);
    (roots, works)
}

} // verus!
