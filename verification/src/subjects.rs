//! Subjects of knowledge and change, and sets of them held as strictly
//! increasing lists.
use vstd::prelude::*;

use crate::ids::{DecisionId, EvidenceId, FactId, ObligationId, OutcomeId, SourceId, SubjectKey, WorkId};

verus! {

/// A subject an affected scope can name.
#[derive(Clone, Copy, Debug, PartialEq, Eq, Structural)]
pub enum SubjectRef {
    Work(WorkId),
    Obligation(ObligationId),
    Source(SourceId),
    Outcome(OutcomeId),
    Evidence(EvidenceId),
    Decision(DecisionId),
    /// Any other subject, by the integer it is ordered and found by.
    Other(SubjectKey),
}

/// The order of subjects: by kind, then by identity.
pub open spec fn subject_key(s: SubjectRef) -> (u64, u64) {
    match s {
        SubjectRef::Work(w) => (0, w.0),
        SubjectRef::Obligation(o) => (1, o.0),
        SubjectRef::Source(x) => (2, x.0),
        SubjectRef::Outcome(x) => (3, x.0),
        SubjectRef::Evidence(x) => (4, x.0),
        SubjectRef::Decision(x) => (5, x.0),
        SubjectRef::Other(k) => (6, k.0),
    }
}

pub open spec fn key_lt(a: (u64, u64), b: (u64, u64)) -> bool {
    a.0 < b.0 || (a.0 == b.0 && a.1 < b.1)
}

/// Subjects strictly increasing in subject order: a set, in order.
pub open spec fn subjects_increasing(s: Seq<SubjectRef>) -> bool {
    forall|i: int, j: int| 0 <= i < j < s.len() ==> key_lt(subject_key(#[trigger] s[i]), subject_key(#[trigger] s[j]))
}

pub proof fn lemma_subject_key_injective(a: SubjectRef, b: SubjectRef)
    requires
        subject_key(a) == subject_key(b),
    ensures
        a == b,
{
}

fn key_of_subject(s: SubjectRef) -> (r: (u64, u64))
    ensures
        r == subject_key(s),
{
    match s {
        SubjectRef::Work(w) => (0, w.0),
        SubjectRef::Obligation(o) => (1, o.0),
        SubjectRef::Source(x) => (2, x.0),
        SubjectRef::Outcome(x) => (3, x.0),
        SubjectRef::Evidence(x) => (4, x.0),
        SubjectRef::Decision(x) => (5, x.0),
        SubjectRef::Other(k) => (6, k.0),
    }
}

/// Whether the list holds the subject.
pub fn holds_subject_ref(v: &[SubjectRef], x: SubjectRef) -> (r: bool)
    ensures
        r == v@.contains(x),
{
    let kx = key_of_subject(x);
    let mut k: usize = 0;
    while k < v.len()
        invariant
            k <= v.len(),
            kx == subject_key(x),
            forall|m: int| 0 <= m < k ==> v@[m] != x,
        decreases v.len() - k,
    {
        let kv = key_of_subject(v[k]);
        if kv.0 == kx.0 && kv.1 == kx.1 {
            proof {
                lemma_subject_key_injective(v@[k as int], x);
            }
            return true;
        }
        k += 1;
    }
    false
}

/// Adds a subject to a set held in order.
pub fn insert_subject_ref(v: &mut Vec<SubjectRef>, x: SubjectRef)
    requires
        subjects_increasing(old(v)@),
    ensures
        subjects_increasing(final(v)@),
        final(v)@.to_set() == old(v)@.to_set().insert(x),
{
    let kx = key_of_subject(x);
    let mut k: usize = 0;
    while k < v.len() && key_lt_exec(key_of_subject(v[k]), kx)
        invariant
            k <= v.len(),
            kx == subject_key(x),
            forall|m: int| 0 <= m < k ==> key_lt(subject_key(#[trigger] v@[m]), kx),
        decreases v.len() - k,
    {
        k += 1;
    }
    if k < v.len() {
        let kv = key_of_subject(v[k]);
        if kv.0 == kx.0 && kv.1 == kx.1 {
            proof {
                lemma_subject_key_injective(v@[k as int], x);
                assert(v@.to_set().contains(x));
                assert(v@.to_set() =~= v@.to_set().insert(x));
            }
            return;
        }
    }
    let ghost before = v@;
    v.insert(k, x);
    proof {
        assert forall|i: int, j: int| 0 <= i < j < v@.len() implies key_lt(subject_key(#[trigger] v@[i]), subject_key(#[trigger] v@[j])) by {
            if i < k as int && j == k as int {
            } else if i < k as int && j > k as int {
                assert(v@[j] == before[j - 1]);
            } else if i == k as int && j > k as int {
                assert(v@[j] == before[j - 1]);
                assert(!key_lt(subject_key(before[k as int]), kx));
                if subject_key(before[k as int]) == kx {
                    lemma_subject_key_injective(before[k as int], x);
                }
                if j - 1 > k as int {
                    assert(key_lt(subject_key(before[k as int]), subject_key(before[j - 1])));
                }
            } else if i > k as int {
                assert(v@[i] == before[i - 1]);
                assert(v@[j] == before[j - 1]);
            }
        }
        assert forall|y: SubjectRef| #[trigger] v@.to_set().contains(y) <==> before.to_set().insert(x).contains(y) by {
            if v@.contains(y) {
                let m = choose|m: int| 0 <= m < v@.len() && v@[m] == y;
                if m < k as int {
                    assert(before[m] == y);
                } else if m > k as int {
                    assert(before[m - 1] == y);
                }
            }
            if before.contains(y) {
                let m = choose|m: int| 0 <= m < before.len() && before[m] == y;
                if m < k as int {
                    assert(v@[m] == y);
                } else {
                    assert(v@[m + 1] == y);
                }
            }
            if y == x {
                assert(v@[k as int] == y);
            }
        }
        assert(v@.to_set() =~= before.to_set().insert(x));
    }
}

fn key_lt_exec(a: (u64, u64), b: (u64, u64)) -> (r: bool)
    ensures
        r == key_lt(a, b),
{
    a.0 < b.0 || (a.0 == b.0 && a.1 < b.1)
}

/// Adds every subject of `from` to the set held in `v`.
pub fn insert_subjects(v: &mut Vec<SubjectRef>, from: &[SubjectRef])
    requires
        subjects_increasing(old(v)@),
    ensures
        subjects_increasing(final(v)@),
        final(v)@.to_set() == old(v)@.to_set().union(from@.to_set()),
{
    let ghost start = v@.to_set();
    let mut k: usize = 0;
    while k < from.len()
        invariant
            k <= from.len(),
            subjects_increasing(v@),
            v@.to_set() == start.union(from@.take(k as int).to_set()),
        decreases from.len() - k,
    {
        insert_subject_ref(v, from[k]);
        proof {
            assert(from@.take(k as int + 1) =~= from@.take(k as int).push(from@[k as int]));
            from@.take(k as int).lemma_push_to_set_commute(from@[k as int]);
            assert(v@.to_set() =~= start.union(from@.take(k as int + 1).to_set()));
        }
        k += 1;
    }
    assert(from@.take(from@.len() as int) =~= from@);
}

/// An endpoint of a knowledge relation.
#[derive(Clone, Copy, Debug, PartialEq, Eq, Structural)]
pub enum KnowledgeEndpoint {
    Source(SourceId),
    Fact(FactId),
    Evidence(EvidenceId),
    Decision(DecisionId),
    Work(WorkId),
    Obligation(ObligationId),
    Outcome(OutcomeId),
}

/// The endpoint a subject names, where it names one.
pub open spec fn spec_endpoint_of(s: SubjectRef) -> Option<KnowledgeEndpoint> {
    match s {
        SubjectRef::Source(id) => Some(KnowledgeEndpoint::Source(id)),
        SubjectRef::Evidence(id) => Some(KnowledgeEndpoint::Evidence(id)),
        SubjectRef::Decision(id) => Some(KnowledgeEndpoint::Decision(id)),
        SubjectRef::Work(id) => Some(KnowledgeEndpoint::Work(id)),
        SubjectRef::Obligation(id) => Some(KnowledgeEndpoint::Obligation(id)),
        SubjectRef::Outcome(id) => Some(KnowledgeEndpoint::Outcome(id)),
        SubjectRef::Other(_) => None,
    }
}

/// The subject an endpoint names; a fact is no subject.
pub open spec fn spec_subject_of(e: KnowledgeEndpoint) -> Option<SubjectRef> {
    match e {
        KnowledgeEndpoint::Source(id) => Some(SubjectRef::Source(id)),
        KnowledgeEndpoint::Evidence(id) => Some(SubjectRef::Evidence(id)),
        KnowledgeEndpoint::Decision(id) => Some(SubjectRef::Decision(id)),
        KnowledgeEndpoint::Work(id) => Some(SubjectRef::Work(id)),
        KnowledgeEndpoint::Obligation(id) => Some(SubjectRef::Obligation(id)),
        KnowledgeEndpoint::Outcome(id) => Some(SubjectRef::Outcome(id)),
        KnowledgeEndpoint::Fact(_) => None,
    }
}

impl KnowledgeEndpoint {
    pub fn from_subject(subject: &SubjectRef) -> (r: Option<KnowledgeEndpoint>)
        ensures
            r == spec_endpoint_of(*subject),
    {
        match subject {
            SubjectRef::Source(id) => Some(KnowledgeEndpoint::Source(*id)),
            SubjectRef::Evidence(id) => Some(KnowledgeEndpoint::Evidence(*id)),
            SubjectRef::Decision(id) => Some(KnowledgeEndpoint::Decision(*id)),
            SubjectRef::Work(id) => Some(KnowledgeEndpoint::Work(*id)),
            SubjectRef::Obligation(id) => Some(KnowledgeEndpoint::Obligation(*id)),
            SubjectRef::Outcome(id) => Some(KnowledgeEndpoint::Outcome(*id)),
            SubjectRef::Other(_) => None,
        }
    }

    pub fn as_subject(&self) -> (r: Option<SubjectRef>)
        ensures
            r == spec_subject_of(*self),
    {
        match self {
            KnowledgeEndpoint::Source(id) => Some(SubjectRef::Source(*id)),
            KnowledgeEndpoint::Evidence(id) => Some(SubjectRef::Evidence(*id)),
            KnowledgeEndpoint::Decision(id) => Some(SubjectRef::Decision(*id)),
            KnowledgeEndpoint::Work(id) => Some(SubjectRef::Work(*id)),
            KnowledgeEndpoint::Obligation(id) => Some(SubjectRef::Obligation(*id)),
            KnowledgeEndpoint::Outcome(id) => Some(SubjectRef::Outcome(*id)),
            KnowledgeEndpoint::Fact(_) => None,
        }
    }
}

/// Converting between subjects and knowledge endpoints loses nothing: a
/// subject that names an endpoint is that endpoint's subject, and an
/// endpoint that names a subject is that subject's endpoint.
pub proof fn law_endpoints_and_subjects_round_trip(s: SubjectRef, e: KnowledgeEndpoint)
    ensures
        spec_endpoint_of(s) matches Some(x) ==> spec_subject_of(x) == Some(s),
        spec_subject_of(e) matches Some(x) ==> spec_endpoint_of(x) == Some(e),
{
}

} // verus!
