//! The economics authoring context: the active change policy and the
//! baselines that may anchor a new assessment under it.
use vstd::prelude::*;

use crate::error::{ErrorCode, ErrorDetail, ZapError};
use crate::ids::{ChangeBaselineId, OutcomeId, Revision};

verus! {

/// The bounds of an economics context query.
#[derive(Clone, Copy, Debug, PartialEq, Eq, Structural)]
pub struct EconomicsContextInput {
    pub maximum_records: u32,
    pub maximum_candidates: u32,
}

/// A query may list at least one and at most `maximum_records` candidates, and
/// scan no more records than a page of the store's profile holds.
pub open spec fn context_bounds_valid(input: EconomicsContextInput, maximum_page_size: u32) -> bool {
    input.maximum_candidates > 0 && input.maximum_candidates <= input.maximum_records && input.maximum_records <= maximum_page_size
}

impl EconomicsContextInput {
    /// Refuses bounds outside the query profile.
    pub fn check_bounds(&self, maximum_page_size: u32) -> (r: Result<(), ZapError>)
        ensures
            r is Ok <==> context_bounds_valid(*self, maximum_page_size),
            r matches Err(e) ==> e.code == ErrorCode::LimitExceeded,
    {
        if self.maximum_candidates == 0 || self.maximum_candidates > self.maximum_records || self.maximum_records > maximum_page_size {
            return Err(ZapError::new(ErrorCode::LimitExceeded));
        }
        Ok(())
    }
}

/// Which policy the context reports: the built-in default when none is
/// active, or the one active policy.
#[derive(Clone, Copy, Debug, PartialEq, Eq, Structural)]
pub enum PolicyChoice {
    Default,
    Persisted { index: usize },
}

/// Chooses the active policy among the scanned ones; two active policies are
/// a conflict. `active[i]` says whether the i-th scanned policy is active.
pub fn choose_policy(active: &[bool]) -> (r: Result<PolicyChoice, ZapError>)
    ensures
        (forall|k: int| 0 <= k < active@.len() ==> !#[trigger] active@[k]) ==> r == Ok::<PolicyChoice, ZapError>(PolicyChoice::Default),
        (exists|i: int, j: int| 0 <= i < j < active@.len() && #[trigger] active@[i] && #[trigger] active@[j])
            ==> r == Err::<PolicyChoice, ZapError>(ZapError { code: ErrorCode::Conflict, detail: ErrorDetail::Empty }),
        r matches Ok(PolicyChoice::Persisted { index }) ==> index < active@.len() && active@[index as int]
            && forall|k: int| 0 <= k < active@.len() && k != index ==> !#[trigger] active@[k],
        r is Err ==> r == Err::<PolicyChoice, ZapError>(ZapError { code: ErrorCode::Conflict, detail: ErrorDetail::Empty }),
        forall|i: int| 0 <= i < active@.len() && #[trigger] active@[i] && (forall|k: int| 0 <= k < active@.len() && k != i ==> !active@[k])
            ==> r == Ok::<PolicyChoice, ZapError>(PolicyChoice::Persisted { index: i as usize }),
{
    let mut found: Option<usize> = None;
    let mut k: usize = 0;
    while k < active.len()
        invariant
            k <= active.len(),
            found is None ==> forall|m: int| 0 <= m < k ==> !#[trigger] active@[m],
            found matches Some(i) ==> i < k && active@[i as int] && forall|m: int| 0 <= m < k && m != i ==> !#[trigger] active@[m],
        decreases active.len() - k,
    {
        if active[k] {
            match found {
                Some(i) => {
                    proof {
                        assert(active@[i as int] && active@[k as int]);
                        assert forall|x: int| 0 <= x < active@.len() && #[trigger] active@[x] && (forall|m: int| 0 <= m < active@.len() && m != x ==> !active@[m])
                            implies false by {
                            if x != i as int {
                                assert(!active@[i as int]);
                            } else {
                                assert(!active@[k as int]);
                            }
                        }
                        if (exists|x: int, y: int| 0 <= x < y < active@.len() && #[trigger] active@[x] && #[trigger] active@[y]) {
                        }
                    }
                    return Err(ZapError::new(ErrorCode::Conflict));
                },
                None => {
                    found = Some(k);
                },
            }
        }
        k += 1;
    }
    match found {
        None => Ok(PolicyChoice::Default),
        Some(i) => {
            proof {
                if exists|x: int, y: int| 0 <= x < y < active@.len() && #[trigger] active@[x] && #[trigger] active@[y] {
                    let (x, y) = choose|x: int, y: int| 0 <= x < y < active@.len() && #[trigger] active@[x] && #[trigger] active@[y];
                    assert(x == i || !active@[x]);
                }
            }
            Ok(PolicyChoice::Persisted { index: i })
        },
    }
}

/// A baseline as the context reads it, with whether its outcome is active.
#[derive(Clone, Copy, Debug, PartialEq, Eq, Structural)]
pub struct BaselineFacts {
    pub baseline_id: ChangeBaselineId,
    pub revision: Revision,
    pub active_outcome_id: OutcomeId,
    pub change_policy_revision: Revision,
    pub outcome_active: bool,
}

/// A baseline that may anchor an assessment under the active policy.
#[derive(Clone, Copy, Debug, PartialEq, Eq, Structural)]
pub struct EconomicsBaselineCandidate {
    pub baseline_id: ChangeBaselineId,
    pub record_revision: Revision,
    pub active_outcome_id: OutcomeId,
    pub change_policy_revision: Revision,
}

/// Whether the context names one baseline.
#[derive(Clone, Copy, Debug, PartialEq, Eq, Structural)]
pub enum EconomicsBaselineSelection {
    Absent,
    Unique { baseline_id: ChangeBaselineId },
    Ambiguous { truncated: bool },
}

/// The candidate a qualifying baseline yields.
pub open spec fn candidate_of(b: BaselineFacts) -> EconomicsBaselineCandidate {
    EconomicsBaselineCandidate {
        baseline_id: b.baseline_id,
        record_revision: b.revision,
        active_outcome_id: b.active_outcome_id,
        change_policy_revision: b.change_policy_revision,
    }
}

/// A baseline qualifies when its outcome is active and it was made under the
/// active policy's revision.
pub open spec fn qualifies(b: BaselineFacts, policy_revision: Revision) -> bool {
    b.outcome_active && b.change_policy_revision == policy_revision
}

/// The candidates of the qualifying baselines, in scan order.
pub open spec fn qualifying(bs: Seq<BaselineFacts>, policy_revision: Revision) -> Seq<EconomicsBaselineCandidate>
    decreases bs.len(),
{
    if bs.len() == 0 {
        Seq::empty()
    } else {
        let rest = qualifying(bs.drop_last(), policy_revision);
        if qualifies(bs.last(), policy_revision) { rest.push(candidate_of(bs.last())) } else { rest }
    }
}

pub open spec fn by_baseline(s: Seq<EconomicsBaselineCandidate>) -> bool {
    forall|i: int, j: int| 0 <= i < j < s.len() ==> (#[trigger] s[i]).baseline_id.0 <= (#[trigger] s[j]).baseline_id.0
}

/// The selection over `count` candidates: none and none unseen is absent,
/// exactly one and none unseen is unique, anything else is ambiguous, and
/// truncated when the scan or the listing was cut.
pub open spec fn selection_for(sorted: Seq<EconomicsBaselineCandidate>, scan_truncated: bool, maximum_candidates: u32) -> EconomicsBaselineSelection {
    if sorted.len() == 0 && !scan_truncated {
        EconomicsBaselineSelection::Absent
    } else if sorted.len() == 1 && !scan_truncated {
        EconomicsBaselineSelection::Unique { baseline_id: sorted[0].baseline_id }
    } else {
        EconomicsBaselineSelection::Ambiguous { truncated: scan_truncated || sorted.len() > maximum_candidates }
    }
}

fn insert_candidate(v: &mut Vec<EconomicsBaselineCandidate>, c: EconomicsBaselineCandidate)
    requires
        by_baseline(old(v)@),
    ensures
        by_baseline(final(v)@),
        final(v)@.to_multiset() == old(v)@.to_multiset().insert(c),
{
    let mut k: usize = 0;
    while k < v.len() && v[k].baseline_id.0 <= c.baseline_id.0
        invariant
            k <= v.len(),
            forall|m: int| 0 <= m < k ==> v@[m].baseline_id.0 <= c.baseline_id.0,
        decreases v.len() - k,
    {
        k += 1;
    }
    let ghost before = v@;
    v.insert(k, c);
    proof {
        vstd::seq_lib::to_multiset_insert(before, k as int, c);
        assert forall|i: int, j: int| 0 <= i < j < v@.len() implies (#[trigger] v@[i]).baseline_id.0 <= (#[trigger] v@[j]).baseline_id.0 by {
            if i < k as int && j == k as int {
            } else if i < k as int && j > k as int {
                assert(v@[j] == before[j - 1]);
            } else if i == k as int && j > k as int {
                assert(v@[j] == before[j - 1]);
                assert(before[k as int].baseline_id.0 > c.baseline_id.0);
                if j - 1 > k as int {
                    assert(before[k as int].baseline_id.0 <= before[j - 1].baseline_id.0);
                }
            } else if i > k as int {
                assert(v@[i] == before[i - 1]);
                assert(v@[j] == before[j - 1]);
            }
        }
    }
}

/// The baseline candidates under the active policy revision, ordered by
/// baseline and listed up to `maximum_candidates`, with the selection.
pub fn baseline_candidates(baselines: &[BaselineFacts], policy_revision: Revision, scan_truncated: bool, maximum_candidates: u32) -> (r: (Vec<EconomicsBaselineCandidate>, EconomicsBaselineSelection))
    ensures
        exists|sorted: Seq<EconomicsBaselineCandidate>| #[trigger] by_baseline(sorted)
            && sorted.to_multiset() == qualifying(baselines@, policy_revision).to_multiset()
            && r.1 == selection_for(sorted, scan_truncated, maximum_candidates)
            && r.0@ == (if sorted.len() > maximum_candidates { sorted.take(maximum_candidates as int) } else { sorted }),
{
    let mut sorted: Vec<EconomicsBaselineCandidate> = Vec::new();
    let mut k: usize = 0;
    proof {
        assert(baselines@.take(0) =~= Seq::<BaselineFacts>::empty());
        assert(sorted@.to_multiset() =~= qualifying(baselines@.take(0), policy_revision).to_multiset()) by {
            assert(sorted@ =~= Seq::<EconomicsBaselineCandidate>::empty());
        }
    }
    while k < baselines.len()
        invariant
            k <= baselines.len(),
            by_baseline(sorted@),
            sorted@.to_multiset() == qualifying(baselines@.take(k as int), policy_revision).to_multiset(),
        decreases baselines.len() - k,
    {
        let b = baselines[k];
        proof {
            assert(baselines@.take(k as int + 1).drop_last() =~= baselines@.take(k as int));
        }
        if b.outcome_active && b.change_policy_revision.0 == policy_revision.0 {
            let c = EconomicsBaselineCandidate {
                baseline_id: b.baseline_id,
                record_revision: b.revision,
                active_outcome_id: b.active_outcome_id,
                change_policy_revision: b.change_policy_revision,
            };
            insert_candidate(&mut sorted, c);
            proof {
                vstd::seq_lib::to_multiset_build(qualifying(baselines@.take(k as int), policy_revision), c);
            }
        }
        k += 1;
    }
    proof {
        assert(baselines@.take(baselines@.len() as int) =~= baselines@);
    }
    let ghost full = sorted@;
    let count = sorted.len();
    let selection = if count == 0 && !scan_truncated {
        EconomicsBaselineSelection::Absent
    } else if count == 1 && !scan_truncated {
        EconomicsBaselineSelection::Unique { baseline_id: sorted[0].baseline_id }
    } else {
        EconomicsBaselineSelection::Ambiguous { truncated: scan_truncated || count > maximum_candidates as usize }
    };
    if count > maximum_candidates as usize {
        sorted.truncate(maximum_candidates as usize);
    }
    proof {
        assert(by_baseline(full));
    }
    (sorted, selection)
}

} // verus!
