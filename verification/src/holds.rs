//! The change hold guard: an Owner stop takes precedence over any change
//! whose affected scope it touches, and a hold whose closure is not proven
//! independent keeps a change from starting until it is.
use vstd::prelude::*;

use crate::error::{ErrorCode, ErrorDetail, ZapError};
use crate::ids::{HoldId, SubjectKey, WorkId};

verus! {

/// The verdict of the guard.
#[derive(Clone, Copy, Debug, PartialEq, Eq, Structural)]
pub enum HoldGuardStatus {
    Clear,
    Held,
    Unproven,
}

/// The guard's verdict with the holds, work and subjects it matched; each
/// list strictly increases.
pub struct ChangeHoldGuard {
    pub status: HoldGuardStatus,
    pub hold_ids: Vec<HoldId>,
    pub matched_work_ids: Vec<WorkId>,
    pub matched_subjects: Vec<SubjectKey>,
}

impl ChangeHoldGuard {
    /// A change may start only when the guard is clear.
    pub fn blocked(&self) -> (r: bool)
        ensures
            r == (self.status != HoldGuardStatus::Clear),
    {
        !matches!(self.status, HoldGuardStatus::Clear)
    }
}

/// A non-released hold, as the guard reads it. `independence_proven` says
/// whether the candidate's preflight proved the change independent of it.
pub struct HoldRecord {
    pub hold_id: HoldId,
    pub affected_work_ids: Vec<WorkId>,
    pub dependent_work_ids: Vec<WorkId>,
    pub subject_ids: Vec<SubjectKey>,
    pub closure_complete: bool,
    pub hold_all_starts: bool,
    pub independence_proven: bool,
}

/// The transaction-derived affected scope of a candidate change.
pub struct CandidateScope {
    pub affected_work_ids: Vec<WorkId>,
    pub dependent_work_ids: Vec<WorkId>,
    pub subjects: Vec<SubjectKey>,
}

pub open spec fn increasing_holds(s: Seq<HoldId>) -> bool {
    forall|i: int, j: int| 0 <= i < j < s.len() ==> (#[trigger] s[i]).0 < (#[trigger] s[j]).0
}

pub open spec fn increasing_works(s: Seq<WorkId>) -> bool {
    forall|i: int, j: int| 0 <= i < j < s.len() ==> (#[trigger] s[i]).0 < (#[trigger] s[j]).0
}

pub open spec fn increasing_subjects(s: Seq<SubjectKey>) -> bool {
    forall|i: int, j: int| 0 <= i < j < s.len() ==> (#[trigger] s[i]).0 < (#[trigger] s[j]).0
}

/// Work the candidate affects or that depends on it.
pub open spec fn candidate_work(c: CandidateScope, w: WorkId) -> bool {
    c.affected_work_ids@.contains(w) || c.dependent_work_ids@.contains(w)
}

/// Work a hold names, affected or dependent.
pub open spec fn hold_work(h: HoldRecord, w: WorkId) -> bool {
    h.affected_work_ids@.contains(w) || h.dependent_work_ids@.contains(w)
}

/// A hold matches a candidate when it holds all starts, or shares work or a
/// subject with the candidate's scope.
pub open spec fn hold_matches(h: HoldRecord, c: CandidateScope) -> bool {
    ||| h.hold_all_starts
    ||| exists|w: WorkId| hold_work(h, w) && #[trigger] candidate_work(c, w)
    ||| exists|s: SubjectKey| h.subject_ids@.contains(s) && #[trigger] c.subjects@.contains(s)
}

/// A hold is unproven when its closure is incomplete and no independence from
/// the candidate was proven.
pub open spec fn hold_unproven(h: HoldRecord) -> bool {
    !h.closure_complete && !h.independence_proven
}

pub open spec fn considered(h: HoldRecord, excluded: Option<HoldId>) -> bool {
    excluded != Some(h.hold_id)
}

pub open spec fn held_by(h: HoldRecord, c: CandidateScope, excluded: Option<HoldId>) -> bool {
    considered(h, excluded) && hold_matches(h, c)
}

pub open spec fn relevant(h: HoldRecord, c: CandidateScope, excluded: Option<HoldId>) -> bool {
    considered(h, excluded) && (hold_matches(h, c) || hold_unproven(h))
}

/// Some of the first `n` holds matches.
pub open spec fn any_held(hs: Seq<HoldRecord>, c: CandidateScope, excluded: Option<HoldId>, n: int) -> bool {
    exists|k: int| 0 <= k < n && held_by(#[trigger] hs[k], c, excluded)
}

/// Some of the first `n` holds matches or is unproven.
pub open spec fn any_relevant(hs: Seq<HoldRecord>, c: CandidateScope, excluded: Option<HoldId>, n: int) -> bool {
    exists|k: int| 0 <= k < n && relevant(#[trigger] hs[k], c, excluded)
}

/// The verdict over the first `n` holds: held if any matches, else unproven
/// if any is unproven, else clear.
pub open spec fn verdict(hs: Seq<HoldRecord>, c: CandidateScope, excluded: Option<HoldId>, n: int) -> HoldGuardStatus {
    if any_held(hs, c, excluded, n) {
        HoldGuardStatus::Held
    } else if any_relevant(hs, c, excluded, n) {
        HoldGuardStatus::Unproven
    } else {
        HoldGuardStatus::Clear
    }
}

/// Hold `k` is the first relevant hold, and it is unproven without matching.
pub open spec fn leads_unproven(hs: Seq<HoldRecord>, c: CandidateScope, excluded: Option<HoldId>, k: int) -> bool {
    &&& relevant(hs[k], c, excluded)
    &&& !hold_matches(hs[k], c)
    &&& forall|m: int| 0 <= m < k ==> !relevant(#[trigger] hs[m], c, excluded)
}

/// The guard reports every matching hold, and the first relevant hold when it
/// is unproven without matching.
pub open spec fn reported_hold(hs: Seq<HoldRecord>, c: CandidateScope, excluded: Option<HoldId>, n: int, id: HoldId) -> bool {
    exists|k: int| 0 <= k < n && (#[trigger] hs[k]).hold_id == id && (held_by(hs[k], c, excluded) || leads_unproven(hs, c, excluded, k))
}

/// The guard reports the candidate's work that a considered hold names.
pub open spec fn reported_work(hs: Seq<HoldRecord>, c: CandidateScope, excluded: Option<HoldId>, n: int, w: WorkId) -> bool {
    candidate_work(c, w) && exists|k: int| 0 <= k < n && considered(#[trigger] hs[k], excluded) && hold_work(hs[k], w)
}

/// The guard reports the candidate's subjects that a considered hold names.
pub open spec fn reported_subject(hs: Seq<HoldRecord>, c: CandidateScope, excluded: Option<HoldId>, n: int, s: SubjectKey) -> bool {
    c.subjects@.contains(s) && exists|k: int| 0 <= k < n && considered(#[trigger] hs[k], excluded) && hs[k].subject_ids@.contains(s)
}

pub(crate) fn holds_work(v: &[WorkId], w: WorkId) -> (r: bool)
    ensures
        r == v@.contains(w),
{
    let mut k: usize = 0;
    while k < v.len()
        invariant
            k <= v.len(),
            forall|m: int| 0 <= m < k ==> v@[m] != w,
        decreases v.len() - k,
    {
        if v[k].0 == w.0 {
            assert(v@[k as int] == w);
            return true;
        }
        k += 1;
    }
    false
}

fn holds_subject(v: &[SubjectKey], s: SubjectKey) -> (r: bool)
    ensures
        r == v@.contains(s),
{
    let mut k: usize = 0;
    while k < v.len()
        invariant
            k <= v.len(),
            forall|m: int| 0 <= m < k ==> v@[m] != s,
        decreases v.len() - k,
    {
        if v[k].0 == s.0 {
            assert(v@[k as int] == s);
            return true;
        }
        k += 1;
    }
    false
}

fn insert_hold(v: &mut Vec<HoldId>, x: HoldId)
    requires
        increasing_holds(old(v)@),
    ensures
        increasing_holds(final(v)@),
        forall|y: HoldId| #[trigger] final(v)@.contains(y) <==> (old(v)@.contains(y) || y == x),
{
    let mut k: usize = 0;
    while k < v.len() && v[k].0 < x.0
        invariant
            k <= v.len(),
            forall|m: int| 0 <= m < k ==> v@[m].0 < x.0,
        decreases v.len() - k,
    {
        k += 1;
    }
    if k < v.len() && v[k].0 == x.0 {
        assert(v@[k as int] == x);
        return;
    }
    let ghost before = v@;
    v.insert(k, x);
    proof {
        assert forall|i: int, j: int| 0 <= i < j < v@.len() implies (#[trigger] v@[i]).0 < (#[trigger] v@[j]).0 by {
            if i < k as int && j == k as int {
            } else if i < k as int && j > k as int {
                assert(v@[j] == before[j - 1]);
            } else if i == k as int && j > k as int {
                assert(v@[j] == before[j - 1]);
                assert(before[k as int].0 >= x.0);
                if j - 1 > k as int {
                    assert(before[k as int].0 < before[j - 1].0);
                }
            } else if i > k as int {
                assert(v@[i] == before[i - 1]);
                assert(v@[j] == before[j - 1]);
            }
        }
        assert forall|y: HoldId| #[trigger] v@.contains(y) <==> (before.contains(y) || y == x) by {
            if v@.contains(y) {
                let m = choose|m: int| 0 <= m < v@.len() && v@[m] == y;
                if m < k as int {
                    assert(before[m] == y);
                } else if m > k as int {
                    assert(before[m - 1] == y);
                }
            }
            if before.contains(y) {
                let m = choose|m: int| 0 <= m < before.len() && before[m] == y;
                if m < k as int {
                    assert(v@[m] == y);
                } else {
                    assert(v@[m + 1] == y);
                }
            }
            if y == x {
                assert(v@[k as int] == y);
            }
        }
    }
}

pub(crate) fn insert_work(v: &mut Vec<WorkId>, x: WorkId)
    requires
        increasing_works(old(v)@),
    ensures
        increasing_works(final(v)@),
        forall|y: WorkId| #[trigger] final(v)@.contains(y) <==> (old(v)@.contains(y) || y == x),
{
    let mut k: usize = 0;
    while k < v.len() && v[k].0 < x.0
        invariant
            k <= v.len(),
            forall|m: int| 0 <= m < k ==> v@[m].0 < x.0,
        decreases v.len() - k,
    {
        k += 1;
    }
    if k < v.len() && v[k].0 == x.0 {
        assert(v@[k as int] == x);
        return;
    }
    let ghost before = v@;
    v.insert(k, x);
    proof {
        assert forall|i: int, j: int| 0 <= i < j < v@.len() implies (#[trigger] v@[i]).0 < (#[trigger] v@[j]).0 by {
            if i < k as int && j == k as int {
            } else if i < k as int && j > k as int {
                assert(v@[j] == before[j - 1]);
            } else if i == k as int && j > k as int {
                assert(v@[j] == before[j - 1]);
                assert(before[k as int].0 >= x.0);
                if j - 1 > k as int {
                    assert(before[k as int].0 < before[j - 1].0);
                }
            } else if i > k as int {
                assert(v@[i] == before[i - 1]);
                assert(v@[j] == before[j - 1]);
            }
        }
        assert forall|y: WorkId| #[trigger] v@.contains(y) <==> (before.contains(y) || y == x) by {
            if v@.contains(y) {
                let m = choose|m: int| 0 <= m < v@.len() && v@[m] == y;
                if m < k as int {
                    assert(before[m] == y);
                } else if m > k as int {
                    assert(before[m - 1] == y);
                }
            }
            if before.contains(y) {
                let m = choose|m: int| 0 <= m < before.len() && before[m] == y;
                if m < k as int {
                    assert(v@[m] == y);
                } else {
                    assert(v@[m + 1] == y);
                }
            }
            if y == x {
                assert(v@[k as int] == y);
            }
        }
    }
}

fn insert_subject(v: &mut Vec<SubjectKey>, x: SubjectKey)
    requires
        increasing_subjects(old(v)@),
    ensures
        increasing_subjects(final(v)@),
        forall|y: SubjectKey| #[trigger] final(v)@.contains(y) <==> (old(v)@.contains(y) || y == x),
{
    let mut k: usize = 0;
    while k < v.len() && v[k].0 < x.0
        invariant
            k <= v.len(),
            forall|m: int| 0 <= m < k ==> v@[m].0 < x.0,
        decreases v.len() - k,
    {
        k += 1;
    }
    if k < v.len() && v[k].0 == x.0 {
        assert(v@[k as int] == x);
        return;
    }
    let ghost before = v@;
    v.insert(k, x);
    proof {
        assert forall|i: int, j: int| 0 <= i < j < v@.len() implies (#[trigger] v@[i]).0 < (#[trigger] v@[j]).0 by {
            if i < k as int && j == k as int {
            } else if i < k as int && j > k as int {
                assert(v@[j] == before[j - 1]);
            } else if i == k as int && j > k as int {
                assert(v@[j] == before[j - 1]);
                assert(before[k as int].0 >= x.0);
                if j - 1 > k as int {
                    assert(before[k as int].0 < before[j - 1].0);
                }
            } else if i > k as int {
                assert(v@[i] == before[i - 1]);
                assert(v@[j] == before[j - 1]);
            }
        }
        assert forall|y: SubjectKey| #[trigger] v@.contains(y) <==> (before.contains(y) || y == x) by {
            if v@.contains(y) {
                let m = choose|m: int| 0 <= m < v@.len() && v@[m] == y;
                if m < k as int {
                    assert(before[m] == y);
                } else if m > k as int {
                    assert(before[m - 1] == y);
                }
            }
            if before.contains(y) {
                let m = choose|m: int| 0 <= m < before.len() && before[m] == y;
                if m < k as int {
                    assert(v@[m] == y);
                } else {
                    assert(v@[m + 1] == y);
                }
            }
            if y == x {
                assert(v@[k as int] == y);
            }
        }
    }
}

/// Adds to `found` the work of `from` that the candidate's scope holds, and
/// says whether there was any.
fn collect_work(found: &mut Vec<WorkId>, from: &[WorkId], c: &CandidateScope) -> (r: bool)
    requires
        increasing_works(old(found)@),
    ensures
        increasing_works(final(found)@),
        forall|w: WorkId| #[trigger] final(found)@.contains(w) <==> (old(found)@.contains(w) || (from@.contains(w) && candidate_work(*c, w))),
        r == exists|w: WorkId| from@.contains(w) && #[trigger] candidate_work(*c, w),
{
    let ghost start = found@;
    let mut hit = false;
    let mut k: usize = 0;
    while k < from.len()
        invariant
            k <= from.len(),
            increasing_works(found@),
            forall|w: WorkId| #[trigger] found@.contains(w) <==> (start.contains(w) || (from@.take(k as int).contains(w) && candidate_work(*c, w))),
            hit == exists|w: WorkId| from@.take(k as int).contains(w) && #[trigger] candidate_work(*c, w),
        decreases from.len() - k,
    {
        let w = from[k];
        let in_scope = holds_work(c.affected_work_ids.as_slice(), w) || holds_work(c.dependent_work_ids.as_slice(), w);
        proof {
            assert(from@.take(k as int + 1) =~= from@.take(k as int).push(w));
            assert forall|t: WorkId| #[trigger] from@.take(k as int + 1).contains(t) <==> (from@.take(k as int).contains(t) || t == w) by {
                if from@.take(k as int + 1).contains(t) {
                    let m = choose|m: int| 0 <= m < k as int + 1 && #[trigger] from@.take(k as int + 1)[m] == t;
                    if m < k as int {
                        assert(from@.take(k as int)[m] == t);
                    }
                }
                if from@.take(k as int).contains(t) {
                    let m = choose|m: int| 0 <= m < k as int && #[trigger] from@.take(k as int)[m] == t;
                    assert(from@.take(k as int + 1)[m] == t);
                }
                if t == w {
                    assert(from@.take(k as int + 1)[k as int] == t);
                }
            }
        }
        if in_scope {
            insert_work(found, w);
            hit = true;
            assert(from@.take(k as int + 1)[k as int] == w);
            assert(from@.take(k as int + 1).contains(w) && candidate_work(*c, w));
        } else {
            assert forall|v: WorkId| from@.take(k as int + 1).contains(v) && candidate_work(*c, v) implies from@.take(k as int).contains(v) by {
                if v != w {
                    let m = choose|m: int| 0 <= m < k as int + 1 && #[trigger] from@.take(k as int + 1)[m] == v;
                    assert(from@.take(k as int)[m] == v);
                }
            }
        }
        k += 1;
    }
    proof {
        assert(from@.take(from@.len() as int) =~= from@);
    }
    hit
}

/// Adds to `found` the subjects of `from` that the candidate names, and says
/// whether there was any.
fn collect_subjects(found: &mut Vec<SubjectKey>, from: &[SubjectKey], scope: &[SubjectKey]) -> (r: bool)
    requires
        increasing_subjects(old(found)@),
    ensures
        increasing_subjects(final(found)@),
        forall|s: SubjectKey| #[trigger] final(found)@.contains(s) <==> (old(found)@.contains(s) || (from@.contains(s) && scope@.contains(s))),
        r == exists|s: SubjectKey| from@.contains(s) && #[trigger] scope@.contains(s),
{
    let ghost start = found@;
    let mut hit = false;
    let mut k: usize = 0;
    while k < from.len()
        invariant
            k <= from.len(),
            increasing_subjects(found@),
            forall|s: SubjectKey| #[trigger] found@.contains(s) <==> (start.contains(s) || (from@.take(k as int).contains(s) && scope@.contains(s))),
            hit == exists|s: SubjectKey| from@.take(k as int).contains(s) && #[trigger] scope@.contains(s),
        decreases from.len() - k,
    {
        let s = from[k];
        let in_scope = holds_subject(scope, s);
        proof {
            assert(from@.take(k as int + 1) =~= from@.take(k as int).push(s));
            assert forall|t: SubjectKey| #[trigger] from@.take(k as int + 1).contains(t) <==> (from@.take(k as int).contains(t) || t == s) by {
                if from@.take(k as int + 1).contains(t) {
                    let m = choose|m: int| 0 <= m < k as int + 1 && #[trigger] from@.take(k as int + 1)[m] == t;
                    if m < k as int {
                        assert(from@.take(k as int)[m] == t);
                    }
                }
                if from@.take(k as int).contains(t) {
                    let m = choose|m: int| 0 <= m < k as int && #[trigger] from@.take(k as int)[m] == t;
                    assert(from@.take(k as int + 1)[m] == t);
                }
                if t == s {
                    assert(from@.take(k as int + 1)[k as int] == t);
                }
            }
        }
        if in_scope {
            insert_subject(found, s);
            hit = true;
            assert(from@.take(k as int + 1)[k as int] == s);
            assert(from@.take(k as int + 1).contains(s) && scope@.contains(s));
        } else {
            assert forall|v: SubjectKey| from@.take(k as int + 1).contains(v) && scope@.contains(v) implies from@.take(k as int).contains(v) by {
                if v != s {
                    let m = choose|m: int| 0 <= m < k as int + 1 && #[trigger] from@.take(k as int + 1)[m] == v;
                    assert(from@.take(k as int)[m] == v);
                }
            }
        }
        k += 1;
    }
    proof {
        assert(from@.take(from@.len() as int) =~= from@);
    }
    hit
}

proof fn lemma_guard_step(hs: Seq<HoldRecord>, c: CandidateScope, excluded: Option<HoldId>, i: int)
    requires
        0 <= i < hs.len(),
    ensures
        any_held(hs, c, excluded, i + 1) == (any_held(hs, c, excluded, i) || held_by(hs[i], c, excluded)),
        any_relevant(hs, c, excluded, i + 1) == (any_relevant(hs, c, excluded, i) || relevant(hs[i], c, excluded)),
        leads_unproven(hs, c, excluded, i) == (relevant(hs[i], c, excluded) && !hold_matches(hs[i], c) && !any_relevant(hs, c, excluded, i)),
        forall|id: HoldId| #[trigger] reported_hold(hs, c, excluded, i + 1, id) == (reported_hold(hs, c, excluded, i, id)
            || (hs[i].hold_id == id && (held_by(hs[i], c, excluded) || leads_unproven(hs, c, excluded, i)))),
        forall|w: WorkId| #[trigger] reported_work(hs, c, excluded, i + 1, w) == (reported_work(hs, c, excluded, i, w)
            || (candidate_work(c, w) && considered(hs[i], excluded) && hold_work(hs[i], w))),
        forall|s: SubjectKey| #[trigger] reported_subject(hs, c, excluded, i + 1, s) == (reported_subject(hs, c, excluded, i, s)
            || (c.subjects@.contains(s) && considered(hs[i], excluded) && hs[i].subject_ids@.contains(s))),
{
    if held_by(hs[i], c, excluded) {
        assert(any_held(hs, c, excluded, i + 1));
    }
    if relevant(hs[i], c, excluded) {
        assert(any_relevant(hs, c, excluded, i + 1));
    }
    if any_held(hs, c, excluded, i + 1) && !held_by(hs[i], c, excluded) {
        let k = choose|k: int| 0 <= k < i + 1 && held_by(#[trigger] hs[k], c, excluded);
        assert(any_held(hs, c, excluded, i));
    }
    if any_relevant(hs, c, excluded, i + 1) && !relevant(hs[i], c, excluded) {
        let k = choose|k: int| 0 <= k < i + 1 && relevant(#[trigger] hs[k], c, excluded);
        assert(any_relevant(hs, c, excluded, i));
    }
    if any_held(hs, c, excluded, i) {
        let k = choose|k: int| 0 <= k < i && held_by(#[trigger] hs[k], c, excluded);
        assert(any_held(hs, c, excluded, i + 1));
    }
    if any_relevant(hs, c, excluded, i) {
        let k = choose|k: int| 0 <= k < i && relevant(#[trigger] hs[k], c, excluded);
        assert(any_relevant(hs, c, excluded, i + 1));
    }
    assert forall|id: HoldId| #[trigger] reported_hold(hs, c, excluded, i + 1, id) == (reported_hold(hs, c, excluded, i, id)
        || (hs[i].hold_id == id && (held_by(hs[i], c, excluded) || leads_unproven(hs, c, excluded, i)))) by {
        if reported_hold(hs, c, excluded, i + 1, id) {
            let k = choose|k: int| 0 <= k < i + 1 && (#[trigger] hs[k]).hold_id == id && (held_by(hs[k], c, excluded) || leads_unproven(hs, c, excluded, k));
            if k < i {
                assert(reported_hold(hs, c, excluded, i, id));
            }
        }
        if reported_hold(hs, c, excluded, i, id) {
            let k = choose|k: int| 0 <= k < i && (#[trigger] hs[k]).hold_id == id && (held_by(hs[k], c, excluded) || leads_unproven(hs, c, excluded, k));
            assert(reported_hold(hs, c, excluded, i + 1, id));
        }
        if hs[i].hold_id == id && (held_by(hs[i], c, excluded) || leads_unproven(hs, c, excluded, i)) {
            assert(reported_hold(hs, c, excluded, i + 1, id));
        }
    }
    assert forall|w: WorkId| #[trigger] reported_work(hs, c, excluded, i + 1, w) == (reported_work(hs, c, excluded, i, w)
        || (candidate_work(c, w) && considered(hs[i], excluded) && hold_work(hs[i], w))) by {
        if reported_work(hs, c, excluded, i + 1, w) {
            let k = choose|k: int| 0 <= k < i + 1 && considered(#[trigger] hs[k], excluded) && hold_work(hs[k], w);
            if k < i {
                assert(reported_work(hs, c, excluded, i, w));
            }
        }
        if reported_work(hs, c, excluded, i, w) {
            let k = choose|k: int| 0 <= k < i && considered(#[trigger] hs[k], excluded) && hold_work(hs[k], w);
            assert(reported_work(hs, c, excluded, i + 1, w));
        }
        if candidate_work(c, w) && considered(hs[i], excluded) && hold_work(hs[i], w) {
            assert(reported_work(hs, c, excluded, i + 1, w));
        }
    }
    assert forall|s: SubjectKey| #[trigger] reported_subject(hs, c, excluded, i + 1, s) == (reported_subject(hs, c, excluded, i, s)
        || (c.subjects@.contains(s) && considered(hs[i], excluded) && hs[i].subject_ids@.contains(s))) by {
        if reported_subject(hs, c, excluded, i + 1, s) {
            let k = choose|k: int| 0 <= k < i + 1 && considered(#[trigger] hs[k], excluded) && hs[k].subject_ids@.contains(s);
            if k < i {
                assert(reported_subject(hs, c, excluded, i, s));
            }
        }
        if reported_subject(hs, c, excluded, i, s) {
            let k = choose|k: int| 0 <= k < i && considered(#[trigger] hs[k], excluded) && hs[k].subject_ids@.contains(s);
            assert(reported_subject(hs, c, excluded, i + 1, s));
        }
        if c.subjects@.contains(s) && considered(hs[i], excluded) && hs[i].subject_ids@.contains(s) {
            assert(reported_subject(hs, c, excluded, i + 1, s));
        }
    }
    if !any_relevant(hs, c, excluded, i) {
        assert forall|m: int| 0 <= m < i implies !relevant(#[trigger] hs[m], c, excluded) by {
            if relevant(hs[m], c, excluded) {
                assert(any_relevant(hs, c, excluded, i));
            }
        }
    }
    if leads_unproven(hs, c, excluded, i) && any_relevant(hs, c, excluded, i) {
        let k = choose|k: int| 0 <= k < i && relevant(#[trigger] hs[k], c, excluded);
        assert(!relevant(hs[k], c, excluded));
    }
}

/// What the guard concludes for a candidate over the non-released holds.
pub open spec fn guard_result(g: ChangeHoldGuard, hs: Seq<HoldRecord>, c: CandidateScope, excluded: Option<HoldId>) -> bool {
    &&& g.status == verdict(hs, c, excluded, hs.len() as int)
    &&& increasing_holds(g.hold_ids@)
    &&& increasing_works(g.matched_work_ids@)
    &&& increasing_subjects(g.matched_subjects@)
    &&& forall|id: HoldId| #[trigger] g.hold_ids@.contains(id) <==> reported_hold(hs, c, excluded, hs.len() as int, id)
    &&& forall|w: WorkId| #[trigger] g.matched_work_ids@.contains(w) <==> reported_work(hs, c, excluded, hs.len() as int, w)
    &&& forall|s: SubjectKey| #[trigger] g.matched_subjects@.contains(s) <==> reported_subject(hs, c, excluded, hs.len() as int, s)
}

/// The guard for a candidate, ignoring one hold (the one being resolved).
/// Without the candidate's transaction-derived scope the guard needs evidence.
pub fn change_hold_guard_excluding(holds: &[HoldRecord], candidate: Option<&CandidateScope>, excluded: Option<HoldId>) -> (r: Result<ChangeHoldGuard, ZapError>)
    ensures
        candidate is None ==> r == Err::<ChangeHoldGuard, ZapError>(ZapError { code: ErrorCode::NeedsEvidence, detail: ErrorDetail::Empty }),
        candidate matches Some(c) ==> (r matches Ok(g) && guard_result(g, holds@, *c, excluded)),
{
    let c = match candidate {
        None => {
            return Err(ZapError::new(ErrorCode::NeedsEvidence));
        },
        Some(c) => c,
    };
    let ghost hs = holds@;
    let mut status = HoldGuardStatus::Clear;
    let mut hold_ids: Vec<HoldId> = Vec::new();
    let mut works: Vec<WorkId> = Vec::new();
    let mut subjects: Vec<SubjectKey> = Vec::new();
    let mut i: usize = 0;
    while i < holds.len()
        invariant
            i <= holds.len(),
            hs == holds@,
            status == verdict(hs, *c, excluded, i as int),
            increasing_holds(hold_ids@),
            increasing_works(works@),
            increasing_subjects(subjects@),
            forall|id: HoldId| #[trigger] hold_ids@.contains(id) <==> reported_hold(hs, *c, excluded, i as int, id),
            forall|w: WorkId| #[trigger] works@.contains(w) <==> reported_work(hs, *c, excluded, i as int, w),
            forall|s: SubjectKey| #[trigger] subjects@.contains(s) <==> reported_subject(hs, *c, excluded, i as int, s),
        decreases holds.len() - i,
    {
        let h = &holds[i];
        proof {
            lemma_guard_step(hs, *c, excluded, i as int);
        }
        let skipped = match excluded {
            Some(ex) => ex.0 == h.hold_id.0,
            None => false,
        };
        if skipped {
            assert(!considered(hs[i as int], excluded));
            i += 1;
            continue;
        }
        let ghost works_before = works@;
        let ghost subjects_before = subjects@;
        let hit_affected = collect_work(&mut works, h.affected_work_ids.as_slice(), c);
        let hit_dependent = collect_work(&mut works, h.dependent_work_ids.as_slice(), c);
        let hit_subject = collect_subjects(&mut subjects, h.subject_ids.as_slice(), c.subjects.as_slice());
        let matched = h.hold_all_starts || hit_affected || hit_dependent || hit_subject;
        let unproven = !h.closure_complete && !h.independence_proven;
        proof {
            assert(considered(hs[i as int], excluded));
            if matched {
                if hit_affected {
                    let w = choose|w: WorkId| h.affected_work_ids@.contains(w) && #[trigger] candidate_work(*c, w);
                    assert(hold_work(*h, w));
                }
                if hit_dependent {
                    let w = choose|w: WorkId| h.dependent_work_ids@.contains(w) && #[trigger] candidate_work(*c, w);
                    assert(hold_work(*h, w));
                }
                assert(hold_matches(*h, *c));
            } else {
                assert forall|w: WorkId| hold_work(*h, w) implies !#[trigger] candidate_work(*c, w) by {}
                assert(!hold_matches(*h, *c));
            }
            assert forall|w: WorkId| #[trigger] works@.contains(w) <==> (works_before.contains(w) || (candidate_work(*c, w) && hold_work(*h, w))) by {}
            assert forall|s: SubjectKey| #[trigger] subjects@.contains(s) <==> (subjects_before.contains(s)
                || (c.subjects@.contains(s) && h.subject_ids@.contains(s))) by {}
        }
        if matched {
            status = HoldGuardStatus::Held;
            insert_hold(&mut hold_ids, h.hold_id);
        } else if unproven && matches!(status, HoldGuardStatus::Clear) {
            status = HoldGuardStatus::Unproven;
            insert_hold(&mut hold_ids, h.hold_id);
        }
        i += 1;
    }
    Ok(ChangeHoldGuard { status, hold_ids, matched_work_ids: works, matched_subjects: subjects })
}

/// The guard for a candidate over all non-released holds.
pub fn change_hold_guard(holds: &[HoldRecord], candidate: Option<&CandidateScope>) -> (r: Result<ChangeHoldGuard, ZapError>)
    ensures
        candidate is None ==> r == Err::<ChangeHoldGuard, ZapError>(ZapError { code: ErrorCode::NeedsEvidence, detail: ErrorDetail::Empty }),
        candidate matches Some(c) ==> (r matches Ok(g) && guard_result(g, holds@, *c, None)),
{
    change_hold_guard_excluding(holds, candidate, None)
}

/// An Owner stop takes precedence: when any considered hold matches the
/// candidate, the guard is held and the change is blocked, whatever other
/// holds say.
pub proof fn law_matching_hold_blocks(g: ChangeHoldGuard, hs: Seq<HoldRecord>, c: CandidateScope, excluded: Option<HoldId>, k: int)
    requires
        guard_result(g, hs, c, excluded),
        0 <= k < hs.len(),
        held_by(hs[k], c, excluded),
    ensures
        g.status == HoldGuardStatus::Held,
        g.hold_ids@.contains(hs[k].hold_id),
{
    assert(any_held(hs, c, excluded, hs.len() as int));
    assert(reported_hold(hs, c, excluded, hs.len() as int, hs[k].hold_id));
}

/// The guard is clear exactly when no considered hold matches or is
/// unproven; then it reports no hold.
pub proof fn law_clear_guard_reports_nothing(g: ChangeHoldGuard, hs: Seq<HoldRecord>, c: CandidateScope, excluded: Option<HoldId>)
    requires
        guard_result(g, hs, c, excluded),
        g.status == HoldGuardStatus::Clear,
    ensures
        forall|k: int| 0 <= k < hs.len() ==> !relevant(#[trigger] hs[k], c, excluded),
        g.hold_ids@.len() == 0,
{
    assert forall|k: int| 0 <= k < hs.len() implies !relevant(#[trigger] hs[k], c, excluded) by {
        if relevant(hs[k], c, excluded) {
            assert(any_relevant(hs, c, excluded, hs.len() as int));
        }
    }
    if g.hold_ids@.len() > 0 {
        let id = g.hold_ids@[0];
        assert(g.hold_ids@.contains(id));
        let k = choose|k: int| 0 <= k < hs.len() && (#[trigger] hs[k]).hold_id == id
            && (held_by(hs[k], c, excluded) || leads_unproven(hs, c, excluded, k));
        assert(relevant(hs[k], c, excluded));
    }
}

} // verus!
