//! The shape rules of milestone transforms: retiring a definition, moving
//! one contribution between milestones, the scope a transform must declare,
//! and the contributions it must keep dormant.
use vstd::prelude::*;

use crate::error::{ErrorCode, ZapError};
use crate::affected_scope::insert_obligation_subjects;
use crate::holds::{increasing_works, insert_work};
use crate::ids::{MilestoneId, WorkId};
use crate::milestones::{
    contributed_evidence, contributed_work, MilestoneContribution, MilestoneDefinition, MilestoneDependency, MilestoneLifecycle,
};
use crate::subjects::{insert_subject_ref, insert_subjects, key_lt, lemma_subject_key_injective, subject_key, subjects_increasing, SubjectRef};

verus! {

/// The order of contributions: work, then evidence, then milestones, each
/// by identity.
pub open spec fn contribution_key(c: MilestoneContribution) -> (u64, u64, u64, u64) {
    match c {
        MilestoneContribution::Work { work_id } => (0, work_id.0, 0, 0),
        MilestoneContribution::Evidence { evidence_id } => (1, evidence_id.0, 0, 0),
        MilestoneContribution::Milestone { milestone_id, revision_id, semantic_fingerprint } => (
            2,
            milestone_id.0,
            revision_id.0,
            semantic_fingerprint.0,
        ),
    }
}

pub open spec fn key4_lt(a: (u64, u64, u64, u64), b: (u64, u64, u64, u64)) -> bool {
    a.0 < b.0 || (a.0 == b.0 && (a.1 < b.1 || (a.1 == b.1 && (a.2 < b.2 || (a.2 == b.2 && a.3 < b.3)))))
}

pub open spec fn key4_le(a: (u64, u64, u64, u64), b: (u64, u64, u64, u64)) -> bool {
    key4_lt(a, b) || a == b
}

/// The contributions are in contribution order.
pub open spec fn contributions_sorted(s: Seq<MilestoneContribution>) -> bool {
    forall|i: int, j: int| 0 <= i < j < s.len() ==> key4_le(contribution_key(#[trigger] s[i]), contribution_key(#[trigger] s[j]))
}

fn key_of_contribution(c: MilestoneContribution) -> (r: (u64, u64, u64, u64))
    ensures
        r == contribution_key(c),
{
    match c {
        MilestoneContribution::Work { work_id } => (0, work_id.0, 0, 0),
        MilestoneContribution::Evidence { evidence_id } => (1, evidence_id.0, 0, 0),
        MilestoneContribution::Milestone { milestone_id, revision_id, semantic_fingerprint } => (
            2,
            milestone_id.0,
            revision_id.0,
            semantic_fingerprint.0,
        ),
    }
}

fn key4_lt_exec(a: (u64, u64, u64, u64), b: (u64, u64, u64, u64)) -> (r: bool)
    ensures
        r == key4_lt(a, b),
{
    a.0 < b.0 || (a.0 == b.0 && (a.1 < b.1 || (a.1 == b.1 && (a.2 < b.2 || (a.2 == b.2 && a.3 < b.3)))))
}

/// The optional text as characters.
pub open spec fn text_of(t: Option<String>) -> Option<Seq<char>> {
    match t {
        Some(s) => Some(s@),
        None => None,
    }
}

/// Two definitions agree on everything but their contributions,
/// dependencies, lifecycle and retirement reason.
pub open spec fn same_terms(a: MilestoneDefinition, b: MilestoneDefinition) -> bool {
    &&& a.outcome_id == b.outcome_id
    &&& a.terms == b.terms
    &&& a.consumers@ == b.consumers@
    &&& a.required_obligation_ids@ == b.required_obligation_ids@
}

/// Two definitions differ at most in their route: their contributions and
/// dependencies.
pub open spec fn spec_same_non_route(old: MilestoneDefinition, next: MilestoneDefinition) -> bool {
    &&& same_terms(old, next)
    &&& old.lifecycle == next.lifecycle
    &&& text_of(old.retirement_reason) == text_of(next.retirement_reason)
}

fn same_subject_lists(a: &Vec<crate::subjects::SubjectRef>, b: &Vec<crate::subjects::SubjectRef>) -> (r: bool)
    ensures
        r == (a@ == b@),
{
    if a.len() != b.len() {
        return false;
    }
    let mut i: usize = 0;
    while i < a.len()
        invariant
            i <= a@.len(),
            a@.len() == b@.len(),
            forall|k: int| 0 <= k < i ==> a@[k] == b@[k],
        decreases a@.len() - i,
    {
        if a[i] != b[i] {
            return false;
        }
        i += 1;
    }
    assert(a@ =~= b@);
    true
}

fn same_obligation_lists(a: &Vec<crate::ids::ObligationId>, b: &Vec<crate::ids::ObligationId>) -> (r: bool)
    ensures
        r == (a@ == b@),
{
    if a.len() != b.len() {
        return false;
    }
    let mut i: usize = 0;
    while i < a.len()
        invariant
            i <= a@.len(),
            a@.len() == b@.len(),
            forall|k: int| 0 <= k < i ==> a@[k] == b@[k],
        decreases a@.len() - i,
    {
        if a[i].0 != b[i].0 {
            return false;
        }
        i += 1;
    }
    assert(a@ =~= b@);
    true
}

fn same_contribution_lists(a: &Vec<MilestoneContribution>, b: &Vec<MilestoneContribution>) -> (r: bool)
    ensures
        r == (a@ == b@),
{
    if a.len() != b.len() {
        return false;
    }
    let mut i: usize = 0;
    while i < a.len()
        invariant
            i <= a@.len(),
            a@.len() == b@.len(),
            forall|k: int| 0 <= k < i ==> a@[k] == b@[k],
        decreases a@.len() - i,
    {
        if a[i] != b[i] {
            return false;
        }
        i += 1;
    }
    assert(a@ =~= b@);
    true
}

fn same_dependency_lists(a: &Vec<MilestoneDependency>, b: &Vec<MilestoneDependency>) -> (r: bool)
    ensures
        r == (a@ == b@),
{
    if a.len() != b.len() {
        return false;
    }
    let mut i: usize = 0;
    while i < a.len()
        invariant
            i <= a@.len(),
            a@.len() == b@.len(),
            forall|k: int| 0 <= k < i ==> a@[k] == b@[k],
        decreases a@.len() - i,
    {
        if a[i] != b[i] {
            return false;
        }
        i += 1;
    }
    assert(a@ =~= b@);
    true
}

fn same_reason(a: &Option<String>, b: &Option<String>) -> (r: bool)
    ensures
        r == (text_of(*a) == text_of(*b)),
{
    match (a, b) {
        (None, None) => true,
        (Some(x), Some(y)) => *x == *y,
        _ => false,
    }
}

fn same_terms_exec(a: &MilestoneDefinition, b: &MilestoneDefinition) -> (r: bool)
    ensures
        r == same_terms(*a, *b),
{
    a.outcome_id.0 == b.outcome_id.0 && a.terms.0 == b.terms.0 && same_subject_lists(&a.consumers, &b.consumers)
        && same_obligation_lists(&a.required_obligation_ids, &b.required_obligation_ids)
}

/// Whether a rewrite of a definition changes at most its route.
pub fn same_non_route(old: &MilestoneDefinition, next: &MilestoneDefinition) -> (r: bool)
    ensures
        r == spec_same_non_route(*old, *next),
{
    same_terms_exec(old, next) && old.lifecycle == next.lifecycle && same_reason(&old.retirement_reason, &next.retirement_reason)
}

/// `next` retires `old`: an active definition becomes retired with a
/// reason, and nothing else changes.
pub open spec fn retires(old: MilestoneDefinition, next: MilestoneDefinition) -> bool {
    &&& old.lifecycle == MilestoneLifecycle::Active
    &&& next.lifecycle == MilestoneLifecycle::Retired
    &&& next.retirement_reason is Some
    &&& old.retirement_reason is None
    &&& same_terms(old, next)
    &&& old.contributions@ == next.contributions@
    &&& old.dependencies@ == next.dependencies@
}

/// Refuses a rewrite that is not exactly the retirement of the definition.
pub fn ensure_retirement(old: &MilestoneDefinition, next: &MilestoneDefinition) -> (r: Result<(), ZapError>)
    ensures
        r is Ok <==> retires(*old, *next),
        r matches Err(e) ==> e.code == ErrorCode::Conflict,
{
    if old.lifecycle != MilestoneLifecycle::Active || next.lifecycle != MilestoneLifecycle::Retired
        || next.retirement_reason.is_none() || old.retirement_reason.is_some() || !same_terms_exec(old, next)
        || !same_contribution_lists(&old.contributions, &next.contributions)
        || !same_dependency_lists(&old.dependencies, &next.dependencies)
    {
        return Err(ZapError::new(ErrorCode::Conflict));
    }
    Ok(())
}

/// The position of the first contribution not ordered before `c`.
pub open spec fn first_not_below(s: Seq<MilestoneContribution>, c: MilestoneContribution) -> int
    decreases s.len(),
{
    if s.len() == 0 {
        0
    } else if key4_lt(contribution_key(s[0]), contribution_key(c)) {
        1 + first_not_below(s.drop_first(), c)
    } else {
        0
    }
}

proof fn lemma_first_not_below_range(s: Seq<MilestoneContribution>, c: MilestoneContribution)
    ensures
        0 <= first_not_below(s, c) <= s.len(),
    decreases s.len(),
{
    if s.len() > 0 {
        lemma_first_not_below_range(s.drop_first(), c);
    }
}

fn find_insertion(s: &Vec<MilestoneContribution>, c: MilestoneContribution) -> (r: usize)
    ensures
        r as int == first_not_below(s@, c),
        r <= s@.len(),
{
    let kc = key_of_contribution(c);
    let mut p: usize = 0;
    proof {
        assert(s@.skip(0) =~= s@);
    }
    while p < s.len() && key4_lt_exec(key_of_contribution(s[p]), kc)
        invariant
            p <= s@.len(),
            kc == contribution_key(c),
            first_not_below(s@, c) == p + first_not_below(s@.skip(p as int), c),
        decreases s@.len() - p,
    {
        proof {
            assert(s@.skip(p as int).drop_first() =~= s@.skip(p as int + 1));
        }
        p += 1;
    }
    proof {
        if p < s.len() {
            assert(s@.skip(p as int)[0] == s@[p as int]);
        } else {
            assert(s@.skip(p as int).len() == 0);
        }
    }
    p
}

/// The contributions with `c` added in contribution order.
pub open spec fn with_contribution(s: Seq<MilestoneContribution>, c: MilestoneContribution) -> Seq<MilestoneContribution> {
    s.take(first_not_below(s, c)) + seq![c] + s.skip(first_not_below(s, c))
}

/// The contributions with `c` taken out.
pub open spec fn without_contribution(s: Seq<MilestoneContribution>, c: MilestoneContribution) -> Seq<MilestoneContribution> {
    s.take(first_not_below(s, c)) + s.skip(first_not_below(s, c) + 1)
}

/// Everything of the definitions but their contributions agrees.
pub open spec fn same_but_contributions(old: MilestoneDefinition, next: MilestoneDefinition) -> bool {
    &&& spec_same_non_route(old, next)
    &&& old.dependencies@ == next.dependencies@
}

/// `next` is `old` with the contribution moved in (`add`) or out.
pub open spec fn moves(old: MilestoneDefinition, next: MilestoneDefinition, c: MilestoneContribution, add: bool) -> bool {
    &&& same_but_contributions(old, next)
    &&& if add {
        !old.contributions@.contains(c) && next.contributions@ == with_contribution(old.contributions@, c)
    } else {
        old.contributions@.contains(c) && next.contributions@ == without_contribution(old.contributions@, c)
    }
}

proof fn lemma_sorted_position(s: Seq<MilestoneContribution>, c: MilestoneContribution)
    requires
        contributions_sorted(s),
    ensures
        s.contains(c) <==> (first_not_below(s, c) < s.len() && s[first_not_below(s, c)] == c),
    decreases s.len(),
{
    lemma_first_not_below_range(s, c);
    if s.len() > 0 {
        let t = s.drop_first();
        assert(contributions_sorted(t)) by {
            assert forall|i: int, j: int| 0 <= i < j < t.len() implies key4_le(contribution_key(#[trigger] t[i]), contribution_key(#[trigger] t[j])) by {
                assert(t[i] == s[i + 1] && t[j] == s[j + 1]);
            }
        }
        lemma_sorted_position(t, c);
        if key4_lt(contribution_key(s[0]), contribution_key(c)) {
            let k = first_not_below(t, c);
            assert(first_not_below(s, c) == 1 + k);
            lemma_first_not_below_range(t, c);
            if k < t.len() {
                assert(s[1 + k] == t[k]);
            }
            assert(s[0] != c);
            if s.contains(c) {
                let m = choose|m: int| 0 <= m < s.len() && s[m] == c;
                assert(m != 0);
                assert(t[m - 1] == c);
            }
            if t.contains(c) {
                let m = choose|m: int| 0 <= m < t.len() && t[m] == c;
                assert(s[m + 1] == c);
            }
        } else {
            if s.contains(c) && s[0] != c {
                let m = choose|m: int| 0 <= m < s.len() && s[m] == c;
                assert(key4_le(contribution_key(s[0]), contribution_key(s[m])));
                lemma_key_injective(s[0], c);
            }
        }
    }
}

proof fn lemma_key_injective(a: MilestoneContribution, b: MilestoneContribution)
    requires
        contribution_key(a) == contribution_key(b),
    ensures
        a == b,
{
}

/// Refuses a rewrite of one side of a contribution move that is not exactly
/// that move: for the receiving side (`add`) the contribution must be new
/// and lands in contribution order; for the giving side it must be present
/// and is taken out. The sides are compared as kept in contribution order;
/// of contributions out of order no more is stated than the refusal code.
pub fn ensure_move(old: &MilestoneDefinition, next: &MilestoneDefinition, contribution: MilestoneContribution, add: bool) -> (r: Result<(), ZapError>)
    ensures
        contributions_sorted(old.contributions@) ==> (r is Ok <==> moves(*old, *next, contribution, add)),
        r matches Err(e) ==> e.code == ErrorCode::Conflict,
{
    let p = find_insertion(&old.contributions, contribution);
    let present = p < old.contributions.len() && old.contributions[p] == contribution;
    proof {
        if contributions_sorted(old.contributions@) {
            lemma_sorted_position(old.contributions@, contribution);
        }
    }
    let mut expected: Vec<MilestoneContribution> = Vec::new();
    let mut k: usize = 0;
    while k < p
        invariant
            k <= p,
            p <= old.contributions@.len(),
            expected@ == old.contributions@.take(k as int),
        decreases p - k,
    {
        expected.push(old.contributions[k]);
        proof {
            assert(old.contributions@.take(k as int + 1) =~= old.contributions@.take(k as int).push(old.contributions@[k as int]));
        }
        k += 1;
    }
    if add {
        if present {
            return Err(ZapError::new(ErrorCode::Conflict));
        }
        expected.push(contribution);
    } else {
        if !present {
            return Err(ZapError::new(ErrorCode::Conflict));
        }
        k = p + 1;
    }
    let ghost head = expected@;
    let ghost from = k as int;
    while k < old.contributions.len()
        invariant
            from <= k <= old.contributions@.len(),
            from == if add { p as int } else { p as int + 1 },
            expected@ == head + old.contributions@.subrange(from, k as int),
        decreases old.contributions@.len() - k,
    {
        expected.push(old.contributions[k]);
        proof {
            assert(old.contributions@.subrange(from, k as int + 1) =~= old.contributions@.subrange(from, k as int).push(old.contributions@[k as int]));
        }
        k += 1;
    }
    proof {
        assert(old.contributions@.subrange(from, old.contributions@.len() as int) =~= old.contributions@.skip(from));
        if add {
            assert(expected@ =~= with_contribution(old.contributions@, contribution));
        } else {
            assert(expected@ =~= without_contribution(old.contributions@, contribution));
        }
    }
    if !same_non_route(old, next) || !same_dependency_lists(&old.dependencies, &next.dependencies)
        || !same_contribution_lists(&expected, &next.contributions)
    {
        return Err(ZapError::new(ErrorCode::Conflict));
    }
    Ok(())
}

proof fn lemma_increasing_works_unique(a: Seq<WorkId>, b: Seq<WorkId>)
    requires
        increasing_works(a),
        increasing_works(b),
        forall|w: WorkId| #[trigger] a.contains(w) <==> b.contains(w),
    ensures
        a == b,
    decreases a.len() + b.len(),
{
    if a.len() == 0 {
        if b.len() > 0 {
            assert(b.contains(b[0]));
            assert(a.contains(b[0]));
            let i = choose|i: int| 0 <= i < a.len() && a[i] == b[0];
            assert(false);
        }
        assert(a =~= b);
    } else {
        assert(a.contains(a[0]));
        assert(b.contains(a[0]));
        let j = choose|j: int| 0 <= j < b.len() && b[j] == a[0];
        assert(b.contains(b[0]));
        assert(a.contains(b[0]));
        let i = choose|i: int| 0 <= i < a.len() && a[i] == b[0];
        if j > 0 {
            assert(b[0].0 < b[j].0);
            if i > 0 {
                assert(a[0].0 < a[i].0);
            }
        }
        assert(a[0] == b[0]);
        let ta = a.drop_first();
        let tb = b.drop_first();
        assert forall|w: WorkId| #[trigger] ta.contains(w) <==> tb.contains(w) by {
            if ta.contains(w) {
                let m = choose|m: int| 0 <= m < ta.len() && ta[m] == w;
                assert(a[m + 1] == w);
                assert(a[0].0 < a[m + 1].0);
                assert(a.contains(w));
                assert(b.contains(w));
                let n = choose|n: int| 0 <= n < b.len() && b[n] == w;
                assert(n != 0);
                assert(tb[n - 1] == w);
            }
            if tb.contains(w) {
                let m = choose|m: int| 0 <= m < tb.len() && tb[m] == w;
                assert(b[m + 1] == w);
                assert(b[0].0 < b[m + 1].0);
                assert(b.contains(w));
                assert(a.contains(w));
                let n = choose|n: int| 0 <= n < a.len() && a[n] == w;
                assert(n != 0);
                assert(ta[n - 1] == w);
            }
        }
        assert(increasing_works(ta)) by {
            assert forall|x: int, y: int| 0 <= x < y < ta.len() implies (#[trigger] ta[x]).0 < (#[trigger] ta[y]).0 by {
                assert(ta[x] == a[x + 1] && ta[y] == a[y + 1]);
            }
        }
        assert(increasing_works(tb)) by {
            assert forall|x: int, y: int| 0 <= x < y < tb.len() implies (#[trigger] tb[x]).0 < (#[trigger] tb[y]).0 by {
                assert(tb[x] == b[x + 1] && tb[y] == b[y + 1]);
            }
        }
        lemma_increasing_works_unique(ta, tb);
        assert(a =~= b) by {
            assert forall|k: int| 0 <= k < a.len() implies a[k] == b[k] by {
                if k > 0 {
                    assert(a[k] == ta[k - 1] && b[k] == tb[k - 1]);
                }
            }
        }
    }
}

proof fn lemma_increasing_subjects_unique(a: Seq<SubjectRef>, b: Seq<SubjectRef>)
    requires
        subjects_increasing(a),
        subjects_increasing(b),
        forall|s: SubjectRef| #[trigger] a.contains(s) <==> b.contains(s),
    ensures
        a == b,
    decreases a.len() + b.len(),
{
    if a.len() == 0 {
        if b.len() > 0 {
            assert(b.contains(b[0]));
            assert(a.contains(b[0]));
            let i = choose|i: int| 0 <= i < a.len() && a[i] == b[0];
            assert(false);
        }
        assert(a =~= b);
    } else {
        assert(a.contains(a[0]));
        assert(b.contains(a[0]));
        let j = choose|j: int| 0 <= j < b.len() && b[j] == a[0];
        assert(b.contains(b[0]));
        assert(a.contains(b[0]));
        let i = choose|i: int| 0 <= i < a.len() && a[i] == b[0];
        if j > 0 {
            assert(key_lt(subject_key(b[0]), subject_key(b[j])));
            if i > 0 {
                assert(key_lt(subject_key(a[0]), subject_key(a[i])));
            }
        }
        assert(a[0] == b[0]);
        let ta = a.drop_first();
        let tb = b.drop_first();
        assert forall|w: SubjectRef| #[trigger] ta.contains(w) <==> tb.contains(w) by {
            if ta.contains(w) {
                let m = choose|m: int| 0 <= m < ta.len() && ta[m] == w;
                assert(a[m + 1] == w);
                assert(key_lt(subject_key(a[0]), subject_key(a[m + 1])));
                assert(a.contains(w));
                assert(b.contains(w));
                let n = choose|n: int| 0 <= n < b.len() && b[n] == w;
                assert(n != 0);
                assert(tb[n - 1] == w);
            }
            if tb.contains(w) {
                let m = choose|m: int| 0 <= m < tb.len() && tb[m] == w;
                assert(b[m + 1] == w);
                assert(key_lt(subject_key(b[0]), subject_key(b[m + 1])));
                assert(b.contains(w));
                assert(a.contains(w));
                let n = choose|n: int| 0 <= n < a.len() && a[n] == w;
                assert(n != 0);
                assert(ta[n - 1] == w);
            }
        }
        assert(subjects_increasing(ta)) by {
            assert forall|x: int, y: int| 0 <= x < y < ta.len() implies key_lt(subject_key(#[trigger] ta[x]), subject_key(#[trigger] ta[y])) by {
                assert(ta[x] == a[x + 1] && ta[y] == a[y + 1]);
            }
        }
        assert(subjects_increasing(tb)) by {
            assert forall|x: int, y: int| 0 <= x < y < tb.len() implies key_lt(subject_key(#[trigger] tb[x]), subject_key(#[trigger] tb[y])) by {
                assert(tb[x] == b[x + 1] && tb[y] == b[y + 1]);
            }
        }
        lemma_increasing_subjects_unique(ta, tb);
        assert(a =~= b) by {
            assert forall|k: int| 0 <= k < a.len() implies a[k] == b[k] by {
                if k > 0 {
                    assert(a[k] == ta[k - 1] && b[k] == tb[k - 1]);
                }
            }
        }
    }
}

proof fn lemma_take_one_more<T>(s: Seq<T>, k: int, x: T)
    requires
        0 <= k < s.len(),
    ensures
        s.take(k + 1).contains(x) <==> (s.take(k).contains(x) || s[k] == x),
{
    let t = s.take(k);
    assert(s.take(k + 1) =~= t.push(s[k]));
    if t.push(s[k]).contains(x) && !t.contains(x) {
        let m = choose|m: int| 0 <= m < t.len() + 1 && #[trigger] t.push(s[k])[m] == x;
        if m < t.len() {
            assert(t[m] == x);
        }
    }
    if t.contains(x) {
        let m = choose|m: int| 0 <= m < t.len() && #[trigger] t[m] == x;
        assert(t.push(s[k])[m] == x);
    }
    if s[k] == x {
        assert(t.push(s[k])[t.len() as int] == x);
    }
}

/// A contributed work of the definition that is stored.
pub open spec fn stored_contribution(d: MilestoneDefinition, existing: Seq<WorkId>, w: WorkId) -> bool {
    contributed_work(d.contributions@).contains(w) && existing.contains(w)
}

/// A subject a definition obliges a transform to declare: its outcome, a
/// required obligation, a consumer, contributed evidence, or a contributed
/// work that is stored.
pub open spec fn declared_by(d: MilestoneDefinition, existing: Seq<WorkId>, s: SubjectRef) -> bool {
    ||| s == SubjectRef::Outcome(d.outcome_id)
    ||| (s matches SubjectRef::Obligation(o) && d.required_obligation_ids@.contains(o))
    ||| d.consumers@.contains(s)
    ||| (s matches SubjectRef::Evidence(e) && contributed_evidence(d.contributions@).contains(e))
    ||| (s matches SubjectRef::Work(w) && stored_contribution(d, existing, w))
}

fn holds_work(v: &[WorkId], w: WorkId) -> (r: bool)
    ensures
        r == v@.contains(w),
{
    let mut k: usize = 0;
    while k < v.len()
        invariant
            k <= v@.len(),
            forall|m: int| 0 <= m < k ==> v@[m] != w,
        decreases v@.len() - k,
    {
        if v[k].0 == w.0 {
            return true;
        }
        k += 1;
    }
    false
}

fn add_definition_scope(subjects: &mut Vec<SubjectRef>, works: &mut Vec<WorkId>, d: &MilestoneDefinition, existing: &[WorkId])
    requires
        subjects_increasing(old(subjects)@),
        increasing_works(old(works)@),
    ensures
        subjects_increasing(final(subjects)@),
        increasing_works(final(works)@),
        forall|s: SubjectRef| #[trigger] final(subjects)@.to_set().contains(s) <==> (old(subjects)@.to_set().contains(s)
            || declared_by(*d, existing@, s)),
        forall|w: WorkId| #[trigger] final(works)@.contains(w) <==> (old(works)@.contains(w) || stored_contribution(*d, existing@, w)),
{
    let ghost s0 = subjects@.to_set();
    let ghost w0 = works@;
    insert_subject_ref(subjects, SubjectRef::Outcome(d.outcome_id));
    insert_obligation_subjects(subjects, &d.required_obligation_ids);
    insert_subjects(subjects, d.consumers.as_slice());
    let ghost s3 = subjects@.to_set();
    assert forall|s: SubjectRef| #[trigger] s3.contains(s) <==> (s0.contains(s) || s == SubjectRef::Outcome(d.outcome_id)
        || (s matches SubjectRef::Obligation(o) && d.required_obligation_ids@.contains(o)) || d.consumers@.contains(s)) by {
        assert(d.consumers@.contains(s) <==> d.consumers@.to_set().contains(s));
    }
    let evidence = d.evidence_ids();
    let mut k: usize = 0;
    while k < evidence.len()
        invariant
            k <= evidence@.len(),
            subjects_increasing(subjects@),
            forall|s: SubjectRef| #[trigger] subjects@.to_set().contains(s) <==> (s3.contains(s)
                || (s matches SubjectRef::Evidence(e) && evidence@.take(k as int).contains(e))),
        decreases evidence@.len() - k,
    {
        let ghost before = subjects@.to_set();
        insert_subject_ref(subjects, SubjectRef::Evidence(evidence[k]));
        proof {
            assert forall|s: SubjectRef| #[trigger] subjects@.to_set().contains(s) <==> (s3.contains(s)
                || (s matches SubjectRef::Evidence(e) && evidence@.take(k as int + 1).contains(e))) by {
                if let SubjectRef::Evidence(e) = s {
                    lemma_take_one_more(evidence@, k as int, e);
                }
            }
        }
        k += 1;
    }
    assert(evidence@.take(k as int) =~= evidence@);
    let ghost s4 = subjects@.to_set();
    let contributed = d.work_ids();
    let mut m: usize = 0;
    while m < contributed.len()
        invariant
            m <= contributed@.len(),
            contributed@ == contributed_work(d.contributions@),
            subjects_increasing(subjects@),
            increasing_works(works@),
            forall|s: SubjectRef| #[trigger] subjects@.to_set().contains(s) <==> (s4.contains(s)
                || (s matches SubjectRef::Work(w) && contributed@.take(m as int).contains(w) && existing@.contains(w))),
            forall|w: WorkId| #[trigger] works@.contains(w) <==> (w0.contains(w)
                || (contributed@.take(m as int).contains(w) && existing@.contains(w))),
        decreases contributed@.len() - m,
    {
        let w = contributed[m];
        if holds_work(existing, w) {
            insert_work(works, w);
            insert_subject_ref(subjects, SubjectRef::Work(w));
        }
        proof {
            assert forall|x: WorkId| #[trigger] contributed@.take(m as int + 1).contains(x) <==> (contributed@.take(m as int).contains(x) || contributed@[m as int] == x) by {
                lemma_take_one_more(contributed@, m as int, x);
            }
            assert forall|s: SubjectRef| #[trigger] subjects@.to_set().contains(s) <==> (s4.contains(s)
                || (s matches SubjectRef::Work(x) && contributed@.take(m as int + 1).contains(x) && existing@.contains(x))) by {
                if let SubjectRef::Work(x) = s {
                    assert(contributed@.take(m as int + 1).contains(x) <==> (contributed@.take(m as int).contains(x) || contributed@[m as int] == x));
                }
            }
        }
        m += 1;
    }
    assert(contributed@.take(m as int) =~= contributed@);
    assert forall|s: SubjectRef| #[trigger] subjects@.to_set().contains(s) <==> (s0.contains(s) || declared_by(*d, existing@, s)) by {
        if let SubjectRef::Evidence(e) = s {
            assert(evidence@ == contributed_evidence(d.contributions@));
        }
    }
}

/// Some of the first `n` definitions obliges the transform to declare the
/// subject.
pub open spec fn scope_subject(defs: Seq<&MilestoneDefinition>, n: int, existing: Seq<WorkId>, s: SubjectRef) -> bool {
    exists|i: int| 0 <= i < n && declared_by(*#[trigger] defs[i], existing, s)
}

/// Some of the first `n` definitions contributes the stored work.
pub open spec fn scope_work(defs: Seq<&MilestoneDefinition>, n: int, existing: Seq<WorkId>, w: WorkId) -> bool {
    exists|i: int| 0 <= i < n && stored_contribution(*#[trigger] defs[i], existing, w)
}

/// The scope a transform declares is exactly what its definitions oblige:
/// the stored works they contribute, each once in order, and every subject
/// they oblige, each once in subject order.
pub open spec fn scope_declared(
    defs: Seq<&MilestoneDefinition>,
    existing: Seq<WorkId>,
    affected_work_ids: Seq<WorkId>,
    affected_subjects: Seq<SubjectRef>,
) -> bool {
    &&& increasing_works(affected_work_ids)
    &&& forall|w: WorkId| #[trigger] affected_work_ids.contains(w) <==> scope_work(defs, defs.len() as int, existing, w)
    &&& subjects_increasing(affected_subjects)
    &&& forall|s: SubjectRef| #[trigger] affected_subjects.contains(s) <==> scope_subject(defs, defs.len() as int, existing, s)
}

fn same_work_list(a: &Vec<WorkId>, b: &[WorkId]) -> (r: bool)
    ensures
        r == (a@ == b@),
{
    if a.len() != b.len() {
        return false;
    }
    let mut i: usize = 0;
    while i < a.len()
        invariant
            i <= a@.len(),
            a@.len() == b@.len(),
            forall|k: int| 0 <= k < i ==> a@[k] == b@[k],
        decreases a@.len() - i,
    {
        if a[i].0 != b[i].0 {
            return false;
        }
        i += 1;
    }
    assert(a@ =~= b@);
    true
}

fn same_subject_list(a: &Vec<SubjectRef>, b: &[SubjectRef]) -> (r: bool)
    ensures
        r == (a@ == b@),
{
    if a.len() != b.len() {
        return false;
    }
    let mut i: usize = 0;
    while i < a.len()
        invariant
            i <= a@.len(),
            a@.len() == b@.len(),
            forall|k: int| 0 <= k < i ==> a@[k] == b@[k],
        decreases a@.len() - i,
    {
        if a[i] != b[i] {
            return false;
        }
        i += 1;
    }
    assert(a@ =~= b@);
    true
}

/// Refuses a transform whose declared scope is not exactly the scope its
/// definitions, before and after, oblige. `existing` lists the stored works.
pub fn validate_declared_scope(
    definitions: &[&MilestoneDefinition],
    existing: &[WorkId],
    affected_work_ids: &[WorkId],
    affected_subjects: &[SubjectRef],
) -> (r: Result<(), ZapError>)
    ensures
        r is Ok <==> scope_declared(definitions@, existing@, affected_work_ids@, affected_subjects@),
        r matches Err(e) ==> e.code == ErrorCode::Conflict,
{
    let mut subjects: Vec<SubjectRef> = Vec::new();
    let mut works: Vec<WorkId> = Vec::new();
    let mut i: usize = 0;
    while i < definitions.len()
        invariant
            i <= definitions@.len(),
            subjects_increasing(subjects@),
            increasing_works(works@),
            forall|s: SubjectRef| #[trigger] subjects@.to_set().contains(s) <==> scope_subject(definitions@, i as int, existing@, s),
            forall|w: WorkId| #[trigger] works@.contains(w) <==> scope_work(definitions@, i as int, existing@, w),
        decreases definitions@.len() - i,
    {
        let d = definitions[i];
        add_definition_scope(&mut subjects, &mut works, d, existing);
        proof {
            assert forall|s: SubjectRef| #[trigger] subjects@.to_set().contains(s) <==> scope_subject(definitions@, i as int + 1, existing@, s) by {
                if scope_subject(definitions@, i as int + 1, existing@, s) && !declared_by(*definitions@[i as int], existing@, s) {
                    let j = choose|j: int| 0 <= j < i + 1 && declared_by(*#[trigger] definitions@[j], existing@, s);
                    assert(j < i);
                }
                if declared_by(*definitions@[i as int], existing@, s) {
                    assert(scope_subject(definitions@, i as int + 1, existing@, s));
                }
                if scope_subject(definitions@, i as int, existing@, s) {
                    let j = choose|j: int| 0 <= j < i && declared_by(*#[trigger] definitions@[j], existing@, s);
                    assert(scope_subject(definitions@, i as int + 1, existing@, s));
                }
            }
            assert forall|w: WorkId| #[trigger] works@.contains(w) <==> scope_work(definitions@, i as int + 1, existing@, w) by {
                if scope_work(definitions@, i as int + 1, existing@, w) && !stored_contribution(*definitions@[i as int], existing@, w) {
                    let j = choose|j: int| 0 <= j < i + 1 && stored_contribution(*#[trigger] definitions@[j], existing@, w);
                    assert(j < i);
                }
                if stored_contribution(*definitions@[i as int], existing@, w) {
                    assert(scope_work(definitions@, i as int + 1, existing@, w));
                }
                if scope_work(definitions@, i as int, existing@, w) {
                    let j = choose|j: int| 0 <= j < i && stored_contribution(*#[trigger] definitions@[j], existing@, w);
                    assert(scope_work(definitions@, i as int + 1, existing@, w));
                }
            }
        }
        i += 1;
    }
    let works_match = same_work_list(&works, affected_work_ids);
    let subjects_match = same_subject_list(&subjects, affected_subjects);
    proof {
        let declared = scope_declared(definitions@, existing@, affected_work_ids@, affected_subjects@);
        if declared {
            lemma_increasing_works_unique(works@, affected_work_ids@);
            assert forall|s: SubjectRef| #[trigger] subjects@.contains(s) <==> affected_subjects@.contains(s) by {
                assert(subjects@.contains(s) <==> subjects@.to_set().contains(s));
            }
            lemma_increasing_subjects_unique(subjects@, affected_subjects@);
        }
        if works_match && subjects_match {
            assert forall|s: SubjectRef| #[trigger] affected_subjects@.contains(s) <==> scope_subject(definitions@, definitions@.len() as int, existing@, s) by {
                assert(subjects@.contains(s) <==> subjects@.to_set().contains(s));
            }
        }
    }
    if !works_match || !subjects_match {
        return Err(ZapError::new(ErrorCode::Conflict));
    }
    Ok(())
}

/// A contribution together with the milestone that owns it.
#[derive(Clone, Copy, Debug, PartialEq, Eq, Structural)]
pub struct MilestoneOwnedContribution {
    pub owner_id: MilestoneId,
    pub contribution: MilestoneContribution,
}

/// Owned contributions are ordered by owner, then by contribution.
pub open spec fn owned_lt(a: MilestoneOwnedContribution, b: MilestoneOwnedContribution) -> bool {
    a.owner_id.0 < b.owner_id.0 || (a.owner_id.0 == b.owner_id.0 && key4_lt(contribution_key(a.contribution), contribution_key(b.contribution)))
}

/// Each owned contribution comes strictly after the one before it.
pub open spec fn owned_strictly_sorted(s: Seq<MilestoneOwnedContribution>) -> bool {
    forall|i: int, j: int| 0 <= i < j < s.len() ==> owned_lt(#[trigger] s[i], #[trigger] s[j])
}

fn owned_lt_exec(a: MilestoneOwnedContribution, b: MilestoneOwnedContribution) -> (r: bool)
    ensures
        r == owned_lt(a, b),
{
    a.owner_id.0 < b.owner_id.0 || (a.owner_id.0 == b.owner_id.0
        && key4_lt_exec(key_of_contribution(a.contribution), key_of_contribution(b.contribution)))
}

fn strictly_sorted_owned(s: &[MilestoneOwnedContribution]) -> (r: bool)
    ensures
        r == owned_strictly_sorted(s@),
{
    let mut k: usize = 1;
    if s.len() == 0 {
        return true;
    }
    while k < s.len()
        invariant
            1 <= k <= s@.len(),
            forall|i: int, j: int| 0 <= i < j < k ==> owned_lt(#[trigger] s@[i], #[trigger] s@[j]),
        decreases s@.len() - k,
    {
        if !owned_lt_exec(s[k - 1], s[k]) {
            return false;
        }
        proof {
            assert forall|i: int, j: int| 0 <= i < j < k + 1 implies owned_lt(#[trigger] s@[i], #[trigger] s@[j]) by {
                if j == k as int && i < k - 1 {
                    assert(owned_lt(s@[i], s@[k - 1]));
                }
            }
        }
        k += 1;
    }
    true
}

/// Some active owned contribution after the transform is this contribution.
pub open spec fn still_held(after: Seq<MilestoneOwnedContribution>, c: MilestoneContribution) -> bool {
    exists|k: int| 0 <= k < after.len() && (#[trigger] after[k]).contribution == c
}

/// The removed contributions that no milestone holds after the transform.
pub open spec fn unrouted(removed: Seq<MilestoneOwnedContribution>, after: Seq<MilestoneOwnedContribution>) -> Seq<MilestoneOwnedContribution> {
    removed.filter(|r: MilestoneOwnedContribution| !still_held(after, r.contribution))
}

fn held_after(after: &[MilestoneOwnedContribution], c: MilestoneContribution) -> (r: bool)
    ensures
        r == still_held(after@, c),
{
    let mut k: usize = 0;
    while k < after.len()
        invariant
            k <= after@.len(),
            forall|m: int| 0 <= m < k ==> (#[trigger] after@[m]).contribution != c,
        decreases after@.len() - k,
    {
        if after[k].contribution == c {
            return true;
        }
        k += 1;
    }
    false
}

/// Refuses a transform whose declared dormant contributions are not exactly
/// the removed contributions that no milestone holds afterwards, in strict
/// order. `removed` are the owned contributions the transform removes, in
/// order, and `after` the owned contributions of the active milestones after
/// it.
pub fn validate_dormant_contributions(
    dormant: &[MilestoneOwnedContribution],
    removed: &[MilestoneOwnedContribution],
    after: &[MilestoneOwnedContribution],
) -> (r: Result<(), ZapError>)
    ensures
        r is Ok <==> (owned_strictly_sorted(dormant@) && dormant@ == unrouted(removed@, after@)),
        r matches Err(e) ==> e.code == ErrorCode::Conflict,
{
    let ghost keep = |x: MilestoneOwnedContribution| !still_held(after@, x.contribution);
    let mut expected: Vec<MilestoneOwnedContribution> = Vec::new();
    let mut k: usize = 0;
    assert(removed@.take(0).filter(keep) =~= Seq::<MilestoneOwnedContribution>::empty());
    while k < removed.len()
        invariant
            k <= removed@.len(),
            keep == (|x: MilestoneOwnedContribution| !still_held(after@, x.contribution)),
            expected@ == removed@.take(k as int).filter(keep),
        decreases removed@.len() - k,
    {
        let r = removed[k];
        proof {
            assert(removed@.take(k as int + 1) =~= removed@.take(k as int).push(r));
            removed@.take(k as int).lemma_filter_push(r, keep);
        }
        if !held_after(after, r.contribution) {
            expected.push(r);
        }
        k += 1;
    }
    assert(removed@.take(k as int) =~= removed@);
    let sorted = strictly_sorted_owned(dormant);
    let mut same = expected.len() == dormant.len();
    let mut i: usize = 0;
    while same && i < expected.len()
        invariant
            i <= expected@.len(),
            same ==> expected@.len() == dormant@.len(),
            same ==> forall|m: int| 0 <= m < i ==> expected@[m] == dormant@[m],
            !same ==> expected@ != dormant@,
        decreases expected@.len() - i,
    {
        if expected[i] != dormant[i] {
            same = false;
        }
        i += 1;
    }
    if same {
        assert(expected@ =~= dormant@);
    }
    if !sorted || !same {
        return Err(ZapError::new(ErrorCode::Conflict));
    }
    Ok(())
}

} // verus!
