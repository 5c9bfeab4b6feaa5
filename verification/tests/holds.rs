use zap::error::ErrorCode;
use zap::holds::{CandidateScope, HoldGuardStatus, HoldRecord, change_hold_guard, change_hold_guard_excluding};
use zap::ids::{HoldId, SubjectKey, WorkId};

fn hold(id: u64, affected: &[u64], subjects: &[u64]) -> HoldRecord {
    HoldRecord {
        hold_id: HoldId(id),
        affected_work_ids: affected.iter().map(|w| WorkId(*w)).collect(),
        dependent_work_ids: Vec::new(),
        subject_ids: subjects.iter().map(|s| SubjectKey(*s)).collect(),
        closure_complete: true,
        hold_all_starts: false,
        independence_proven: false,
    }
}

fn candidate() -> CandidateScope {
    CandidateScope {
        affected_work_ids: vec![WorkId(1), WorkId(2)],
        dependent_work_ids: vec![WorkId(5)],
        subjects: vec![SubjectKey(10)],
    }
}

#[test]
fn guard_needs_the_candidate_scope() {
    assert_eq!(change_hold_guard(&[], None).err().unwrap().code, ErrorCode::NeedsEvidence);
}

#[test]
fn no_holds_means_clear() {
    let c = candidate();
    let guard = change_hold_guard(&[], Some(&c)).ok().unwrap();
    assert_eq!(guard.status, HoldGuardStatus::Clear);
    assert!(!guard.blocked());
    assert!(guard.hold_ids.is_empty());
}

#[test]
fn overlapping_hold_blocks_and_reports_sorted_matches() {
    let c = candidate();
    let holds = [hold(9, &[5, 2, 7], &[]), hold(3, &[], &[10, 11]), hold(4, &[8], &[12])];
    let guard = change_hold_guard(&holds, Some(&c)).ok().unwrap();
    assert_eq!(guard.status, HoldGuardStatus::Held);
    assert!(guard.blocked());
    assert_eq!(guard.hold_ids, vec![HoldId(3), HoldId(9)]);
    assert_eq!(guard.matched_work_ids, vec![WorkId(2), WorkId(5)]);
    assert_eq!(guard.matched_subjects, vec![SubjectKey(10)]);
}

#[test]
fn hold_all_starts_blocks_everything() {
    let c = candidate();
    let mut all = hold(6, &[], &[]);
    all.hold_all_starts = true;
    let guard = change_hold_guard(&[all], Some(&c)).ok().unwrap();
    assert_eq!(guard.status, HoldGuardStatus::Held);
    assert_eq!(guard.hold_ids, vec![HoldId(6)]);
}

#[test]
fn unproven_hold_is_reported_only_when_it_comes_first() {
    let c = candidate();
    let mut open = hold(8, &[30], &[]);
    open.closure_complete = false;
    let mut second_open = hold(2, &[31], &[]);
    second_open.closure_complete = false;
    let guard = change_hold_guard(&[open, second_open], Some(&c)).ok().unwrap();
    assert_eq!(guard.status, HoldGuardStatus::Unproven);
    assert!(guard.blocked());
    assert_eq!(guard.hold_ids, vec![HoldId(8)]);

    let mut proven = hold(8, &[30], &[]);
    proven.closure_complete = false;
    proven.independence_proven = true;
    let guard = change_hold_guard(&[proven], Some(&c)).ok().unwrap();
    assert_eq!(guard.status, HoldGuardStatus::Clear);
}

#[test]
fn a_matching_hold_takes_precedence_over_an_unproven_one() {
    let c = candidate();
    let mut open = hold(8, &[30], &[]);
    open.closure_complete = false;
    let matching = hold(1, &[1], &[]);
    let guard = change_hold_guard(&[open, matching], Some(&c)).ok().unwrap();
    assert_eq!(guard.status, HoldGuardStatus::Held);
    assert_eq!(guard.hold_ids, vec![HoldId(1), HoldId(8)]);
    assert_eq!(guard.matched_work_ids, vec![WorkId(1)]);
}

#[test]
fn the_excluded_hold_is_ignored() {
    let c = candidate();
    let holds = [hold(9, &[1], &[])];
    let guard = change_hold_guard_excluding(&holds, Some(&c), Some(HoldId(9))).ok().unwrap();
    assert_eq!(guard.status, HoldGuardStatus::Clear);
    assert!(guard.matched_work_ids.is_empty());
}
