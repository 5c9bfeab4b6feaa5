use zap::economics_context::{
    baseline_candidates, choose_policy, BaselineFacts, EconomicsBaselineSelection, EconomicsContextInput, PolicyChoice,
};
use zap::error::ErrorCode;
use zap::ids::{ChangeBaselineId, OutcomeId, Revision};

fn baseline(id: u64, policy: u64, active: bool) -> BaselineFacts {
    BaselineFacts {
        baseline_id: ChangeBaselineId(id),
        revision: Revision(id + 100),
        active_outcome_id: OutcomeId(7),
        change_policy_revision: Revision(policy),
        outcome_active: active,
    }
}

#[test]
fn context_bounds_follow_the_profile() {
    let ok = EconomicsContextInput { maximum_records: 10, maximum_candidates: 5 };
    assert!(ok.check_bounds(10).is_ok());
    let zero = EconomicsContextInput { maximum_records: 10, maximum_candidates: 0 };
    assert_eq!(zero.check_bounds(10).unwrap_err().code, ErrorCode::LimitExceeded);
    let wide = EconomicsContextInput { maximum_records: 4, maximum_candidates: 5 };
    assert_eq!(wide.check_bounds(10).unwrap_err().code, ErrorCode::LimitExceeded);
    let over = EconomicsContextInput { maximum_records: 11, maximum_candidates: 5 };
    assert_eq!(over.check_bounds(10).unwrap_err().code, ErrorCode::LimitExceeded);
}

#[test]
fn no_active_policy_selects_the_default() {
    assert_eq!(choose_policy(&[]).unwrap(), PolicyChoice::Default);
    assert_eq!(choose_policy(&[false, false]).unwrap(), PolicyChoice::Default);
}

#[test]
fn one_active_policy_is_selected() {
    assert_eq!(choose_policy(&[false, true, false]).unwrap(), PolicyChoice::Persisted { index: 1 });
}

#[test]
fn two_active_policies_conflict() {
    assert_eq!(choose_policy(&[true, false, true]).unwrap_err().code, ErrorCode::Conflict);
}

#[test]
fn baselines_are_filtered_and_sorted() {
    let scanned = [baseline(9, 3, true), baseline(2, 3, true), baseline(5, 4, true), baseline(4, 3, false)];
    let (candidates, selection) = baseline_candidates(&scanned, Revision(3), false, 10);
    let ids: Vec<u64> = candidates.iter().map(|c| c.baseline_id.0).collect();
    assert_eq!(ids, vec![2, 9]);
    assert_eq!(candidates[0].record_revision, Revision(102));
    assert_eq!(selection, EconomicsBaselineSelection::Ambiguous { truncated: false });
}

#[test]
fn a_single_baseline_is_unique() {
    let scanned = [baseline(9, 3, true), baseline(5, 4, true)];
    let (candidates, selection) = baseline_candidates(&scanned, Revision(3), false, 10);
    assert_eq!(candidates.len(), 1);
    assert_eq!(selection, EconomicsBaselineSelection::Unique { baseline_id: ChangeBaselineId(9) });
}

#[test]
fn no_baseline_is_absent_unless_the_scan_was_cut() {
    let (candidates, selection) = baseline_candidates(&[], Revision(3), false, 10);
    assert!(candidates.is_empty());
    assert_eq!(selection, EconomicsBaselineSelection::Absent);
    let (_, cut) = baseline_candidates(&[], Revision(3), true, 10);
    assert_eq!(cut, EconomicsBaselineSelection::Ambiguous { truncated: true });
}

#[test]
fn candidates_beyond_the_limit_are_cut() {
    let scanned = [baseline(3, 1, true), baseline(1, 1, true), baseline(2, 1, true)];
    let (candidates, selection) = baseline_candidates(&scanned, Revision(1), false, 2);
    let ids: Vec<u64> = candidates.iter().map(|c| c.baseline_id.0).collect();
    assert_eq!(ids, vec![1, 2]);
    assert_eq!(selection, EconomicsBaselineSelection::Ambiguous { truncated: true });
}
