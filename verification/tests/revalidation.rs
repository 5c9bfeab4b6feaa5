use zap::error::ErrorCode;
use zap::ids::{ObservationRef, Revision, WorkId};
use zap::revalidation::{
    ReconciliationAction, ReconciliationSafeState, WorkRevalidationReleaseInput, WorkRevalidationReleaseKey,
    WorkRevalidationReleaseRecord,
};

fn key() -> WorkRevalidationReleaseKey {
    WorkRevalidationReleaseKey {
        review_id: "rv".to_string(),
        job_id: "job-1".to_string(),
        attempt_id: "".to_string(),
        request_id: "req".to_string(),
    }
}

fn input(action: ReconciliationAction, state: ReconciliationSafeState, from: u64, to: u64, no_effect: bool) -> WorkRevalidationReleaseInput {
    WorkRevalidationReleaseInput {
        key: key(),
        work_id: WorkId(1),
        from_generation: from,
        released_generation: to,
        selected_action: action,
        safe_state: state,
        release_observation: ObservationRef(2),
        no_effect_observation: if no_effect { Some(ObservationRef(3)) } else { None },
        release_revision: Revision(9),
    }
}

#[test]
fn release_key_frames_each_component_by_its_length() {
    let bytes = key().encode_key().ok().unwrap();
    let expected: Vec<u8> = [
        &[0u8, 0, 0, 2][..],
        &b"rv"[..],
        &[0u8, 0, 0, 5][..],
        &b"job-1"[..],
        &[0u8, 0, 0, 0][..],
        &[0u8, 0, 0, 3][..],
        &b"req"[..],
    ]
    .concat();
    assert_eq!(bytes, expected);
}

#[test]
fn revalidate_release_must_be_safe_and_newer() {
    let ok = WorkRevalidationReleaseRecord::new(input(ReconciliationAction::Revalidate, ReconciliationSafeState::Safe, 1, 2, false));
    let record = ok.ok().unwrap();
    assert_eq!(record.released_generation(), 2);
    assert_eq!(record.from_generation(), 1);
    assert_eq!(record.selected_action(), ReconciliationAction::Revalidate);
    assert_eq!(record.safe_state(), ReconciliationSafeState::Safe);
    assert_eq!(record.work_id(), &WorkId(1));
    assert_eq!(record.release_observation(), &ObservationRef(2));
    assert_eq!(record.release_revision(), Revision(9));
    assert_eq!(record.key_ref().job_id, "job-1");
    assert!(WorkRevalidationReleaseRecord::new(input(ReconciliationAction::Revalidate, ReconciliationSafeState::Completed, 1, 3, false)).is_ok());
    let same = WorkRevalidationReleaseRecord::new(input(ReconciliationAction::Revalidate, ReconciliationSafeState::Safe, 2, 2, false));
    assert_eq!(same.err().unwrap().code, ErrorCode::InvalidValue);
    let unsafe_state = WorkRevalidationReleaseRecord::new(input(ReconciliationAction::Revalidate, ReconciliationSafeState::NotStarted, 1, 2, false));
    assert!(unsafe_state.is_err());
}

#[test]
fn not_required_release_needs_no_effect_evidence() {
    let ok = WorkRevalidationReleaseRecord::new(input(ReconciliationAction::NotRequired, ReconciliationSafeState::NoEffectProven, 4, 4, true));
    assert!(ok.is_ok());
    let missing = WorkRevalidationReleaseRecord::new(input(ReconciliationAction::NotRequired, ReconciliationSafeState::NoEffectProven, 4, 4, false));
    assert!(missing.is_err());
    let moved = WorkRevalidationReleaseRecord::new(input(ReconciliationAction::NotRequired, ReconciliationSafeState::NoEffectProven, 4, 5, true));
    assert!(moved.is_err());
    let drain = WorkRevalidationReleaseRecord::new(input(ReconciliationAction::Drain, ReconciliationSafeState::Safe, 1, 2, true));
    assert!(drain.is_err());
}
