use zap::error::{ErrorCode, ZapError};
use zap::ids::{CampaignId, DecisionId, DigestValue, ExceptionId, PauseId, ProblemId, Revision, StopRuleId, WorkId};
use zap::owner_control::{
    ActionExceptionGranted, ActionExceptionGrantedCell, ActionExceptionRecord, ApproachEpochAdvanced,
    ApproachEpochAdvancedCell, ApproachEpochRecord, CampaignPaused, CampaignPausedCell,
    CommandFacts, HoldStatus, OwnerChangeChoice, PauseRecord, PauseResumed, PauseResumedCell,
    PauseScope, PauseSource, PauseStatus, RecordWrite, StopRuleRecord, StopRuleRecorded, StopRuleRecordedCell,
    StopRuleTriggered, StopRuleTriggeredCell, checked_next, hold_status_after,
};

fn facts() -> CommandFacts {
    CommandFacts { campaign_id: CampaignId(1), expected_revision: Revision(10) }
}

fn pause(scope: PauseScope, source: PauseSource) -> PauseRecord {
    PauseRecord {
        pause_id: PauseId(5),
        campaign_id: CampaignId(1),
        scope,
        source,
        status: PauseStatus::Active,
        revision: Revision(11),
        state_digest: DigestValue(77),
    }
}

fn rule() -> StopRuleRecord {
    StopRuleRecord { stop_rule_id: StopRuleId(3), campaign_id: CampaignId(1), active: true, revision: Revision(4) }
}

#[test]
fn revision_advances_by_one() {
    assert_eq!(checked_next(Revision(4)).ok(), Some(Revision(5)));
    assert_eq!(checked_next(Revision(u64::MAX)).unwrap_err().code, ErrorCode::InvalidValue);
}

#[test]
fn owner_pause_must_be_fresh_and_exact() {
    let ok = CampaignPausedCell
        .apply(&facts(), CampaignPaused { pause: pause(PauseScope::Campaign(CampaignId(1)), PauseSource::Owner) }, None)
        .ok()
        .unwrap();
    assert_eq!(ok.1, Revision(11));
    assert_eq!(ok.0.pause_id, PauseId(5));
    let work = pause(PauseScope::Work(vec![WorkId(1), WorkId(2)]), PauseSource::Owner);
    assert!(CampaignPausedCell.apply(&facts(), CampaignPaused { pause: work }, None).is_ok());
    let unsorted = pause(PauseScope::Work(vec![WorkId(2), WorkId(1)]), PauseSource::Owner);
    assert_eq!(CampaignPausedCell.apply(&facts(), CampaignPaused { pause: unsorted }, None).err().unwrap().code, ErrorCode::Conflict);
    let empty = pause(PauseScope::Subjects(vec![]), PauseSource::Owner);
    assert!(CampaignPausedCell.apply(&facts(), CampaignPaused { pause: empty }, None).is_err());
    let foreign = pause(PauseScope::Campaign(CampaignId(2)), PauseSource::Owner);
    assert!(CampaignPausedCell.apply(&facts(), CampaignPaused { pause: foreign }, None).is_err());
    let by_rule = pause(PauseScope::Campaign(CampaignId(1)), PauseSource::StopRule(StopRuleId(3)));
    assert!(CampaignPausedCell.apply(&facts(), CampaignPaused { pause: by_rule }, None).is_err());
    let existing = pause(PauseScope::Campaign(CampaignId(1)), PauseSource::Owner);
    let again = pause(PauseScope::Campaign(CampaignId(1)), PauseSource::Owner);
    assert!(CampaignPausedCell.apply(&facts(), CampaignPaused { pause: again }, Some(&existing)).is_err());
}

#[test]
fn triggered_stop_rule_pauses_the_whole_campaign() {
    let payload = || StopRuleTriggered {
        stop_rule_id: StopRuleId(3),
        rule_revision: Revision(4),
        pause: pause(PauseScope::Campaign(CampaignId(1)), PauseSource::StopRule(StopRuleId(3))),
    };
    assert!(StopRuleTriggeredCell.apply(&facts(), payload(), Some(rule()), true, None).is_ok());
    assert_eq!(StopRuleTriggeredCell.apply(&facts(), payload(), Some(rule()), false, None).err().unwrap().code, ErrorCode::Conflict);
    assert_eq!(StopRuleTriggeredCell.apply(&facts(), payload(), None, true, None).err().unwrap().code, ErrorCode::MissingReference);
    let inactive = StopRuleRecord { active: false, ..rule() };
    assert!(StopRuleTriggeredCell.apply(&facts(), payload(), Some(inactive), true, None).is_err());
    let partial = StopRuleTriggered {
        pause: pause(PauseScope::Work(vec![WorkId(1)]), PauseSource::StopRule(StopRuleId(3))),
        ..payload()
    };
    assert!(StopRuleTriggeredCell.apply(&facts(), partial, Some(rule()), true, None).is_err());
}

#[test]
fn resume_ends_the_exact_active_pause() {
    let payload = PauseResumed { pause_id: PauseId(5), expected_state_digest: DigestValue(77) };
    let stored = pause(PauseScope::Campaign(CampaignId(1)), PauseSource::Owner);
    match PauseResumedCell.apply(&facts(), &payload, Some(stored)).ok().unwrap() {
        RecordWrite::Replace { expected, record } => {
            assert_eq!(expected, Revision(11));
            assert_eq!(record.revision, Revision(12));
            assert_eq!(record.status, PauseStatus::Resumed);
        }
        RecordWrite::Insert(_) => panic!("a resume replaces the pause"),
    }
    let wrong_digest = PauseResumed { expected_state_digest: DigestValue(78), ..payload };
    let stored = pause(PauseScope::Campaign(CampaignId(1)), PauseSource::Owner);
    assert_eq!(PauseResumedCell.apply(&facts(), &wrong_digest, Some(stored)).err().unwrap().code, ErrorCode::Conflict);
    let mut resumed = pause(PauseScope::Campaign(CampaignId(1)), PauseSource::Owner);
    resumed.status = PauseStatus::Resumed;
    assert!(PauseResumedCell.apply(&facts(), &payload, Some(resumed)).is_err());
    assert_eq!(PauseResumedCell.apply(&facts(), &payload, None).err().unwrap().code, ErrorCode::MissingReference);
}

#[test]
fn stop_rule_record_inserts_or_advances() {
    let fresh = StopRuleRecorded { rule: StopRuleRecord { revision: Revision(11), ..rule() } };
    assert!(matches!(StopRuleRecordedCell.apply(&facts(), &fresh, Ok(()), None), Ok(RecordWrite::Insert(_))));
    let next = StopRuleRecorded { rule: StopRuleRecord { revision: Revision(5), ..rule() } };
    match StopRuleRecordedCell.apply(&facts(), &next, Ok(()), Some(rule())) {
        Ok(RecordWrite::Replace { expected, .. }) => assert_eq!(expected, Revision(4)),
        _ => panic!("an advanced rule replaces the stored one"),
    }
    assert_eq!(StopRuleRecordedCell.apply(&facts(), &fresh, Ok(()), Some(rule())).err().unwrap().code, ErrorCode::Conflict);
    let bad = ZapError::new(ErrorCode::InvalidValue);
    assert_eq!(StopRuleRecordedCell.apply(&facts(), &fresh, Err(bad), None).err().unwrap().code, ErrorCode::InvalidValue);
    let foreign = StopRuleRecorded { rule: StopRuleRecord { campaign_id: CampaignId(2), ..fresh.rule } };
    assert!(StopRuleRecordedCell.apply(&facts(), &foreign, Ok(()), None).is_err());
}

#[test]
fn exception_binds_the_active_rule_pause() {
    let exception = ActionExceptionRecord {
        exception_id: ExceptionId(1),
        campaign_id: CampaignId(1),
        pause_id: PauseId(5),
        stop_rule_id: StopRuleId(3),
        consumed: false,
        revision: Revision(11),
    };
    let payload = ActionExceptionGranted { exception };
    let rule_pause = pause(PauseScope::Campaign(CampaignId(1)), PauseSource::StopRule(StopRuleId(3)));
    assert!(ActionExceptionGrantedCell.apply(&facts(), &payload, Some(&rule_pause), Some(rule()), false).is_ok());
    assert!(ActionExceptionGrantedCell.apply(&facts(), &payload, Some(&rule_pause), Some(rule()), true).is_err());
    let owner_pause = pause(PauseScope::Campaign(CampaignId(1)), PauseSource::Owner);
    assert_eq!(
        ActionExceptionGrantedCell.apply(&facts(), &payload, Some(&owner_pause), Some(rule()), false).err().unwrap().code,
        ErrorCode::Conflict
    );
    assert_eq!(
        ActionExceptionGrantedCell.apply(&facts(), &payload, None, Some(rule()), false).err().unwrap().code,
        ErrorCode::MissingReference
    );
    let consumed = ActionExceptionGranted { exception: ActionExceptionRecord { consumed: true, ..exception } };
    assert!(ActionExceptionGrantedCell.apply(&facts(), &consumed, Some(&rule_pause), Some(rule()), false).is_err());
}

#[test]
fn approach_epochs_advance_exactly_once() {
    let first = ApproachEpochAdvanced {
        epoch: ApproachEpochRecord { problem_id: ProblemId(1), epoch: 1, failed_approaches: 0, revision: Revision(11) },
    };
    assert!(matches!(ApproachEpochAdvancedCell.apply(&facts(), &first, None), Ok(RecordWrite::Insert(_))));
    let stored = first.epoch;
    let second = ApproachEpochAdvanced { epoch: ApproachEpochRecord { epoch: 2, revision: Revision(12), ..stored } };
    assert!(matches!(ApproachEpochAdvancedCell.apply(&facts(), &second, Some(stored)), Ok(RecordWrite::Replace { .. })));
    let skipped = ApproachEpochAdvanced { epoch: ApproachEpochRecord { epoch: 3, revision: Revision(12), ..stored } };
    assert_eq!(ApproachEpochAdvancedCell.apply(&facts(), &skipped, Some(stored)).err().unwrap().code, ErrorCode::Conflict);
    let unreset = ApproachEpochAdvanced { epoch: ApproachEpochRecord { failed_approaches: 1, ..first.epoch } };
    assert!(ApproachEpochAdvancedCell.apply(&facts(), &unreset, None).is_err());
    let zero = ApproachEpochAdvanced { epoch: ApproachEpochRecord { epoch: 0, ..first.epoch } };
    assert!(ApproachEpochAdvancedCell.apply(&facts(), &zero, None).is_err());
}

#[test]
fn decided_holds_move_by_choice() {
    assert_eq!(hold_status_after(OwnerChangeChoice::Approve), HoldStatus::ApprovedApplying);
    assert_eq!(hold_status_after(OwnerChangeChoice::Reject), HoldStatus::RejectedRestoring);
    assert_eq!(hold_status_after(OwnerChangeChoice::Revise), HoldStatus::Deferred);
    assert_eq!(hold_status_after(OwnerChangeChoice::Defer), HoldStatus::Deferred);
}
