use zap::admission::{
    AdmissionFacts, ChangeHoldFacts, ChangeHoldResolved, ChangeHoldResolvedCell, DecisionFacts,
    ForecastFacts, HoldResolution, SafeJobsFacts,
};
use zap::affected_scope::{WorkNode, dependent_work};
use zap::error::ErrorCode;
use zap::ids::{AssessmentId, BaseId, DecisionId, DigestValue, EffectId, ForecastId, HoldId, JobId, Revision, StoreId, WorkId};
use zap::information_query::{InformationOpportunityCursor, InformationOpportunityQuery, InformationOpportunityQueryInput, QuerySnapshotFacts};
use zap::owner_control::{HoldStatus, OwnerChangeChoice, RecordWrite};

fn hold() -> ChangeHoldFacts {
    ChangeHoldFacts {
        hold_id: HoldId(1),
        assessment_id: AssessmentId(2),
        decision_id: Some(DecisionId(3)),
        forecast_id: None,
        status: HoldStatus::ApprovedApplying,
        no_unknown_effects: true,
        revision: Revision(5),
    }
}

fn resolved(resolution: HoldResolution, applied: Vec<EffectId>) -> ChangeHoldResolved {
    ChangeHoldResolved {
        hold_id: HoldId(1),
        safe_job_ids: vec![JobId(1), JobId(4)],
        forecast_id: None,
        forecast_digest: None,
        applied_effect_ids: applied,
        resolution,
    }
}

fn jobs() -> Option<SafeJobsFacts> {
    Some(SafeJobsFacts { all_safe: true, job_ids: vec![JobId(1), JobId(4)] })
}

fn decision(choice: OwnerChangeChoice) -> Option<DecisionFacts> {
    Some(DecisionFacts { choice, forecast_id: None, forecast_digest: None })
}

#[test]
fn approved_hold_is_released_after_the_final_effect() {
    let admission = Some(AdmissionFacts { applied: true, final_effect: true, applied_effect_ids: vec![EffectId(7)] });
    let release = ChangeHoldResolvedCell
        .apply(&resolved(HoldResolution::ApprovedApplied, vec![EffectId(7)]), Some(hold()), Some(Revision(9)), admission, decision(OwnerChangeChoice::Approve), None, jobs())
        .ok()
        .unwrap();
    assert_eq!(release.hold_expected, Revision(5));
    assert_eq!(release.hold_revision, Revision(6));
    assert_eq!(release.assessment_expected, Revision(9));
    assert_eq!(release.assessment_revision, Revision(10));
}

#[test]
fn hold_release_refusals() {
    let cell = ChangeHoldResolvedCell;
    let unsorted = ChangeHoldResolved { safe_job_ids: vec![JobId(4), JobId(1)], ..resolved(HoldResolution::RejectedBaseline, vec![]) };
    assert_eq!(
        cell.apply(&unsorted, Some(hold()), Some(Revision(9)), None, decision(OwnerChangeChoice::Reject), None, jobs()).err().unwrap().code,
        ErrorCode::InvalidValue
    );
    let baseline = resolved(HoldResolution::RejectedBaseline, vec![]);
    assert!(cell.apply(&baseline, Some(hold()), Some(Revision(9)), None, decision(OwnerChangeChoice::Reject), None, jobs()).is_ok());
    assert_eq!(
        cell.apply(&baseline, None, Some(Revision(9)), None, decision(OwnerChangeChoice::Reject), None, jobs()).err().unwrap().code,
        ErrorCode::MissingReference
    );
    assert_eq!(
        cell.apply(&baseline, Some(hold()), Some(Revision(9)), None, decision(OwnerChangeChoice::Reject), None, None).err().unwrap().code,
        ErrorCode::NeedsEvidence
    );
    assert_eq!(
        cell.apply(&baseline, Some(hold()), Some(Revision(9)), None, decision(OwnerChangeChoice::Approve), None, jobs()).err().unwrap().code,
        ErrorCode::Conflict
    );
    let released = ChangeHoldFacts { status: HoldStatus::Released, ..hold() };
    assert!(cell.apply(&baseline, Some(released), Some(Revision(9)), None, decision(OwnerChangeChoice::Reject), None, jobs()).is_err());
    let forecast = Some(ForecastFacts { forecast_id: ForecastId(1), digest: DigestValue(2), adjudicated: true });
    assert!(cell.apply(&baseline, Some(hold()), Some(Revision(9)), None, decision(OwnerChangeChoice::Reject), forecast, jobs()).is_err());
    let remaining = resolved(HoldResolution::RejectedRemaining, vec![EffectId(7)]);
    let admission = Some(AdmissionFacts { applied: true, final_effect: false, applied_effect_ids: vec![EffectId(7)] });
    assert!(cell.apply(&remaining, Some(hold()), Some(Revision(9)), admission, decision(OwnerChangeChoice::Reject), None, jobs()).is_ok());
}

fn node(id: u64, depends: &[u64], parent: Option<u64>) -> WorkNode {
    WorkNode {
        work_id: WorkId(id),
        depends_on: depends.iter().map(|d| WorkId(*d)).collect(),
        parent_id: parent.map(WorkId),
    }
}

#[test]
fn dependent_work_is_the_transitive_closure() {
    let rows = vec![node(1, &[], None), node(2, &[1], None), node(3, &[], Some(2)), node(4, &[5], None), node(5, &[4], None), node(6, &[3], None)];
    assert_eq!(dependent_work(&rows, &[WorkId(1)]), vec![WorkId(2), WorkId(3), WorkId(6)]);
    assert_eq!(dependent_work(&rows, &[WorkId(6)]), Vec::<WorkId>::new());
    assert_eq!(dependent_work(&rows, &[WorkId(4)]), vec![WorkId(5)]);
    let reversed: Vec<WorkNode> = vec![node(6, &[3], None), node(3, &[], Some(2)), node(2, &[1], None)];
    assert_eq!(dependent_work(&reversed, &[WorkId(1)]), vec![WorkId(2), WorkId(3), WorkId(6)]);
}

fn snapshot() -> QuerySnapshotFacts {
    QuerySnapshotFacts { store_id: StoreId(1), base_id: BaseId(2), query_epoch: 3, revision: Revision(4) }
}

#[test]
fn information_query_bounds_and_cursor() {
    let q = InformationOpportunityQuery;
    let input = InformationOpportunityQueryInput { decision_id: DecisionId(1), cursor: None, limit: 0, operation_budget: 10 };
    assert_eq!(q.execute(&snapshot(), &input, &[], &[], &[], None).err().unwrap().code, ErrorCode::InvalidValue);
    let over = InformationOpportunityQueryInput { limit: 6, ..input };
    assert_eq!(q.execute(&snapshot(), &over, &[], &[], &[], None).err().unwrap().code, ErrorCode::InvalidValue);
    let ok = InformationOpportunityQueryInput { limit: 5, ..input };
    let page = q.execute(&snapshot(), &ok, &[], &[], &[], None).ok().unwrap();
    assert_eq!(page.examined, 0);
    assert!(page.next.is_none());
    assert!(page.complete);
    assert_eq!(page.through_revision, Revision(4));
    let cursor = InformationOpportunityCursor {
        store_id: StoreId(1),
        base_id: BaseId(2),
        query_epoch: 3,
        snapshot_revision: Revision(4),
        decision_id: DecisionId(1),
        last_opportunity_id: zap::ids::InformationOpportunityId(9),
    };
    let resumed = InformationOpportunityQueryInput { cursor: Some(cursor), ..ok };
    assert_eq!(q.execute(&snapshot(), &resumed, &[], &[], &[], None).err().unwrap().code, ErrorCode::StaleRevision);
}
