use zap::dreamer::{
    check_combined_decision, combined_authorization, current_branch, refuse_under_campaign_pause, DreamBranchFacts, DreamStatus, validate_scoped_amendment, CharterChangeRequirement, CharterRecord,
    CharterRef, CombinedCharterBinding, CombinedDecision, CombinedDecisionFacts, DreamEffectFacts, LifecycleStatus,
};
use zap::error::ErrorCode;
use zap::ids::{
    ActionClass, AssessmentId, CampaignId, ChangeAlternativeId, CharterId, DecisionId, DigestValue, DreamId, ObligationId, PauseId,
    Revision,
};
use zap::owner_control::{OwnerChangeChoice, PauseRecord, PauseScope, PauseSource, PauseStatus};

fn current() -> CharterRecord {
    CharterRecord {
        charter_id: CharterId(1),
        revision: Revision(4),
        parent_digest: None,
        allowed_actions: vec![ActionClass(1), ActionClass(5)],
        mutable_obligations: vec![ObligationId(2)],
        status: LifecycleStatus::Active,
        digest: DigestValue(40),
        terms: DigestValue(77),
    }
}

fn requirement() -> CharterChangeRequirement {
    CharterChangeRequirement {
        original_charter_id: CharterId(1),
        original_revision: Revision(4),
        original_digest: DigestValue(40),
        replacement_charter_id: CharterId(2),
        required_actions: vec![ActionClass(3), ActionClass(5)],
        required_mutable_obligations: vec![ObligationId(9)],
    }
}

fn replacement() -> CharterRecord {
    CharterRecord {
        charter_id: CharterId(2),
        revision: Revision(5),
        parent_digest: Some(DigestValue(40)),
        allowed_actions: vec![ActionClass(1), ActionClass(3), ActionClass(5)],
        mutable_obligations: vec![ObligationId(2), ObligationId(9)],
        status: LifecycleStatus::Proposed,
        digest: DigestValue(41),
        terms: DigestValue(77),
    }
}

#[test]
fn an_amendment_scoped_to_the_requirement_is_accepted() {
    assert!(validate_scoped_amendment(&requirement(), &current(), &replacement()).is_ok());
}

#[test]
fn an_amendment_beyond_the_requirement_is_refused() {
    let mut extra = replacement();
    extra.allowed_actions.push(ActionClass(8));
    assert_eq!(validate_scoped_amendment(&requirement(), &current(), &extra).unwrap_err().code, ErrorCode::Conflict);
    let mut unsorted = replacement();
    unsorted.allowed_actions = vec![ActionClass(3), ActionClass(1), ActionClass(5)];
    assert!(validate_scoped_amendment(&requirement(), &current(), &unsorted).is_err());
    let mut retermed = replacement();
    retermed.terms = DigestValue(78);
    assert!(validate_scoped_amendment(&requirement(), &current(), &retermed).is_err());
    let mut active = replacement();
    active.status = LifecycleStatus::Active;
    assert!(validate_scoped_amendment(&requirement(), &current(), &active).is_err());
    let mut moved = current();
    moved.revision = Revision(5);
    assert!(validate_scoped_amendment(&requirement(), &moved, &replacement()).is_err());
}

#[test]
fn the_last_revision_cannot_be_amended() {
    let mut last = current();
    last.revision = Revision(u64::MAX);
    assert_eq!(validate_scoped_amendment(&requirement(), &last, &replacement()).unwrap_err().code, ErrorCode::InvalidValue);
}

fn pause(status: PauseStatus, scope: PauseScope) -> PauseRecord {
    PauseRecord {
        pause_id: PauseId(1),
        campaign_id: CampaignId(3),
        scope,
        source: PauseSource::Owner,
        status,
        revision: Revision(1),
        state_digest: DigestValue(0),
    }
}

#[test]
fn an_active_campaign_pause_blocks_the_decision() {
    let pauses = [pause(PauseStatus::Active, PauseScope::Campaign(CampaignId(3)))];
    assert_eq!(refuse_under_campaign_pause(&pauses, CampaignId(3)).unwrap_err().code, ErrorCode::Paused);
    assert!(refuse_under_campaign_pause(&pauses, CampaignId(4)).is_ok());
    let resumed = [pause(PauseStatus::Resumed, PauseScope::Campaign(CampaignId(3)))];
    assert!(refuse_under_campaign_pause(&resumed, CampaignId(3)).is_ok());
}

fn facts() -> CombinedDecisionFacts {
    CombinedDecisionFacts {
        dream_id: DreamId(1),
        dream_revision: Revision(6),
        estimate: Some(AssessmentId(2)),
        projection_digest: DigestValue(60),
        current_charter: Some(CharterRef { charter_id: CharterId(1), revision: Revision(4), digest: DigestValue(40) }),
        replacement: CharterRef { charter_id: CharterId(2), revision: Revision(5), digest: DigestValue(41) },
        assessment_digest: Some(DigestValue(90)),
        alternative_effects: Some(vec![DreamEffectFacts {
            dream_id: DreamId(1),
            expected_dream_revision: Revision(6),
            assessment_id: AssessmentId(2),
            projection_digest: DigestValue(60),
            combined_charter: Some(CombinedCharterBinding {
                decision_id: DecisionId(7),
                original_charter_id: CharterId(1),
                original_revision: Revision(4),
                original_digest: DigestValue(40),
                replacement_charter_id: CharterId(2),
                replacement_revision: Revision(5),
                replacement_digest: DigestValue(41),
            }),
        }]),
        authorized: false,
    }
}

fn decision() -> CombinedDecision {
    CombinedDecision {
        decision_id: DecisionId(7),
        assessment_id: AssessmentId(2),
        assessment_digest: DigestValue(90),
        recommended_alternative_id: ChangeAlternativeId(1),
        choice: OwnerChangeChoice::Approve,
    }
}

#[test]
fn a_combined_decision_binds_the_dream_and_charter() {
    assert!(check_combined_decision(&facts(), DigestValue(60), &decision()).is_ok());
    assert_eq!(check_combined_decision(&facts(), DigestValue(61), &decision()).unwrap_err().code, ErrorCode::Conflict);
    let mut reject = decision();
    reject.choice = OwnerChangeChoice::Reject;
    assert!(check_combined_decision(&facts(), DigestValue(60), &reject).is_err());
    let mut stale = decision();
    stale.assessment_digest = DigestValue(91);
    assert!(check_combined_decision(&facts(), DigestValue(60), &stale).is_err());
    let mut authorized = facts();
    authorized.authorized = true;
    assert!(check_combined_decision(&authorized, DigestValue(60), &decision()).is_err());
    let mut two = facts();
    let effect = two.alternative_effects.as_ref().unwrap()[0];
    two.alternative_effects.as_mut().unwrap().push(effect);
    assert!(check_combined_decision(&two, DigestValue(60), &decision()).is_err());
}

#[test]
fn a_decision_acts_on_the_open_branch_at_its_revision() {
    let branch = DreamBranchFacts { dream_id: DreamId(1), revision: Revision(4), status: DreamStatus::Ready };
    assert_eq!(current_branch(Some(branch), Revision(4)).ok(), Some(branch));
    assert_eq!(current_branch(Some(branch), Revision(3)).err().unwrap().code, ErrorCode::Conflict);
    assert_eq!(current_branch(None, Revision(4)).err().unwrap().code, ErrorCode::Conflict);
    for status in [DreamStatus::Applied, DreamStatus::Rejected, DreamStatus::Withdrawn] {
        let closed = DreamBranchFacts { status, ..branch };
        assert_eq!(current_branch(Some(closed), Revision(4)).err().unwrap().code, ErrorCode::Conflict);
    }
    let stale = DreamBranchFacts { status: DreamStatus::Stale, ..branch };
    assert!(current_branch(Some(stale), Revision(4)).is_ok());
}

#[test]
fn a_binding_combined_decision_records_its_authorization() {
    let a = combined_authorization(
        &facts(),
        DigestValue(60),
        &decision(),
        DigestValue(33),
        Revision(3),
        DigestValue(34),
        vec![DigestValue(35)],
        vec![DigestValue(36)],
    )
    .ok()
    .unwrap();
    assert_eq!(a.dream_id, DreamId(1));
    assert_eq!(a.dream_revision, Revision(6));
    assert_eq!(a.charter.replacement_charter_id, CharterId(2));
    assert_eq!(a.amendment_digest, DigestValue(33));
    assert_eq!(a.assessment_revision, Revision(3));
    assert_eq!(a.assessment_digest, DigestValue(90));
    assert_eq!(a.alternative_id, ChangeAlternativeId(1));
    assert_eq!(a.effect_item_digests, vec![DigestValue(36)]);
    assert_eq!(a.revision, Revision(1));
    let mut authorized = facts();
    authorized.authorized = true;
    let refused = combined_authorization(&authorized, DigestValue(60), &decision(), DigestValue(33), Revision(3), DigestValue(34), vec![], vec![]);
    assert_eq!(refused.err().unwrap().code, ErrorCode::Conflict);
}
