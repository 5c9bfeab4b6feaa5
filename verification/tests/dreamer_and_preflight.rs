use zap::dreamer::{
    DreamAdd, DreamApplicationDisposition, DreamDeltaOperation, DreamMove, DreamAttachment, DreamOperation, GrillQuestionId,
    StrategicNode,
};
use zap::error::ErrorCode;
use zap::holds::CandidateScope;
use zap::ids::{DigestValue, HoldId, JobId, WorkId};
use zap::transition::{
    ActionAdmissionPreflightRecord, AffectedScopeView, CommandPreflightRecord, EffectBundlePreflightView, RuntimeJobClaim,
    SafeJobWitness, Seal, ValidatedCommandPreflight,
};

#[test]
fn grill_question_ids_are_positive() {
    assert_eq!(GrillQuestionId::new(0).err().unwrap().code, ErrorCode::InvalidValue);
    assert_eq!(GrillQuestionId::new(3).ok().unwrap().get(), 3);
    assert!(GrillQuestionId::new(2).ok().unwrap() < GrillQuestionId::new(3).ok().unwrap());
}

#[test]
fn applying_an_operation_records_its_disposition() {
    assert_eq!(DreamApplicationDisposition::from(DreamOperation::Add), DreamApplicationDisposition::Added);
    assert_eq!(DreamApplicationDisposition::from(DreamOperation::Remove), DreamApplicationDisposition::Removed);
    assert_eq!(DreamApplicationDisposition::from(DreamOperation::Move), DreamApplicationDisposition::Moved);
    assert_eq!(DreamApplicationDisposition::from(DreamOperation::Replace), DreamApplicationDisposition::Replaced);
}

#[test]
fn delta_operations_name_their_kind() {
    let node = StrategicNode { work_id: WorkId(1) };
    assert_eq!(DreamDeltaOperation::Add(DreamAdd { node }).operation(), DreamOperation::Add);
    assert_eq!(DreamDeltaOperation::Remove { removed_work_id: WorkId(2) }.operation(), DreamOperation::Remove);
    let moved = DreamMove { work_id: WorkId(3), attachment: DreamAttachment::StrategyRoot };
    assert_eq!(DreamDeltaOperation::Move(moved).operation(), DreamOperation::Move);
    assert_eq!(DreamDeltaOperation::Replace { removed_work_id: WorkId(2), replacement: node }.operation(), DreamOperation::Replace);
}

fn scope() -> CandidateScope {
    CandidateScope { affected_work_ids: vec![WorkId(1)], dependent_work_ids: vec![], subjects: vec![] }
}

#[test]
fn preflight_evidence_is_bound_to_its_transaction() {
    let record = CommandPreflightRecord {
        effect_bundles: vec![EffectBundlePreflightView { digest: DigestValue(1) }],
        affected_scopes: vec![
            AffectedScopeView { request_digest: DigestValue(5), scope: scope() },
            AffectedScopeView { request_digest: DigestValue(6), scope: scope() },
        ],
    };
    let witnesses = vec![
        SafeJobWitness { hold_id: HoldId(1), job_ids: vec![JobId(1)], transaction_seal: Seal(8), service_seal: Seal(9) },
        SafeJobWitness { hold_id: HoldId(2), job_ids: vec![JobId(2)], transaction_seal: Seal(7), service_seal: Seal(9) },
    ];
    let claim = RuntimeJobClaim { job_id: JobId(4), transaction_seal: Seal(8), service_seal: Seal(9) };
    let preflight = ValidatedCommandPreflight::new(
        record,
        witnesses,
        Seal(8),
        Seal(9),
        Some(ActionAdmissionPreflightRecord { digest: DigestValue(3) }),
        Some(claim),
    );
    assert_eq!(preflight.effect_preflights().len(), 1);
    assert_eq!(preflight.affected_scope(DigestValue(6)).map(|v| v.request_digest), Some(DigestValue(6)));
    assert!(preflight.affected_scope(DigestValue(4)).is_none());
    assert_eq!(preflight.safe_jobs_for(HoldId(1)).map(|w| w.job_ids.clone()), Some(vec![JobId(1)]));
    assert!(preflight.safe_jobs_for(HoldId(2)).is_none());
    assert_eq!(preflight.packet_resolution(), Some(claim));
    assert_eq!(preflight.action_preflight(), Some(ActionAdmissionPreflightRecord { digest: DigestValue(3) }));
    assert_eq!(preflight.record().affected_scopes.len(), 2);

    let foreign = RuntimeJobClaim { transaction_seal: Seal(1), ..claim };
    let other = ValidatedCommandPreflight::new(
        CommandPreflightRecord { effect_bundles: vec![], affected_scopes: vec![] },
        vec![],
        Seal(8),
        Seal(9),
        None,
        Some(foreign),
    );
    assert_eq!(other.packet_resolution(), None);
}
