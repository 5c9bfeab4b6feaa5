use zap::authority::{
    ActionAdmissionBasis, ActorRef, AdmittedAuthority, AdmittedAuthorityV1, AuthorityKindV1, AuthorizationRef, OperationRef,
    PrincipalRole,
};
use zap::ids::{ActionClass, AdmissionId, CommandId, ControlClass, DigestValue, HarnessId, ObservationRef, OperationId, PrincipalId};

fn actor() -> ActorRef {
    ActorRef { principal_id: PrincipalId(4), operation: OperationRef::Command(CommandId(8)), role: PrincipalRole::Owner }
}

#[test]
fn owner_control_keeps_its_reference() {
    let auth = AdmittedAuthority::owner_control(actor(), ControlClass(2), AuthorizationRef::new("grant-1"));
    assert_eq!(auth.actor(), Some(actor()));
    let (class, reference) = auth.owner_control_details().unwrap();
    assert_eq!(class, ControlClass(2));
    assert_eq!(reference.as_str(), "grant-1");
    assert!(auth.privileged_action().is_none());
    assert!(auth.service_operation().is_none());
}

#[test]
fn each_kind_answers_only_its_own_accessor() {
    let basis = ActionAdmissionBasis { digest: DigestValue(3) };
    let privileged = AdmittedAuthority::privileged(actor(), ActionClass(1), basis);
    assert_eq!(privileged.privileged_action(), Some((ActionClass(1), basis)));
    assert!(privileged.owner_control_details().is_none());

    let observed = AdmittedAuthority::trusted_observation(actor(), ObservationRef(5), HarnessId(6));
    assert_eq!(observed.observation_source(), Some(ObservationRef(5)));
    assert_eq!(observed.observation_harness(), Some(HarnessId(6)));

    let service = AdmittedAuthority::service_internal(OperationId(9));
    assert_eq!(service.service_operation(), Some(OperationId(9)));
    assert_eq!(service.actor(), None);

    let data = AdmittedAuthority::agent_data(actor());
    assert_eq!(data.actor(), Some(actor()));
    assert!(data.observation_source().is_none());
}

#[test]
fn first_schema_authority_replays_its_facts() {
    let v1 = AdmittedAuthorityV1::from_parts(
        Some(actor()),
        AuthorityKindV1::TrustedObservation { source: ObservationRef(1), harness: HarnessId(2) },
    );
    let runtime = v1.to_runtime();
    assert_eq!(runtime.actor(), Some(actor()));
    assert_eq!(runtime.observation_source(), Some(ObservationRef(1)));
    assert_eq!(runtime.observation_harness(), Some(HarnessId(2)));

    let privileged = AdmittedAuthorityV1::from_parts(
        Some(actor()),
        AuthorityKindV1::Privileged { action: ActionClass(3), admission: AdmissionId(4) },
    );
    assert_eq!(privileged.privileged_action(), Some((ActionClass(3), AdmissionId(4))));
    assert!(privileged.to_runtime().privileged_action().is_none());
}

#[test]
fn authorization_references_report_emptiness() {
    assert!(AuthorizationRef::new("").is_empty());
    assert!(!AuthorizationRef::new("x").is_empty());
}
