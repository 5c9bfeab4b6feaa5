use zap::authority::{AuthorizationRef, OperationRef, PrincipalRole};
use zap::error::ErrorCode;
use zap::identity::{CodecEpoch, ReducerEpoch, StoreEpoch, StoreIdentity};
use zap::ids::{
    ActionClass, BaseId, CampaignId, CommandId, ControlClass, CredentialId, DigestValue, EventId, EventKind, HarnessId,
    ObservationRef, OperationId, PrincipalId, StoreId,
};
use zap::trust::{
    AgentDataBinding, BoundCredentialAuthority, CommandFrame, ControllerEpoch, CoordinatorScope, CredentialAuthority,
    EmptyTrustBootstrap, ExactSecretVerifier, InternalProtocolBinding, OwnerScope, SecretInput, SecretVerifier, TrustBootstrapSource,
    TrustRegistrar, TrustSeal, TrustedHostBinding, validate_bound_frame,
};

#[allow(non_snake_case)]
fn Exact(secret: &[u8]) -> ExactSecretVerifier {
    ExactSecretVerifier::new(secret)
}

fn identity() -> StoreIdentity {
    StoreIdentity {
        store_id: StoreId(1),
        campaign_id: CampaignId(7),
        base_id: BaseId(3),
        store_epoch: StoreEpoch::Zap2,
        codec_epoch: CodecEpoch(1),
        reducer_epoch: ReducerEpoch(1),
    }
}

fn frame(kind: u64) -> CommandFrame {
    CommandFrame {
        store_id: StoreId(1),
        campaign_id: CampaignId(7),
        base_id: BaseId(3),
        kind: EventKind(kind),
        event_id: EventId(11),
        command_id: CommandId(12),
        digest: DigestValue(99),
    }
}

fn epoch(n: u64) -> ControllerEpoch {
    ControllerEpoch::new(n).expect("positive epoch")
}

#[test]
fn controller_epoch_must_be_positive() {
    assert_eq!(ControllerEpoch::new(0).unwrap_err().code, ErrorCode::Unauthorized);
    assert_eq!(epoch(4).get(), 4);
    assert!(epoch(2) < epoch(4));
    assert!(!(epoch(4) < epoch(4)));
}

#[test]
fn secret_input_exposes_exactly_its_bytes() {
    let secret = SecretInput::new(b"owner-secret");
    assert_eq!(secret.expose_to_verifier(), b"owner-secret");
    assert!(Exact(b"owner-secret").verify(SecretInput::new(b"owner-secret")));
    assert!(!Exact(b"owner-secret").verify(SecretInput::new(b"wrong")));
}

#[test]
fn scopes_must_grant_something() {
    assert_eq!(CoordinatorScope::new(CampaignId(7), vec![], epoch(1)).err().unwrap().code, ErrorCode::Unauthorized);
    assert_eq!(OwnerScope::new(CampaignId(7), vec![], epoch(1)).err().unwrap().code, ErrorCode::Unauthorized);
    let scope = CoordinatorScope::new(CampaignId(7), vec![ActionClass(5)], epoch(2)).ok().unwrap();
    assert_eq!(scope.actions(), &[ActionClass(5)]);
    assert_eq!(scope.campaign_id(), &CampaignId(7));
    assert_eq!(scope.controller_epoch().get(), 2);
}

#[test]
fn bound_frame_must_match_store_campaign_base_and_kind() {
    let allowed = [EventKind(1), EventKind(2)];
    assert!(validate_bound_frame(StoreId(1), CampaignId(7), BaseId(3), &allowed, &frame(2)).is_ok());
    assert_eq!(
        validate_bound_frame(StoreId(1), CampaignId(7), BaseId(3), &allowed, &frame(3)).unwrap_err().code,
        ErrorCode::Unauthorized
    );
    assert!(validate_bound_frame(StoreId(2), CampaignId(7), BaseId(3), &allowed, &frame(1)).is_err());
    assert!(validate_bound_frame(StoreId(1), CampaignId(8), BaseId(3), &allowed, &frame(1)).is_err());
    assert!(validate_bound_frame(StoreId(1), CampaignId(7), BaseId(4), &allowed, &frame(1)).is_err());
}

#[test]
fn agent_data_grant_authorizes_only_its_frame_and_seal() {
    let mut registrar = TrustRegistrar::new(TrustSeal(42));
    let handle = registrar
        .bind_agent_data(AgentDataBinding {
            principal_id: PrincipalId(5),
            store_id: StoreId(1),
            campaign_id: CampaignId(7),
            base_id: BaseId(3),
            allowed_events: vec![EventKind(1)],
        })
        .ok()
        .unwrap();
    let grant = handle.authorize(&frame(1)).ok().unwrap();
    assert_eq!(grant.actor().principal_id, PrincipalId(5));
    assert_eq!(grant.actor().operation, OperationRef::Command(CommandId(12)));
    assert_eq!(grant.actor().role, PrincipalRole::Worker);
    assert_eq!(grant.campaign_id(), &CampaignId(7));
    assert!(grant.authorizes(TrustSeal(42), &frame(1)));
    assert!(!grant.authorizes(TrustSeal(43), &frame(1)));
    let mut other = frame(1);
    other.digest = DigestValue(100);
    assert!(!grant.authorizes(TrustSeal(42), &other));
    assert_eq!(handle.authorize(&frame(2)).err().unwrap().code, ErrorCode::Unauthorized);
}

#[test]
fn trusted_host_and_internal_protocol_issue_bound_grants() {
    let mut registrar = TrustRegistrar::new(TrustSeal(9));
    let host = registrar
        .bind_trusted_host(TrustedHostBinding {
            principal_id: PrincipalId(1),
            harness_id: HarnessId(2),
            store_id: StoreId(1),
            campaign_id: CampaignId(7),
            base_id: BaseId(3),
            controller_epoch: epoch(1),
            observation: ObservationRef(4),
            allowed_events: vec![EventKind(1)],
        })
        .ok()
        .unwrap();
    let grant = host.authorize(&frame(1), OperationRef::Command(CommandId(12))).ok().unwrap();
    assert_eq!(grant.observation_ref(), &ObservationRef(4));
    assert_eq!(grant.harness_id(), &HarnessId(2));
    assert_eq!(grant.actor().role, PrincipalRole::TrustedHost);
    assert!(grant.authorizes(TrustSeal(9), &frame(1)));
    assert!(!grant.authorizes(TrustSeal(8), &frame(1)));

    let protocol = registrar
        .bind_internal_protocol(InternalProtocolBinding {
            principal_id: PrincipalId(2),
            store_id: StoreId(1),
            campaign_id: CampaignId(7),
            base_id: BaseId(3),
            controller_epoch: epoch(3),
            allowed_events: vec![EventKind(1)],
        })
        .ok()
        .unwrap();
    let permit = protocol.authorize(&frame(1), OperationId(77)).ok().unwrap();
    assert_eq!(permit.operation(), &OperationId(77));
    assert_eq!(permit.principal_id(), &PrincipalId(2));
    assert!(permit.authorizes(TrustSeal(9), &frame(1)));
}

#[test]
fn a_principal_or_credential_is_bound_once() {
    let mut registrar = TrustRegistrar::new(TrustSeal(1));
    let binding = || AgentDataBinding {
        principal_id: PrincipalId(5),
        store_id: StoreId(1),
        campaign_id: CampaignId(7),
        base_id: BaseId(3),
        allowed_events: vec![EventKind(1)],
    };
    assert!(registrar.bind_agent_data(binding()).is_ok());
    assert_eq!(registrar.bind_agent_data(binding()).err().unwrap().code, ErrorCode::DuplicateIdentity);
    let empty = AgentDataBinding { allowed_events: vec![], principal_id: PrincipalId(6), ..binding() };
    assert_eq!(registrar.bind_agent_data(empty).err().unwrap().code, ErrorCode::DuplicateIdentity);

    assert!(registrar
        .bind_reader(CredentialId(1), CampaignId(7), Box::new(Exact(b"s")), AuthorizationRef::new("ref"))
        .is_ok());
    assert_eq!(
        registrar
            .bind_reader(CredentialId(1), CampaignId(8), Box::new(Exact(b"t")), AuthorizationRef::new("ref"))
            .unwrap_err()
            .code,
        ErrorCode::DuplicateIdentity
    );
}

#[test]
fn coordinator_scope_must_be_for_the_same_campaign() {
    let mut registrar = TrustRegistrar::new(TrustSeal(1));
    let scope = CoordinatorScope::new(CampaignId(8), vec![ActionClass(1)], epoch(1)).ok().unwrap();
    assert_eq!(
        registrar
            .bind_coordinator(CredentialId(2), CampaignId(7), Box::new(Exact(b"s")), scope, AuthorizationRef::new("r"))
            .unwrap_err()
            .code,
        ErrorCode::Unauthorized
    );
}

#[test]
fn registry_validation_and_authentication() {
    let mut registrar = TrustRegistrar::new(TrustSeal(1));
    let coordinator = CoordinatorScope::new(CampaignId(7), vec![ActionClass(5), ActionClass(6)], epoch(2)).ok().unwrap();
    registrar
        .bind_coordinator(CredentialId(2), CampaignId(7), Box::new(Exact(b"coord")), coordinator, AuthorizationRef::new("c"))
        .unwrap();
    let owner = OwnerScope::new(CampaignId(7), vec![ControlClass(3)], epoch(2)).ok().unwrap();
    registrar.bind_owner(CredentialId(3), CampaignId(7), Box::new(Exact(b"own")), owner, AuthorizationRef::new("o")).unwrap();
    registrar.bind_reader(CredentialId(4), CampaignId(7), Box::new(Exact(b"read")), AuthorizationRef::new("r")).unwrap();
    assert!(EmptyTrustBootstrap.register(&mut registrar).is_ok());
    let registry = registrar.into_registry();
    assert!(registry.validate(&identity()).is_ok());
    assert!(registry.validate_data_routes(&[]).is_ok());
    let authority = BoundCredentialAuthority::new(registry);

    let principal = authority.authenticate(&CredentialId(2), SecretInput::new(b"coord"), &CampaignId(7)).ok().unwrap();
    assert_eq!(principal.role(), PrincipalRole::Coordinator);
    assert_eq!(principal.principal_id(), &PrincipalId(2));
    assert!(principal.allows_action(&ActionClass(6)));
    assert!(!principal.allows_action(&ActionClass(7)));
    assert!(!principal.allows_control(ControlClass(3)));
    assert_eq!(principal.controller_epoch().map(|e| e.get()), Some(2));
    assert_eq!(principal.authorization_ref().as_str(), "c");

    let owner = authority.authenticate(&CredentialId(3), SecretInput::new(b"own"), &CampaignId(7)).ok().unwrap();
    assert!(owner.allows_control(ControlClass(3)));
    assert!(!owner.allows_action(&ActionClass(5)));

    let wrong = authority.authenticate(&CredentialId(2), SecretInput::new(b"nope"), &CampaignId(7));
    assert_eq!(wrong.err().unwrap().code, ErrorCode::Unauthorized);
    let unknown = authority.authenticate(&CredentialId(9), SecretInput::new(b"coord"), &CampaignId(7));
    assert_eq!(unknown.err().unwrap().code, ErrorCode::Unauthorized);
    let foreign = authority.authenticate(&CredentialId(2), SecretInput::new(b"coord"), &CampaignId(8));
    assert_eq!(foreign.err().unwrap().code, ErrorCode::Unauthorized);

    let reader = authority.authorize_read(&CredentialId(4), SecretInput::new(b"read"), &CampaignId(7)).ok().unwrap();
    assert_eq!(reader.principal_id(), &PrincipalId(4));
    assert_eq!(reader.campaign_id(), &CampaignId(7));
    assert_eq!(reader.authorization_ref().as_str(), "r");
}

#[test]
fn registry_refuses_bindings_for_another_store_or_unrouted_events() {
    let mut registrar = TrustRegistrar::new(TrustSeal(1));
    registrar
        .bind_agent_data(AgentDataBinding {
            principal_id: PrincipalId(5),
            store_id: StoreId(2),
            campaign_id: CampaignId(7),
            base_id: BaseId(3),
            allowed_events: vec![EventKind(1)],
        })
        .ok()
        .unwrap();
    let registry = registrar.into_registry();
    assert_eq!(registry.validate(&identity()).unwrap_err().code, ErrorCode::Unauthorized);
    assert_eq!(registry.validate_data_routes(&[EventKind(2)]).unwrap_err().code, ErrorCode::Unauthorized);
    assert!(registry.validate_data_routes(&[EventKind(1)]).is_ok());

    let mut registrar = TrustRegistrar::new(TrustSeal(1));
    registrar.bind_reader(CredentialId(1), CampaignId(7), Box::new(Exact(b"s")), AuthorizationRef::new("")).unwrap();
    assert_eq!(registrar.into_registry().validate(&identity()).unwrap_err().code, ErrorCode::Unauthorized);
}
