use zap::error::ErrorCode;
use zap::names::CapabilityId;
use zap::registry::{CapabilitySet, RequiredCapabilities};

fn cap(name: &str) -> CapabilityId {
    CapabilityId::parse(name).expect("valid capability id")
}

#[test]
fn empty_capability_set_is_empty() {
    assert!(CapabilitySet::empty().is_empty());
    assert!(!CapabilitySet::single(cap("zap.read")).is_empty());
}

#[test]
fn compose_unions_disjoint_sets() {
    let composed = CapabilitySet::compose(vec![
        CapabilitySet::single(cap("zap.read")),
        CapabilitySet::single(cap("zap.write")),
        CapabilitySet::empty(),
    ])
    .expect("disjoint sets compose");
    assert!(composed.contains(&cap("zap.read")));
    assert!(composed.contains(&cap("zap.write")));
    assert!(!composed.contains(&cap("zap.admin")));
}

#[test]
fn compose_refuses_a_capability_registered_twice() {
    let err = CapabilitySet::compose(vec![
        CapabilitySet::single(cap("zap.read")),
        CapabilitySet::single(cap("zap.write")),
        CapabilitySet::single(cap("zap.read")),
    ])
    .err()
    .expect("duplicate refused");
    assert_eq!(err.code, ErrorCode::DuplicateIdentity);
}

#[test]
fn required_capabilities_need_registration() {
    let available = CapabilitySet::single(cap("zap.read"));
    assert!(RequiredCapabilities::empty().validate(&available).is_ok());
    assert!(RequiredCapabilities::single(cap("zap.read")).validate(&available).is_ok());
    let err = RequiredCapabilities::single(cap("zap.write")).validate(&available).unwrap_err();
    assert_eq!(err.code, ErrorCode::Unavailable);
    assert_eq!(
        RequiredCapabilities::single(cap("zap.read")).validate(&CapabilitySet::empty()).unwrap_err().code,
        ErrorCode::Unavailable
    );
}

#[test]
fn composing_with_the_empty_set_changes_nothing() {
    let left = CapabilitySet::compose(vec![CapabilitySet::empty(), CapabilitySet::single(cap("zap.read"))]).unwrap();
    let right = CapabilitySet::compose(vec![CapabilitySet::single(cap("zap.read")), CapabilitySet::empty()]).unwrap();
    for c in [&left, &right] {
        assert!(c.contains(&cap("zap.read")));
        assert!(!c.contains(&cap("zap.write")));
        assert!(!c.is_empty());
    }
}

#[test]
fn a_composition_is_empty_exactly_when_every_part_is() {
    assert!(CapabilitySet::compose(vec![]).unwrap().is_empty());
    assert!(CapabilitySet::compose(vec![CapabilitySet::empty(), CapabilitySet::empty()]).unwrap().is_empty());
    assert!(!CapabilitySet::compose(vec![CapabilitySet::empty(), CapabilitySet::single(cap("zap.write"))]).unwrap().is_empty());
}
