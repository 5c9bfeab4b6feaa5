use zap::bytes::compare_bytes;
use zap::error::{ErrorCode, ErrorDetail, IdentityType};
use zap::names::{valid_name, valid_record_family, CapabilityId, IndexFamily, RecordFamily};
use zap::text::{blank, compare_text};

#[test]
fn registry_keys_use_the_bounded_alphabet() {
    assert!(valid_name("zap.basis.work-all.v1"));
    assert!(valid_name("a"));
    assert!(valid_name("a9"));
    assert!(!valid_name(""));
    assert!(!valid_name("9a"));
    assert!(!valid_name("a."));
    assert!(!valid_name("Zap"));
    assert!(!valid_name("work_record"));
    assert!(!valid_name(&"a".repeat(129)));
    assert!(valid_name(&"a".repeat(128)));
}

#[test]
fn record_families_admit_underscores() {
    assert!(valid_record_family("zap.work_record"));
    assert!(!valid_record_family("_work"));
    assert!(!valid_record_family("work_"));
}

#[test]
fn parsing_keeps_the_exact_key() {
    let family = IndexFamily::parse("zap.basis.fact-subject.v1").unwrap();
    assert_eq!(family.as_str(), "zap.basis.fact-subject.v1");
    let same = IndexFamily::parse("zap.basis.fact-subject.v1").unwrap();
    assert!(family.same(&same));
    let other = IndexFamily::parse("zap.basis.region-subject.v1").unwrap();
    assert!(!family.same(&other));
    assert_eq!(CapabilityId::parse("zap.cap.read").unwrap().as_str(), "zap.cap.read");
    assert_eq!(RecordFamily::parse("zap.work_v1").unwrap().as_str(), "zap.work_v1");
}

#[test]
fn invalid_keys_are_refused_as_identity_errors() {
    assert_eq!(IndexFamily::parse("Bad").unwrap_err().code, ErrorCode::InvalidIdentity);
    assert_eq!(CapabilityId::parse("").unwrap_err().code, ErrorCode::InvalidIdentity);
    assert_eq!(RecordFamily::parse("x-").unwrap_err().code, ErrorCode::InvalidIdentity);
}

#[test]
fn blank_text_is_only_white_space() {
    assert!(blank(""));
    assert!(blank(" \t\n\u{3000}"));
    assert!(!blank(" a "));
}

#[test]
fn texts_compare_in_byte_order() {
    assert_eq!(compare_text("abc", "abd"), -1);
    assert_eq!(compare_text("abc", "abc"), 0);
    assert_eq!(compare_text("b", "abc"), 1);
    assert_eq!(compare_text("ab", "abc"), -1);
    assert_eq!(compare_text("é", "z"), 1);
}

#[test]
fn bytes_compare_lexicographically() {
    assert_eq!(compare_bytes(&[], &[]), 0);
    assert_eq!(compare_bytes(&[], &[0]), -1);
    assert_eq!(compare_bytes(&[1, 2], &[1, 1, 9]), 1);
    assert_eq!(compare_bytes(&[1, 2], &[1, 2]), 0);
}

#[test]
fn a_refused_identifier_says_what_it_was_and_its_length() {
    let e = IndexFamily::parse("Zap.Basis").err().unwrap();
    assert_eq!(e.code, ErrorCode::InvalidIdentity);
    assert_eq!(e.detail, ErrorDetail::InvalidIdentity { identity_type: IdentityType::IndexFamily, byte_len: 9 });
    let c = CapabilityId::parse("").err().unwrap();
    assert_eq!(c.detail, ErrorDetail::InvalidIdentity { identity_type: IdentityType::CapabilityId, byte_len: 0 });
    let r = RecordFamily::parse("zap work").err().unwrap();
    assert_eq!(r.detail, ErrorDetail::InvalidIdentity { identity_type: IdentityType::RecordFamily, byte_len: 8 });
}
