//! Bounded registry identities: index families, capability identifiers and
//! record families.
use vstd::prelude::*;
use vstd::string::StringSliceAdditionalSpecFns;

use crate::error::{ErrorCode, ErrorDetail, IdentityType, ZapError};

verus! {

pub open spec fn is_lower(b: u8) -> bool {
    97 <= b <= 122
}

pub open spec fn is_digit(b: u8) -> bool {
    48 <= b <= 57
}

/// Bytes of a registry key: lower-case letters, digits, `.` and `-`.
pub open spec fn name_byte(b: u8) -> bool {
    is_lower(b) || is_digit(b) || b == 46 || b == 45
}

/// Bytes of a record family: the registry alphabet plus `_`.
pub open spec fn record_family_byte(b: u8) -> bool {
    name_byte(b) || b == 95
}

/// Shape shared by both alphabets: 1..=128 bytes, a lower-case first byte and
/// a lower-case or digit last byte.
pub open spec fn bounded_shape(s: Seq<u8>) -> bool {
    &&& 1 <= s.len() <= 128
    &&& is_lower(s[0])
    &&& (is_lower(s.last()) || is_digit(s.last()))
}

pub open spec fn valid_name_bytes(s: Seq<u8>) -> bool {
    &&& bounded_shape(s)
    &&& forall|i: int| 0 <= i < s.len() ==> #[trigger] name_byte(s[i])
}

pub open spec fn valid_record_family_bytes(s: Seq<u8>) -> bool {
    &&& bounded_shape(s)
    &&& forall|i: int| 0 <= i < s.len() ==> #[trigger] record_family_byte(s[i])
}

/// A text is a valid registry key when its UTF-8 encoding is.
pub open spec fn name_text_valid(s: Seq<char>) -> bool {
    valid_name_bytes(vstd::utf8::encode_utf8(s))
}

pub open spec fn record_family_text_valid(s: Seq<char>) -> bool {
    valid_record_family_bytes(vstd::utf8::encode_utf8(s))
}

fn shape_ok(bytes: &[u8]) -> (r: bool)
    ensures
        r == bounded_shape(bytes@),
{
    let n = bytes.len();
    if n < 1 || n > 128 {
        return false;
    }
    let first = bytes[0];
    let last = bytes[n - 1];
    (97 <= first && first <= 122) && ((97 <= last && last <= 122) || (48 <= last && last <= 57))
}

/// The refusal of an identifier: what it was to be, and its length in bytes.
fn invalid_identity(identity_type: IdentityType, value: &str) -> (e: ZapError)
    ensures
        e.code == ErrorCode::InvalidIdentity,
        e.detail == (ErrorDetail::InvalidIdentity { identity_type, byte_len: value.len() as u64 }),
{
    let byte_len = value.len() as u64;
    ZapError { code: ErrorCode::InvalidIdentity, detail: ErrorDetail::InvalidIdentity { identity_type, byte_len } }
}

/// Checks a bounded lower-case dotted or hyphenated registry key.
pub fn valid_name(value: &str) -> (r: bool)
    ensures
        r == valid_name_bytes(value.spec_bytes()),
{
    let bytes = value.as_bytes();
    if !shape_ok(bytes) {
        return false;
    }
    let mut i: usize = 0;
    while i < bytes.len()
        invariant
            0 <= i <= bytes@.len(),
            bytes@ == value.spec_bytes(),
            forall|j: int| 0 <= j < i ==> #[trigger] name_byte(bytes@[j]),
        decreases bytes@.len() - i,
    {
        let b = bytes[i];
        if !((97 <= b && b <= 122) || (48 <= b && b <= 57) || b == 46 || b == 45) {
            assert(!name_byte(bytes@[i as int]));
            return false;
        }
        i = i + 1;
    }
    true
}

/// Checks a record family, whose alphabet also admits `_`.
pub fn valid_record_family(value: &str) -> (r: bool)
    ensures
        r == valid_record_family_bytes(value.spec_bytes()),
{
    let bytes = value.as_bytes();
    if !shape_ok(bytes) {
        return false;
    }
    let mut i: usize = 0;
    while i < bytes.len()
        invariant
            0 <= i <= bytes@.len(),
            bytes@ == value.spec_bytes(),
            forall|j: int| 0 <= j < i ==> #[trigger] record_family_byte(bytes@[j]),
        decreases bytes@.len() - i,
    {
        let b = bytes[i];
        if !((97 <= b && b <= 122) || (48 <= b && b <= 57) || b == 46 || b == 45 || b == 95) {
            assert(!record_family_byte(bytes@[i as int]));
            return false;
        }
        i = i + 1;
    }
    true
}

/// A validated index family registry key.
#[derive(Debug)]
pub struct IndexFamily {
    text: String,
}

/// A validated capability registry key.
#[derive(Debug)]
pub struct CapabilityId {
    text: String,
}

/// A validated record family; underscores are retained for fixed public families.
#[derive(Debug)]
pub struct RecordFamily {
    text: String,
}

impl View for IndexFamily {
    type V = Seq<char>;

    closed spec fn view(&self) -> Seq<char> {
        self.text@
    }
}

impl View for CapabilityId {
    type V = Seq<char>;

    closed spec fn view(&self) -> Seq<char> {
        self.text@
    }
}

impl View for RecordFamily {
    type V = Seq<char>;

    closed spec fn view(&self) -> Seq<char> {
        self.text@
    }
}

impl Clone for IndexFamily {
    fn clone(&self) -> (r: IndexFamily)
        ensures
            r@ == self@,
    {
        proof {
            use_type_invariant(self);
        }
        IndexFamily { text: self.text.clone() }
    }
}

impl IndexFamily {
    #[verifier::type_invariant]
    spec fn inv(self) -> bool {
        name_text_valid(self.text@)
    }

    /// Parses a bounded lower-case dotted or hyphenated name.
    pub fn parse(value: &str) -> (r: Result<IndexFamily, ZapError>)
        ensures
            r is Ok <==> name_text_valid(value@),
            r matches Ok(n) ==> n@ == value@,
            r matches Err(e) ==> e.code == ErrorCode::InvalidIdentity
                && e.detail == (ErrorDetail::InvalidIdentity { identity_type: IdentityType::IndexFamily, byte_len: value.len() as u64 }),
    {
        if !valid_name(value) {
            return Err(invalid_identity(IdentityType::IndexFamily, value));
        }
        Ok(IndexFamily { text: value.to_owned() })
    }

    /// Returns the exact registry key.
    pub fn as_str(&self) -> (r: &str)
        ensures
            r@ == self@,
            name_text_valid(self@),
    {
        proof {
            use_type_invariant(self);
        }
        self.text.as_str()
    }

    /// Exact equality of two registry keys.
    pub fn same(&self, other: &IndexFamily) -> (r: bool)
        ensures
            r == (self@ == other@),
    {
        self.text == other.text
    }
}

impl Clone for CapabilityId {
    fn clone(&self) -> (r: CapabilityId)
        ensures
            r@ == self@,
    {
        proof {
            use_type_invariant(self);
        }
        CapabilityId { text: self.text.clone() }
    }
}

impl CapabilityId {
    #[verifier::type_invariant]
    spec fn inv(self) -> bool {
        name_text_valid(self.text@)
    }

    /// Parses a bounded lower-case dotted or hyphenated name.
    pub fn parse(value: &str) -> (r: Result<CapabilityId, ZapError>)
        ensures
            r is Ok <==> name_text_valid(value@),
            r matches Ok(n) ==> n@ == value@,
            r matches Err(e) ==> e.code == ErrorCode::InvalidIdentity
                && e.detail == (ErrorDetail::InvalidIdentity { identity_type: IdentityType::CapabilityId, byte_len: value.len() as u64 }),
    {
        if !valid_name(value) {
            return Err(invalid_identity(IdentityType::CapabilityId, value));
        }
        Ok(CapabilityId { text: value.to_owned() })
    }

    /// Returns the exact registry key.
    pub fn as_str(&self) -> (r: &str)
        ensures
            r@ == self@,
            name_text_valid(self@),
    {
        proof {
            use_type_invariant(self);
        }
        self.text.as_str()
    }

    /// Exact equality of two registry keys.
    pub fn same(&self, other: &CapabilityId) -> (r: bool)
        ensures
            r == (self@ == other@),
    {
        self.text == other.text
    }
}

impl Clone for RecordFamily {
    fn clone(&self) -> (r: RecordFamily)
        ensures
            r@ == self@,
    {
        proof {
            use_type_invariant(self);
        }
        RecordFamily { text: self.text.clone() }
    }
}

impl RecordFamily {
    #[verifier::type_invariant]
    spec fn inv(self) -> bool {
        record_family_text_valid(self.text@)
    }

    /// Parses a fixed record family identifier.
    pub fn parse(value: &str) -> (r: Result<RecordFamily, ZapError>)
        ensures
            r is Ok <==> record_family_text_valid(value@),
            r matches Ok(n) ==> n@ == value@,
            r matches Err(e) ==> e.code == ErrorCode::InvalidIdentity
                && e.detail == (ErrorDetail::InvalidIdentity { identity_type: IdentityType::RecordFamily, byte_len: value.len() as u64 }),
    {
        if !valid_record_family(value) {
            return Err(invalid_identity(IdentityType::RecordFamily, value));
        }
        Ok(RecordFamily { text: value.to_owned() })
    }

    /// Returns the exact record family.
    pub fn as_str(&self) -> (r: &str)
        ensures
            r@ == self@,
            record_family_text_valid(self@),
    {
        proof {
            use_type_invariant(self);
        }
        self.text.as_str()
    }

    /// Exact equality of two record families.
    pub fn same(&self, other: &RecordFamily) -> (r: bool)
        ensures
            r == (self@ == other@),
    {
        self.text == other.text
    }
}

/// Every registry key is also a valid record family.
pub proof fn lemma_name_is_record_family(s: Seq<char>)
    requires
        name_text_valid(s),
    ensures
        record_family_text_valid(s),
{
    let b = vstd::utf8::encode_utf8(s);
    assert forall|i: int| 0 <= i < b.len() implies #[trigger] record_family_byte(b[i]) by {
        assert(name_byte(b[i]));
    }
}

} // verus!
