//! UUID text, as `uuid::Uuid::parse_str` accepts it.
use vstd::prelude::*;
use crate::redaction::AppError;
use crate::text::owned;

verus! {

/// An ASCII hexadecimal digit, either case.
pub open spec fn hex_byte(b: u8) -> bool {
    (48 <= b <= 57) || (65 <= b <= 70) || (97 <= b <= 102)
}

/// `b` as ASCII lowercase.
pub open spec fn ascii_lower(b: u8) -> u8 {
    if 65 <= b <= 90 {
        (b + 32) as u8
    } else {
        b
    }
}

/// Thirty-two hex digits in groups of 8-4-4-4-12, separated by hyphens.
pub open spec fn hyphenated_uuid(s: Seq<u8>) -> bool {
    s.len() == 36 && forall|i: int|
        0 <= i < 36 ==> if i == 8 || i == 13 || i == 18 || i == 23 {
            #[trigger] s[i] == 45
        } else {
            hex_byte(s[i])
        }
}

/// The text forms of a UUID: 32 hex digits; hyphenated; hyphenated in
/// braces; or hyphenated after `urn:uuid:` (that prefix in any case).
pub open spec fn uuid_text(s: Seq<u8>) -> bool {
    ||| s.len() == 32 && forall|i: int| 0 <= i < 32 ==> hex_byte(#[trigger] s[i])
    ||| hyphenated_uuid(s)
    ||| s.len() == 38 && s[0] == 123 && s[37] == 125 && hyphenated_uuid(s.subrange(1, 37))
    ||| s.len() == 45 && (forall|i: int|
        0 <= i < 9 ==> ascii_lower(#[trigger] s[i]) == seq![117u8, 114, 110, 58, 117, 117, 105, 100, 58][i])
        && hyphenated_uuid(s.subrange(9, 45))
}

/// `uuid::Uuid::parse_str(s).is_ok()`: whether the UTF-8 bytes of `s` are a
/// UUID in one of its four text forms (simple, hyphenated, braced, URN),
/// hex digits in either case.
#[verifier::external_body]
pub(crate) fn parses_as_uuid(s: &str) -> (r: bool)
    ensures
        r == uuid_text(vstd::utf8::encode_utf8(s@)),
{
    uuid::Uuid::parse_str(s).is_ok()
}

/// `id` must be a UUID; else a validation error with `message`.
pub fn require_uuid(id: &str, message: &str) -> (r: Result<(), AppError>)
    ensures
        uuid_text(vstd::utf8::encode_utf8(id@)) ==> r is Ok,
        !uuid_text(vstd::utf8::encode_utf8(id@)) ==> (r matches Err(e) && e matches AppError::Validation(m)
            && m@ == message@),
{
    if !parses_as_uuid(id) {
        return Err(AppError::Validation(owned(message)));
    }
    Ok(())
}

} // verus!
