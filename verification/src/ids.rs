//! Identifiers of the `uuid` crate: fresh random identifiers, and their
//! number and text.
use vstd::prelude::*;

verus! {

/// `uuid::Uuid`, an opaque 128-bit identifier.
#[verifier::external_type_specification]
#[verifier::external_body]
pub struct ExUuid(uuid::Uuid);

/// `uuid::Uuid::new_v4`: a random identifier, of which nothing is stated.
#[verifier::external_body]
pub(crate) fn new_uuid() -> uuid::Uuid {
    uuid::Uuid::new_v4()
}

/// `uuid::Uuid::as_u128`: the identifier as its 128-bit number.
#[verifier::external_body]
pub(crate) fn uuid_value(id: &uuid::Uuid) -> u128 {
    id.as_u128()
}

/// A lower-case hexadecimal digit.
pub open spec fn is_hex_digit(c: char) -> bool {
    ('0' <= c && c <= '9') || ('a' <= c && c <= 'f')
}

/// The hyphenated form of an identifier: 36 characters, hyphens after the
/// 8th, 12th, 16th and 20th hexadecimal digit, lower-case hexadecimal
/// digits elsewhere.
pub open spec fn hyphenated_form(s: Seq<char>) -> bool {
    &&& s.len() == 36
    &&& forall|i: int|
        0 <= i < 36 ==> if i == 8 || i == 13 || i == 18 || i == 23 {
            #[trigger] s[i] == '-'
        } else {
            is_hex_digit(s[i])
        }
}

/// `uuid::Uuid::to_string`: the identifier in its hyphenated form, with
/// lower-case digits (`Display` writes the hyphenated form).
#[verifier::external_body]
pub(crate) fn uuid_text(id: &uuid::Uuid) -> (r: String)
    ensures
        hyphenated_form(r@),
{
    id.to_string()
}

} // verus!
