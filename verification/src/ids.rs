//! Ids that the `uuid` crate makes and reads.

use crate::text;
use vstd::prelude::*;

verus! {

/// Why a text is no UUID.
#[verifier::external_type_specification]
#[verifier::external_body]
pub struct ExUuidError(uuid::Error);

/// The number that a UUID is, where the text is one.
pub uninterp spec fn uuid_number(text: Seq<char>) -> Option<u128>;

/// `Uuid::new_v4`, written with `simple`: 32 hexadecimal digits. Which digits
/// is chance, so nothing is said of them.
#[verifier::external_body]
pub(crate) fn random_id() -> (r: String)
    ensures
        r@.len() == 32,
        text::all_chars(r@, |c: char| text::is_hex_digit(c)),
{
    uuid::Uuid::new_v4().simple().to_string()
}

/// `Uuid::parse_str`: the UUID that a text is, as a number, or an error where
/// it is none. What it accepts is a function of the text alone.
#[verifier::external_body]
fn read_uuid(text: &str) -> (r: Result<u128, uuid::Error>)
    ensures
        r matches Ok(n) ==> uuid_number(text@) == Some(n),
        r is Err ==> uuid_number(text@) is None,
{
    uuid::Uuid::parse_str(text).map(|id| id.as_u128())
}

/// The number that a UUID is, where the text is one.
pub fn parse_uuid(text: &str) -> (r: Option<u128>)
    ensures
        r == uuid_number(text@),
{
    match read_uuid(text) {
        Ok(n) => Some(n),
        Err(_) => None,
    }
}

} // verus!
