//! What the environment decides: the current time and fresh identifiers.
//!
//! Of the time nothing is promised, of an identifier only its form. Every
//! function that needs such a value has a sibling that takes the value as
//! an argument and says exactly what it does with it.
use crate::dcom::object::is_random_uuid;
use vstd::prelude::*;

verus! {

/// `chrono::Utc::now().timestamp_millis()`: milliseconds since the Unix
/// epoch, as the system clock has them.
#[verifier::external_body]
pub(crate) fn now_millis() -> i64 {
    chrono::Utc::now().timestamp_millis()
}

/// `chrono::Utc::now().timestamp()`: seconds since the Unix epoch, as the
/// system clock has them.
#[verifier::external_body]
pub(crate) fn now_seconds() -> i64 {
    chrono::Utc::now().timestamp()
}

/// `uuid::Uuid::new_v4()`, written by its `Display`: a random identifier.
/// `new_v4` sets the version to 4 and the variant to that of RFC 4122,
/// whatever the random bits are, and `Display` writes the hyphenated
/// lower-case form.
#[verifier::external_body]
pub(crate) fn random_uuid() -> (id: String)
    ensures
        is_random_uuid(id@),
{
    uuid::Uuid::new_v4().to_string()
}

} // verus!
