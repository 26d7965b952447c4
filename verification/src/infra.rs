//! Fresh identifiers and the current time.

use vstd::prelude::*;

verus! {

/// `Uuid::new_v4` of the uuid crate, written as text by the `Display` of
/// `Uuid`: a random identifier in the hyphenated form, which has 36
/// characters. Which identifier comes back is not stated: two calls may give
/// any two. The call does not return where the system has no randomness to
/// give.
#[verifier::external_body]
pub(crate) fn uuid() -> (r: String)
    ensures
        r@.len() == 36,
{
    ::uuid::Uuid::new_v4().to_string()
}

/// The system clock, turned into a `DateTime<Utc>` by chrono's conversion
/// from `SystemTime` and read by `DateTime::timestamp`: the seconds between
/// the start of 1970 and now. The conversion takes a clock that stands
/// before 1970 too, and the seconds are then negative; it takes every time
/// that chrono can hold, some 262 000 years to either side of 1970. Nothing
/// is stated of what comes back.
#[verifier::external_body]
pub(crate) fn timestamp() -> (r: i64) {
    ::chrono::DateTime::<::chrono::Utc>::from(::std::time::SystemTime::now()).timestamp()
}

} // verus!
