//! The calls into outside crates: fresh identifiers, the clock, and a
//! comparison whose time does not depend on the data.
use vstd::prelude::*;
use subtle::ConstantTimeEq;
use crate::names::canonical_room_id;

verus! {

/// Relies on `uuid::Uuid::new_v4` and uuid's `Display`: a random identifier,
/// written as 8-4-4-4-12 lower-case hexadecimal digits.
#[verifier::external_body]
pub(crate) fn random_uuid() -> (r: String)
    ensures
        canonical_room_id(r@),
{
    uuid::Uuid::new_v4().to_string()
}

/// Relies on `chrono::Utc::now` and `DateTime::timestamp_millis`: the current
/// time in milliseconds since the Unix epoch. Nothing is promised of its value.
#[verifier::external_body]
pub(crate) fn now_millis() -> (r: i64) {
    chrono::Utc::now().timestamp_millis()
}

/// Relies on subtle's `ConstantTimeEq` for byte slices, turned into `bool`:
/// true exactly when the two UTF-8 encodings, hence the two texts, are equal.
/// Between texts of equal length its time does not depend on their contents.
#[verifier::external_body]
pub(crate) fn fixed_time_eq(a: &str, b: &str) -> (r: bool)
    ensures
        r == (a@ == b@),
{
    a.as_bytes().ct_eq(b.as_bytes()).into()
}

} // verus!
