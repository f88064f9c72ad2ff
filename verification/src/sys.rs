//! Ambient values that only the surrounding system can produce: the current
//! time and fresh identifiers. Each is a thin trusted boundary; everything
//! that consumes their results is verified for every possible outcome.

use vstd::prelude::*;

verus! {

/// Names the timestamp text chrono renders for a given number of seconds
/// since the Unix epoch; it depends on that number alone.
pub uninterp spec fn rfc3339_of(secs: u64) -> Seq<char>;

/// Relies on chrono's `DateTime::<Utc>::to_rfc3339` (via `From<SystemTime>`):
/// renders the given Unix-epoch second count as an ISO-8601 / RFC 3339 UTC
/// timestamp, a pure function of that count. Counts past the year 9999 are
/// excluded: far enough out, chrono's conversion is not defined.
#[verifier::external_body]
pub(crate) fn format_timestamp(secs: u64) -> (r: String)
    requires
        secs <= 253402300799,
    ensures
        r@ == rfc3339_of(secs),
{
    chrono::DateTime::<chrono::Utc>::from(
        std::time::UNIX_EPOCH + std::time::Duration::from_secs(secs),
    )
    .to_rfc3339()
}

/// Relies on chrono's `Utc::now` and `to_rfc3339`: the current UTC time as an
/// ISO-8601 / RFC 3339 timestamp. The result depends on the clock, so nothing
/// is promised of it.
#[verifier::external_body]
pub(crate) fn now_rfc3339() -> String {
    chrono::Utc::now().to_rfc3339()
}

/// Relies on uuid's `Uuid::new_v4` and its `to_string`: a randomly generated
/// identifier. The result is random, so nothing is promised of it.
#[verifier::external_body]
pub(crate) fn fresh_uuid() -> String {
    uuid::Uuid::new_v4().to_string()
}

} // verus!
