//! Fresh identifiers and timestamps, drawn from the outside world.

use vstd::prelude::*;

verus! {

/// Relies on nanoid::format with the URL-safe 64-character alphabet and
/// its default random source: the result holds exactly `size` characters,
/// each from that ASCII alphabet. The characters themselves are random and
/// nothing further is assumed of them.
#[verifier::external_body]
pub fn generate_id(size: usize) -> (r: String)
    ensures
        r@.len() == size,
{
    nanoid::format(nanoid::rngs::default, &nanoid::alphabet::SAFE, size)
}

/// Relies on chrono::Utc::now, formatted with to_rfc3339: the current wall
/// clock as an RFC 3339 timestamp. Nothing is assumed of the value.
#[verifier::external_body]
pub fn now_rfc3339() -> (r: String) {
    chrono::Utc::now().to_rfc3339()
}

/// Relies on chrono::Utc::now, read with timestamp_millis: the current
/// wall clock as milliseconds since the Unix epoch. Nothing is assumed of
/// the value.
#[verifier::external_body]
pub fn now_unix_ms() -> (r: i64) {
    chrono::Utc::now().timestamp_millis()
}

} // verus!
