//! The clock, and random identifiers.

use std::time::Instant;

use vstd::prelude::*;

verus! {

/// `std::time::Instant`, a point on the monotonic clock.
#[verifier::external_type_specification]
#[verifier::external_body]
pub struct ExInstant(Instant);

/// `Instant::now`: the present. Nothing is claimed of it.
#[verifier::external_body]
pub(crate) fn start_clock() -> (r: Instant) {
    Instant::now()
}

/// `Instant::elapsed`: the milliseconds since then. Nothing is claimed of them.
#[verifier::external_body]
pub(crate) fn elapsed_ms(since: &Instant) -> (r: u64) {
    since.elapsed().as_millis() as u64
}

/// Whether a text has the form of a UUID: groups of hexadecimal digits between hyphens.
pub open spec fn is_uuid(s: Seq<char>) -> bool {
    s.len() == 36 && forall|i: int|
        0 <= i < 36 ==> (if i == 8 || i == 13 || i == 18 || i == 23 {
            #[trigger] s[i] == '-'
        } else {
            '0' <= s[i] <= '9' || 'a' <= s[i] <= 'f'
        })
}

/// `Uuid::new_v4`, written by `to_string`: a random UUID. Nothing but its form is claimed.
#[verifier::external_body]
pub(crate) fn new_uuid() -> (r: String)
    ensures
        is_uuid(r@),
{
    uuid::Uuid::new_v4().to_string()
}

/// `Uuid::new_v4`, taken as bytes: 16 of them. Nothing is claimed of what they are.
#[verifier::external_body]
pub(crate) fn random_bytes() -> (r: Vec<u8>)
    ensures
        r@.len() == 16,
{
    uuid::Uuid::new_v4().as_bytes().to_vec()
}

/// `SystemTime::now`, measured from the Unix epoch: the time of day in milliseconds. Nothing
/// is claimed of it.
#[verifier::external_body]
pub(crate) fn unix_time_ms() -> (r: u64) {
    let since = std::time::SystemTime::now().duration_since(std::time::UNIX_EPOCH);
    since.unwrap_or_default().as_millis() as u64
}

} // verus!
