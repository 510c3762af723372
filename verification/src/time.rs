//! Timestamp handling. A timestamp is seconds since the Unix epoch; the
//! string form accepted on ingest is resolved by an outside parser.

use vstd::prelude::*;

use crate::faults::Fault;

verus! {

/// Relies on dateparser::parse, which resolves a datetime string in any of
/// the formats that crate accepts to an instant in UTC, and on
/// chrono's conversion of that instant to seconds since the Unix epoch.
/// Incomplete inputs are completed from the clock and the result is
/// machine-dependent, so nothing is promised of the parsed value; a string
/// the parser rejects is a validation fault.
#[verifier::external_body]
pub fn parse_timestamp(s: &str) -> (r: Result<i64, Fault>)
    ensures
        r matches Err(f) ==> f == Fault::Validation,
{
    match dateparser::parse(s) {
        Ok(dt) => Ok(dt.timestamp()),
        Err(_) => Err(Fault::Validation),
    }
}

} // verus!
