//! Timestamp parsing. Every timestamp the crawl reads is an RFC 3339
//! date-and-time string; it is normalized to an instant on a single axis
//! (non-leap seconds since the Unix epoch, UTC) before any comparison, so
//! that differing offsets never skew a window decision. A string that does
//! not parse is an error for the operation that read it: a bad timestamp
//! can be defaulted neither into nor out of the window.

use vstd::prelude::*;

verus! {

/// The instant an RFC 3339 date-and-time string denotes, as non-leap
/// seconds since the Unix epoch (UTC), or `None` when the string is not a
/// valid RFC 3339 date-and-time. Left uninterpreted: the value is fixed by
/// the parser relied upon below and depends on the string alone.
pub uninterp spec fn rfc3339_unix_secs(s: Seq<char>) -> Option<i64>;

/// Relies on chrono's `DateTime::parse_from_rfc3339` composed with
/// `DateTime::timestamp`: parses the string and reduces the result to
/// non-leap seconds since the Unix epoch, normalized to UTC. Both steps
/// depend on the string alone.
#[verifier::external_body]
pub(crate) fn parse_rfc3339_unix_secs(s: &str) -> (r: Option<i64>)
    ensures
        r == rfc3339_unix_secs(s@),
{
    chrono::DateTime::parse_from_rfc3339(s).ok().map(|dt| dt.timestamp())
}

} // verus!
