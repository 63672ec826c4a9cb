//! Instants and RFC 3339 timestamps (parsed through `chrono`).
use vstd::prelude::*;

verus! {

/// An instant: seconds since the Unix epoch and the nanoseconds past them.
pub type Instant = (i64, u32);

/// The instant an RFC 3339 text denotes, or `None` when it does not parse.
pub uninterp spec fn rfc3339_instant(s: Seq<char>) -> Option<Instant>;

/// Calls `chrono::DateTime::parse_from_rfc3339`; a text that parses gives
/// the instant's `timestamp()` and `timestamp_subsec_nanos()`. Claimed:
/// the result is `rfc3339_instant` of the text's characters, a function of
/// them alone; nothing is stated of which texts parse.
#[verifier::external_body]
pub(crate) fn parse_rfc3339(s: &str) -> (r: Option<Instant>)
    ensures
        r == rfc3339_instant(s@),
{
    match chrono::DateTime::parse_from_rfc3339(s) {
        Ok(t) => Some((t.timestamp(), t.timestamp_subsec_nanos())),
        Err(_) => None,
    }
}

} // verus!
