//! Timestamp parsing with the missing-timezone recovery policy.
//!
//! Point timestamps must be RFC 3339. Some recorders omit the offset; such
//! a timestamp is retried once with a literal `Z` appended, and the run
//! remembers that UTC was assumed so a warning can be shown once.

use vstd::prelude::*;
use crate::Error;

verus! {

/// Seconds since the Unix epoch denoted by the RFC 3339 string `s`, or
/// `None` when `s` is not a valid RFC 3339 timestamp. Sub-second digits do
/// not contribute. The result is a function of the string alone.
pub uninterp spec fn rfc3339_secs_of(s: Seq<char>) -> Option<i64>;

/// Relies on `time::OffsetDateTime::parse` with the `Rfc3339` well-known
/// format, and on `OffsetDateTime::unix_timestamp`: parsing reads only the
/// input string, and `unix_timestamp` is the parsed instant in whole
/// seconds since the Unix epoch (sub-second digits truncated).
#[verifier::external_body]
fn parse_rfc3339(s: &str) -> (r: Option<i64>)
    ensures
        r == rfc3339_secs_of(s@),
{
    time::OffsetDateTime::parse(s, &time::format_description::well_known::Rfc3339)
        .ok()
        .map(|t| t.unix_timestamp())
}

/// Run-scoped state for the "timezone missing, assuming UTC" warning:
/// `warned` is set the first time a timestamp without an offset is
/// accepted, and never cleared.
pub struct WarnState {
    pub warned: bool,
}

impl WarnState {
    /// A fresh run: no warning owed yet.
    pub fn new() -> (r: WarnState)
        ensures
            !r.warned,
    {
        WarnState { warned: false }
    }
}

/// Timestamp denoted by `s` under the recovery policy: strict RFC 3339
/// first; on failure, retried once with a literal `Z` appended. The bool
/// is true exactly when the retry was what succeeded.
pub open spec fn ts_of(s: Seq<char>) -> Option<(i64, bool)> {
    match rfc3339_secs_of(s) {
        Some(t) => Some((t, false)),
        None => match rfc3339_secs_of(s + "Z"@) {
            Some(t) => Some((t, true)),
            None => None,
        },
    }
}

/// Parses a point's timestamp, retrying once with an assumed UTC offset;
/// a successful retry marks the run as owing the timezone warning.
pub fn parse_timestamp(s: &str, ws: &mut WarnState) -> (r: Result<i64, Error>)
    ensures
        match ts_of(s@) {
            Some(p) => r == Ok::<i64, Error>(p.0) && final(ws).warned == (old(ws).warned || p.1),
            None => r == Err::<i64, Error>(Error::InvalidTimestamp) && final(ws).warned == old(
                ws,
            ).warned,
        },
{
    match parse_rfc3339(s) {
        Some(t) => Ok(t),
        None => {
            let retry = s.to_owned().concat("Z");
            match parse_rfc3339(retry.as_str()) {
                Some(t) => {
                    ws.warned = true;
                    Ok(t)
                }
                None => Err(Error::InvalidTimestamp),
            }
        }
    }
}

} // verus!
