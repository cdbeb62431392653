//! RFC 3339 timestamps, read with `chrono`.
use vstd::prelude::*;
use crate::text::{chars_of, string_of, trim, trim_vec, CharClass};

verus! {

/// Names the Unix time in seconds that `chrono` reads from an RFC 3339
/// timestamp; `None` when the text is not one.
pub uninterp spec fn rfc3339_seconds(s: Seq<char>) -> Option<i64>;

/// Calls `chrono::DateTime::parse_from_rfc3339` and `DateTime::timestamp`.
/// Claimed: the result is `rfc3339_seconds` of the text.
#[verifier::external_body]
fn rfc3339_to_seconds(s: &str) -> (r: Option<i64>)
    ensures
        r == rfc3339_seconds(s@),
{
    match chrono::DateTime::parse_from_rfc3339(s) {
        Ok(dt) => Some(dt.timestamp()),
        Err(_) => None,
    }
}

/// The Unix time of a timestamp given with surrounding whitespace; `None` when
/// it is blank or not RFC 3339.
pub open spec fn parse_timestamp_spec(value: Seq<char>) -> Option<i64> {
    let t = trim(value);
    if t.len() == 0 {
        None
    } else {
        rfc3339_seconds(t)
    }
}

/// Reads the Unix time of a timestamp.
pub fn parse_timestamp(value: &str) -> (r: Option<i64>)
    ensures
        r == parse_timestamp_spec(value@),
{
    let v = chars_of(value);
    let t = trim_vec(v.as_slice(), CharClass::Whitespace);
    if t.len() == 0 {
        return None;
    }
    let s = string_of(t.as_slice());
    rfc3339_to_seconds(s.as_str())
}

} // verus!
