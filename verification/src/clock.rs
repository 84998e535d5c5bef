use vstd::prelude::*;

verus! {

/// What the timestamp parser makes of a string: the instant in
/// milliseconds since the Unix epoch, or nothing. A function of the
/// string alone.
pub uninterp spec fn instant_of(s: Seq<char>) -> Option<int>;

/// Relies on chrono's `DateTime::<Utc>::from_str` (a relaxed RFC 3339
/// parser) and `DateTime::timestamp_millis`: both are deterministic in
/// the input string, so the outcome is a function of the string alone.
#[verifier::external_body]
pub(crate) fn parse_instant(s: &str) -> (r: Option<i64>)
    ensures
        match r {
            Some(t) => instant_of(s@) == Some(t as int),
            None => instant_of(s@) is None,
        },
{
    match s.parse::<chrono::DateTime<chrono::Utc>>() {
        Ok(dt) => Some(dt.timestamp_millis()),
        Err(_) => None,
    }
}

} // verus!
