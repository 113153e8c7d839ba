//! The clock, and how a point in time is written.

use std::fmt::Write;

use vstd::prelude::*;

use crate::model::Timestamp;

verus! {

/// What `chrono` writes for the point in time `seconds`, `nanos` under the
/// format `pattern`; `None` where `chrono` holds no such point in time or
/// cannot write it under `pattern`.
pub uninterp spec fn formatted_time(seconds: int, nanos: int, pattern: Seq<char>) -> Option<
    Seq<char>,
>;

/// `chrono::Utc::now`, as seconds and nanoseconds since the epoch
/// (`DateTime::timestamp`, `DateTime::timestamp_subsec_nanos`). Nothing is
/// claimed of the value.
#[verifier::external_body]
pub(crate) fn now() -> (t: Timestamp) {
    let t = chrono::Utc::now();
    Timestamp { seconds: t.timestamp(), nanos: t.timestamp_subsec_nanos() }
}

/// `chrono::DateTime::from_timestamp`, then `DateTime::format` with
/// `pattern`, written out. The result is named, not described: it is `None`
/// where `from_timestamp` gives none or the writing fails.
#[verifier::external_body]
pub(crate) fn format_time(t: Timestamp, pattern: &str) -> (r: Option<String>)
    ensures
        crate::model::text_of(r) == formatted_time(t.seconds as int, t.nanos as int, pattern@),
{
    match chrono::DateTime::from_timestamp(t.seconds, t.nanos) {
        Some(at) => {
            let mut out = String::new();
            match write!(out, "{}", at.format(pattern)) {
                Ok(_) => Some(out),
                Err(_) => None,
            }
        },
        None => None,
    }
}

} // verus!
