//! Calendar rendering of post timestamps. Dates are carried through the
//! build as seconds since the Unix epoch; only their display strings come
//! from the calendar library.

use vstd::prelude::*;

verus! {

/// The upper bound on post timestamps the build accepts: roughly the year
/// 5138, comfortably inside the calendar library's representable range.
pub const MAX_TIMESTAMP: i64 = 99_999_999_999;

/// The `YYYY-MM-DD` rendering of a timestamp. It depends on the timestamp
/// alone.
pub uninterp spec fn iso_date_of(ts: int) -> Seq<char>;

/// The `YYYY-Mon-DD` rendering of a timestamp, with an abbreviated month
/// name. It depends on the timestamp alone.
pub uninterp spec fn label_date_of(ts: int) -> Seq<char>;

/// Relies on chrono's `DateTime::from_timestamp` (defined for any timestamp
/// in range, which the precondition guarantees) and `DateTime::format` with
/// `%Y-%m-%d`: the rendered date depends on the timestamp alone.
#[verifier::external_body]
pub fn format_date_iso(ts: i64) -> (r: String)
    requires
        0 <= ts <= MAX_TIMESTAMP,
    ensures
        r@ == iso_date_of(ts as int),
{
    chrono::DateTime::<chrono::Utc>::from_timestamp(ts, 0).unwrap().format("%Y-%m-%d").to_string()
}

/// Relies on chrono's `DateTime::from_timestamp` (defined for any timestamp
/// in range, which the precondition guarantees) and `DateTime::format` with
/// `%Y-%b-%d`: the rendered date depends on the timestamp alone.
#[verifier::external_body]
pub fn format_date_label(ts: i64) -> (r: String)
    requires
        0 <= ts <= MAX_TIMESTAMP,
    ensures
        r@ == label_date_of(ts as int),
{
    chrono::DateTime::<chrono::Utc>::from_timestamp(ts, 0).unwrap().format("%Y-%b-%d").to_string()
}

} // verus!
