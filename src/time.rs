//! Instants as whole seconds since the Unix epoch, and the reading of
//! RFC 3339 timestamps.
use vstd::prelude::*;

verus! {

/// The instant named by an RFC 3339 text, as whole seconds since the Unix
/// epoch, or `None` where the text is not RFC 3339.
pub uninterp spec fn rfc3339_seconds(s: Seq<char>) -> Option<i64>;

/// Earliest instant an RFC 3339 text can name: year 0000 at an offset of +23:59.
pub const EARLIEST_RFC3339: i64 = -62_167_305_600;

/// Latest instant an RFC 3339 text can name: year 9999 at an offset of -23:59.
pub const LATEST_RFC3339: i64 = 253_402_387_199;

/// Relies on chrono's `DateTime::parse_from_rfc3339` to read the text (a
/// four-digit year, an offset within +-23:59) and on `DateTime::timestamp`
/// for its seconds since the Unix epoch.
#[verifier::external_body]
pub(crate) fn parse_rfc3339(s: &str) -> (r: Option<i64>)
    ensures
        r == rfc3339_seconds(s@),
        r matches Some(t) ==> EARLIEST_RFC3339 <= t <= LATEST_RFC3339,
{
    chrono::DateTime::parse_from_rfc3339(s).ok().map(|d| d.timestamp())
}

/// Division rounding toward zero, as Rust's integer division does.
pub open spec fn trunc_div(d: int, n: int) -> int {
    if d >= 0 {
        d / n
    } else {
        -((-d) / n)
    }
}

/// Whole minutes from `earlier` to `later` (negative where `later` comes
/// first), rounded toward zero as a duration's minute count is.
pub open spec fn minutes_between(later: int, earlier: int) -> int {
    trunc_div(later - earlier, 60)
}

pub fn whole_minutes(later: i64, earlier: i64) -> (r: i64)
    ensures
        r == minutes_between(later as int, earlier as int),
{
    let d: i128 = later as i128 - earlier as i128;
    if d >= 0 {
        (d / 60) as i64
    } else {
        let m: i128 = (0 - d) / 60;
        (0 - m) as i64
    }
}

} // verus!
