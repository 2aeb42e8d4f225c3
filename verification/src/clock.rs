//! The system clock and RFC 3339 timestamps, read through `std::time` and
//! `chrono` without ever panicking: a clock that stands before 1970, or a
//! time `chrono` cannot represent, comes back as `None`.
use vstd::prelude::*;

verus! {

/// Reads the system clock (`SystemTime::now().duration_since(UNIX_EPOCH)`):
/// the whole seconds and the nanoseconds past them since the Unix epoch, or
/// `None` when the clock stands before the epoch. The reading depends on the
/// clock, so only the range of the nanoseconds (`Duration::subsec_nanos`
/// is below one billion) is stated.
#[verifier::external_body]
pub(crate) fn clock_now() -> (r: Option<(u64, u32)>)
    ensures
        r matches Some((_, n)) ==> n < 1_000_000_000,
{
    match std::time::SystemTime::now().duration_since(std::time::UNIX_EPOCH) {
        Ok(d) => Some((d.as_secs(), d.subsec_nanos())),
        Err(_) => None,
    }
}

/// The clock reading as a Unix timestamp that fits in `i64`, if any.
pub fn clock_timestamp() -> (r: Option<(i64, u32)>)
    ensures
        r matches Some((s, n)) ==> s >= 0 && n < 1_000_000_000,
{
    match clock_now() {
        Some((secs, nanos)) => if secs <= i64::MAX as u64 {
            Some((secs as i64, nanos))
        } else {
            None
        },
        None => None,
    }
}

/// Whether `chrono::DateTime::from_timestamp` accepts the seconds and
/// nanoseconds (it refuses seconds out of its date range and invalid
/// nanoseconds).
pub uninterp spec fn timestamp_in_range(secs: i64, nanos: u32) -> bool;

/// What `DateTime::<Utc>::to_rfc3339` writes for the timestamp.
pub uninterp spec fn rfc3339_text(secs: i64, nanos: u32) -> Seq<char>;

pub open spec fn opt_view(o: Option<String>) -> Option<Seq<char>> {
    match o {
        Some(s) => Some(s@),
        None => None,
    }
}

/// The timestamp as RFC 3339 text in UTC (`DateTime::from_timestamp`, then
/// `to_rfc3339`); `None` exactly when `from_timestamp` refuses it. Writing
/// into a `String` does not fail.
#[verifier::external_body]
pub(crate) fn rfc3339_at(secs: i64, nanos: u32) -> (r: Option<String>)
    ensures
        (r is Some) == timestamp_in_range(secs, nanos),
        r is Some ==> opt_view(r) == Some(rfc3339_text(secs, nanos)),
{
    chrono::DateTime::from_timestamp(secs, nanos).map(|t| t.to_rfc3339())
}

/// The current time as RFC 3339 text, or `None` when the clock cannot be
/// read as a representable time.
pub fn now_rfc3339() -> (r: Option<String>)
    ensures
        r is Some ==> exists|s: i64, n: u32|
            s >= 0 && timestamp_in_range(s, n) && opt_view(r) == Some(rfc3339_text(s, n)),
{
    match clock_timestamp() {
        Some((s, n)) => rfc3339_at(s, n),
        None => None,
    }
}

} // verus!
