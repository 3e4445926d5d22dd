//! The wall clock.

use vstd::prelude::*;

verus! {

/// Reads the system clock with `std::time::SystemTime::now`, turns the
/// reading into a `chrono::DateTime<Utc>` with chrono's `From<SystemTime>`,
/// and that into whole seconds since the Unix epoch with
/// `DateTime::timestamp`; a reading before 1970 gives a negative number. The
/// value depends on the moment of the call, so nothing is promised about it.
/// The conversion panics only on a reading outside the years that chrono can
/// hold, some 262,000 on either side of the epoch.
#[verifier::external_body]
pub(crate) fn unix_time() -> i64 {
    chrono::DateTime::<chrono::Utc>::from(std::time::SystemTime::now()).timestamp()
}

} // verus!
