//! The clock, read through `wtx`'s calendar.

use vstd::prelude::*;
use wtx::calendar::Instant;

verus! {

/// `Instant::now_timestamp`, in nanoseconds: the time that has passed since
/// the UNIX epoch by the system's clock, or the calendar's error where the
/// clock cannot say. Nothing is stated of the number, which is the clock's to
/// give and differs from call to call.
#[verifier::external_body]
pub(crate) fn nanos_since_epoch() -> (now: Result<u128, wtx::Error>) {
    Instant::now_timestamp(0).map(|elapsed| elapsed.as_nanos())
}

} // verus!
