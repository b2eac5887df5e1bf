//! Wall-clock time in milliseconds.

use vstd::prelude::*;
use std::time::{Duration, SystemTime};

verus! {

#[verifier::external_type_specification]
#[verifier::external_body]
pub struct ExSystemTime(SystemTime);

/// Relies on `SystemTime::now`: a reading of the system clock, of which
/// nothing can be promised.
#[verifier::external_body]
fn system_now() -> (r: SystemTime) {
    SystemTime::now()
}

/// Relies on `SystemTime::duration_since(UNIX_EPOCH)`: the time elapsed
/// since the epoch, or `None` where `t` lies before it.
#[verifier::external_body]
fn since_epoch(t: &SystemTime) -> (r: Option<Duration>) {
    t.duration_since(std::time::UNIX_EPOCH).ok()
}

/// Relies on `Duration::as_millis`: the whole milliseconds of `d`.
#[verifier::external_body]
fn whole_millis(d: &Duration) -> (r: u128) {
    d.as_millis()
}

/// The current time in milliseconds since the epoch; 0 where the clock
/// stands before the epoch.
pub fn now_ms() -> (r: u64) {
    let now = system_now();
    let ms = match since_epoch(&now) {
        None => None,
        Some(d) => Some(whole_millis(&d)),
    };
    to_millis_u64(ms)
}

/// A clock reading as `u64` milliseconds: a reading before the epoch is 0,
/// and one beyond `u64` keeps its low 64 bits.
pub fn to_millis_u64(ms: Option<u128>) -> (r: u64)
    ensures
        ms is None ==> r == 0,
        ms matches Some(m) ==> r == m as u64,
{
    match ms {
        None => 0,
        Some(m) => m as u64,
    }
}

} // verus!
