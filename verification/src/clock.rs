//! The wall clock, read in milliseconds since the Unix epoch.
use vstd::prelude::*;

verus! {

#[verifier::external_type_specification]
#[verifier::external_body]
pub struct ExSystemTime(std::time::SystemTime);

/// `Duration::clone`: `Duration` is `Copy`, so a clone is the same value.
pub assume_specification[ <std::time::Duration as Clone>::clone ](
    d: &std::time::Duration,
) -> (r: std::time::Duration)
    ensures
        r == *d,
;

/// `SystemTime::now`: the current wall-clock time. Nothing is promised of
/// its value.
#[verifier::external_body]
fn system_now() -> std::time::SystemTime {
    std::time::SystemTime::now()
}

/// `SystemTime::duration_since(UNIX_EPOCH)`: the time elapsed since the
/// epoch, or `None` when `t` lies before it. Nothing is promised of the
/// duration's value.
#[verifier::external_body]
fn since_unix_epoch(t: &std::time::SystemTime) -> Option<std::time::Duration> {
    match t.duration_since(std::time::UNIX_EPOCH) {
        Ok(d) => Some(d),
        Err(_) => None,
    }
}

/// The whole milliseconds in a duration, as `Duration::as_millis` gives them.
pub uninterp spec fn duration_millis(d: std::time::Duration) -> u128;

/// `Duration::as_millis`: the whole milliseconds in `d`.
#[verifier::external_body]
fn whole_millis(d: &std::time::Duration) -> (r: u128)
    ensures
        r == duration_millis(*d),
{
    d.as_millis()
}

/// Milliseconds since the Unix epoch, truncated to 64 bits, or 0 when the
/// clock reads a time before the epoch.
pub fn now_ms() -> u64 {
    match since_unix_epoch(&system_now()) {
        Some(d) => {
            let ms = whole_millis(&d);
            ms as u64
        },
        None => 0,
    }
}

} // verus!
