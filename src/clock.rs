use vstd::prelude::*;

verus! {

/// Relies on std::time::SystemTime::elapsed from UNIX_EPOCH: the whole seconds since the
/// epoch, or `None` when the system clock reads earlier than it.
#[verifier::external_body]
fn seconds_since_epoch() -> Option<u64> {
    std::time::UNIX_EPOCH.elapsed().ok().map(|d| d.as_secs())
}

/// A clock reading (whole seconds since the epoch, `None` before it) as a timestamp: the
/// reading itself when it fits in `i64`, `i64::MAX` past that, 0 before the epoch.
pub fn ts_from_reading(reading: Option<u64>) -> (r: i64)
    ensures
        match reading {
            Some(s) => if s <= i64::MAX as u64 {
                r as int == s as int
            } else {
                r == i64::MAX
            },
            None => r == 0,
        },
{
    match reading {
        Some(s) => if s <= i64::MAX as u64 {
            s as i64
        } else {
            i64::MAX
        },
        None => 0,
    }
}

/// The current time in whole seconds since the Unix epoch; see [`ts_from_reading`].
pub fn now_ts() -> (r: i64)
    ensures
        r >= 0,
{
    ts_from_reading(seconds_since_epoch())
}

} // verus!
