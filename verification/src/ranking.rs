//! Time input of the two decay formulas. Both formulas divide the score by
//! a power of the post's age in hours; this module supplies that age as a
//! whole number of hours, floored at zero for posts created at or after the
//! evaluation instant. The fractional powers themselves (`age^1.5` for list
//! ranking, `(age+2)^1.8` for the displayed hot value) are floating-point
//! work and live with the presentation layer.

use vstd::prelude::*;

verus! {

/// Whole hours elapsed between the creation instant and `now`, floored at
/// zero. Both instants are Unix timestamps in seconds.
pub fn age_hours(now: i64, created_at: i64) -> (h: u64)
    ensures
        created_at >= now ==> h == 0,
        created_at < now ==> h as int == (now - created_at) / 3600,
{
    if created_at >= now {
        0
    } else {
        let diff: i128 = now as i128 - created_at as i128;
        (diff / 3600) as u64
    }
}

} // verus!
