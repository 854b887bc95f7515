//! The readiness rule: whether a stored phrase is due for review.
//!
//! Timestamps are whole seconds of local civil time counted from an epoch
//! that falls on a local midnight, so that a day is exactly `SECONDS_PER_DAY`
//! seconds and midnight is a multiple of it.

use vstd::prelude::*;

verus! {

/// A point in local civil time, in seconds.
pub type Timestamp = i64;

/// Length of a civil day in seconds.
pub const SECONDS_PER_DAY: i64 = 86400;

/// Offset of the daily cutover from midnight, in seconds: three hours.
pub const CUTOVER_OFFSET: i64 = 10800;

/// The midnight that begins the day of `now`.
pub open spec fn start_of_day(now: int) -> int {
    now - now % (SECONDS_PER_DAY as int)
}

/// The cutover of the day of `now`: three hours after its midnight.
pub open spec fn day_boundary_of(now: int) -> int {
    start_of_day(now) + CUTOVER_OFFSET
}

/// The readiness rule. A phrase is due when it was never passed, when its
/// last pass lies before the cutover of the current day, or when its content
/// changed after the last pass.
pub open spec fn due_at(
    last_passed_at: Option<Timestamp>,
    content_changed_at: Option<Timestamp>,
    now: Timestamp,
) -> bool {
    match last_passed_at {
        None => true,
        Some(passed) => passed < day_boundary_of(now as int) || match content_changed_at {
            None => false,
            Some(changed) => changed > passed,
        },
    }
}

/// Computes the cutover of the day of `now`. The result is wider than a
/// timestamp because the cutover of the last representable day is not itself
/// representable.
pub fn day_boundary(now: Timestamp) -> (boundary: i128)
    ensures
        boundary == day_boundary_of(now as int),
{
    let wide: i128 = now as i128;
    let day: i128 = SECONDS_PER_DAY as i128;
    let into_day: i128 = if wide >= 0 {
        wide % day
    } else {
        let back: i128 = (-wide) % day;
        if back == 0 {
            0
        } else {
            day - back
        }
    };
    wide - into_day + CUTOVER_OFFSET as i128
}

/// Decides whether a phrase is due for review at `now`.
pub fn is_due(
    last_passed_at: Option<Timestamp>,
    content_changed_at: Option<Timestamp>,
    now: Timestamp,
) -> (due: bool)
    ensures
        due == due_at(last_passed_at, content_changed_at, now),
{
    match last_passed_at {
        None => true,
        Some(passed) => {
            if (passed as i128) < day_boundary(now) {
                true
            } else {
                match content_changed_at {
                    None => false,
                    Some(changed) => changed > passed,
                }
            }
        },
    }
}

/// A phrase that was never passed is due at any time, whatever is known of
/// its content.
pub proof fn lemma_never_passed_is_due(content_changed_at: Option<Timestamp>, now: Timestamp)
    ensures
        due_at(None, content_changed_at, now),
{
}

/// A phrase whose content changed after its last pass is due at any time,
/// however recent the pass.
pub proof fn lemma_changed_content_is_due(passed: Timestamp, changed: Timestamp, now: Timestamp)
    requires
        changed > passed,
    ensures
        due_at(Some(passed), Some(changed), now),
{
}

/// A phrase rests exactly when its last pass is not before the cutover of
/// the current day and its content has not changed since.
pub proof fn lemma_rests_since_cutover(
    passed: Timestamp,
    content_changed_at: Option<Timestamp>,
    now: Timestamp,
)
    ensures
        !due_at(Some(passed), content_changed_at, now) <==> {
            &&& passed >= day_boundary_of(now as int)
            &&& content_changed_at matches Some(changed) ==> changed <= passed
        },
{
}

/// The cutover of a day is the same for every moment of the day, and lies
/// three hours after the day's midnight.
pub proof fn lemma_day_boundary(now: int)
    ensures
        start_of_day(now) <= now < start_of_day(now) + SECONDS_PER_DAY,
        start_of_day(now) % (SECONDS_PER_DAY as int) == 0,
        day_boundary_of(start_of_day(now)) == day_boundary_of(now),
        day_boundary_of(now + SECONDS_PER_DAY) == day_boundary_of(now) + SECONDS_PER_DAY,
{
}

} // verus!
