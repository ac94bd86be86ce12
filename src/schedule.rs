//! The schedule gate: where a moment stands against the vesting window.
//! All times are in seconds; a start of zero means "not kicked off".
use vstd::prelude::*;

verus! {

pub open spec fn kickstarted(start: u64) -> bool {
    start > 0
}

/// Accrual has not begun: no kickoff yet, or the start lies ahead.
pub open spec fn inactive(start: u64, now: u64) -> bool {
    !kickstarted(start) || now < start
}

/// The window `[start, start + period]` has closed.
pub open spec fn expired(start: u64, now: u64, period: u64) -> bool {
    kickstarted(start) && now > start + period
}

pub fn is_kickstarted(start_timestamp: u64) -> (r: bool)
    ensures
        r == kickstarted(start_timestamp),
{
    start_timestamp > 0
}

pub fn is_inactive(start_timestamp: u64, current_timestamp: u64) -> (r: bool)
    ensures
        r == inactive(start_timestamp, current_timestamp),
{
    if !is_kickstarted(start_timestamp) {
        return true;
    }
    current_timestamp < start_timestamp
}

pub fn is_expired(start_timestamp: u64, current_timestamp: u64, duration: u64) -> (r: bool)
    ensures
        r == expired(start_timestamp, current_timestamp, duration),
{
    if is_kickstarted(start_timestamp) {
        // `now > start + duration`, written so that nothing overflows
        return current_timestamp > start_timestamp && current_timestamp - start_timestamp
            > duration;
    }
    false
}

} // verus!
