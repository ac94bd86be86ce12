//! The accrual calculator: what a member may claim at a given moment.
use vstd::prelude::*;

use crate::schedule::{inactive, is_inactive};
use crate::state::{ContractConfig, ShareholderInfo};

verus! {

/// `floor(value * numerator / denominator)`, or `None` when the denominator
/// is zero or the result does not fit in a `u128`.
pub open spec fn mul_floor(value: u128, numerator: u128, denominator: u128) -> Option<u128> {
    if denominator == 0 {
        None
    } else if (value as int * numerator as int) / (denominator as int) > u128::MAX {
        None
    } else {
        Some(((value as int * numerator as int) / (denominator as int)) as u128)
    }
}

pub open spec fn or_zero(v: Option<u128>) -> u128 {
    match v {
        Some(x) => x,
        None => 0,
    }
}

/// The moment from which the member holding `info` accrues: its last
/// settlement, but never before the schedule start.
pub open spec fn accrual_from(config: ContractConfig, info: ShareholderInfo) -> u64 {
    if info.last_withdraw_timestamp < config.schedule_start {
        config.schedule_start
    } else {
        info.last_withdraw_timestamp
    }
}

/// The moment up to which accrual runs: `now`, but never past the close of
/// the window at `schedule_start + vesting_period`.
pub open spec fn accrual_end(config: ContractConfig, now: u64) -> u64 {
    if now as int > config.schedule_start as int + config.vesting_period as int {
        (config.schedule_start + config.vesting_period) as u64
    } else {
        now
    }
}

/// The amount a member holding `info` may claim at `now`, when the weights
/// sum to `weight_sum` and the pool holds `balance`:
/// `floor(floor(balance * elapsed / period) * weight / weight_sum)`, where
/// `elapsed` runs from [`accrual_from`] to [`accrual_end`]. Before the
/// schedule starts it is zero; time before the start and time after the
/// window closes never count, so no claim exceeds the pool. Each of the
/// two steps that has no value (a zero divisor, a result past `u128`), and
/// an elapsed time that would be negative, counts as zero: one member's
/// irregular figures never block a settlement pass over the others.
pub open spec fn claim(
    config: ContractConfig,
    info: ShareholderInfo,
    weight_sum: u64,
    now: u64,
    balance: u128,
) -> u128 {
    let from = accrual_from(config, info);
    let end = accrual_end(config, now);
    if inactive(config.schedule_start, now) || end < from {
        0
    } else {
        let elapsed = (end - from) as u128;
        let vested = or_zero(mul_floor(balance, elapsed, config.vesting_period as u128));
        or_zero(mul_floor(vested, info.weight as u128, weight_sum as u128))
    }
}

/// Relies on cosmwasm_std::Uint128::checked_mul_floor with a `(numerator,
/// denominator)` pair: it multiplies into 256 bits, divides with rounding
/// down, and fails on a zero denominator or a result past `Uint128::MAX`.
#[verifier::external_body]
fn checked_mul_floor(value: u128, numerator: u128, denominator: u128) -> (r: Option<u128>)
    ensures
        r == mul_floor(value, numerator, denominator),
{
    let fraction = (cosmwasm_std::Uint128::new(numerator), cosmwasm_std::Uint128::new(denominator));
    match cosmwasm_std::Uint128::new(value).checked_mul_floor(fraction) {
        Ok(v) => Some(v.u128()),
        Err(_) => None,
    }
}

/// What the member holding `info` may claim at `now`; see [`claim`].
pub fn claimable(
    config: &ContractConfig,
    info: ShareholderInfo,
    weight_sum: u64,
    now: u64,
    balance: u128,
) -> (r: u128)
    ensures
        r == claim(*config, info, weight_sum, now, balance),
        inactive(config.schedule_start, now) ==> r == 0,
{
    let from = if info.last_withdraw_timestamp < config.schedule_start {
        config.schedule_start
    } else {
        info.last_withdraw_timestamp
    };
    if is_inactive(config.schedule_start, now) {
        return 0;
    }
    // the schedule has started, so `schedule_start <= now`
    let end = if now - config.schedule_start > config.vesting_period {
        config.schedule_start + config.vesting_period
    } else {
        now
    };
    if end < from {
        return 0;
    }
    let elapsed = (end - from) as u128;
    let vested = match checked_mul_floor(balance, elapsed, config.vesting_period as u128) {
        Some(v) => v,
        None => 0,
    };
    match checked_mul_floor(vested, info.weight as u128, weight_sum as u128) {
        Some(v) => v,
        None => 0,
    }
}

} // verus!
