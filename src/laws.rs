//! Properties of the ledger that hold across all inputs, proved over the
//! spec transitions that the calls in `contract` are proved to follow.
use vstd::prelude::*;

use vstd::arithmetic::div_mod::{lemma_div_is_ordered, lemma_div_multiples_vanish, lemma_div_pos_is_pos};

use crate::accrual::{accrual_end, accrual_from, claim, mul_floor, or_zero};
use crate::contract::{
    settlement_payouts,
    add_member_step, force_withdraw_step, kickoff_step, remove_member_step, weight_fits,
    withdraw_amount, withdraw_step,
};
use crate::error::ContractError;
use crate::contract::lemma_settle_all_keeps_addrs;
use crate::registry::{
    insert_pos, lemma_insert_pos_exists, lemma_sorted_unique, lemma_insert_total, sorted_addrs,
    has_addr, index_of, lemma_index_of_found, lemma_member_weight_le_total, lemma_remove_total,
    lemma_settle_all_keeps_total,
    settle_all, weight_total,
};
use crate::schedule::{expired, inactive};
use crate::state::{ContractConfig, Entry, LedgerView, ShareholderInfo, unique_addrs};

verus! {

/// No member's clock lies after `now`.
pub open spec fn clocks_not_after(m: Seq<Entry>, now: u64) -> bool {
    forall|i: int| 0 <= i < m.len() ==> (#[trigger] m[i]).1.last_withdraw_timestamp <= now
}

/// `floor(x * n / d)` lies in `[0, x]` when `0 <= n <= d`.
proof fn lemma_scaled_down(x: int, n: int, d: int)
    requires
        0 <= x,
        0 <= n <= d,
        0 < d,
    ensures
        0 <= (x * n) / d <= x,
{
    assert(0 <= x * n <= d * x) by (nonlinear_arith)
        requires
            0 <= x,
            0 <= n <= d,
    ;
    lemma_div_is_ordered(x * n, d * x, d);
    lemma_div_multiples_vanish(x, d);
    lemma_div_pos_is_pos(x * n, d);
}

proof fn lemma_mul_floor_le(x: u128, n: u128, d: u128)
    requires
        n <= d,
    ensures
        or_zero(mul_floor(x, n, d)) <= x,
{
    if d > 0 {
        lemma_scaled_down(x as int, n as int, d as int);
    }
}

/// What a member may claim is never more than the pool holds.
pub proof fn lemma_claim_within_pool(l: LedgerView, a: Seq<char>, now: u64, balance: u128)
    requires
        has_addr(l.members, a),
        weight_fits(l.members),
    ensures
        withdraw_amount(l, a, now, balance) matches Ok(x) && 0 <= x <= balance,
{
    let i = index_of(l.members, a);
    lemma_index_of_found(l.members, a);
    let info = l.members[i].1;
    lemma_member_weight_le_total(l.members, i);
    let total = weight_total(l.members) as u64;
    let from = accrual_from(l.config, info);
    let end = accrual_end(l.config, now);
    if !(inactive(l.config.schedule_start, now) || end < from) {
        let elapsed = (end - from) as u128;
        lemma_mul_floor_le(balance, elapsed, l.config.vesting_period as u128);
        let vested = or_zero(mul_floor(balance, elapsed, l.config.vesting_period as u128));
        lemma_mul_floor_le(vested, info.weight as u128, total as u128);
    }
}

/// Before kickoff, and before the start date, nothing accrues to anyone,
/// whatever the weights, clocks and balance.
pub proof fn lemma_no_accrual_before_start(
    config: ContractConfig,
    info: ShareholderInfo,
    weight_sum: u64,
    now: u64,
    balance: u128,
)
    requires
        inactive(config.schedule_start, now),
    ensures
        claim(config, info, weight_sum, now, balance) == 0,
{
}

/// Before kickoff, and before the start date, every member may withdraw
/// nothing (as long as the weights sum within a `u64`).
pub proof fn lemma_nothing_withdrawable_before_start(
    l: LedgerView,
    a: Seq<char>,
    now: u64,
    balance: u128,
)
    requires
        has_addr(l.members, a),
        weight_fits(l.members),
        inactive(l.config.schedule_start, now),
    ensures
        withdraw_amount(l, a, now, balance) == Ok::<u128, ContractError>(0),
{
}

/// The admin's `RemoveMember` of a member inside the live window (when the
/// weights sum within a `u64`) emits one settlement
/// transfer per member, in registry order, then exactly one transfer of the
/// compensation to the removed address, which is no member afterwards.
pub proof fn lemma_remove_member_transfers(
    l: LedgerView,
    caller: Seq<char>,
    addr: Seq<char>,
    compensation: u64,
    now: u64,
    balance: u128,
)
    requires
        sorted_addrs(l.members),
        caller == l.config.admin@,
        has_addr(l.members, addr),
        !expired(l.config.schedule_start, now, l.config.vesting_period),
        !inactive(l.config.schedule_start, now),
        weight_fits(l.members),
    ensures
        remove_member_step(l, caller, addr, compensation, now, balance).1 == Ok::<
            Seq<(Seq<char>, u128)>,
            ContractError,
        >(settlement_payouts(l, now, balance).push((addr, compensation as u128))),
        !has_addr(remove_member_step(l, caller, addr, compensation, now, balance).0.members, addr),
{
    let k = index_of(l.members, addr);
    lemma_index_of_found(l.members, addr);
    let settled = settle_all(l.members, now);
    lemma_settle_all_keeps_addrs(l.members, now);
    lemma_sorted_unique(settled);
    let after = remove_member_step(l, caller, addr, compensation, now, balance).0.members;
    assert(after == settled.remove(k));
    if has_addr(after, addr) {
        let i = choose|i: int| 0 <= i < after.len() && #[trigger] after[i].0 == addr;
        assert(settled[k].0 == addr);
        if i < k {
            assert(after[i] == settled[i]);
            assert(settled[i].0 == settled[k].0);
        } else {
            assert(after[i] == settled[i + 1]);
            assert(settled[i + 1].0 == settled[k].0);
        }
    }
}

/// A member's withdrawal while accrual is live succeeds (when the weights
/// sum within a `u64`) and moves the caller's clock to `now`: forward, or
/// not at all when no time has passed; nobody else's clock moves.
pub proof fn lemma_withdraw_advances_clock(l: LedgerView, caller: Seq<char>, now: u64, balance: u128)
    requires
        unique_addrs(l.members),
        clocks_not_after(l.members, now),
        has_addr(l.members, caller),
        !inactive(l.config.schedule_start, now),
        weight_fits(l.members),
    ensures
        withdraw_step(l, caller, now, balance).1 is Ok,
        ({
            let after = withdraw_step(l, caller, now, balance).0.members;
            let i = index_of(l.members, caller);
            &&& 0 <= i < l.members.len()
            &&& after.len() == l.members.len()
            &&& after[i].0 == caller
            &&& after[i].1.last_withdraw_timestamp == now
            &&& l.members[i].1.last_withdraw_timestamp <= after[i].1.last_withdraw_timestamp
            &&& forall|j: int| 0 <= j < after.len() && j != i ==> after[j] == l.members[j]
        }),
{
    lemma_index_of_found(l.members, caller);
}

/// The admin's forced withdrawal while accrual is live succeeds (when the
/// weights sum within a `u64`) and moves every
/// member's clock to `now`, and none of them backwards.
pub proof fn lemma_force_withdraw_advances_clocks(
    l: LedgerView,
    caller: Seq<char>,
    now: u64,
    balance: u128,
)
    requires
        clocks_not_after(l.members, now),
        caller == l.config.admin@,
        l.config.force_withdraw_enabled,
        !inactive(l.config.schedule_start, now),
        weight_fits(l.members),
    ensures
        force_withdraw_step(l, caller, now, balance).1 is Ok,
        ({
            let after = force_withdraw_step(l, caller, now, balance).0.members;
            &&& after.len() == l.members.len()
            &&& forall|j: int|
                0 <= j < after.len() ==> (#[trigger] after[j]).1.last_withdraw_timestamp == now
                    && after[j].0 == l.members[j].0 && l.members[j].1.last_withdraw_timestamp
                    <= after[j].1.last_withdraw_timestamp
        }),
{
}

/// Once a kickoff has succeeded, a second one by the admin fails with
/// `ActiveContract`.
pub proof fn lemma_kickoff_single_use(l: LedgerView, caller: Seq<char>, date: u64, second_date: u64)
    requires
        kickoff_step(l, caller, date).1 is Ok,
    ensures
        kickoff_step(kickoff_step(l, caller, date).0, l.config.admin@, second_date).1 == Err::<
            Seq<(Seq<char>, u128)>,
            ContractError,
        >(ContractError::ActiveContract),
{
}

/// The admin's `AddMember` of a new address inside the live window
/// succeeds (when the weights sum within a `u64`); afterwards every member,
/// the new one included, has its clock at `now`, the weight sum has grown
/// by exactly the new weight, and the registry is still ascending.
pub proof fn lemma_add_member_settles_everyone(
    l: LedgerView,
    caller: Seq<char>,
    addr: Seq<char>,
    weight: u64,
    now: u64,
    balance: u128,
)
    requires
        sorted_addrs(l.members),
        caller == l.config.admin@,
        !has_addr(l.members, addr),
        !expired(l.config.schedule_start, now, l.config.vesting_period),
        !inactive(l.config.schedule_start, now),
        weight_fits(l.members),
    ensures
        add_member_step(l, caller, addr, weight, now, balance).1 is Ok,
        ({
            let after = add_member_step(l, caller, addr, weight, now, balance).0.members;
            &&& forall|j: int|
                0 <= j < after.len() ==> (#[trigger] after[j]).1.last_withdraw_timestamp == now
            &&& weight_total(after) == weight_total(l.members) + weight
            &&& sorted_addrs(after)
            &&& has_addr(after, addr)
        }),
{
    let after = add_member_step(l, caller, addr, weight, now, balance).0.members;
    let settled = settle_all(l.members, now);
    let info = ShareholderInfo { last_withdraw_timestamp: now, weight };
    lemma_settle_all_keeps_addrs(l.members, now);
    lemma_settle_all_keeps_total(l.members, now);
    lemma_insert_pos_exists(settled, addr);
    let p = insert_pos(settled, addr);
    assert(after == settled.insert(p, (addr, info)));
    lemma_insert_total(settled, p, (addr, info));
    assert(after[p].0 == addr);
    assert forall|j: int| 0 <= j < after.len() implies (#[trigger] after[j]).1.last_withdraw_timestamp
        == now by {
        if j < p {
            assert(after[j] == settled[j]);
        } else if j > p {
            assert(after[j] == settled[j - 1]);
        }
    }
}

/// The admin's `RemoveMember` of a member inside the live window succeeds
/// (when the weights sum within a `u64`); afterwards every
/// remaining member has its clock at `now`, and the weight sum has shrunk
/// by exactly the removed member's weight.
pub proof fn lemma_remove_member_settles_everyone(
    l: LedgerView,
    caller: Seq<char>,
    addr: Seq<char>,
    compensation: u64,
    now: u64,
    balance: u128,
)
    requires
        caller == l.config.admin@,
        has_addr(l.members, addr),
        !expired(l.config.schedule_start, now, l.config.vesting_period),
        !inactive(l.config.schedule_start, now),
        weight_fits(l.members),
    ensures
        remove_member_step(l, caller, addr, compensation, now, balance).1 is Ok,
        ({
            let after = remove_member_step(l, caller, addr, compensation, now, balance).0.members;
            &&& forall|j: int|
                0 <= j < after.len() ==> (#[trigger] after[j]).1.last_withdraw_timestamp == now
            &&& weight_total(after) == weight_total(l.members) - l.members[index_of(
                l.members,
                addr,
            )].1.weight
        }),
{
    let k = index_of(l.members, addr);
    lemma_index_of_found(l.members, addr);
    let settled = settle_all(l.members, now);
    let after = remove_member_step(l, caller, addr, compensation, now, balance).0.members;
    assert(after == settled.remove(k));
    lemma_settle_all_keeps_total(l.members, now);
    lemma_remove_total(settled, k);
    assert forall|j: int| 0 <= j < after.len() implies (#[trigger] after[j]).1.last_withdraw_timestamp
        == now by {
        if j < k {
            assert(after[j] == settled[j]);
        } else {
            assert(after[j] == settled[j + 1]);
        }
    }
}

/// Only the admin may add or remove members, kick off, or force a
/// withdrawal; anyone else fails with `Unauthorized` and changes nothing.
pub proof fn lemma_admin_only(
    l: LedgerView,
    caller: Seq<char>,
    addr: Seq<char>,
    amount: u64,
    now: u64,
    balance: u128,
)
    requires
        caller != l.config.admin@,
    ensures
        add_member_step(l, caller, addr, amount, now, balance) == (l, Err::<
            Seq<(Seq<char>, u128)>,
            ContractError,
        >(ContractError::Unauthorized)),
        remove_member_step(l, caller, addr, amount, now, balance) == (l, Err::<
            Seq<(Seq<char>, u128)>,
            ContractError,
        >(ContractError::Unauthorized)),
        kickoff_step(l, caller, amount) == (l, Err::<Seq<(Seq<char>, u128)>, ContractError>(
            ContractError::Unauthorized,
        )),
        force_withdraw_step(l, caller, now, balance) == (l, Err::<
            Seq<(Seq<char>, u128)>,
            ContractError,
        >(ContractError::Unauthorized)),
{
}

/// Only a member may withdraw; anyone else fails with `Unauthorized` and
/// changes nothing.
pub proof fn lemma_members_only(l: LedgerView, caller: Seq<char>, now: u64, balance: u128)
    requires
        !has_addr(l.members, caller),
    ensures
        withdraw_step(l, caller, now, balance) == (l, Err::<Seq<(Seq<char>, u128)>, ContractError>(
            ContractError::Unauthorized,
        )),
{
}

} // verus!
