//! The ledger's calls. Each one is proved to act exactly as its spec
//! transition says: from the ledger before the call to the ledger after it
//! and the transfers it emits, or to an error with the ledger untouched.
use vstd::prelude::*;

use crate::accrual::{claim, claimable};
use crate::error::ContractError;
use crate::msg::{ExecuteMsg, InitialShareholder, InstantiateMsg};
use crate::registry::{
    addr_less, calculate_weight_sum, find_insert_pos, find_member, has_addr, index_of, insert_sorted,
    lemma_index_of_found, lemma_remove_sorted, lemma_same_addrs_sorted, lemma_sorted_unique,
    sorted_addrs,
    put_entry, settle_all, settle_one, update_all_last_withdraw_to, update_last_withdraw_to,
    weight_total,
};
use crate::schedule::{expired, inactive, is_expired, is_inactive, kickstarted, is_kickstarted};
use crate::state::{
    entries, ContractConfig, Entry, LedgerView, Member, ShareholderInfo,
    VestingState,
};

verus! {

/// An instruction to send `amount` of the ledger's token to `recipient`.
/// The ledger only emits these; carrying them out is left to its host.
#[derive(Clone, Debug, PartialEq, Eq)]
pub struct Transfer {
    pub recipient: String,
    pub amount: u128,
}

pub type Payout = (Seq<char>, u128);

impl View for Transfer {
    type V = Payout;

    open spec fn view(&self) -> Payout {
        (self.recipient@, self.amount)
    }
}

pub open spec fn payouts(v: Seq<Transfer>) -> Seq<Payout> {
    v.map_values(|t: Transfer| t@)
}

pub open spec fn outcome(r: Result<Vec<Transfer>, ContractError>) -> Result<
    Seq<Payout>,
    ContractError,
> {
    match r {
        Ok(v) => Ok(payouts(v@)),
        Err(e) => Err(e),
    }
}

pub type Step = (LedgerView, Result<Seq<Payout>, ContractError>);

pub open spec fn weight_fits(m: Seq<Entry>) -> bool {
    weight_total(m) <= u64::MAX
}

/// What each member may claim at `now`, in registry order.
pub open spec fn settlement_payouts(l: LedgerView, now: u64, balance: u128) -> Seq<Payout> {
    Seq::new(
        l.members.len(),
        |j: int|
            (
                l.members[j].0,
                claim(l.config, l.members[j].1, weight_total(l.members) as u64, now, balance),
            ),
    )
}

/// The forced pass before a change of the weight sum: while accrual is
/// live, every member is paid what it may claim and its clock is set to
/// `now`; before the start nothing happens.
pub open spec fn forced_settlement(l: LedgerView, now: u64, balance: u128) -> Result<
    (Seq<Entry>, Seq<Payout>),
    ContractError,
> {
    if inactive(l.config.schedule_start, now) {
        Ok((l.members, Seq::empty()))
    } else if !weight_fits(l.members) {
        Err(ContractError::Overflow)
    } else {
        Ok((settle_all(l.members, now), settlement_payouts(l, now, balance)))
    }
}

pub open spec fn withdraw_amount(l: LedgerView, a: Seq<char>, now: u64, balance: u128) -> Result<
    u128,
    ContractError,
> {
    if !has_addr(l.members, a) {
        Err(ContractError::NotFound)
    } else if !weight_fits(l.members) {
        Err(ContractError::Overflow)
    } else {
        Ok(
            claim(
                l.config,
                l.members[index_of(l.members, a)].1,
                weight_total(l.members) as u64,
                now,
                balance,
            ),
        )
    }
}

pub open spec fn with_members(l: LedgerView, m: Seq<Entry>) -> LedgerView {
    LedgerView { config: l.config, members: m }
}

pub open spec fn withdraw_step(l: LedgerView, caller: Seq<char>, now: u64, balance: u128) -> Step {
    if !has_addr(l.members, caller) {
        (l, Err(ContractError::Unauthorized))
    } else if inactive(l.config.schedule_start, now) {
        (l, Err(ContractError::InactiveContract))
    } else {
        match withdraw_amount(l, caller, now, balance) {
            Err(e) => (l, Err(e)),
            Ok(amount) => (
                with_members(l, settle_one(l.members, caller, now)),
                Ok(seq![(caller, amount)]),
            ),
        }
    }
}

pub open spec fn add_member_step(
    l: LedgerView,
    caller: Seq<char>,
    addr: Seq<char>,
    weight: u64,
    now: u64,
    balance: u128,
) -> Step {
    if caller != l.config.admin@ {
        (l, Err(ContractError::Unauthorized))
    } else if has_addr(l.members, addr) {
        (l, Err(ContractError::UnexpectedInput))
    } else if expired(l.config.schedule_start, now, l.config.vesting_period) {
        (l, Err(ContractError::ExpiredContract))
    } else {
        match forced_settlement(l, now, balance) {
            Err(e) => (l, Err(e)),
            Ok((m, p)) => (
                with_members(
                    l,
                    insert_sorted(
                        m,
                        addr,
                        ShareholderInfo { last_withdraw_timestamp: now, weight },
                    ),
                ),
                Ok(p),
            ),
        }
    }
}

pub open spec fn remove_member_step(
    l: LedgerView,
    caller: Seq<char>,
    addr: Seq<char>,
    compensation: u64,
    now: u64,
    balance: u128,
) -> Step {
    if caller != l.config.admin@ {
        (l, Err(ContractError::Unauthorized))
    } else if !has_addr(l.members, addr) {
        (l, Err(ContractError::UnexpectedInput))
    } else if expired(l.config.schedule_start, now, l.config.vesting_period) {
        (l, Err(ContractError::ExpiredContract))
    } else {
        match forced_settlement(l, now, balance) {
            Err(e) => (l, Err(e)),
            Ok((m, p)) => (
                with_members(l, m.remove(index_of(l.members, addr))),
                Ok(p.push((addr, compensation as u128))),
            ),
        }
    }
}

pub open spec fn kickoff_step(l: LedgerView, caller: Seq<char>, date: u64) -> Step {
    if caller != l.config.admin@ {
        (l, Err(ContractError::Unauthorized))
    } else if kickstarted(l.config.schedule_start) {
        (l, Err(ContractError::ActiveContract))
    } else if date == 0 {
        (l, Err(ContractError::UnexpectedInput))
    } else {
        (
            LedgerView {
                config: ContractConfig { schedule_start: date, ..l.config },
                members: settle_all(l.members, date),
            },
            Ok(Seq::empty()),
        )
    }
}

pub open spec fn force_withdraw_step(
    l: LedgerView,
    caller: Seq<char>,
    now: u64,
    balance: u128,
) -> Step {
    if caller != l.config.admin@ || !l.config.force_withdraw_enabled {
        (l, Err(ContractError::Unauthorized))
    } else {
        match forced_settlement(l, now, balance) {
            Err(e) => (l, Err(e)),
            Ok((m, p)) => (with_members(l, m), Ok(p)),
        }
    }
}

pub open spec fn execute_step(
    l: LedgerView,
    caller: Seq<char>,
    now: u64,
    balance: u128,
    msg: ExecuteMsg,
) -> Step {
    match msg {
        ExecuteMsg::Withdraw {  } => withdraw_step(l, caller, now, balance),
        ExecuteMsg::AddMember { addr, weight } => add_member_step(
            l,
            caller,
            addr@,
            weight,
            now,
            balance,
        ),
        ExecuteMsg::RemoveMember { addr, compensation } => remove_member_step(
            l,
            caller,
            addr@,
            compensation,
            now,
            balance,
        ),
        ExecuteMsg::KickOff { date } => kickoff_step(l, caller, date),
        ExecuteMsg::ForceWithdraw {  } => force_withdraw_step(l, caller, now, balance),
    }
}

/// The registry built from the initial shareholders, in order; a repeated
/// address keeps its first place and takes its last weight.
pub open spec fn initial_members(s: Seq<InitialShareholder>, now: u64) -> Seq<Entry>
    decreases s.len(),
{
    if s.len() == 0 {
        Seq::empty()
    } else {
        put_entry(
            initial_members(s.drop_last(), now),
            s.last().addr@,
            ShareholderInfo { last_withdraw_timestamp: now, weight: s.last().weight },
        )
    }
}

/// Settling clocks keeps every address in its place.
pub proof fn lemma_settle_all_keeps_addrs(m: Seq<Entry>, to: u64)
    ensures
        settle_all(m, to).len() == m.len(),
        forall|i: int| 0 <= i < m.len() ==> (#[trigger] settle_all(m, to)[i]).0 == m[i].0,
        sorted_addrs(m) ==> sorted_addrs(settle_all(m, to)),
        forall|a: Seq<char>| has_addr(m, a) == #[trigger] has_addr(settle_all(m, to), a),
{
    let s = settle_all(m, to);
    assert forall|a: Seq<char>| has_addr(m, a) implies #[trigger] has_addr(s, a) by {
        let i = choose|i: int| 0 <= i < m.len() && #[trigger] m[i].0 == a;
        assert(s[i].0 == a);
    }
    assert forall|a: Seq<char>| has_addr(s, a) implies has_addr(m, a) by {
        let i = choose|i: int| 0 <= i < s.len() && #[trigger] s[i].0 == a;
        assert(m[i].0 == a);
    }
    if sorted_addrs(m) {
        lemma_same_addrs_sorted(m, s);
    }
}

/// Stores `addr` with `info`: in place when present, else at its place in
/// the order.
fn put_member(members: &mut Vec<Member>, addr: &String, info: ShareholderInfo)
    requires
        sorted_addrs(entries(old(members)@)),
    ensures
        sorted_addrs(entries(final(members)@)),
        entries(final(members)@) == put_entry(entries(old(members)@), addr@, info),
{
    let ghost before = entries(members@);
    proof {
        lemma_sorted_unique(before);
    }
    match find_member(members, addr) {
        Some(i) => {
            members[i].info = info;
            proof {
                assert(entries(members@) =~= put_entry(before, addr@, info));
                lemma_same_addrs_sorted(before, entries(members@));
            }
        },
        None => {
            let p = find_insert_pos(members, addr);
            members.insert(p, Member { addr: addr.clone(), info });
            proof {
                assert(entries(members@) =~= put_entry(before, addr@, info));
            }
        },
    }
}

fn copy_asset(a: &crate::msg::AssetInfo) -> (r: crate::msg::AssetInfo)
    ensures
        r == *a,
{
    match a {
        crate::msg::AssetInfo::Cw20Info { address } => crate::msg::AssetInfo::Cw20Info {
            address: address.clone(),
        },
        crate::msg::AssetInfo::NativeInfo { denom } => crate::msg::AssetInfo::NativeInfo {
            denom: denom.clone(),
        },
    }
}

/// A field-by-field copy of the settings.
pub fn copy_config(c: &ContractConfig) -> (r: ContractConfig)
    ensures
        r == *c,
{
    ContractConfig {
        vesting_period: c.vesting_period,
        vesting_amount: c.vesting_amount,
        vesting_token: copy_asset(&c.vesting_token),
        admin: c.admin.clone(),
        schedule_start: c.schedule_start,
        force_withdraw_enabled: c.force_withdraw_enabled,
    }
}

/// A new ledger: not kicked off, each initial shareholder's clock at `now`.
/// Any weights are accepted: shares are always taken over the live sum.
pub fn instantiate(msg: InstantiateMsg, now: u64) -> (r: VestingState)
    ensures
        r.wf(),
        r.config == (ContractConfig {
            vesting_period: msg.vesting_period,
            vesting_amount: msg.vesting_amount,
            vesting_token: msg.token,
            admin: msg.admin,
            schedule_start: 0,
            force_withdraw_enabled: match msg.force_withdraw_enabled {
                Some(b) => b,
                None => false,
            },
        }),
        r@.members == initial_members(msg.shareholders@, now),
{
    let ghost holders = msg.shareholders@;
    let InstantiateMsg {
        vesting_period,
        vesting_amount,
        token,
        shareholders,
        admin,
        force_withdraw_enabled,
    } = msg;
    let force = match force_withdraw_enabled {
        Some(b) => b,
        None => false,
    };
    let config = ContractConfig {
        vesting_period,
        vesting_amount,
        vesting_token: token,
        admin,
        schedule_start: 0,
        force_withdraw_enabled: force,
    };
    let mut members: Vec<Member> = Vec::new();
    let mut i: usize = 0;
    proof {
        assert(entries(members@) =~= initial_members(holders.subrange(0, 0), now));
    }
    while i < shareholders.len()
        invariant
            0 <= i <= shareholders@.len(),
            holders == shareholders@,
            sorted_addrs(entries(members@)),
            entries(members@) == initial_members(holders.subrange(0, i as int), now),
        decreases shareholders@.len() - i,
    {
        let info = ShareholderInfo { last_withdraw_timestamp: now, weight: shareholders[i].weight };
        put_member(&mut members, &shareholders[i].addr, info);
        proof {
            assert(holders.subrange(0, i + 1).drop_last() =~= holders.subrange(0, i as int));
        }
        i += 1;
    }
    proof {
        assert(holders.subrange(0, i as int) =~= holders);
    }
    VestingState { config, shareholders: members }
}

/// The transfer of `amnt` to `dst`.
pub fn get_withdraw_msg(amnt: u128, dst: &String) -> (r: Transfer)
    ensures
        r@ == (dst@, amnt),
{
    Transfer { recipient: dst.clone(), amount: amnt }
}

/// What `addr` may claim at `now`; fails when it is no member or when the
/// weights do not sum within a `u64`.
pub fn calculate_withdraw_amnt(state: &VestingState, addr: &String, now: u64, balance: u128) -> (r:
    Result<u128, ContractError>)
    requires
        state.wf(),
    ensures
        r == withdraw_amount(state@, addr@, now, balance),
        r matches Ok(x) ==> x <= balance,
        inactive(state.config.schedule_start, now) ==> (r matches Ok(x) ==> x == 0),
{
    proof {
        lemma_sorted_unique(state@.members);
    }
    let idx = match find_member(&state.shareholders, addr) {
        Some(i) => i,
        None => {
            return Err(ContractError::NotFound);
        },
    };
    let weight_sum = match calculate_weight_sum(&state.shareholders) {
        Ok(s) => s,
        Err(e) => {
            return Err(e);
        },
    };
    proof {
        assert(entries(state.shareholders@)[idx as int] == state.shareholders@[idx as int]@);
    }
    proof {
        crate::laws::lemma_claim_within_pool(state@, addr@, now, balance);
    }
    Ok(claimable(&state.config, state.shareholders[idx].info, weight_sum, now, balance))
}

/// One transfer per member, in ascending address order, of what it may
/// claim at `now`.
pub fn get_all_withdraw_msgs(state: &VestingState, now: u64, balance: u128) -> (r: Result<
    Vec<Transfer>,
    ContractError,
>)
    requires
        state.wf(),
    ensures
        r matches Ok(v) ==> forall|i: int, j: int|
            0 <= i < j < v@.len() ==> addr_less(
                (#[trigger] v@[i]).recipient@,
                (#[trigger] v@[j]).recipient@,
            ),
        outcome(r) == (if weight_fits(state@.members) {
            Ok::<Seq<Payout>, ContractError>(settlement_payouts(state@, now, balance))
        } else {
            Err::<Seq<Payout>, ContractError>(ContractError::Overflow)
        }),
{
    let weight_sum = match calculate_weight_sum(&state.shareholders) {
        Ok(s) => s,
        Err(e) => {
            return Err(e);
        },
    };
    let ghost l = state@;
    proof {
        crate::registry::lemma_total_nonneg(l.members);
    }
    let mut msgs: Vec<Transfer> = Vec::new();
    let mut i: usize = 0;
    while i < state.shareholders.len()
        invariant
            0 <= i <= state.shareholders@.len(),
            l == state@,
            weight_sum as int == weight_total(l.members),
            msgs@.len() == i,
            payouts(msgs@) =~= settlement_payouts(l, now, balance).subrange(0, i as int),
        decreases state.shareholders@.len() - i,
    {
        let ghost prev = msgs@;
        let member = &state.shareholders[i];
        let amount = claimable(&state.config, member.info, weight_sum, now, balance);
        msgs.push(get_withdraw_msg(amount, &member.addr));
        proof {
            assert(l.members[i as int] == state.shareholders@[i as int]@);
            let sp = settlement_payouts(l, now, balance);
            assert(sp[i as int] == (l.members[i as int].0, amount));
            assert(msgs@ == prev.push(msgs@.last()));
            assert forall|j: int| 0 <= j < i implies #[trigger] payouts(msgs@)[j] == sp[j] by {
                assert(payouts(msgs@)[j] == msgs@[j]@);
                assert(msgs@[j] == prev[j]);
                assert(payouts(prev)[j] == prev[j]@);
            }
            assert(payouts(msgs@)[i as int] == sp[i as int]);
            assert(payouts(msgs@) =~= settlement_payouts(l, now, balance).subrange(0, i + 1));
        }
        i += 1;
    }
    proof {
        let sp = settlement_payouts(l, now, balance);
        assert(sp.subrange(0, i as int) =~= sp);
        assert forall|x: int, y: int| 0 <= x < y < msgs@.len() implies addr_less(
            (#[trigger] msgs@[x]).recipient@,
            (#[trigger] msgs@[y]).recipient@,
        ) by {
            assert(payouts(msgs@)[x] == msgs@[x]@ && payouts(msgs@)[y] == msgs@[y]@);
            assert(sp[x].0 == l.members[x].0 && sp[y].0 == l.members[y].0);
        }
    }
    Ok(msgs)
}

/// The forced pass of [`forced_settlement`], on the ledger itself.
fn settle_everyone(state: &mut VestingState, now: u64, balance: u128) -> (r: Result<
    Vec<Transfer>,
    ContractError,
>)
    requires
        old(state).wf(),
    ensures
        final(state).wf(),
        final(state).config == old(state).config,
        match forced_settlement(old(state)@, now, balance) {
            Ok((m, p)) => final(state)@.members == m && outcome(r) == Ok::<
                Seq<Payout>,
                ContractError,
            >(p),
            Err(e) => *final(state) == *old(state) && outcome(r) == Err::<
                Seq<Payout>,
                ContractError,
            >(e),
        },
{
    if is_inactive(state.config.schedule_start, now) {
        let empty: Vec<Transfer> = Vec::new();
        proof {
            assert(payouts(empty@) =~= Seq::<Payout>::empty());
        }
        return Ok(empty);
    }
    let msgs = match get_all_withdraw_msgs(state, now, balance) {
        Ok(v) => v,
        Err(e) => {
            return Err(e);
        },
    };
    let _ = update_all_last_withdraw_to(&mut state.shareholders, now);
    proof {
        lemma_settle_all_keeps_addrs(entries(old(state).shareholders@), now);
    }
    Ok(msgs)
}

/// The caller withdraws what it may claim now, and its clock moves to now.
pub fn execute_withdraw(state: &mut VestingState, sender: &String, now: u64, balance: u128) -> (r:
    Result<Vec<Transfer>, ContractError>)
    requires
        old(state).wf(),
    ensures
        final(state).wf(),
        (final(state)@, outcome(r)) == withdraw_step(old(state)@, sender@, now, balance),
{
    proof {
        lemma_sorted_unique(state@.members);
    }
    if find_member(&state.shareholders, sender).is_none() {
        return Err(ContractError::Unauthorized);
    }
    if is_inactive(state.config.schedule_start, now) {
        return Err(ContractError::InactiveContract);
    }
    let amount = match calculate_withdraw_amnt(state, sender, now, balance) {
        Ok(a) => a,
        Err(e) => {
            return Err(e);
        },
    };
    let ghost before = entries(state.shareholders@);
    let _ = update_last_withdraw_to(&mut state.shareholders, sender, now);
    let msgs = vec![get_withdraw_msg(amount, sender)];
    proof {
        assert(payouts(msgs@) =~= seq![(sender@, amount)]);
        lemma_index_of_found(before, sender@);
        lemma_same_addrs_sorted(before, entries(state.shareholders@));
    }
    Ok(msgs)
}

/// The admin adds `addr` with `weight`. While accrual is live every
/// current member is settled first; the new member's clock starts at `now`.
pub fn execute_add_member(
    state: &mut VestingState,
    sender: &String,
    addr: &String,
    weight: u64,
    now: u64,
    balance: u128,
) -> (r: Result<Vec<Transfer>, ContractError>)
    requires
        old(state).wf(),
    ensures
        final(state).wf(),
        (final(state)@, outcome(r)) == add_member_step(
            old(state)@,
            sender@,
            addr@,
            weight,
            now,
            balance,
        ),
{
    if state.config.admin != *sender {
        return Err(ContractError::Unauthorized);
    }
    if find_member(&state.shareholders, addr).is_some() {
        return Err(ContractError::UnexpectedInput);
    }
    if is_expired(state.config.schedule_start, now, state.config.vesting_period) {
        return Err(ContractError::ExpiredContract);
    }
    let msgs = match settle_everyone(state, now, balance) {
        Ok(v) => v,
        Err(e) => {
            return Err(e);
        },
    };
    let ghost settled = entries(state.shareholders@);
    proof {
        lemma_settle_all_keeps_addrs(entries(old(state).shareholders@), now);
    }
    let info = ShareholderInfo { last_withdraw_timestamp: now, weight };
    let p = find_insert_pos(&state.shareholders, addr);
    state.shareholders.insert(p, Member { addr: addr.clone(), info });
    proof {
        assert(entries(state.shareholders@) =~= insert_sorted(settled, addr@, info));
    }
    Ok(msgs)
}

/// The admin removes `addr`. While accrual is live every current member is
/// settled first; then `addr` leaves and is sent a flat `compensation`.
pub fn execute_remove_member(
    state: &mut VestingState,
    sender: &String,
    addr: &String,
    compensation: u64,
    now: u64,
    balance: u128,
) -> (r: Result<Vec<Transfer>, ContractError>)
    requires
        old(state).wf(),
    ensures
        final(state).wf(),
        (final(state)@, outcome(r)) == remove_member_step(
            old(state)@,
            sender@,
            addr@,
            compensation,
            now,
            balance,
        ),
{
    if state.config.admin != *sender {
        return Err(ContractError::Unauthorized);
    }
    proof {
        lemma_sorted_unique(state@.members);
    }
    let idx = match find_member(&state.shareholders, addr) {
        Some(i) => i,
        None => {
            return Err(ContractError::UnexpectedInput);
        },
    };
    if is_expired(state.config.schedule_start, now, state.config.vesting_period) {
        return Err(ContractError::ExpiredContract);
    }
    let mut msgs = match settle_everyone(state, now, balance) {
        Ok(v) => v,
        Err(e) => {
            return Err(e);
        },
    };
    let ghost settled = entries(state.shareholders@);
    let ghost paid = payouts(msgs@);
    proof {
        lemma_settle_all_keeps_addrs(entries(old(state).shareholders@), now);
    }
    let _ = state.shareholders.remove(idx);
    msgs.push(get_withdraw_msg(compensation as u128, addr));
    proof {
        assert(entries(state.shareholders@) =~= settled.remove(idx as int));
        assert(payouts(msgs@) =~= paid.push((addr@, compensation as u128)));
        lemma_remove_sorted(settled, idx as int);
    }
    Ok(msgs)
}

/// The admin starts the schedule at `date`, once. Date zero is the
/// "not started" mark and is refused. Every member's clock moves to
/// `date`, so no time before the start ever accrues.
pub fn execute_kickoff(state: &mut VestingState, sender: &String, date: u64) -> (r: Result<
    Vec<Transfer>,
    ContractError,
>)
    requires
        old(state).wf(),
    ensures
        final(state).wf(),
        (final(state)@, outcome(r)) == kickoff_step(old(state)@, sender@, date),
{
    if state.config.admin != *sender {
        return Err(ContractError::Unauthorized);
    }
    if is_kickstarted(state.config.schedule_start) {
        return Err(ContractError::ActiveContract);
    }
    if date == 0 {
        return Err(ContractError::UnexpectedInput);
    }
    let _ = update_all_last_withdraw_to(&mut state.shareholders, date);
    state.config.schedule_start = date;
    let empty: Vec<Transfer> = Vec::new();
    proof {
        lemma_settle_all_keeps_addrs(entries(old(state).shareholders@), date);
        assert(payouts(empty@) =~= Seq::<Payout>::empty());
    }
    Ok(empty)
}

/// Where the ledger allows it, the admin settles every member now.
pub fn execute_force_withdraw(
    state: &mut VestingState,
    sender: &String,
    now: u64,
    balance: u128,
) -> (r: Result<Vec<Transfer>, ContractError>)
    requires
        old(state).wf(),
    ensures
        final(state).wf(),
        (final(state)@, outcome(r)) == force_withdraw_step(old(state)@, sender@, now, balance),
{
    if state.config.admin != *sender {
        return Err(ContractError::Unauthorized);
    }
    if !state.config.force_withdraw_enabled {
        return Err(ContractError::Unauthorized);
    }
    settle_everyone(state, now, balance)
}

/// Runs one call on the ledger for `sender` at `now`, with the pool
/// holding `balance`, and returns the transfers it emits.
pub fn execute(
    state: &mut VestingState,
    sender: &String,
    now: u64,
    balance: u128,
    msg: ExecuteMsg,
) -> (r: Result<Vec<Transfer>, ContractError>)
    requires
        old(state).wf(),
    ensures
        final(state).wf(),
        (final(state)@, outcome(r)) == execute_step(old(state)@, sender@, now, balance, msg),
{
    match msg {
        ExecuteMsg::Withdraw {  } => execute_withdraw(state, sender, now, balance),
        ExecuteMsg::AddMember { addr, weight } => execute_add_member(
            state,
            sender,
            &addr,
            weight,
            now,
            balance,
        ),
        ExecuteMsg::RemoveMember { addr, compensation } => execute_remove_member(
            state,
            sender,
            &addr,
            compensation,
            now,
            balance,
        ),
        ExecuteMsg::KickOff { date } => execute_kickoff(state, sender, date),
        ExecuteMsg::ForceWithdraw {  } => execute_force_withdraw(state, sender, now, balance),
    }
}

} // verus!
