//! Read-only views of the ledger.
use vstd::prelude::*;

use crate::accrual::{claim, claimable};
use crate::schedule::inactive;
use crate::contract::{copy_config, weight_fits};
use crate::error::ContractError;
use crate::registry::{addr_less, lemma_sorted_unique, calculate_weight_sum, find_member, has_addr, index_of, weight_total};
use crate::state::{entries, ContractConfig, VestingState};

verus! {

/// The questions that can be asked of the ledger.
#[derive(Clone, Debug, PartialEq, Eq)]
pub enum QueryMsg {
    Config {},
    Members {},
    Member { addr: String },
}

/// Every member's address, in registry order.
#[derive(Clone, Debug, PartialEq, Eq)]
pub struct QueryMembersResponse {
    pub members: Vec<String>,
}

/// One member's share of the pool and what it may claim now.
#[derive(Clone, Debug, PartialEq, Eq)]
pub struct QueryMemberResponse {
    pub addr: String,
    pub weight_nominator: u64,
    pub weight_denominator: u64,
    pub can_withdraw: u128,
}

pub fn query_config(state: &VestingState) -> (r: ContractConfig)
    ensures
        r == state.config,
{
    copy_config(&state.config)
}

/// Every member's address, in ascending order.
pub fn query_members(state: &VestingState) -> (r: QueryMembersResponse)
    requires
        state.wf(),
    ensures
        r.members@.map_values(|s: String| s@) == state@.members.map_values(
            |e: (Seq<char>, crate::state::ShareholderInfo)| e.0,
        ),
        forall|i: int, j: int|
            0 <= i < j < r.members@.len() ==> addr_less(
                (#[trigger] r.members@[i])@,
                (#[trigger] r.members@[j])@,
            ),
{
    let ghost want = state@.members.map_values(
        |e: (Seq<char>, crate::state::ShareholderInfo)| e.0,
    );
    let mut members: Vec<String> = Vec::new();
    let mut i: usize = 0;
    while i < state.shareholders.len()
        invariant
            0 <= i <= state.shareholders@.len(),
            want == state@.members.map_values(
                |e: (Seq<char>, crate::state::ShareholderInfo)| e.0,
            ),
            members@.len() == i,
            forall|j: int| 0 <= j < i ==> (#[trigger] members@[j])@ == want[j],
        decreases state.shareholders@.len() - i,
    {
        proof {
            assert(entries(state.shareholders@)[i as int] == state.shareholders@[i as int]@);
        }
        members.push(state.shareholders[i].addr.clone());
        i += 1;
    }
    proof {
        assert(members@.map_values(|s: String| s@) =~= want);
        let m = state@.members;
        assert forall|x: int, y: int| 0 <= x < y < members@.len() implies addr_less(
            (#[trigger] members@[x])@,
            (#[trigger] members@[y])@,
        ) by {
            assert(members@[x]@ == m[x].0 && members@[y]@ == m[y].0);
        }
    }
    QueryMembersResponse { members }
}

/// `addr`'s weight over the weight sum, and what it may claim at `now`.
pub fn query_member(state: &VestingState, addr: &String, now: u64, balance: u128) -> (r: Result<
    QueryMemberResponse,
    ContractError,
>)
    requires
        state.wf(),
    ensures
        !weight_fits(state@.members) ==> r == Err::<QueryMemberResponse, ContractError>(
            ContractError::Overflow,
        ),
        weight_fits(state@.members) && !has_addr(state@.members, addr@) ==> r == Err::<
            QueryMemberResponse,
            ContractError,
        >(ContractError::NotFound),
        weight_fits(state@.members) && has_addr(state@.members, addr@) ==> (r matches Ok(resp) && ({
            let info = state@.members[index_of(state@.members, addr@)].1;
            let total = weight_total(state@.members) as u64;
            &&& resp.addr@ == addr@
            &&& resp.weight_nominator == info.weight
            &&& resp.weight_denominator == total
            &&& resp.can_withdraw == claim(state.config, info, total, now, balance)
        })),
        inactive(state.config.schedule_start, now) ==> (r matches Ok(resp) ==> resp.can_withdraw
            == 0),
{
    let denominator = match calculate_weight_sum(&state.shareholders) {
        Ok(s) => s,
        Err(e) => {
            return Err(e);
        },
    };
    proof {
        lemma_sorted_unique(state@.members);
    }
    let idx = match find_member(&state.shareholders, addr) {
        Some(i) => i,
        None => {
            return Err(ContractError::NotFound);
        },
    };
    proof {
        assert(entries(state.shareholders@)[idx as int] == state.shareholders@[idx as int]@);
    }
    let info = state.shareholders[idx].info;
    Ok(
        QueryMemberResponse {
            addr: addr.clone(),
            weight_nominator: info.weight,
            weight_denominator: denominator,
            can_withdraw: claimable(&state.config, info, denominator, now, balance),
        },
    )
}

} // verus!
