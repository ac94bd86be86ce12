use vstd::prelude::*;

verus! {

/// A member named at instantiation, with its weight.
#[derive(Clone, Debug, PartialEq, Eq)]
pub struct InitialShareholder {
    pub addr: String,
    pub weight: u64,
}

/// The asset whose balance the ledger distributes.
#[derive(Clone, Debug, PartialEq, Eq)]
pub enum AssetInfo {
    Cw20Info { address: String },
    NativeInfo { denom: String },
}

/// The parameters of a new ledger.
#[derive(Clone, Debug, PartialEq, Eq)]
pub struct InstantiateMsg {
    pub vesting_period: u64,
    pub vesting_amount: u64,
    pub token: AssetInfo,
    pub shareholders: Vec<InitialShareholder>,
    pub admin: String,
    pub force_withdraw_enabled: Option<bool>,
}

/// The calls that change the ledger.
#[derive(Clone, Debug, PartialEq, Eq)]
pub enum ExecuteMsg {
    Withdraw {},
    AddMember { addr: String, weight: u64 },
    RemoveMember { addr: String, compensation: u64 },
    KickOff { date: u64 },
    ForceWithdraw {},
}

} // verus!
