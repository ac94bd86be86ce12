use vstd::prelude::*;

use crate::msg::AssetInfo;
use crate::registry::sorted_addrs;

verus! {

/// What the ledger keeps of one member.
#[derive(Clone, Copy, Debug, PartialEq, Eq, Structural)]
pub struct ShareholderInfo {
    /// The moment (seconds) up to which this member's accrual is paid out.
    pub last_withdraw_timestamp: u64,
    /// The member's share, over the sum of all current weights.
    pub weight: u64,
}

/// The ledger's settings. Only `schedule_start` ever changes, once.
#[derive(Clone, Debug, PartialEq, Eq)]
pub struct ContractConfig {
    /// Length of the vesting window, in seconds.
    pub vesting_period: u64,
    pub vesting_amount: u64,
    pub vesting_token: AssetInfo,
    pub admin: String,
    /// Start of the vesting window; zero until kickoff.
    pub schedule_start: u64,
    pub force_withdraw_enabled: bool,
}

/// One registry entry: an address and what is kept of it.
#[derive(Clone, Debug, PartialEq, Eq)]
pub struct Member {
    pub addr: String,
    pub info: ShareholderInfo,
}

/// A registry entry as the contracts see it.
pub type Entry = (Seq<char>, ShareholderInfo);

impl View for Member {
    type V = Entry;

    open spec fn view(&self) -> Entry {
        (self.addr@, self.info)
    }
}

/// The whole ledger: settings and the member registry, ascending by
/// address; every settlement pass visits the members in that order.
pub struct VestingState {
    pub config: ContractConfig,
    pub shareholders: Vec<Member>,
}

/// The ledger as the contracts see it.
pub struct LedgerView {
    pub config: ContractConfig,
    pub members: Seq<Entry>,
}

pub open spec fn entries(v: Seq<Member>) -> Seq<Entry> {
    v.map_values(|m: Member| m@)
}

/// No address occurs twice in the registry.
pub open spec fn unique_addrs(m: Seq<Entry>) -> bool {
    forall|i: int, j: int|
        0 <= i < m.len() && 0 <= j < m.len() && #[trigger] m[i].0 == #[trigger] m[j].0 ==> i == j
}

impl View for VestingState {
    type V = LedgerView;

    open spec fn view(&self) -> LedgerView {
        LedgerView { config: self.config, members: entries(self.shareholders@) }
    }
}

impl VestingState {
    /// The registry lists its addresses in strictly ascending order (and
    /// so holds each once).
    pub open spec fn wf(&self) -> bool {
        sorted_addrs(self@.members)
    }
}

} // verus!
