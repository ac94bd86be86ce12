use vesting_ledger::accrual::claimable;
use vesting_ledger::contract::{
    calculate_withdraw_amnt, execute, execute_add_member, execute_force_withdraw,
    execute_kickoff, execute_remove_member, execute_withdraw, get_all_withdraw_msgs,
    get_withdraw_msg, instantiate, Transfer,
};
use vesting_ledger::error::ContractError;
use vesting_ledger::msg::{AssetInfo, ExecuteMsg, InitialShareholder, InstantiateMsg};
use vesting_ledger::query::{query_config, query_member, query_members};
use vesting_ledger::registry::{calculate_weight_sum, has_member, update_all_last_withdraw_to, update_last_withdraw_to};
use vesting_ledger::schedule::{is_expired, is_inactive, is_kickstarted};
use vesting_ledger::state::{ContractConfig, Member, ShareholderInfo, VestingState};

fn s(x: &str) -> String {
    x.to_string()
}

fn holder(addr: &str, weight: u64) -> InitialShareholder {
    InitialShareholder { addr: s(addr), weight }
}

fn new_ledger(holders: Vec<InitialShareholder>, force: Option<bool>, now: u64) -> VestingState {
    instantiate(
        InstantiateMsg {
            vesting_period: 1000,
            vesting_amount: 1000,
            token: AssetInfo::Cw20Info { address: s("token") },
            shareholders: holders,
            admin: s("admin"),
            force_withdraw_enabled: force,
        },
        now,
    )
}

fn two_members() -> VestingState {
    new_ledger(vec![holder("alice", 1), holder("bob", 3)], Some(true), 10)
}

fn info_of(state: &VestingState, addr: &str) -> ShareholderInfo {
    state.shareholders.iter().find(|m| m.addr == addr).unwrap().info
}

fn transfer(to: &str, amount: u128) -> Transfer {
    Transfer { recipient: s(to), amount }
}

fn config(start: u64, period: u64) -> ContractConfig {
    ContractConfig {
        vesting_period: period,
        vesting_amount: 0,
        vesting_token: AssetInfo::NativeInfo { denom: s("ucoin") },
        admin: s("admin"),
        schedule_start: start,
        force_withdraw_enabled: false,
    }
}

fn member_addrs(state: &VestingState) -> Vec<String> {
    state.shareholders.iter().map(|m| m.addr.clone()).collect()
}

#[test]
fn schedule_gate_classifies_moments() {
    assert!(!is_kickstarted(0));
    assert!(is_kickstarted(5));
    assert!(is_inactive(0, 100));
    assert!(is_inactive(50, 49));
    assert!(!is_inactive(50, 50));
    assert!(!is_expired(0, u64::MAX, 10));
    assert!(!is_expired(50, 60, 10));
    assert!(is_expired(50, 61, 10));
    assert!(!is_expired(u64::MAX, u64::MAX, u64::MAX));
}

#[test]
fn instantiate_records_config_and_members() {
    let st = two_members();
    let cfg = query_config(&st);
    assert_eq!(cfg.vesting_period, 1000);
    assert_eq!(cfg.schedule_start, 0);
    assert_eq!(cfg.admin, "admin");
    assert!(cfg.force_withdraw_enabled);
    assert_eq!(cfg.vesting_token, AssetInfo::Cw20Info { address: s("token") });
    assert_eq!(info_of(&st, "alice"), ShareholderInfo { last_withdraw_timestamp: 10, weight: 1 });
    assert_eq!(info_of(&st, "bob"), ShareholderInfo { last_withdraw_timestamp: 10, weight: 3 });
    let st2 = new_ledger(vec![], None, 0);
    assert!(!st2.config.force_withdraw_enabled);
    assert!(st2.shareholders.is_empty());
}

#[test]
fn instantiate_repeated_address_keeps_last_weight() {
    let st = new_ledger(vec![holder("alice", 1), holder("bob", 3), holder("alice", 7)], None, 4);
    assert_eq!(member_addrs(&st), vec![s("alice"), s("bob")]);
    assert_eq!(info_of(&st, "alice").weight, 7);
}

#[test]
fn withdraw_scenario_weights_one_and_three() {
    // start at 1000; 500 s later alice (1 of 4) gets floor(floor(1000*500/1000)/4)
    let mut st = two_members();
    assert_eq!(execute_kickoff(&mut st, &s("admin"), 1000), Ok(vec![]));
    let r = execute_withdraw(&mut st, &s("alice"), 1500, 1000);
    assert_eq!(r, Ok(vec![transfer("alice", 125)]));
    assert_eq!(info_of(&st, "alice").last_withdraw_timestamp, 1500);
    assert_eq!(info_of(&st, "bob").last_withdraw_timestamp, 1000);
    let r = execute_withdraw(&mut st, &s("bob"), 1500, 875);
    // floor(floor(875*500/1000) * 3/4) = floor(437 * 3 / 4) = 327
    assert_eq!(r, Ok(vec![transfer("bob", 327)]));
}

#[test]
fn withdraw_twice_at_same_moment_pays_nothing_more() {
    let mut st = two_members();
    execute_kickoff(&mut st, &s("admin"), 1000).unwrap();
    execute_withdraw(&mut st, &s("alice"), 1500, 1000).unwrap();
    assert_eq!(execute_withdraw(&mut st, &s("alice"), 1500, 875), Ok(vec![transfer("alice", 0)]));
    assert_eq!(info_of(&st, "alice").last_withdraw_timestamp, 1500);
}

#[test]
fn withdraw_by_non_member_is_unauthorized_and_changes_nothing() {
    let mut st = two_members();
    execute_kickoff(&mut st, &s("admin"), 1000).unwrap();
    let before: Vec<Member> = st.shareholders.clone();
    let r = execute_withdraw(&mut st, &s("mallory"), 1500, 1000);
    assert_eq!(r, Err(ContractError::Unauthorized));
    assert_eq!(st.shareholders, before);
    assert_eq!(st.config.schedule_start, 1000);
}

#[test]
fn withdraw_before_kickoff_is_inactive() {
    let mut st = two_members();
    assert_eq!(execute_withdraw(&mut st, &s("alice"), 500, 1000), Err(ContractError::InactiveContract));
    execute_kickoff(&mut st, &s("admin"), 2000).unwrap();
    assert_eq!(execute_withdraw(&mut st, &s("alice"), 1999, 1000), Err(ContractError::InactiveContract));
}

#[test]
fn claim_is_zero_before_start() {
    let info = ShareholderInfo { last_withdraw_timestamp: 0, weight: 5 };
    assert_eq!(claimable(&config(0, 100), info, 5, 1_000_000, u128::MAX), 0);
    assert_eq!(claimable(&config(500, 100), info, 5, 499, u128::MAX), 0);
}

#[test]
fn claim_formula_rounds_down_in_two_steps() {
    let info = ShareholderInfo { last_withdraw_timestamp: 100, weight: 1 };
    // floor(floor(10 * 50 / 300) * 1 / 3) = floor(1 / 3) = 0, a single step would give 0 too
    assert_eq!(claimable(&config(100, 300), info, 3, 150, 10), 0);
    // floor(floor(1000 * 333 / 1000) * 2 / 3) = floor(333 * 2 / 3) = 222
    let info2 = ShareholderInfo { last_withdraw_timestamp: 100, weight: 2 };
    assert_eq!(claimable(&config(100, 1000), info2, 3, 433, 1000), 222);
    // floor(floor(7 * 10 / 20) * 3 / 5) = floor(3 * 3 / 5) = 1
    let info3 = ShareholderInfo { last_withdraw_timestamp: 1, weight: 3 };
    assert_eq!(claimable(&config(1, 20), info3, 5, 11, 7), 1);
    // past the window only its 4 s count: floor(floor(7 * 4 / 4) * 3 / 5) = 4
    assert_eq!(claimable(&config(1, 4), info3, 5, 11, 7), 4);
}

#[test]
fn claim_degrades_to_zero_on_irregular_figures() {
    let info = ShareholderInfo { last_withdraw_timestamp: 10, weight: 1 };
    // zero vesting period
    assert_eq!(claimable(&config(10, 0), info, 1, 20, 1000), 0);
    // zero weight sum
    assert_eq!(claimable(&config(10, 100), info, 0, 20, 1000), 0);
    // clock after now
    assert_eq!(claimable(&config(5, 100), info, 1, 8, 1000), 0);
    // second step past u128 (a weight above the sum)
    let heavy = ShareholderInfo { last_withdraw_timestamp: 10, weight: 2 };
    assert_eq!(claimable(&config(10, 1), heavy, 1, 20, u128::MAX), 0);
}

#[test]
fn claim_of_large_balance_uses_wide_product() {
    // u128::MAX * 1 / 2 fits although u128::MAX * 1 is the full range
    let info = ShareholderInfo { last_withdraw_timestamp: 10, weight: 1 };
    assert_eq!(claimable(&config(10, 2), info, 1, 11, u128::MAX), u128::MAX / 2);
    // u128::MAX * 2 / 3 overflows 128 bits in the product only
    assert_eq!(claimable(&config(10, 3), info, 1, 12, u128::MAX), (u128::MAX / 3) * 2);
}

#[test]
fn claim_stays_within_pool_during_one_period() {
    let mut st = new_ledger(vec![holder("a", 1), holder("b", 1), holder("c", 5)], None, 0);
    execute_kickoff(&mut st, &s("admin"), 100).unwrap();
    for now in [100u64, 101, 400, 777, 1100] {
        for who in ["a", "b", "c"] {
            let x = calculate_withdraw_amnt(&st, &s(who), now, 999).unwrap();
            assert!(x <= 999);
        }
    }
    assert_eq!(calculate_withdraw_amnt(&st, &s("c"), 1100, 999), Ok(713));
}

#[test]
fn calculate_withdraw_amnt_errors() {
    let st = two_members();
    assert_eq!(calculate_withdraw_amnt(&st, &s("zed"), 10, 5), Err(ContractError::NotFound));
    let big = new_ledger(vec![holder("a", u64::MAX), holder("b", 1)], None, 0);
    assert_eq!(calculate_withdraw_amnt(&big, &s("a"), 10, 5), Err(ContractError::Overflow));
}

#[test]
fn weight_sum_checks_overflow() {
    let st = two_members();
    assert_eq!(calculate_weight_sum(&st.shareholders), Ok(4));
    let full = new_ledger(vec![holder("a", u64::MAX - 1), holder("b", 1)], None, 0);
    assert_eq!(calculate_weight_sum(&full.shareholders), Ok(u64::MAX));
    let over = new_ledger(vec![holder("a", u64::MAX), holder("b", 1)], None, 0);
    assert_eq!(calculate_weight_sum(&over.shareholders), Err(ContractError::Overflow));
    let empty = new_ledger(vec![], None, 0);
    assert_eq!(calculate_weight_sum(&empty.shareholders), Ok(0));
}

#[test]
fn registry_updates() {
    let mut st = two_members();
    assert!(has_member(&st.shareholders, &s("bob")));
    assert!(!has_member(&st.shareholders, &s("carol")));
    assert_eq!(
        update_last_withdraw_to(&mut st.shareholders, &s("bob"), 77),
        Ok(ShareholderInfo { last_withdraw_timestamp: 77, weight: 3 })
    );
    assert_eq!(update_last_withdraw_to(&mut st.shareholders, &s("carol"), 77), Err(ContractError::NotFound));
    update_all_last_withdraw_to(&mut st.shareholders, 99);
    assert_eq!(info_of(&st, "alice").last_withdraw_timestamp, 99);
    assert_eq!(info_of(&st, "bob").last_withdraw_timestamp, 99);
}

#[test]
fn all_withdraw_msgs_follow_registry_order() {
    let mut st = two_members();
    execute_kickoff(&mut st, &s("admin"), 1000).unwrap();
    let msgs = get_all_withdraw_msgs(&st, 1400, 1000).unwrap();
    assert_eq!(msgs, vec![transfer("alice", 100), transfer("bob", 300)]);
    assert_eq!(get_withdraw_msg(5, &s("x")), transfer("x", 5));
}

#[test]
fn kickoff_is_single_use() {
    let mut st = two_members();
    assert_eq!(execute_kickoff(&mut st, &s("admin"), 50), Ok(vec![]));
    assert_eq!(st.config.schedule_start, 50);
    assert_eq!(info_of(&st, "alice").last_withdraw_timestamp, 50);
    assert_eq!(info_of(&st, "bob").last_withdraw_timestamp, 50);
    assert_eq!(execute_kickoff(&mut st, &s("admin"), 80), Err(ContractError::ActiveContract));
    assert_eq!(st.config.schedule_start, 50);
}

#[test]
fn kickoff_at_zero_is_refused() {
    let mut st = two_members();
    assert_eq!(execute_kickoff(&mut st, &s("admin"), 0), Err(ContractError::UnexpectedInput));
    assert!(!is_kickstarted(st.config.schedule_start));
    assert_eq!(info_of(&st, "alice").last_withdraw_timestamp, 10);
    assert_eq!(execute_kickoff(&mut st, &s("admin"), 5), Ok(vec![]));
    assert_eq!(execute_kickoff(&mut st, &s("admin"), 0), Err(ContractError::ActiveContract));
}

#[test]
fn admin_calls_reject_others() {
    let mut st = two_members();
    let who = s("alice");
    assert_eq!(execute_add_member(&mut st, &who, &s("carol"), 1, 20, 0), Err(ContractError::Unauthorized));
    assert_eq!(execute_remove_member(&mut st, &who, &s("bob"), 1, 20, 0), Err(ContractError::Unauthorized));
    assert_eq!(execute_kickoff(&mut st, &who, 20), Err(ContractError::Unauthorized));
    assert_eq!(execute_force_withdraw(&mut st, &who, 20, 0), Err(ContractError::Unauthorized));
    assert_eq!(member_addrs(&st), vec![s("alice"), s("bob")]);
    assert_eq!(st.config.schedule_start, 0);
}

#[test]
fn force_withdraw_needs_the_flag() {
    let mut st = new_ledger(vec![holder("a", 1)], Some(false), 0);
    assert_eq!(execute_force_withdraw(&mut st, &s("admin"), 20, 0), Err(ContractError::Unauthorized));
}

#[test]
fn force_withdraw_settles_everyone_while_live() {
    let mut st = two_members();
    assert_eq!(execute_force_withdraw(&mut st, &s("admin"), 20, 1000), Ok(vec![]));
    assert_eq!(info_of(&st, "alice").last_withdraw_timestamp, 10);
    execute_kickoff(&mut st, &s("admin"), 1000).unwrap();
    let r = execute_force_withdraw(&mut st, &s("admin"), 1200, 1000);
    assert_eq!(r, Ok(vec![transfer("alice", 50), transfer("bob", 150)]));
    assert_eq!(info_of(&st, "alice").last_withdraw_timestamp, 1200);
    assert_eq!(info_of(&st, "bob").last_withdraw_timestamp, 1200);
}

#[test]
fn add_member_while_live_settles_first() {
    let mut st = two_members();
    execute_kickoff(&mut st, &s("admin"), 1000).unwrap();
    let r = execute_add_member(&mut st, &s("admin"), &s("carol"), 4, 1600, 1000);
    assert_eq!(r, Ok(vec![transfer("alice", 150), transfer("bob", 450)]));
    assert_eq!(member_addrs(&st), vec![s("alice"), s("bob"), s("carol")]);
    for who in ["alice", "bob", "carol"] {
        assert_eq!(info_of(&st, who).last_withdraw_timestamp, 1600);
    }
    assert_eq!(info_of(&st, "carol").weight, 4);
    // carol starts from zero: at 1600 she has nothing yet
    assert_eq!(calculate_withdraw_amnt(&st, &s("carol"), 1600, 400), Ok(0));
}

#[test]
fn add_member_before_start_settles_nobody() {
    let mut st = two_members();
    let r = execute_add_member(&mut st, &s("admin"), &s("carol"), 2, 30, 1000);
    assert_eq!(r, Ok(vec![]));
    assert_eq!(info_of(&st, "alice").last_withdraw_timestamp, 10);
    assert_eq!(info_of(&st, "carol"), ShareholderInfo { last_withdraw_timestamp: 30, weight: 2 });
}

#[test]
fn add_member_errors() {
    let mut st = two_members();
    assert_eq!(execute_add_member(&mut st, &s("admin"), &s("bob"), 2, 30, 0), Err(ContractError::UnexpectedInput));
    execute_kickoff(&mut st, &s("admin"), 100).unwrap();
    assert_eq!(execute_add_member(&mut st, &s("admin"), &s("carol"), 2, 1101, 0), Err(ContractError::ExpiredContract));
    assert_eq!(member_addrs(&st), vec![s("alice"), s("bob")]);
    let mut big = new_ledger(vec![holder("a", u64::MAX), holder("b", 1)], None, 0);
    execute_kickoff(&mut big, &s("admin"), 100).unwrap();
    assert_eq!(execute_add_member(&mut big, &s("admin"), &s("c"), 1, 200, 10), Err(ContractError::Overflow));
    assert_eq!(info_of(&big, "a").last_withdraw_timestamp, 100);
}

#[test]
fn remove_member_while_live_pays_and_compensates() {
    let mut st = new_ledger(vec![holder("alice", 1), holder("bob", 3), holder("carol", 4)], None, 0);
    execute_kickoff(&mut st, &s("admin"), 1000).unwrap();
    let r = execute_remove_member(&mut st, &s("admin"), &s("bob"), 50, 1500, 800);
    assert_eq!(
        r,
        Ok(vec![transfer("alice", 50), transfer("bob", 150), transfer("carol", 200), transfer("bob", 50)])
    );
    assert_eq!(query_members(&st).members, vec![s("alice"), s("carol")]);
    assert_eq!(info_of(&st, "alice").last_withdraw_timestamp, 1500);
    assert_eq!(info_of(&st, "carol").last_withdraw_timestamp, 1500);
}

#[test]
fn remove_member_before_start_only_compensates() {
    let mut st = two_members();
    let r = execute_remove_member(&mut st, &s("admin"), &s("alice"), 7, 30, 1000);
    assert_eq!(r, Ok(vec![transfer("alice", 7)]));
    assert_eq!(member_addrs(&st), vec![s("bob")]);
    assert_eq!(info_of(&st, "bob").last_withdraw_timestamp, 10);
}

#[test]
fn remove_member_errors() {
    let mut st = two_members();
    assert_eq!(execute_remove_member(&mut st, &s("admin"), &s("zed"), 1, 30, 0), Err(ContractError::UnexpectedInput));
    execute_kickoff(&mut st, &s("admin"), 100).unwrap();
    assert_eq!(execute_remove_member(&mut st, &s("admin"), &s("bob"), 1, 1101, 0), Err(ContractError::ExpiredContract));
    assert_eq!(execute_remove_member(&mut st, &s("admin"), &s("bob"), 1, 1100, 0), Ok(vec![transfer("alice", 0), transfer("bob", 0), transfer("bob", 1)]));
}

#[test]
fn execute_dispatches_each_call() {
    let mut st = two_members();
    let admin = s("admin");
    assert_eq!(execute(&mut st, &admin, 20, 0, ExecuteMsg::KickOff { date: 1000 }), Ok(vec![]));
    assert_eq!(
        execute(&mut st, &s("alice"), 1500, 1000, ExecuteMsg::Withdraw {}),
        Ok(vec![transfer("alice", 125)])
    );
    assert_eq!(
        execute(&mut st, &admin, 1500, 1000, ExecuteMsg::AddMember { addr: s("carol"), weight: 4 }),
        Ok(vec![transfer("alice", 0), transfer("bob", 375)])
    );
    assert_eq!(
        execute(&mut st, &admin, 1500, 0, ExecuteMsg::RemoveMember { addr: s("carol"), compensation: 9 }),
        Ok(vec![transfer("alice", 0), transfer("bob", 0), transfer("carol", 0), transfer("carol", 9)])
    );
    assert_eq!(
        execute(&mut st, &admin, 1600, 1000, ExecuteMsg::ForceWithdraw {}),
        Ok(vec![transfer("alice", 25), transfer("bob", 75)])
    );
}

#[test]
fn query_member_reports_share_and_claim() {
    let mut st = two_members();
    execute_kickoff(&mut st, &s("admin"), 1000).unwrap();
    let r = query_member(&st, &s("bob"), 1500, 1000).unwrap();
    assert_eq!(r.addr, "bob");
    assert_eq!(r.weight_nominator, 3);
    assert_eq!(r.weight_denominator, 4);
    assert_eq!(r.can_withdraw, 375);
    assert_eq!(query_member(&st, &s("zed"), 1500, 1000), Err(ContractError::NotFound));
    let big = new_ledger(vec![holder("a", u64::MAX), holder("b", 1)], None, 0);
    assert_eq!(query_member(&big, &s("zed"), 10, 1), Err(ContractError::Overflow));
}

#[test]
fn membership_changes_move_the_weight_sum_by_one_weight() {
    let mut st = two_members();
    execute_kickoff(&mut st, &s("admin"), 100).unwrap();
    execute_add_member(&mut st, &s("admin"), &s("carol"), 6, 300, 50).unwrap();
    assert_eq!(calculate_weight_sum(&st.shareholders), Ok(10));
    execute_remove_member(&mut st, &s("admin"), &s("bob"), 0, 400, 50).unwrap();
    assert_eq!(calculate_weight_sum(&st.shareholders), Ok(7));
    for who in ["alice", "carol"] {
        assert_eq!(info_of(&st, who).last_withdraw_timestamp, 400);
    }
}

#[test]
fn registry_is_kept_in_ascending_order() {
    let mut st = new_ledger(vec![holder("bob", 3), holder("alice", 1), holder("dave", 2)], None, 0);
    assert_eq!(query_members(&st).members, vec![s("alice"), s("bob"), s("dave")]);
    execute_add_member(&mut st, &s("admin"), &s("carol"), 1, 5, 0).unwrap();
    execute_add_member(&mut st, &s("admin"), &s("aaron"), 1, 5, 0).unwrap();
    execute_add_member(&mut st, &s("admin"), &s("zoe"), 1, 5, 0).unwrap();
    assert_eq!(
        query_members(&st).members,
        vec![s("aaron"), s("alice"), s("bob"), s("carol"), s("dave"), s("zoe")]
    );
    execute_kickoff(&mut st, &s("admin"), 100).unwrap();
    let recipients: Vec<String> =
        get_all_withdraw_msgs(&st, 200, 1000).unwrap().into_iter().map(|t| t.recipient).collect();
    assert_eq!(recipients, query_members(&st).members);
}

#[test]
fn address_order_is_char_by_char() {
    let st = new_ledger(
        vec![holder("b", 1), holder("abc", 1), holder("ab", 1), holder("B", 1), holder("\u{e9}", 1), holder("", 1)],
        None,
        0,
    );
    assert_eq!(
        query_members(&st).members,
        vec![s(""), s("B"), s("ab"), s("abc"), s("b"), s("\u{e9}")]
    );
}

#[test]
fn member_added_before_the_start_date_accrues_from_the_start() {
    let mut st = new_ledger(vec![holder("alice", 1)], None, 0);
    execute_kickoff(&mut st, &s("admin"), 1000).unwrap();
    assert_eq!(execute_add_member(&mut st, &s("admin"), &s("bob"), 1, 500, 1000), Ok(vec![]));
    assert_eq!(info_of(&st, "bob").last_withdraw_timestamp, 500);
    assert_eq!(calculate_withdraw_amnt(&st, &s("bob"), 1000, 1000), Ok(0));
    // 200 s into the schedule: floor(floor(1000 * 200 / 1000) / 2) = 100
    assert_eq!(execute_withdraw(&mut st, &s("bob"), 1200, 1000), Ok(vec![transfer("bob", 100)]));
}

#[test]
fn claim_never_counts_time_before_start() {
    let info = ShareholderInfo { last_withdraw_timestamp: 500, weight: 1 };
    assert_eq!(claimable(&config(1000, 1000), info, 1, 1000, 1000), 0);
    assert_eq!(claimable(&config(1000, 1000), info, 1, 1250, 1000), 250);
}

#[test]
fn update_all_returns_the_updated_records() {
    let mut st = two_members();
    let r = update_all_last_withdraw_to(&mut st.shareholders, 42);
    assert_eq!(
        r,
        vec![
            ShareholderInfo { last_withdraw_timestamp: 42, weight: 1 },
            ShareholderInfo { last_withdraw_timestamp: 42, weight: 3 }
        ]
    );
}

#[test]
fn accrual_stops_when_the_window_closes() {
    let info = ShareholderInfo { last_withdraw_timestamp: 1, weight: 1 };
    assert_eq!(claimable(&config(1, 100), info, 1, 1000, 100), 100);
    assert_eq!(claimable(&config(1, 100), info, 1, 101, 100), 100);
    assert_eq!(claimable(&config(1, 100), info, 1, 51, 100), 50);
    let late = ShareholderInfo { last_withdraw_timestamp: 150, weight: 1 };
    assert_eq!(claimable(&config(1, 100), late, 1, 1000, 100), 0);
    let mut st = new_ledger(vec![holder("alice", 1)], None, 0);
    execute_kickoff(&mut st, &s("admin"), 1).unwrap();
    // the window of 1000 s closes at 1001
    assert_eq!(calculate_withdraw_amnt(&st, &s("alice"), 1000, 100), Ok(99));
    assert_eq!(calculate_withdraw_amnt(&st, &s("alice"), 5000, 100), Ok(100));
    assert_eq!(execute_withdraw(&mut st, &s("alice"), 5000, 100), Ok(vec![transfer("alice", 100)]));
    assert_eq!(execute_withdraw(&mut st, &s("alice"), 2000, 0), Ok(vec![transfer("alice", 0)]));
    // a window ending at the top of the clock does not overflow
    assert_eq!(claimable(&config(u64::MAX - 1, u64::MAX), info, 1, u64::MAX, 8), 0);
}

#[test]
fn query_member_before_start_reports_nothing_to_claim() {
    let st = two_members();
    let r = query_member(&st, &s("bob"), 5000, 1_000_000).unwrap();
    assert_eq!(r.can_withdraw, 0);
}
