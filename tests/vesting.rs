use mars_vesting::contract::{
    accept_ownership, compute_position_response, create_position, execute, instantiate, query,
    query_config, query_position, query_positions, query_total_voting_power, query_voting_power,
    transfer_ownership, withdraw, Store,
};
use mars_vesting::ledger::{bytes_lt, Position};
use mars_vesting::msg::{
    BankSend, Coin, ContractError, Event, ExecuteMsg, InstantiateMsg, MessageInfo, QueryMsg,
    QueryResponse, Schedule, VEST_DENOM,
};
use mars_vesting::schedule::{compute_withdrawable, evaluate};

fn sched(start_time: u64, cliff: u64, duration: u64) -> Schedule {
    Schedule { start_time, cliff, duration }
}

fn funds(amount: u128) -> Vec<Coin> {
    vec![Coin { denom: VEST_DENOM.to_string(), amount }]
}

fn info(sender: &str, funds: Vec<Coin>) -> MessageInfo {
    MessageInfo { sender: sender.to_string(), funds }
}

fn setup(unlock: Schedule) -> Store {
    instantiate(InstantiateMsg { owner: "owner".to_string(), unlock_schedule: unlock })
}

fn create(store: &mut Store, user: &str, total: u128, vest: Schedule) -> Result<mars_vesting::msg::Response, ContractError> {
    create_position(store, info("owner", funds(total)), user.to_string(), vest)
}

fn power_sum(store: &Store) -> u128 {
    store.positions.iter().map(|e| e.position.total - e.position.withdrawn).sum()
}

#[test]
fn scenario_linear_vesting_points() {
    let s = sched(1000, 100, 1000);
    assert_eq!(evaluate(&s, 1000, 1099), 0);
    assert_eq!(evaluate(&s, 1000, 1100), 100);
    assert_eq!(evaluate(&s, 1000, 1500), 500);
    assert_eq!(evaluate(&s, 1000, 2000), 1000);
    assert_eq!(evaluate(&s, 1000, 5000), 1000);
}

#[test]
fn evaluate_is_monotonic_and_bounded() {
    let s = sched(1000, 100, 1000);
    let mut last = 0;
    for t in (0..3000u64).step_by(7) {
        let v = evaluate(&s, 1000, t);
        assert!(v >= last);
        assert!(v <= 1000);
        last = v;
    }
}

#[test]
fn evaluate_truncates() {
    assert_eq!(evaluate(&sched(0, 0, 3), 10, 1), 3);
    assert_eq!(evaluate(&sched(0, 0, 3), 10, 2), 6);
}

#[test]
fn evaluate_zero_duration_is_instant() {
    let s = sched(1000, 0, 0);
    assert_eq!(evaluate(&s, 777, 999), 0);
    assert_eq!(evaluate(&s, 777, 1000), 777);
    let with_cliff = sched(1000, 50, 0);
    assert_eq!(evaluate(&with_cliff, 777, 1049), 0);
    assert_eq!(evaluate(&with_cliff, 777, 1050), 777);
}

#[test]
fn evaluate_largest_values_do_not_overflow() {
    let s = sched(0, 0, u64::MAX);
    assert_eq!(evaluate(&s, u128::MAX, u64::MAX / 2), 170141183460469231722463931679029329919);
    assert_eq!(evaluate(&s, u128::MAX, u64::MAX), u128::MAX);
    assert_eq!(evaluate(&sched(u64::MAX, u64::MAX, u64::MAX), 5, u64::MAX), 0);
}

#[test]
fn withdrawable_is_min_less_withdrawn() {
    let vest = sched(0, 0, 100);
    let unlock = sched(0, 0, 200);
    assert_eq!(compute_withdrawable(50, 1000, 0, &vest, &unlock), (500, 250, 250));
    assert_eq!(compute_withdrawable(50, 1000, 100, &vest, &unlock), (500, 250, 150));
    assert_eq!(compute_withdrawable(50, 1000, 400, &vest, &unlock), (500, 250, 0));
}

#[test]
fn scenario_withdraw_then_nothing_left() {
    let mut store = setup(sched(0, 0, 2000));
    create(&mut store, "recipient", 1000, sched(0, 0, 1000)).unwrap();
    let r = withdraw(&mut store, 1000, "recipient".to_string()).unwrap();
    assert_eq!(
        r.payment,
        Some(BankSend { to_address: "recipient".to_string(), amount: 500 })
    );
    assert_eq!(
        r.event,
        Event::Withdrawn { user: "recipient".to_string(), timestamp: 1000, amount: 500 }
    );
    assert_eq!(store.positions[0].position.withdrawn, 500);
    assert_eq!(store.total_voting_power, 500);
    let before = store.positions.clone();
    assert_eq!(
        withdraw(&mut store, 1000, "recipient".to_string()),
        Err(ContractError::NothingToWithdraw)
    );
    assert_eq!(store.positions, before);
    assert_eq!(store.total_voting_power, 500);
}

#[test]
fn scenario_ownership_handover() {
    let mut store = setup(sched(0, 0, 0));
    let r = transfer_ownership(&mut store, "owner".to_string(), "b".to_string()).unwrap();
    assert_eq!(
        r.event,
        Event::OwnershipTransferProposed {
            current_owner: "owner".to_string(),
            pending_owner: "b".to_string()
        }
    );
    assert_eq!(
        accept_ownership(&mut store, "c".to_string()),
        Err(ContractError::Unauthorized)
    );
    assert_eq!(store.owner, "owner");
    let r = accept_ownership(&mut store, "b".to_string()).unwrap();
    assert_eq!(
        r.event,
        Event::OwnershipTransferCompleted {
            previous_owner: "owner".to_string(),
            new_owner: "b".to_string()
        }
    );
    assert_eq!(store.owner, "b");
    assert_eq!(store.pending_owner, None);
}

#[test]
fn transfer_by_non_owner_is_unauthorized() {
    let mut store = setup(sched(0, 0, 0));
    assert_eq!(
        transfer_ownership(&mut store, "mallory".to_string(), "b".to_string()),
        Err(ContractError::Unauthorized)
    );
    assert_eq!(store.pending_owner, None);
}

#[test]
fn accept_without_proposal_fails() {
    let mut store = setup(sched(0, 0, 0));
    assert_eq!(
        accept_ownership(&mut store, "owner".to_string()),
        Err(ContractError::NoPendingTransfer)
    );
}

#[test]
fn reproposal_replaces_pending_owner() {
    let mut store = setup(sched(0, 0, 0));
    transfer_ownership(&mut store, "owner".to_string(), "b".to_string()).unwrap();
    transfer_ownership(&mut store, "owner".to_string(), "d".to_string()).unwrap();
    assert_eq!(store.pending_owner, Some("d".to_string()));
    assert_eq!(accept_ownership(&mut store, "b".to_string()), Err(ContractError::Unauthorized));
    accept_ownership(&mut store, "d".to_string()).unwrap();
    assert_eq!(store.owner, "d");
}

#[test]
fn new_owner_can_create_positions() {
    let mut store = setup(sched(0, 0, 0));
    transfer_ownership(&mut store, "owner".to_string(), "b".to_string()).unwrap();
    accept_ownership(&mut store, "b".to_string()).unwrap();
    assert_eq!(create(&mut store, "x", 5, sched(0, 0, 0)), Err(ContractError::Unauthorized));
    create_position(&mut store, info("b", funds(5)), "x".to_string(), sched(0, 0, 0)).unwrap();
    assert_eq!(query_total_voting_power(&store), 5);
}

#[test]
fn create_position_errors() {
    let mut store = setup(sched(0, 0, 0));
    let v = sched(0, 0, 10);
    assert_eq!(
        create_position(&mut store, info("other", funds(10)), "a".to_string(), v),
        Err(ContractError::Unauthorized)
    );
    assert_eq!(
        create_position(&mut store, info("owner", vec![]), "a".to_string(), v),
        Err(ContractError::WrongCoinCount)
    );
    let two = vec![
        Coin { denom: VEST_DENOM.to_string(), amount: 1 },
        Coin { denom: VEST_DENOM.to_string(), amount: 1 },
    ];
    assert_eq!(
        create_position(&mut store, info("owner", two), "a".to_string(), v),
        Err(ContractError::WrongCoinCount)
    );
    let wrong = vec![Coin { denom: "uosmo".to_string(), amount: 10 }];
    assert_eq!(
        create_position(&mut store, info("owner", wrong), "a".to_string(), v),
        Err(ContractError::WrongDenom)
    );
    assert_eq!(create(&mut store, "a", 0, v), Err(ContractError::InvalidAmount));
    assert!(store.positions.is_empty());
    let r = create(&mut store, "a", 10, v).unwrap();
    assert_eq!(
        r.event,
        Event::PositionCreated { user: "a".to_string(), total: 10, vest_schedule: v }
    );
    assert_eq!(r.payment, None);
    assert_eq!(create(&mut store, "a", 10, v), Err(ContractError::AlreadyExists));
    assert_eq!(store.positions.len(), 1);
    assert_eq!(store.total_voting_power, 10);
}

#[test]
fn create_position_overflow_is_rejected() {
    let mut store = setup(sched(0, 0, 0));
    create(&mut store, "a", u128::MAX, sched(0, 0, 0)).unwrap();
    assert_eq!(create(&mut store, "b", 1, sched(0, 0, 0)), Err(ContractError::Overflow));
    assert_eq!(store.positions.len(), 1);
    assert_eq!(store.total_voting_power, u128::MAX);
}

#[test]
fn withdraw_errors() {
    let mut store = setup(sched(100, 0, 100));
    assert_eq!(withdraw(&mut store, 150, "a".to_string()), Err(ContractError::NotFound));
    create(&mut store, "a", 100, sched(0, 0, 0)).unwrap();
    assert_eq!(
        withdraw(&mut store, 50, "a".to_string()),
        Err(ContractError::NothingToWithdraw)
    );
    assert_eq!(store.positions[0].position.withdrawn, 0);
}

#[test]
fn aggregate_matches_sum_over_a_run() {
    let mut store = setup(sched(0, 0, 100));
    create(&mut store, "carol", 300, sched(0, 10, 50)).unwrap();
    assert_eq!(store.total_voting_power, power_sum(&store));
    create(&mut store, "alice", 1000, sched(0, 0, 200)).unwrap();
    assert_eq!(store.total_voting_power, power_sum(&store));
    create(&mut store, "bob", 7, sched(20, 0, 0)).unwrap();
    assert_eq!(store.total_voting_power, power_sum(&store));
    for (t, u) in [(5, "alice"), (30, "carol"), (30, "bob"), (60, "alice"), (100, "carol"), (250, "alice"), (250, "bob")] {
        let _ = withdraw(&mut store, t, u.to_string());
        assert_eq!(store.total_voting_power, power_sum(&store));
        for e in &store.positions {
            assert!(e.position.withdrawn <= e.position.total);
        }
    }
    assert_eq!(store.total_voting_power, 0);
    assert_eq!(query_voting_power(&store, &"alice".to_string()), 0);
}

#[test]
fn voting_power_queries() {
    let mut store = setup(sched(0, 0, 100));
    create(&mut store, "a", 100, sched(0, 0, 100)).unwrap();
    withdraw(&mut store, 30, "a".to_string()).unwrap();
    assert_eq!(query_voting_power(&store, &"a".to_string()), 70);
    assert_eq!(query_voting_power(&store, &"nobody".to_string()), 0);
    assert_eq!(query_total_voting_power(&store), 70);
}

#[test]
fn position_query_projects_amounts() {
    let mut store = setup(sched(0, 0, 200));
    create(&mut store, "a", 1000, sched(0, 0, 100)).unwrap();
    let p = query_position(&store, 50, "a".to_string()).unwrap();
    assert_eq!(p.user, "a");
    assert_eq!(p.total, 1000);
    assert_eq!(p.vested, 500);
    assert_eq!(p.unlocked, 250);
    assert_eq!(p.withdrawn, 0);
    assert_eq!(p.withdrawable, 250);
    assert_eq!(p.vest_schedule, sched(0, 0, 100));
    assert_eq!(query_position(&store, 50, "b".to_string()), Err(ContractError::NotFound));
    let pos = Position { total: 1000, vest_schedule: sched(0, 0, 100), withdrawn: 0 };
    assert_eq!(compute_position_response(50, "a".to_string(), &pos, &sched(0, 0, 200)), p);
}

#[test]
fn config_query() {
    let mut store = setup(sched(1, 2, 3));
    let c = query_config(&store);
    assert_eq!(c.owner, "owner");
    assert_eq!(c.pending_owner, None);
    assert_eq!(c.unlock_schedule, sched(1, 2, 3));
    transfer_ownership(&mut store, "owner".to_string(), "b".to_string()).unwrap();
    assert_eq!(query_config(&store).pending_owner, Some("b".to_string()));
}

#[test]
fn pages_cover_every_position_once_in_order() {
    let mut store = setup(sched(0, 0, 0));
    let mut names: Vec<String> = (0..25).map(|i| format!("user{:02}", (i * 7) % 25)).collect();
    for n in &names {
        create(&mut store, n, 10, sched(0, 0, 0)).unwrap();
    }
    names.sort();
    let mut seen: Vec<String> = Vec::new();
    let mut cursor: Option<String> = None;
    loop {
        let page = query_positions(&store, 0, cursor.clone(), Some(4));
        if page.is_empty() {
            break;
        }
        assert!(page.len() <= 4);
        for p in &page {
            seen.push(p.user.clone());
        }
        cursor = Some(page.last().unwrap().user.clone());
    }
    assert_eq!(seen, names);
}

#[test]
fn page_limits() {
    let mut store = setup(sched(0, 0, 0));
    for i in 0..40 {
        create(&mut store, &format!("u{:03}", i), 1, sched(0, 0, 0)).unwrap();
    }
    assert_eq!(query_positions(&store, 0, None, None).len(), 10);
    assert_eq!(query_positions(&store, 0, None, Some(100)).len(), 30);
    assert_eq!(query_positions(&store, 0, None, Some(0)).len(), 0);
    let page = query_positions(&store, 0, Some("u037".to_string()), None);
    assert_eq!(page.len(), 2);
    assert_eq!(page[0].user, "u038");
    let page = query_positions(&store, 0, Some("u0375".to_string()), Some(1));
    assert_eq!(page[0].user, "u038");
    assert!(query_positions(&store, 0, Some("zzz".to_string()), None).is_empty());
}

#[test]
fn byte_order_of_recipients() {
    assert!(bytes_lt(b"a", b"b"));
    assert!(bytes_lt(b"a", b"ab"));
    assert!(!bytes_lt(b"ab", b"a"));
    assert!(!bytes_lt(b"a", b"a"));
    assert!(bytes_lt(b"Z", b"a"));
    assert!(bytes_lt(b"", b"a"));
}

#[test]
fn execute_and_query_dispatch() {
    let mut store = setup(sched(0, 0, 100));
    let r = execute(
        &mut store,
        0,
        info("owner", funds(100)),
        ExecuteMsg::CreatePosition { user: "a".to_string(), vest_schedule: sched(0, 0, 100) },
    );
    assert!(r.is_ok());
    let r = execute(&mut store, 40, info("a", vec![]), ExecuteMsg::Withdraw {}).unwrap();
    assert_eq!(r.payment, Some(BankSend { to_address: "a".to_string(), amount: 40 }));
    execute(
        &mut store,
        40,
        info("owner", vec![]),
        ExecuteMsg::TransferOwnership { new_owner: "b".to_string() },
    )
    .unwrap();
    execute(&mut store, 40, info("b", vec![]), ExecuteMsg::AcceptOwnership {}).unwrap();
    assert_eq!(store.owner, "b");
    assert_eq!(
        query(&store, 40, QueryMsg::TotalVotingPower {}),
        Ok(QueryResponse::TotalVotingPower(60))
    );
    assert_eq!(
        query(&store, 40, QueryMsg::VotingPower { user: "a".to_string() }),
        Ok(QueryResponse::VotingPower(60))
    );
    assert_eq!(
        query(&store, 40, QueryMsg::Position { user: "z".to_string() }),
        Err(ContractError::NotFound)
    );
    match query(&store, 70, QueryMsg::Position { user: "a".to_string() }) {
        Ok(QueryResponse::Position(p)) => assert_eq!(p.withdrawable, 30),
        other => panic!("unexpected {:?}", other),
    }
    match query(&store, 70, QueryMsg::Positions { start_after: None, limit: None }) {
        Ok(QueryResponse::Positions(v)) => assert_eq!(v.len(), 1),
        other => panic!("unexpected {:?}", other),
    }
    match query(&store, 70, QueryMsg::Config {}) {
        Ok(QueryResponse::Config(c)) => assert_eq!(c.owner, "b"),
        other => panic!("unexpected {:?}", other),
    }
}
