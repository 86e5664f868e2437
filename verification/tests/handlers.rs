use nft_staking::contract::{
    execute_claim_amount, execute_distribute_reward, execute_get_reward, execute_migrate_token,
    execute_nft_address, execute_set_owner, execute_set_stake, execute_stake_nft,
    execute_unstake_nft, execute_withdraw_nft, instantiate, query, query_get_current_time,
    query_get_members, query_get_token, query_my_ids, query_state_info, query_token_info,
};
use nft_staking::error::ContractError;
use nft_staking::msg::{InstantiateMsg, QueryAnswer, QueryMsg, TransferMsg};
use nft_staking::state::{StakingContract, Status};

const NOW: u64 = 1_000_000;

fn fresh() -> StakingContract {
    instantiate(
        NOW,
        "creator".to_string(),
        InstantiateMsg {
            denom: "ujuno".to_string(),
            staking_period: 1000,
            distribute_period: 100,
            reward_wallet: "reward_wallet".to_string(),
            token_address: "token_address".to_string(),
            nft_address: vec!["source1".to_string()],
            claim_reward: 500,
        },
    )
}

fn deposit(s: &mut StakingContract, source: &str, owner: &str, id: &str) {
    execute_stake_nft(s, NOW, source.to_string(), owner.to_string(), id.to_string()).unwrap();
}

#[test]
fn scenario_full_lifecycle() {
    let mut s = fresh();
    execute_nft_address(&mut s, "creator".to_string(), "S1".to_string()).unwrap();
    deposit(&mut s, "S1", "O1", "A");

    let info = query_get_token(&s, "A".to_string()).unwrap();
    assert_eq!(info.status, Status::Staked);
    assert_eq!(query_state_info(&s).total_staked, 1);
    assert_eq!(query_my_ids(&s, "O1".to_string()), vec!["A".to_string()]);

    let t1 = NOW + 100;
    execute_distribute_reward(&mut s, t1, "reward_wallet".to_string(), 10).unwrap();
    assert_eq!(query_get_token(&s, "A".to_string()).unwrap().reward, 10);

    let res = execute_get_reward(&mut s, "O1".to_string(), vec!["A".to_string()]).unwrap();
    assert_eq!(
        res,
        vec![TransferMsg::Token {
            contract_addr: "token_address".to_string(),
            recipient: "O1".to_string(),
            amount: 10,
        }]
    );
    assert_eq!(query_get_token(&s, "A".to_string()).unwrap().reward, 0);

    let t2 = t1 + 1;
    execute_unstake_nft(&mut s, t2, "O1".to_string(), "A".to_string()).unwrap();
    assert_eq!(query_get_token(&s, "A".to_string()).unwrap().status, Status::Unstaking);
    assert_eq!(query_state_info(&s).total_staked, 0);

    let early = t2 + 999;
    assert_eq!(
        execute_withdraw_nft(&mut s, early, "O1".to_string(), "A".to_string()),
        Err(ContractError::TimeRemaining)
    );

    let late = t2 + 1000;
    let res = execute_withdraw_nft(&mut s, late, "O1".to_string(), "A".to_string()).unwrap();
    assert_eq!(
        res,
        vec![TransferMsg::Nft {
            contract_addr: "S1".to_string(),
            recipient: "O1".to_string(),
            token_id: "A".to_string(),
        }]
    );
    assert!(query_get_token(&s, "A".to_string()).is_none());
    let no_ids: Vec<String> = vec![];
    assert_eq!(query_my_ids(&s, "O1".to_string()), no_ids);
}

#[test]
fn staked_count_matches_total_staked() {
    let mut s = fresh();
    deposit(&mut s, "source1", "alice", "t1");
    deposit(&mut s, "source1", "alice", "t2");
    deposit(&mut s, "source1", "bob", "t3");
    let staked = query_token_info(&s)
        .iter()
        .filter(|t| t.status == Status::Staked)
        .count() as u128;
    assert_eq!(query_state_info(&s).total_staked, staked);
    execute_unstake_nft(&mut s, NOW + 1, "alice".to_string(), "t1".to_string()).unwrap();
    let staked = query_token_info(&s)
        .iter()
        .filter(|t| t.status == Status::Staked)
        .count() as u128;
    assert_eq!(query_state_info(&s).total_staked, staked);
    assert_eq!(staked, 2);
}

#[test]
fn unstake_decrements_by_exactly_one() {
    let mut s = fresh();
    deposit(&mut s, "source1", "alice", "t1");
    deposit(&mut s, "source1", "alice", "t2");
    assert_eq!(query_state_info(&s).total_staked, 2);
    execute_unstake_nft(&mut s, NOW + 5, "alice".to_string(), "t2".to_string()).unwrap();
    assert_eq!(query_state_info(&s).total_staked, 1);
}

#[test]
fn withdraw_succeeds_exactly_at_lockup_boundary() {
    let mut s = fresh();
    deposit(&mut s, "source1", "alice", "t1");
    execute_unstake_nft(&mut s, NOW + 10, "alice".to_string(), "t1".to_string()).unwrap();
    let boundary = NOW + 10 + 1000;
    assert_eq!(
        execute_withdraw_nft(&mut s, boundary - 1, "alice".to_string(), "t1".to_string()),
        Err(ContractError::TimeRemaining)
    );
    assert!(execute_withdraw_nft(&mut s, boundary, "alice".to_string(), "t1".to_string()).is_ok());
}

#[test]
fn distribution_splits_by_floor_and_skips_unstaking() {
    let mut s = fresh();
    deposit(&mut s, "source1", "alice", "t1");
    deposit(&mut s, "source1", "bob", "t2");
    deposit(&mut s, "source1", "carol", "t3");
    execute_unstake_nft(&mut s, NOW + 1, "carol".to_string(), "t3".to_string()).unwrap();
    // 11 over 2 staked positions: floor share 5 each, remainder forfeited.
    execute_distribute_reward(&mut s, NOW + 100, "reward_wallet".to_string(), 11).unwrap();
    let infos = query_token_info(&s);
    assert_eq!(infos[0].reward, 5);
    assert_eq!(infos[1].reward, 5);
    assert_eq!(infos[2].reward, 0);
}

#[test]
fn second_distribution_within_period_fails() {
    let mut s = fresh();
    deposit(&mut s, "source1", "alice", "t1");
    let t1 = NOW + 100;
    execute_distribute_reward(&mut s, t1, "reward_wallet".to_string(), 10).unwrap();
    assert_eq!(
        execute_distribute_reward(&mut s, t1 + 99, "reward_wallet".to_string(), 10),
        Err(ContractError::CanNotDistribute)
    );
    assert!(execute_distribute_reward(&mut s, t1 + 100, "reward_wallet".to_string(), 10).is_ok());
}

#[test]
fn second_claim_emits_nothing() {
    let mut s = fresh();
    deposit(&mut s, "source1", "alice", "t1");
    execute_distribute_reward(&mut s, NOW + 100, "reward_wallet".to_string(), 7).unwrap();
    let first = execute_get_reward(&mut s, "alice".to_string(), vec!["t1".to_string()]).unwrap();
    assert_eq!(
        first,
        vec![TransferMsg::Token {
            contract_addr: "token_address".to_string(),
            recipient: "alice".to_string(),
            amount: 7,
        }]
    );
    let second = execute_get_reward(&mut s, "alice".to_string(), vec!["t1".to_string()]).unwrap();
    let none: Vec<TransferMsg> = vec![];
    assert_eq!(second, none);
}

#[test]
fn duplicate_id_in_one_claim_batch_pays_once() {
    let mut s = fresh();
    deposit(&mut s, "source1", "alice", "t1");
    execute_distribute_reward(&mut s, NOW + 100, "reward_wallet".to_string(), 9).unwrap();
    let res = execute_get_reward(
        &mut s,
        "alice".to_string(),
        vec!["t1".to_string(), "t1".to_string()],
    )
    .unwrap();
    assert_eq!(res.len(), 1);
}

#[test]
fn withdraw_with_unclaimed_reward_sends_reward_before_nft() {
    let mut s = fresh();
    deposit(&mut s, "source1", "alice", "t1");
    execute_distribute_reward(&mut s, NOW + 100, "reward_wallet".to_string(), 10).unwrap();
    execute_unstake_nft(&mut s, NOW + 101, "alice".to_string(), "t1".to_string()).unwrap();
    let res = execute_withdraw_nft(&mut s, NOW + 101 + 1000, "alice".to_string(), "t1".to_string())
        .unwrap();
    assert_eq!(
        res,
        vec![
            TransferMsg::Token {
                contract_addr: "token_address".to_string(),
                recipient: "alice".to_string(),
                amount: 10,
            },
            TransferMsg::Nft {
                contract_addr: "source1".to_string(),
                recipient: "alice".to_string(),
                token_id: "t1".to_string(),
            }
        ]
    );
}

#[test]
fn deposit_errors() {
    let mut s = fresh();
    assert_eq!(
        execute_stake_nft(
            &mut s,
            NOW,
            "unknown_source".to_string(),
            "alice".to_string(),
            "t1".to_string()
        ),
        Err(ContractError::WrongNftContract)
    );
    deposit(&mut s, "source1", "alice", "t1");
    assert_eq!(
        execute_stake_nft(
            &mut s,
            NOW,
            "source1".to_string(),
            "bob".to_string(),
            "t1".to_string()
        ),
        Err(ContractError::AlreadyStaked)
    );
    execute_set_stake(&mut s, "creator".to_string(), false).unwrap();
    assert_eq!(
        execute_stake_nft(
            &mut s,
            NOW,
            "source1".to_string(),
            "bob".to_string(),
            "t2".to_string()
        ),
        Err(ContractError::CanNotStake)
    );
}

#[test]
fn unstake_and_withdraw_errors() {
    let mut s = fresh();
    deposit(&mut s, "source1", "alice", "t1");
    assert_eq!(
        execute_unstake_nft(&mut s, NOW, "alice".to_string(), "missing".to_string()),
        Err(ContractError::NotStaked)
    );
    assert_eq!(
        execute_unstake_nft(&mut s, NOW, "bob".to_string(), "t1".to_string()),
        Err(ContractError::Unauthorized)
    );
    assert_eq!(
        execute_withdraw_nft(&mut s, NOW, "alice".to_string(), "missing".to_string()),
        Err(ContractError::NotStaked)
    );
    assert_eq!(
        execute_withdraw_nft(&mut s, NOW, "bob".to_string(), "t1".to_string()),
        Err(ContractError::Unauthorized)
    );
    assert_eq!(
        execute_withdraw_nft(&mut s, NOW, "alice".to_string(), "t1".to_string()),
        Err(ContractError::StatusError)
    );
}

#[test]
fn distribution_errors() {
    let mut s = fresh();
    assert_eq!(
        execute_distribute_reward(&mut s, NOW + 100, "intruder".to_string(), 10),
        Err(ContractError::Unauthorized)
    );
    assert_eq!(
        execute_distribute_reward(&mut s, NOW + 100, "reward_wallet".to_string(), 10),
        Err(ContractError::NotStaked)
    );
    deposit(&mut s, "source1", "alice", "t1");
    execute_unstake_nft(&mut s, NOW + 1, "alice".to_string(), "t1".to_string()).unwrap();
    assert_eq!(
        execute_distribute_reward(&mut s, NOW + 100, "reward_wallet".to_string(), 10),
        Err(ContractError::NotStaked)
    );
}

#[test]
fn claim_batch_is_all_or_nothing() {
    let mut s = fresh();
    deposit(&mut s, "source1", "alice", "t1");
    execute_distribute_reward(&mut s, NOW + 100, "reward_wallet".to_string(), 10).unwrap();
    assert_eq!(
        execute_get_reward(
            &mut s,
            "alice".to_string(),
            vec!["t1".to_string(), "missing".to_string()]
        ),
        Err(ContractError::NotStaked)
    );
    assert_eq!(
        execute_get_reward(&mut s, "bob".to_string(), vec!["t1".to_string()]),
        Err(ContractError::Unauthorized)
    );
    // The failed batches changed nothing: the reward is still claimable.
    assert_eq!(query_get_token(&s, "t1".to_string()).unwrap().reward, 10);
}

#[test]
fn admin_handlers_reject_non_owner() {
    let mut s = fresh();
    assert_eq!(
        execute_set_owner(&mut s, "intruder".to_string(), "intruder".to_string()),
        Err(ContractError::Unauthorized)
    );
    assert_eq!(
        execute_claim_amount(&mut s, "intruder".to_string(), 1),
        Err(ContractError::Unauthorized)
    );
    execute_set_owner(&mut s, "creator".to_string(), "new_owner".to_string()).unwrap();
    assert_eq!(query_state_info(&s).owner, "new_owner".to_string());
    // The old owner lost the privilege with the handover.
    assert_eq!(
        execute_set_stake(&mut s, "creator".to_string(), false),
        Err(ContractError::Unauthorized)
    );
}

#[test]
fn migrate_keeps_ledger_and_orders_messages() {
    let mut s = fresh();
    deposit(&mut s, "source1", "alice", "t1");
    assert_eq!(
        execute_migrate_token(
            &mut s,
            "intruder".to_string(),
            5,
            "dest".to_string(),
            vec!["t1".to_string()]
        ),
        Err(ContractError::Unauthorized)
    );
    let res = execute_migrate_token(
        &mut s,
        "creator".to_string(),
        5,
        "dest".to_string(),
        vec!["t1".to_string(), "missing".to_string()],
    )
    .unwrap();
    assert_eq!(
        res,
        vec![
            TransferMsg::Token {
                contract_addr: "token_address".to_string(),
                recipient: "dest".to_string(),
                amount: 5,
            },
            TransferMsg::Nft {
                contract_addr: "source1".to_string(),
                recipient: "dest".to_string(),
                token_id: "t1".to_string(),
            }
        ]
    );
    // Evacuated entries are deliberately left in the ledger.
    assert!(query_get_token(&s, "t1".to_string()).is_some());
}

#[test]
fn whole_ledger_queries_list_entries_in_ascending_id_order() {
    let mut s = fresh();
    deposit(&mut s, "source1", "alice", "b");
    deposit(&mut s, "source1", "alice", "a");
    deposit(&mut s, "source1", "bob", "c");
    assert_eq!(
        query_get_members(&s),
        vec!["a".to_string(), "b".to_string(), "c".to_string()]
    );
    let infos = query_token_info(&s);
    assert_eq!(infos.len(), 3);
    assert_eq!(infos[0].token_id, "a".to_string());
    assert_eq!(infos[0].owner, "alice".to_string());
    assert_eq!(infos[1].token_id, "b".to_string());
    assert_eq!(infos[2].token_id, "c".to_string());
    assert_eq!(infos[2].owner, "bob".to_string());
    // The owner index, by contrast, keeps insertion order.
    assert_eq!(
        query_my_ids(&s, "alice".to_string()),
        vec!["b".to_string(), "a".to_string()]
    );
}

#[test]
fn query_dispatch_answers() {
    let mut s = fresh();
    deposit(&mut s, "source1", "alice", "t1");
    match query(&s, NOW + 3, QueryMsg::GetCurrentTime) {
        QueryAnswer::CurrentTime(t) => assert_eq!(t, NOW + 3),
        _ => panic!("wrong answer variant"),
    }
    assert_eq!(query_get_current_time(NOW + 3), NOW + 3);
    match query(&s, NOW, QueryMsg::GetStateInfo) {
        QueryAnswer::StateInfo(st) => assert_eq!(st.total_staked, 1),
        _ => panic!("wrong answer variant"),
    }
    match query(&s, NOW, QueryMsg::GetMyIds { address: "alice".to_string() }) {
        QueryAnswer::MyIds(v) => assert_eq!(v, vec!["t1".to_string()]),
        _ => panic!("wrong answer variant"),
    }
    match query(&s, NOW, QueryMsg::GetMyInfo { address: "alice".to_string() }) {
        QueryAnswer::MyInfo(v) => {
            assert_eq!(v.len(), 1);
            assert_eq!(v[0].token_id, "t1".to_string());
        },
        _ => panic!("wrong answer variant"),
    }
    match query(&s, NOW, QueryMsg::GetToken { token_id: "none".to_string() }) {
        QueryAnswer::Token(t) => assert!(t.is_none()),
        _ => panic!("wrong answer variant"),
    }
}
