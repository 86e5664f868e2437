use nft_staking::contract::{
    execute, instantiate, query_get_members, query_get_token, query_my_ids, query_my_info,
    query_state_info, query_token_info,
};
use nft_staking::encode::encode_transfers;
use nft_staking::msg::{ExecuteMsg, InstantiateMsg, TransferMsg};
use nft_staking::state::{State, Status, TokenInfo};

#[test]
fn testing() {
    let now: u64 = 1_571_797_419;
    let instantiate_msg = InstantiateMsg {
        denom: "ujuno".to_string(),
        staking_period: 1000,
        reward_wallet: "reward_wallet".to_string(),
        distribute_period: 100,
        token_address: "token_address".to_string(),
        nft_address: vec!["nft_address".to_string()],
        claim_reward: 500,
    };
    let mut store = instantiate(now, "creator".to_string(), instantiate_msg);

    let state = query_state_info(&store);
    assert_eq!(
        state,
        State {
            nft_address: vec!["nft_address".to_string()],
            token_address: "token_address".to_string(),
            owner: "creator".to_string(),
            staking_period: 1000,
            denom: "ujuno".to_string(),
            reward_wallet: "reward_wallet".to_string(),
            total_staked: 0,
            can_stake: true,
            last_distribute: now,
            distribute_period: 100,
            claim_reward: 500,
        }
    );

    println!("{:?}", "add nft address");
    let msg = ExecuteMsg::AddNftAddress { address: "nft_address1".to_string() };
    execute(&mut store, now, "creator".to_string(), msg).unwrap();

    println!("{:?}", "add token address");
    let msg = ExecuteMsg::SetTokenAddress { address: "token_address1".to_string() };
    execute(&mut store, now, "creator".to_string(), msg).unwrap();

    let state = query_state_info(&store);
    assert_eq!(
        state.nft_address,
        vec!["nft_address".to_string(), "nft_address1".to_string()]
    );
    assert_eq!(state.token_address, "token_address1".to_string());

    println!("{:?}", "set reward wallet");
    let msg = ExecuteMsg::SetRewardWallet { address: "reward_wallet1".to_string() };
    execute(&mut store, now, "creator".to_string(), msg).unwrap();

    println!("{:?}", "set distribute period");
    let msg = ExecuteMsg::SetDistributePeriod { time: 150 };
    execute(&mut store, now, "creator".to_string(), msg).unwrap();

    let state = query_state_info(&store);
    assert_eq!(state.distribute_period, 150);

    let state = query_state_info(&store);
    assert_eq!(state.reward_wallet, "reward_wallet1".to_string());

    println!("{:?}", "set staking period");
    let msg = ExecuteMsg::SetStakingPeriod { time: 1200 };
    execute(&mut store, now, "creator".to_string(), msg).unwrap();

    let state = query_state_info(&store);
    assert_eq!(state.staking_period, 1200);

    let msg = ExecuteMsg::ReceiveNft {
        sender: "owner1".to_string(),
        token_id: "reveal1".to_string(),
    };
    execute(&mut store, now, "nft_address".to_string(), msg).unwrap();

    let msg = ExecuteMsg::ReceiveNft {
        sender: "owner1".to_string(),
        token_id: "reveal2".to_string(),
    };
    execute(&mut store, now, "nft_address1".to_string(), msg).unwrap();

    let tokens = query_get_members(&store);
    assert_eq!(tokens, vec!["reveal1", "reveal2"]);

    let my_ids = query_my_ids(&store, "owner2".to_string());
    let eq_my_ids: Vec<String> = vec![];
    assert_eq!(my_ids, eq_my_ids);

    println!("{:?}", "tokens of owner1");
    let my_ids = query_my_ids(&store, "owner1".to_string());
    assert_eq!(my_ids, ["reveal1", "reveal2"]);

    println!("{:?}", "tokens of owner2");
    let my_token_infos = query_my_info(&store, "owner2".to_string());
    let eq_my_ids: Vec<TokenInfo> = vec![];
    assert_eq!(my_token_infos, eq_my_ids);

    println!("{:?}", "token informations of owner1");
    let my_token_infos = query_my_info(&store, "owner1".to_string());
    assert_eq!(
        my_token_infos,
        vec![
            TokenInfo {
                owner: "owner1".to_string(),
                token_id: "reveal1".to_string(),
                stake_time: now,
                status: Status::Staked,
                reward: 0,
                unstake_time: 0,
                source_contract: "nft_address".to_string(),
            },
            TokenInfo {
                owner: "owner1".to_string(),
                token_id: "reveal2".to_string(),
                stake_time: now,
                status: Status::Staked,
                reward: 0,
                unstake_time: 0,
                source_contract: "nft_address1".to_string(),
            }
        ]
    );

    println!("{:?}", "unstake reveal1");
    let msg = ExecuteMsg::UnstakeNft { token_id: "reveal1".to_string() };
    execute(&mut store, now, "owner1".to_string(), msg).unwrap();

    let state = query_state_info(&store);
    assert_eq!(state.total_staked, 1);

    let tokens = query_get_members(&store);
    assert_eq!(tokens, vec!["reveal1", "reveal2"]);

    let token_infos = query_token_info(&store);
    assert_eq!(
        token_infos,
        vec![
            TokenInfo {
                owner: "owner1".to_string(),
                token_id: "reveal1".to_string(),
                stake_time: now,
                status: Status::Unstaking,
                reward: 0,
                unstake_time: now,
                source_contract: "nft_address".to_string(),
            },
            TokenInfo {
                owner: "owner1".to_string(),
                token_id: "reveal2".to_string(),
                stake_time: now,
                status: Status::Staked,
                reward: 0,
                unstake_time: 0,
                source_contract: "nft_address1".to_string(),
            }
        ]
    );

    // The distribution interval and the lock-up must elapse before the
    // later steps; the host clock moves forward accordingly.
    let after_period: u64 = now + 150;
    let msg = ExecuteMsg::DistributeReward { token_amount: 10 };
    execute(&mut store, after_period, "reward_wallet1".to_string(), msg).unwrap();

    println!("{:?}", "check the reward distribution");
    let token_infos = query_token_info(&store);
    assert_eq!(
        token_infos,
        vec![
            TokenInfo {
                owner: "owner1".to_string(),
                token_id: "reveal1".to_string(),
                stake_time: now,
                status: Status::Unstaking,
                reward: 0,
                unstake_time: now,
                source_contract: "nft_address".to_string(),
            },
            TokenInfo {
                owner: "owner1".to_string(),
                token_id: "reveal2".to_string(),
                stake_time: now,
                status: Status::Staked,
                reward: 10,
                unstake_time: 0,
                source_contract: "nft_address1".to_string(),
            }
        ]
    );

    let msg = ExecuteMsg::GetReward {
        token_ids: vec!["reveal1".to_string(), "reveal2".to_string()],
    };
    let res = execute(&mut store, after_period, "owner1".to_string(), msg).unwrap();
    assert_eq!(1, res.len());
    assert_eq!(
        res[0],
        TransferMsg::Token {
            contract_addr: "token_address1".to_string(),
            recipient: "owner1".to_string(),
            amount: 10,
        }
    );
    let encoded = encode_transfers(&res).unwrap();
    assert_eq!(
        encoded[0],
        cosmwasm_std::CosmosMsg::Wasm(cosmwasm_std::WasmMsg::Execute {
            contract_addr: "token_address1".to_string(),
            msg: cosmwasm_std::to_binary(&cw20::Cw20ExecuteMsg::Transfer {
                recipient: "owner1".to_string(),
                amount: cosmwasm_std::Uint128::new(10),
            })
            .unwrap(),
            funds: vec![],
        })
    );

    let after_lockup: u64 = now + 1200;
    let msg = ExecuteMsg::WithdrawNft { token_id: "reveal1".to_string() };
    let res = execute(&mut store, after_lockup, "owner1".to_string(), msg).unwrap();

    let my_ids = query_my_ids(&store, "owner1".to_string());
    assert_eq!(my_ids, ["reveal2"]);

    assert_eq!(1, res.len());
    assert_eq!(
        res[0],
        TransferMsg::Nft {
            contract_addr: "nft_address".to_string(),
            recipient: "owner1".to_string(),
            token_id: "reveal1".to_string(),
        }
    );
    let encoded = encode_transfers(&res).unwrap();
    assert_eq!(
        encoded[0],
        cosmwasm_std::CosmosMsg::Wasm(cosmwasm_std::WasmMsg::Execute {
            contract_addr: "nft_address".to_string(),
            msg: cosmwasm_std::to_binary(&cw721::Cw721ExecuteMsg::TransferNft {
                recipient: "owner1".to_string(),
                token_id: "reveal1".to_string(),
            })
            .unwrap(),
            funds: vec![],
        })
    );

    let tokens = query_get_members(&store);
    assert_eq!(tokens, vec!["reveal2"]);

    let id_info = query_get_token(&store, "reveal2".to_string()).unwrap();
    assert_eq!(
        id_info,
        TokenInfo {
            owner: "owner1".to_string(),
            token_id: "reveal2".to_string(),
            stake_time: now,
            status: Status::Staked,
            reward: 0,
            unstake_time: 0,
            source_contract: "nft_address1".to_string(),
        }
    );

    let msg = ExecuteMsg::Migrate {
        amount: 10,
        address: "new_staking".to_string(),
        id: vec!["reveal1".to_string(), "reveal2".to_string()],
    };
    let res = execute(&mut store, after_lockup, "creator".to_string(), msg).unwrap();
    assert_eq!(res.len(), 2);

    assert_eq!(
        res[1],
        TransferMsg::Nft {
            contract_addr: "nft_address1".to_string(),
            recipient: "new_staking".to_string(),
            token_id: "reveal2".to_string(),
        }
    );
    assert_eq!(
        res[0],
        TransferMsg::Token {
            contract_addr: "token_address1".to_string(),
            recipient: "new_staking".to_string(),
            amount: 10,
        }
    );
    let encoded = encode_transfers(&res).unwrap();
    assert_eq!(
        encoded[1],
        cosmwasm_std::CosmosMsg::Wasm(cosmwasm_std::WasmMsg::Execute {
            contract_addr: "nft_address1".to_string(),
            msg: cosmwasm_std::to_binary(&cw721::Cw721ExecuteMsg::TransferNft {
                recipient: "new_staking".to_string(),
                token_id: "reveal2".to_string(),
            })
            .unwrap(),
            funds: vec![],
        })
    );
    assert_eq!(
        encoded[0],
        cosmwasm_std::CosmosMsg::Wasm(cosmwasm_std::WasmMsg::Execute {
            contract_addr: "token_address1".to_string(),
            msg: cosmwasm_std::to_binary(&cw20::Cw20ExecuteMsg::Transfer {
                recipient: "new_staking".to_string(),
                amount: cosmwasm_std::Uint128::new(10),
            })
            .unwrap(),
            funds: vec![],
        })
    );
}
