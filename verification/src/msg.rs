//! Inbound command and query unions, and the outbound transfer
//! instructions the handlers emit.
use vstd::prelude::*;

use crate::state::{State, TokenInfo};

verus! {

/// Parameters fixed at initialization.
pub struct InstantiateMsg {
    pub denom: String,
    pub staking_period: u64,
    pub distribute_period: u64,
    pub reward_wallet: String,
    pub token_address: String,
    pub nft_address: Vec<String>,
    pub claim_reward: u128,
}

/// One inbound command; `execute` routes it to exactly one handler.
pub enum ExecuteMsg {
    /// Deposit notification from an NFT-custody contract.
    ReceiveNft { sender: String, token_id: String },
    UnstakeNft { token_id: String },
    WithdrawNft { token_id: String },
    GetReward { token_ids: Vec<String> },
    DistributeReward { token_amount: u128 },
    SetRewardWallet { address: String },
    SetTokenAddress { address: String },
    SetOwner { address: String },
    SetStakingPeriod { time: u64 },
    SetStake { flag: bool },
    SetDistributePeriod { time: u64 },
    Migrate { amount: u128, address: String, id: Vec<String> },
    SetClaimAmount { amount: u128 },
    AddNftAddress { address: String },
}

/// One read-only query; `query` routes it to exactly one projection.
pub enum QueryMsg {
    GetStateInfo,
    GetCurrentTime,
    GetToken { token_id: String },
    GetMyIds { address: String },
    GetMyInfo { address: String },
}

/// The answer to one query, in the same order as `QueryMsg`.
pub enum QueryAnswer {
    StateInfo(State),
    CurrentTime(u64),
    Token(Option<TokenInfo>),
    MyIds(Vec<String>),
    MyInfo(Vec<TokenInfo>),
}

/// One outbound instruction to an external ledger. The host dispatches
/// these after the handler returns; this core only emits them.
#[derive(Clone, Debug, PartialEq)]
pub enum TransferMsg {
    /// Transfer `amount` of the reward token to `recipient` via the
    /// fungible-token ledger at `contract_addr`.
    Token { contract_addr: String, recipient: String, amount: u128 },
    /// Return the NFT `token_id` to `recipient` via the custody contract
    /// at `contract_addr`.
    Nft { contract_addr: String, recipient: String, token_id: String },
}

pub ghost enum TransferView {
    Token { contract_addr: Seq<char>, recipient: Seq<char>, amount: u128 },
    Nft { contract_addr: Seq<char>, recipient: Seq<char>, token_id: Seq<char> },
}

impl View for TransferMsg {
    type V = TransferView;

    open spec fn view(&self) -> TransferView {
        match self {
            TransferMsg::Token { contract_addr, recipient, amount } => TransferView::Token {
                contract_addr: contract_addr@,
                recipient: recipient@,
                amount: *amount,
            },
            TransferMsg::Nft { contract_addr, recipient, token_id } => TransferView::Nft {
                contract_addr: contract_addr@,
                recipient: recipient@,
                token_id: token_id@,
            },
        }
    }
}

/// The outbound instructions of a handler result, as mathematical values.
pub open spec fn msgs_view(v: Vec<TransferMsg>) -> Seq<TransferView> {
    v@.map_values(|m: TransferMsg| m@)
}

} // verus!
