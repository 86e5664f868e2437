//! The state-transition relations: one spec predicate per command handler,
//! relating the state before the call, the state after it, and the result.
//! Each handler's `ensures` is exactly its relation here, and the laws in
//! `laws` are proved from these relations alone.
use vstd::prelude::*;

use crate::error::ContractError;
use crate::msg::{msgs_view, ExecuteMsg, TransferMsg, TransferView};
use crate::state::{
    has_owner, has_token, ids_view, owner_index, token_index, token_of, ids_of, staked_count,
    ContractView, OwnerView, StateView, Status, TokenView,
};

verus! {

pub type TransferResult = Result<Vec<TransferMsg>, ContractError>;

/// The result succeeded and emitted no outbound instruction.
pub open spec fn ok_no_msgs(r: TransferResult) -> bool {
    r matches Ok(m) && msgs_view(m) =~= Seq::<TransferView>::empty()
}

/// The state a fresh contract starts in.
pub open spec fn instantiate_post(
    post: ContractView,
    now: u64,
    sender: Seq<char>,
    denom: Seq<char>,
    staking_period: u64,
    distribute_period: u64,
    reward_wallet: Seq<char>,
    token_address: Seq<char>,
    nft_address: Seq<Seq<char>>,
    claim_reward: u128,
) -> bool {
    &&& post.state == (StateView {
        owner: sender,
        denom: denom,
        staking_period: staking_period,
        distribute_period: distribute_period,
        reward_wallet: reward_wallet,
        total_staked: 0,
        nft_address: nft_address,
        token_address: token_address,
        can_stake: true,
        last_distribute: now,
        claim_reward: claim_reward,
    })
    &&& post.tokens =~= Seq::<TokenView>::empty()
    &&& post.owned =~= Seq::<OwnerView>::empty()
}

/// How a deposit extends the owner index: the identifier is appended to the
/// depositor's list, which is created when absent.
pub open spec fn stake_owned_post(
    pre: Seq<OwnerView>,
    post: Seq<OwnerView>,
    depositor: Seq<char>,
    token_id: Seq<char>,
) -> bool {
    if has_owner(pre, depositor) {
        post == pre.update(
            owner_index(pre, depositor),
            OwnerView {
                owner: depositor,
                token_ids: pre[owner_index(pre, depositor)].token_ids.push(token_id),
            },
        )
    } else {
        post == pre.push(OwnerView { owner: depositor, token_ids: seq![token_id] })
    }
}

/// Deposit notification: gate open, notifying custody address allow-listed,
/// identifier fresh; a new `Staked` record enters the ledger and the counter
/// and owner index follow.
pub open spec fn stake_post(
    pre: ContractView,
    post: ContractView,
    now: u64,
    src: Seq<char>,
    depositor: Seq<char>,
    token_id: Seq<char>,
    r: TransferResult,
) -> bool {
    if !pre.state.can_stake {
        post == pre && r == Err::<Vec<TransferMsg>, ContractError>(ContractError::CanNotStake)
    } else if !pre.state.nft_address.contains(src) {
        post == pre && r == Err::<Vec<TransferMsg>, ContractError>(ContractError::WrongNftContract)
    } else if has_token(pre.tokens, token_id) {
        post == pre && r == Err::<Vec<TransferMsg>, ContractError>(ContractError::AlreadyStaked)
    } else {
        &&& ok_no_msgs(r)
        &&& post.state == (StateView {
            total_staked: (pre.state.total_staked + 1) as u128,
            ..pre.state
        })
        &&& post.tokens == pre.tokens.push(
            TokenView {
                token_id: token_id,
                owner: depositor,
                source_contract: src,
                status: Status::Staked,
                stake_time: now,
                unstake_time: 0,
                reward: 0,
            },
        )
        &&& stake_owned_post(pre.owned, post.owned, depositor, token_id)
    }
}

/// Unstake: the caller's position leaves the reward denominator and starts
/// its lock-up.
pub open spec fn unstake_post(
    pre: ContractView,
    post: ContractView,
    now: u64,
    sender: Seq<char>,
    token_id: Seq<char>,
    r: TransferResult,
) -> bool {
    if !has_token(pre.tokens, token_id) {
        post == pre && r == Err::<Vec<TransferMsg>, ContractError>(ContractError::NotStaked)
    } else if token_of(pre.tokens, token_id).owner != sender {
        post == pre && r == Err::<Vec<TransferMsg>, ContractError>(ContractError::Unauthorized)
    } else {
        let i = token_index(pre.tokens, token_id);
        &&& ok_no_msgs(r)
        &&& post.tokens == pre.tokens.update(
            i,
            TokenView { status: Status::Unstaking, unstake_time: now, ..pre.tokens[i] },
        )
        &&& post.state == (StateView {
            total_staked: (pre.state.total_staked - 1) as u128,
            ..pre.state
        })
        &&& post.owned == pre.owned
    }
}

/// An unstake command may only reach the mutating path while the position is
/// still `Staked`: unstaking an already-unstaking position would break the
/// `total_staked` invariant.
pub open spec fn unstake_target_staked(
    cv: ContractView,
    sender: Seq<char>,
    token_id: Seq<char>,
) -> bool {
    has_token(cv.tokens, token_id) && token_of(cv.tokens, token_id).owner == sender
        ==> token_of(cv.tokens, token_id).status is Staked
}

/// The current block time does not precede the recorded unstake time of the
/// position being withdrawn; the host's clock never runs backwards.
pub open spec fn withdraw_time_ok(cv: ContractView, now: u64, token_id: Seq<char>) -> bool {
    has_token(cv.tokens, token_id) ==> now >= token_of(cv.tokens, token_id).unstake_time
}

/// The identifiers of an owner-index list with one identifier struck out.
pub open spec fn remove_id(ids: Seq<Seq<char>>, id: Seq<char>) -> Seq<Seq<char>> {
    ids.filter(|x: Seq<char>| x != id)
}

/// The instructions a successful withdrawal emits: the accrued reward first
/// (when positive), then the NFT back to its owner via the custody contract
/// it came from.
pub open spec fn withdraw_msgs(st: StateView, t: TokenView) -> Seq<TransferView> {
    let nft = seq![
        TransferView::Nft {
            contract_addr: t.source_contract,
            recipient: t.owner,
            token_id: t.token_id,
        },
    ];
    if t.reward > 0 {
        seq![
            TransferView::Token {
                contract_addr: st.token_address,
                recipient: t.owner,
                amount: t.reward,
            },
        ] + nft
    } else {
        nft
    }
}

/// Withdraw: after the lock-up has elapsed, the record leaves the ledger and
/// the owner index, and the reward plus the NFT are sent back.
pub open spec fn withdraw_post(
    pre: ContractView,
    post: ContractView,
    now: u64,
    sender: Seq<char>,
    token_id: Seq<char>,
    r: TransferResult,
) -> bool {
    if !has_token(pre.tokens, token_id) {
        post == pre && r == Err::<Vec<TransferMsg>, ContractError>(ContractError::NotStaked)
    } else {
        let t = token_of(pre.tokens, token_id);
        if t.owner != sender {
            post == pre && r == Err::<Vec<TransferMsg>, ContractError>(ContractError::Unauthorized)
        } else if t.status is Staked {
            post == pre && r == Err::<Vec<TransferMsg>, ContractError>(ContractError::StatusError)
        } else if now < t.unstake_time + pre.state.staking_period {
            post == pre && r == Err::<Vec<TransferMsg>, ContractError>(ContractError::TimeRemaining)
        } else {
            &&& r matches Ok(m) && msgs_view(m) == withdraw_msgs(pre.state, t)
            &&& post.tokens == pre.tokens.remove(token_index(pre.tokens, token_id))
            &&& post.state == pre.state
            &&& post.owned == pre.owned.update(
                owner_index(pre.owned, sender),
                OwnerView {
                    owner: sender,
                    token_ids: remove_id(ids_of(pre.owned, sender), token_id),
                },
            )
        }
    }
}

/// The first failure a claim batch runs into, scanning the identifiers in
/// order: an absent entry or one the caller does not own.
pub open spec fn claim_error(
    toks: Seq<TokenView>,
    sender: Seq<char>,
    ids: Seq<Seq<char>>,
) -> Option<ContractError>
    decreases ids.len(),
{
    if ids.len() == 0 {
        None
    } else if !has_token(toks, ids[0]) {
        Some(ContractError::NotStaked)
    } else if token_of(toks, ids[0]).owner != sender {
        Some(ContractError::Unauthorized)
    } else {
        claim_error(toks, sender, ids.drop_first())
    }
}

/// The ledger after a claim: the reward of every entry named in the batch is
/// reset to zero; nothing else changes.
pub open spec fn claim_tokens(toks: Seq<TokenView>, ids: Seq<Seq<char>>) -> Seq<TokenView> {
    toks.map(
        |i: int, t: TokenView|
            if ids.contains(t.token_id) {
                TokenView { reward: 0, ..t }
            } else {
                t
            },
    )
}

/// The instructions a claim batch emits: one transfer per identifier whose
/// entry still carries a positive reward at its first occurrence in the
/// batch; later occurrences find the reward already zero and emit nothing.
pub open spec fn claim_msgs(
    toks: Seq<TokenView>,
    token_address: Seq<char>,
    ids: Seq<Seq<char>>,
) -> Seq<TransferView>
    decreases ids.len(),
{
    if ids.len() == 0 {
        Seq::empty()
    } else {
        let prefix = claim_msgs(toks, token_address, ids.drop_last());
        let id = ids.last();
        if ids.drop_last().contains(id) || !has_token(toks, id) {
            prefix
        } else {
            let t = token_of(toks, id);
            if t.reward > 0 {
                prefix + seq![
                    TransferView::Token {
                        contract_addr: token_address,
                        recipient: t.owner,
                        amount: t.reward,
                    },
                ]
            } else {
                prefix
            }
        }
    }
}

/// Claim: all-or-nothing over the batch; on success every named reward is
/// paid out (where positive) and reset.
pub open spec fn get_reward_post(
    pre: ContractView,
    post: ContractView,
    sender: Seq<char>,
    ids: Seq<Seq<char>>,
    r: TransferResult,
) -> bool {
    match claim_error(pre.tokens, sender, ids) {
        Some(e) => post == pre && r == Err::<Vec<TransferMsg>, ContractError>(e),
        None => {
            &&& r matches Ok(m) && msgs_view(m) == claim_msgs(
                pre.tokens,
                pre.state.token_address,
                ids,
            )
            &&& post.tokens == claim_tokens(pre.tokens, ids)
            &&& post.state == pre.state
            &&& post.owned == pre.owned
        },
    }
}

/// The ledger after a distribution round: every `Staked` entry gains the
/// share; `Unstaking` entries are untouched.
pub open spec fn distribute_tokens(toks: Seq<TokenView>, share: u128) -> Seq<TokenView> {
    toks.map(
        |i: int, t: TokenView|
            if t.status is Staked {
                TokenView { reward: (t.reward + share) as u128, ..t }
            } else {
                t
            },
    )
}

/// No reward of a `Staked` entry may overflow when the share is added.
pub open spec fn distribute_fits(toks: Seq<TokenView>, share: u128) -> bool {
    forall|i: int|
        0 <= i < toks.len() && toks[i].status is Staked ==> toks[i].reward + share <= u128::MAX
}

/// Distribution round: rate-limited, reserved to the reward wallet, splits
/// the amount by integer division over the staked positions; the truncation
/// remainder is forfeited.
pub open spec fn distribute_post(
    pre: ContractView,
    post: ContractView,
    now: u64,
    sender: Seq<char>,
    amount: u128,
    r: TransferResult,
) -> bool {
    if sender != pre.state.reward_wallet {
        post == pre && r == Err::<Vec<TransferMsg>, ContractError>(ContractError::Unauthorized)
    } else if now < pre.state.last_distribute + pre.state.distribute_period {
        post == pre && r == Err::<Vec<TransferMsg>, ContractError>(ContractError::CanNotDistribute)
    } else if pre.tokens.len() == 0 || pre.state.total_staked == 0 {
        post == pre && r == Err::<Vec<TransferMsg>, ContractError>(ContractError::NotStaked)
    } else {
        &&& ok_no_msgs(r)
        &&& post.tokens == distribute_tokens(
            pre.tokens,
            (amount / pre.state.total_staked) as u128,
        )
        &&& post.state == (StateView { last_distribute: now, ..pre.state })
        &&& post.owned == pre.owned
    }
}

/// The evacuation instructions: one NFT transfer to the destination per
/// listed identifier that has a ledger entry, in list order.
pub open spec fn migrate_msgs(
    toks: Seq<TokenView>,
    ids: Seq<Seq<char>>,
    dest: Seq<char>,
) -> Seq<TransferView>
    decreases ids.len(),
{
    if ids.len() == 0 {
        Seq::empty()
    } else {
        let prefix = migrate_msgs(toks, ids.drop_last(), dest);
        if has_token(toks, ids.last()) {
            prefix + seq![
                TransferView::Nft {
                    contract_addr: token_of(toks, ids.last()).source_contract,
                    recipient: dest,
                    token_id: ids.last(),
                },
            ]
        } else {
            prefix
        }
    }
}

/// Evacuation: owner-gated; emits the fungible transfer first, then the NFT
/// transfers; the ledger itself is left untouched, stale entries included.
pub open spec fn migrate_post(
    pre: ContractView,
    post: ContractView,
    sender: Seq<char>,
    amount: u128,
    dest: Seq<char>,
    ids: Seq<Seq<char>>,
    r: TransferResult,
) -> bool {
    if sender != pre.state.owner {
        post == pre && r == Err::<Vec<TransferMsg>, ContractError>(ContractError::Unauthorized)
    } else {
        &&& post == pre
        &&& r matches Ok(m) && msgs_view(m) == seq![
            TransferView::Token {
                contract_addr: pre.state.token_address,
                recipient: dest,
                amount: amount,
            },
        ] + migrate_msgs(pre.tokens, ids, dest)
    }
}

/// Shared shape of the owner-gated single-field mutations: `Unauthorized`
/// unless the caller is the current owner, else exactly the given new
/// configuration, with ledger and index untouched.
pub open spec fn admin_post(
    pre: ContractView,
    post: ContractView,
    sender: Seq<char>,
    new_state: StateView,
    r: TransferResult,
) -> bool {
    if sender != pre.state.owner {
        post == pre && r == Err::<Vec<TransferMsg>, ContractError>(ContractError::Unauthorized)
    } else {
        &&& ok_no_msgs(r)
        &&& post.state == new_state
        &&& post.tokens == pre.tokens
        &&& post.owned == pre.owned
    }
}

/// What dispatching a command demands of the state it meets: a well-formed
/// state, and per command the conditions under which its handler neither
/// wraps a counter nor breaks the counting invariant.
pub open spec fn execute_pre(cv: ContractView, now: u64, sender: Seq<char>, msg: ExecuteMsg) -> bool {
    &&& cv.wf()
    &&& match msg {
        ExecuteMsg::UnstakeNft { token_id } => unstake_target_staked(cv, sender, token_id@),
        ExecuteMsg::WithdrawNft { token_id } => withdraw_time_ok(cv, now, token_id@),
        ExecuteMsg::DistributeReward { token_amount } => now >= cv.state.last_distribute && (
        cv.state.total_staked > 0 ==> distribute_fits(
            cv.tokens,
            (token_amount / cv.state.total_staked) as u128,
        )),
        _ => true,
    }
}

/// Dispatch: each command behaves exactly as its handler's relation says.
pub open spec fn execute_post(
    pre: ContractView,
    post: ContractView,
    now: u64,
    sender: Seq<char>,
    msg: ExecuteMsg,
    r: TransferResult,
) -> bool {
    match msg {
        ExecuteMsg::ReceiveNft { sender: depositor, token_id } => stake_post(
            pre,
            post,
            now,
            sender,
            depositor@,
            token_id@,
            r,
        ),
        ExecuteMsg::UnstakeNft { token_id } => unstake_post(pre, post, now, sender, token_id@, r),
        ExecuteMsg::WithdrawNft { token_id } => withdraw_post(pre, post, now, sender, token_id@, r),
        ExecuteMsg::GetReward { token_ids } => get_reward_post(
            pre,
            post,
            sender,
            ids_view(token_ids@),
            r,
        ),
        ExecuteMsg::DistributeReward { token_amount } => distribute_post(
            pre,
            post,
            now,
            sender,
            token_amount,
            r,
        ),
        ExecuteMsg::SetRewardWallet { address } => admin_post(
            pre,
            post,
            sender,
            (StateView { reward_wallet: address@, ..pre.state }),
            r,
        ),
        ExecuteMsg::SetTokenAddress { address } => admin_post(
            pre,
            post,
            sender,
            (StateView { token_address: address@, ..pre.state }),
            r,
        ),
        ExecuteMsg::SetOwner { address } => admin_post(
            pre,
            post,
            sender,
            (StateView { owner: address@, ..pre.state }),
            r,
        ),
        ExecuteMsg::SetStakingPeriod { time } => admin_post(
            pre,
            post,
            sender,
            (StateView { staking_period: time, ..pre.state }),
            r,
        ),
        ExecuteMsg::SetStake { flag } => admin_post(
            pre,
            post,
            sender,
            (StateView { can_stake: flag, ..pre.state }),
            r,
        ),
        ExecuteMsg::SetDistributePeriod { time } => admin_post(
            pre,
            post,
            sender,
            (StateView { distribute_period: time, ..pre.state }),
            r,
        ),
        ExecuteMsg::Migrate { amount, address, id } => migrate_post(
            pre,
            post,
            sender,
            amount,
            address@,
            ids_view(id@),
            r,
        ),
        ExecuteMsg::SetClaimAmount { amount } => admin_post(
            pre,
            post,
            sender,
            (StateView { claim_reward: amount, ..pre.state }),
            r,
        ),
        ExecuteMsg::AddNftAddress { address } => admin_post(
            pre,
            post,
            sender,
            (StateView { nft_address: pre.state.nft_address.push(address@), ..pre.state }),
            r,
        ),
    }
}

} // verus!
