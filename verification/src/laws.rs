//! The laws of the ledger, stated over the transition relations and proved
//! once and for all. Each handler's `ensures` names its relation, so these
//! hold of every call.
use vstd::prelude::*;

use crate::error::ContractError;
use crate::lemmas::lemma_staked_count_pos;
use crate::msg::{msgs_view, TransferMsg, TransferView};
use crate::state::{has_token, token_index, token_of, ContractView, TokenView};
use crate::transitions::{
    claim_msgs, claim_tokens, distribute_post, get_reward_post, unstake_post,
    unstake_target_staked, withdraw_post, TransferResult,
};

verus! {

/// Unstaking decreases `total_staked` by exactly one on success, and never
/// increases it.
pub proof fn lemma_unstake_decreases_total(
    pre: ContractView,
    post: ContractView,
    now: u64,
    sender: Seq<char>,
    token_id: Seq<char>,
    r: TransferResult,
)
    requires
        pre.wf(),
        unstake_target_staked(pre, sender, token_id),
        unstake_post(pre, post, now, sender, token_id, r),
    ensures
        r is Ok ==> post.state.total_staked == pre.state.total_staked - 1,
        post.state.total_staked <= pre.state.total_staked,
{
    if r is Ok {
        let i = token_index(pre.tokens, token_id);
        assert(0 <= i < pre.tokens.len() && pre.tokens[i].token_id == token_id);
        lemma_staked_count_pos(pre.tokens, i);
    }
}

/// Withdraw of an existing unstaking position of the caller fails with
/// `TimeRemaining` exactly while the current time is short of
/// `unstake_time + staking_period`; at or after that bound it succeeds.
pub proof fn lemma_withdraw_timelock(
    pre: ContractView,
    post: ContractView,
    now: u64,
    sender: Seq<char>,
    token_id: Seq<char>,
    r: TransferResult,
)
    requires
        withdraw_post(pre, post, now, sender, token_id, r),
        has_token(pre.tokens, token_id),
        token_of(pre.tokens, token_id).owner == sender,
        token_of(pre.tokens, token_id).status is Unstaking,
    ensures
        (now < token_of(pre.tokens, token_id).unstake_time + pre.state.staking_period) <==> (r
            == Err::<Vec<TransferMsg>, ContractError>(ContractError::TimeRemaining)),
        now >= token_of(pre.tokens, token_id).unstake_time + pre.state.staking_period ==> r is Ok,
{
}

/// A distribution round increases the reward of every `Staked` entry by the
/// truncated share `amount / total_staked`, and of no `Unstaking` entry.
pub proof fn lemma_distribute_rewards(
    pre: ContractView,
    post: ContractView,
    now: u64,
    sender: Seq<char>,
    amount: u128,
    r: TransferResult,
)
    requires
        distribute_post(pre, post, now, sender, amount, r),
        r is Ok,
    ensures
        post.tokens.len() == pre.tokens.len(),
        forall|i: int|
            0 <= i < pre.tokens.len() && pre.tokens[i].status is Staked
                ==> #[trigger] post.tokens[i].reward == (pre.tokens[i].reward + amount
                / pre.state.total_staked) as u128,
        forall|i: int|
            0 <= i < pre.tokens.len() && pre.tokens[i].status is Unstaking
                ==> #[trigger] post.tokens[i] == pre.tokens[i],
{
}

/// Rate limiting: after a successful round at `t1`, a second round demanded
/// by the reward wallet within `distribute_period` fails with
/// `CanNotDistribute`.
pub proof fn lemma_distribute_rate_limited(
    s0: ContractView,
    s1: ContractView,
    s2: ContractView,
    t1: u64,
    t2: u64,
    sender1: Seq<char>,
    sender2: Seq<char>,
    a1: u128,
    a2: u128,
    r1: TransferResult,
    r2: TransferResult,
)
    requires
        distribute_post(s0, s1, t1, sender1, a1, r1),
        r1 is Ok,
        distribute_post(s1, s2, t2, sender2, a2, r2),
        sender2 == s1.state.reward_wallet,
        t2 < t1 + s1.state.distribute_period,
    ensures
        r2 == Err::<Vec<TransferMsg>, ContractError>(ContractError::CanNotDistribute),
{
    assert(s1.state.last_distribute == t1);
}

/// Claiming the same batch twice in a row: the first successful claim pays
/// the accrued rewards out and zeroes them, so the second succeeds and emits
/// no instruction at all.
pub proof fn lemma_claim_idempotent(
    s0: ContractView,
    s1: ContractView,
    s2: ContractView,
    sender: Seq<char>,
    ids: Seq<Seq<char>>,
    r1: TransferResult,
    r2: TransferResult,
)
    requires
        s0.wf(),
        get_reward_post(s0, s1, sender, ids, r1),
        r1 is Ok,
        get_reward_post(s1, s2, sender, ids, r2),
    ensures
        r2 is Ok,
        r2 matches Ok(m) ==> msgs_view(m) =~= Seq::<TransferView>::empty(),
{
    lemma_claim_preserves_structure(s0.tokens, ids);
    lemma_claim_error_same(s0.tokens, s1.tokens, sender, ids);
    assert forall|q: int| 0 <= q < ids.len() && has_token(s1.tokens, #[trigger] ids[q]) implies
        token_of(s1.tokens, ids[q]).reward == 0 by {
        let t = token_index(s1.tokens, ids[q]);
        assert(0 <= t < s1.tokens.len() && s1.tokens[t].token_id == ids[q]);
        assert(s1.tokens[t] == claim_tokens(s0.tokens, ids)[t]);
        assert(ids.contains(s0.tokens[t].token_id)) by {
            assert(s0.tokens[t].token_id == ids[q]);
        }
    }
    lemma_claim_msgs_all_zero(s1.tokens, s1.state.token_address, ids, ids);
}

/// The claim rewrite changes no identifier, owner or status.
proof fn lemma_claim_preserves_structure(toks: Seq<TokenView>, ids: Seq<Seq<char>>)
    ensures
        claim_tokens(toks, ids).len() == toks.len(),
        forall|m: int|
            0 <= m < toks.len() ==> #[trigger] claim_tokens(toks, ids)[m].token_id
                == toks[m].token_id && claim_tokens(toks, ids)[m].owner == toks[m].owner
                && claim_tokens(toks, ids)[m].status == toks[m].status,
{
}

/// Validity of a claim batch depends only on identifiers and owners, which
/// a claim rewrite keeps.
proof fn lemma_claim_error_same(
    toks1: Seq<TokenView>,
    toks2: Seq<TokenView>,
    sender: Seq<char>,
    ids: Seq<Seq<char>>,
)
    requires
        crate::state::tokens_unique(toks1),
        toks2.len() == toks1.len(),
        forall|m: int|
            0 <= m < toks1.len() ==> #[trigger] toks2[m].token_id == toks1[m].token_id
                && toks2[m].owner == toks1[m].owner,
    ensures
        crate::transitions::claim_error(toks1, sender, ids) == crate::transitions::claim_error(
            toks2,
            sender,
            ids,
        ),
    decreases ids.len(),
{
    if ids.len() > 0 {
        assert(has_token(toks1, ids[0]) == has_token(toks2, ids[0])) by {
            if has_token(toks1, ids[0]) {
                let w = token_index(toks1, ids[0]);
                assert(toks2[w].token_id == ids[0]);
            }
            if has_token(toks2, ids[0]) {
                let w = token_index(toks2, ids[0]);
                assert(toks1[w].token_id == ids[0]);
            }
        }
        if has_token(toks1, ids[0]) {
            let w1 = token_index(toks1, ids[0]);
            let w2 = token_index(toks2, ids[0]);
            assert(toks1[w1].token_id == ids[0]);
            assert(toks2[w2].token_id == ids[0]);
            assert(toks1[w2].token_id == ids[0]);
            assert(w1 == w2);
            assert(token_of(toks1, ids[0]).owner == token_of(toks2, ids[0]).owner);
        }
        lemma_claim_error_same(toks1, toks2, sender, ids.drop_first());
    }
}

/// A batch whose entries all carry zero reward emits no instruction.
proof fn lemma_claim_msgs_all_zero(
    toks: Seq<TokenView>,
    ta: Seq<char>,
    whole: Seq<Seq<char>>,
    ids: Seq<Seq<char>>,
)
    requires
        forall|q: int|
            0 <= q < whole.len() && has_token(toks, #[trigger] whole[q]) ==> token_of(
                toks,
                whole[q],
            ).reward == 0,
        forall|q: int| 0 <= q < ids.len() ==> whole.contains(#[trigger] ids[q]),
    ensures
        claim_msgs(toks, ta, ids) =~= Seq::<TransferView>::empty(),
    decreases ids.len(),
{
    if ids.len() > 0 {
        assert(forall|q: int|
            0 <= q < ids.len() - 1 ==> whole.contains(#[trigger] ids.drop_last()[q]));
        lemma_claim_msgs_all_zero(toks, ta, whole, ids.drop_last());
        let id = ids.last();
        assert(whole.contains(id));
        if !ids.drop_last().contains(id) && has_token(toks, id) {
            let w = choose|w: int| 0 <= w < whole.len() && whole[w] == id;
            assert(token_of(toks, whole[w]).reward == 0);
        }
    }
}

} // verus!
