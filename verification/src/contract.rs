//! The command handlers and query projections over the staking ledger.
//! Each handler validates against the configuration and ledger, applies its
//! mutation, and returns the outbound transfer instructions; its contract is
//! the corresponding relation in `transitions`.
use vstd::prelude::*;

use crate::error::ContractError;
use crate::lemmas::{
    lemma_claim_error_none, lemma_claim_error_skip, lemma_owner_lookup, lemma_staked_count_le,
    lemma_staked_count_pos, lemma_staked_count_push, lemma_staked_count_remove,
    lemma_id_le_total, lemma_id_le_trans, lemma_multiset_keeps_distinct,
    lemma_multiset_keeps_ids_unique, lemma_staked_count_update, lemma_to_multiset_insert,
    lemma_token_lookup, lemma_wf_same_structure,
};
use crate::msg::{msgs_view, ExecuteMsg, InstantiateMsg, QueryAnswer, QueryMsg, TransferMsg};
use crate::state::{
    id_le, ids_sorted, tokens_sorted,
    has_owner, has_token, ids_of, ids_view, ledger_ids, owner_index, owner_views_of, token_index,
    token_of, views_of, ContractView, OwnerTokens, OwnerView, StakingContract, State, StateView,
    Status, TokenInfo, TokenView,
};
use crate::transitions::{
    admin_post, claim_msgs, claim_tokens, distribute_fits, distribute_post, distribute_tokens,
    execute_post, execute_pre, get_reward_post, instantiate_post, migrate_msgs, migrate_post,
    remove_id, stake_post, unstake_post, unstake_target_staked, withdraw_msgs, withdraw_post,
    withdraw_time_ok, TransferResult,
};

verus! {

/// The index of the ledger entry with this identifier, if any.
fn find_token(tokens: &Vec<TokenInfo>, token_id: &String) -> (r: Option<usize>)
    ensures
        match r {
            Some(i) => i < tokens@.len() && views_of(tokens@)[i as int].token_id == token_id@,
            None => !has_token(views_of(tokens@), token_id@),
        },
{
    let n = tokens.len();
    let mut k: usize = 0;
    while k < n
        invariant
            n == tokens@.len(),
            k <= n,
            forall|j: int| 0 <= j < k ==> views_of(tokens@)[j].token_id != token_id@,
        decreases n - k,
    {
        if tokens[k].token_id == *token_id {
            return Some(k);
        }
        k = k + 1;
    }
    None
}

/// The index of the owner-index entry of this address, if any.
fn find_owner(owned: &Vec<OwnerTokens>, addr: &String) -> (r: Option<usize>)
    ensures
        match r {
            Some(i) => i < owned@.len() && owner_views_of(owned@)[i as int].owner == addr@,
            None => !has_owner(owner_views_of(owned@), addr@),
        },
{
    let n = owned.len();
    let mut k: usize = 0;
    while k < n
        invariant
            n == owned@.len(),
            k <= n,
            forall|j: int| 0 <= j < k ==> owner_views_of(owned@)[j].owner != addr@,
        decreases n - k,
    {
        if owned[k].owner == *addr {
            return Some(k);
        }
        k = k + 1;
    }
    None
}

/// A deep copy of a list of identifiers.
fn clone_string_vec(v: &Vec<String>) -> (r: Vec<String>)
    ensures
        r@ == v@,
{
    let n = v.len();
    let mut r: Vec<String> = Vec::new();
    let mut k: usize = 0;
    while k < n
        invariant
            n == v@.len(),
            k <= n,
            r@ == v@.take(k as int),
        decreases n - k,
    {
        r.push(v[k].clone());
        proof {
            assert(r@ =~= v@.take(k as int + 1));
        }
        k = k + 1;
    }
    proof {
        assert(v@.take(n as int) =~= v@);
    }
    r
}

/// Character-by-character comparison realising the identifier order.
fn id_le_exec(a: &String, b: &String) -> (r: bool)
    ensures
        r == id_le(a@, b@),
{
    let an = a.as_str().unicode_len();
    let bn = b.as_str().unicode_len();
    let mut k: usize = 0;
    proof {
        assert(a@.skip(0) =~= a@);
        assert(b@.skip(0) =~= b@);
    }
    while k < an && k < bn
        invariant
            an == a@.len(),
            bn == b@.len(),
            k <= an,
            k <= bn,
            id_le(a@, b@) == id_le(a@.skip(k as int), b@.skip(k as int)),
        decreases an - k,
    {
        let ca = a.as_str().get_char(k);
        let cb = b.as_str().get_char(k);
        proof {
            assert(a@.skip(k as int)[0] == a@[k as int]);
            assert(b@.skip(k as int)[0] == b@[k as int]);
        }
        if ca != cb {
            return ca < cb;
        }
        proof {
            assert(a@.skip(k as int).drop_first() =~= a@.skip(k as int + 1));
            assert(b@.skip(k as int).drop_first() =~= b@.skip(k as int + 1));
        }
        k = k + 1;
    }
    proof {
        if k == an {
            assert(a@.skip(k as int).len() == 0);
        } else {
            assert(b@.skip(k as int).len() == 0);
            assert(a@.skip(k as int).len() > 0);
        }
    }
    an <= bn
}

/// A deep copy of one ledger record.
fn clone_token_info(t: &TokenInfo) -> (r: TokenInfo)
    ensures
        r == *t,
{
    TokenInfo {
        token_id: t.token_id.clone(),
        owner: t.owner.clone(),
        source_contract: t.source_contract.clone(),
        status: t.status,
        stake_time: t.stake_time,
        unstake_time: t.unstake_time,
        reward: t.reward,
    }
}

/// Initialization: the caller becomes the owner, the ledger starts empty,
/// deposits start enabled, and the distribution clock starts now.
pub fn instantiate(now: u64, sender: String, msg: InstantiateMsg) -> (s: StakingContract)
    ensures
        s@.wf(),
        instantiate_post(
            s@,
            now,
            sender@,
            msg.denom@,
            msg.staking_period,
            msg.distribute_period,
            msg.reward_wallet@,
            msg.token_address@,
            ids_view(msg.nft_address@),
            msg.claim_reward,
        ),
{
    StakingContract {
        state: State {
            owner: sender,
            denom: msg.denom,
            staking_period: msg.staking_period,
            distribute_period: msg.distribute_period,
            reward_wallet: msg.reward_wallet,
            total_staked: 0,
            nft_address: msg.nft_address,
            token_address: msg.token_address,
            can_stake: true,
            last_distribute: now,
            claim_reward: msg.claim_reward,
        },
        tokens: Vec::new(),
        owned: Vec::new(),
    }
}

/// Deposit notification from a custody contract: gate open and notifier
/// allow-listed, the identifier fresh; a new `Staked` record enters the
/// ledger, the counter follows, and the identifier is listed under the
/// depositor.
pub fn execute_stake_nft(
    s: &mut StakingContract,
    now: u64,
    info_sender: String,
    rcv_sender: String,
    rcv_token_id: String,
) -> (r: TransferResult)
    requires
        old(s)@.wf(),
    ensures
        final(s)@.wf(),
        stake_post(old(s)@, final(s)@, now, info_sender@, rcv_sender@, rcv_token_id@, r),
{
    if !s.state.can_stake {
        return Err(ContractError::CanNotStake);
    }
    let mut is_registered = false;
    let n = s.state.nft_address.len();
    let mut k: usize = 0;
    while k < n
        invariant
            n == s.state.nft_address@.len(),
            k <= n,
            is_registered == exists|j: int|
                0 <= j < k && ids_view(s.state.nft_address@)[j] == info_sender@,
        decreases n - k,
    {
        proof {
            assert(ids_view(s.state.nft_address@)[k as int] == s.state.nft_address@[k as int]@);
        }
        if s.state.nft_address[k] == info_sender {
            is_registered = true;
        }
        k = k + 1;
    }
    proof {
        assert(is_registered == s@.state.nft_address.contains(info_sender@));
    }
    if !is_registered {
        return Err(ContractError::WrongNftContract);
    }
    match find_token(&s.tokens, &rcv_token_id) {
        Some(_) => {
            return Err(ContractError::AlreadyStaked);
        },
        None => {},
    }
    // Reading the length bounds the ledger by the address space, so
    // incrementing the counter, which equals the staked count, cannot
    // overflow.
    let ntok = s.tokens.len();
    proof {
        lemma_staked_count_le(s@.tokens);
        assert(s@.tokens.len() == ntok as int);
    }
    s.state.total_staked = s.state.total_staked + 1;
    let token_info = TokenInfo {
        token_id: rcv_token_id.clone(),
        owner: rcv_sender.clone(),
        source_contract: info_sender,
        status: Status::Staked,
        stake_time: now,
        unstake_time: 0,
        reward: 0,
    };
    let ghost tv = token_info@;
    match find_owner(&s.owned, &rcv_sender) {
        Some(j) => {
            let mut ids = clone_string_vec(&s.owned[j].token_ids);
            ids.push(rcv_token_id);
            let owner_name = s.owned[j].owner.clone();
            s.owned[j] = OwnerTokens { owner: owner_name, token_ids: ids };
            proof {
                let pre = old(s)@;
                lemma_owner_lookup(pre.owned, j as int);
                assert(s@.owned =~~= pre.owned.update(
                    j as int,
                    OwnerView {
                        owner: rcv_sender@,
                        token_ids: pre.owned[j as int].token_ids.push(rcv_token_id@),
                    },
                ));
            }
        },
        None => {
            let mut ids: Vec<String> = Vec::new();
            ids.push(rcv_token_id);
            s.owned.push(OwnerTokens { owner: rcv_sender.clone(), token_ids: ids });
            proof {
                let pre = old(s)@;
                assert(s@.owned =~~= pre.owned.push(
                    OwnerView { owner: rcv_sender@, token_ids: seq![rcv_token_id@] },
                ));
            }
        },
    }
    s.tokens.push(token_info);
    proof {
        let pre = old(s)@;
        let post = s@;
        let id = rcv_token_id@;
        let depositor = rcv_sender@;
        assert(post.tokens =~= pre.tokens.push(tv));
        lemma_staked_count_push(pre.tokens, tv);
        // The new identifier was absent, so keys stay unique.
        assert(crate::state::tokens_unique(post.tokens)) by {
            assert(forall|i: int|
                0 <= i < pre.tokens.len() ==> pre.tokens[i].token_id != id);
        }
        // The fresh identifier is listed nowhere yet.
        assert(forall|o: int, m: int|
            0 <= o < pre.owned.len() && 0 <= m < pre.owned[o].token_ids.len()
                ==> pre.owned[o].token_ids[m] != id) by {
            assert forall|o: int, m: int|
                0 <= o < pre.owned.len() && 0 <= m < pre.owned[o].token_ids.len()
                    && pre.owned[o].token_ids[m] == id implies false by {
                assert(has_token(pre.tokens, id));
            }
        }
        // Every listed identifier still points at its unchanged record.
        assert(crate::state::listed_ids_live(post)) by {
            assert forall|o: int, m: int|
                0 <= o < post.owned.len() && 0 <= m < post.owned[o].token_ids.len() implies {
                &&& has_token(post.tokens, post.owned[o].token_ids[m])
                &&& token_of(post.tokens, post.owned[o].token_ids[m]).owner == post.owned[o].owner
            } by {
                let x = post.owned[o].token_ids[m];
                if x == id {
                    lemma_token_lookup(post.tokens, pre.tokens.len() as int);
                    assert(post.owned[o].owner == depositor);
                } else {
                    assert(has_token(pre.tokens, x) && token_of(pre.tokens, x).owner
                        == pre.owned[o].owner);
                    let t0 = token_index(pre.tokens, x);
                    lemma_token_lookup(post.tokens, t0);
                    assert(post.owned[o].owner == pre.owned[o].owner);
                }
            }
        }
        // Every record, the new one included, is listed under its owner.
        assert(crate::state::tokens_listed(post)) by {
            assert forall|t: int| 0 <= t < post.tokens.len() implies {
                &&& has_owner(post.owned, post.tokens[t].owner)
                &&& ids_of(post.owned, post.tokens[t].owner).contains(post.tokens[t].token_id)
            } by {
                if has_owner(pre.owned, depositor) {
                    let j = owner_index(pre.owned, depositor);
                    lemma_owner_lookup(pre.owned, j);
                    lemma_owner_lookup(post.owned, j);
                    if t < pre.tokens.len() {
                        let o = post.tokens[t].owner;
                        let oi = owner_index(pre.owned, o);
                        lemma_owner_lookup(pre.owned, oi);
                        lemma_owner_lookup(post.owned, oi);
                        let x = post.tokens[t].token_id;
                        assert(pre.owned[oi].token_ids.contains(x));
                        let w = choose|w: int|
                            0 <= w < pre.owned[oi].token_ids.len() && pre.owned[oi].token_ids[w]
                                == x;
                        if oi == j {
                            assert(post.owned[oi].token_ids == pre.owned[
                                oi].token_ids.push(id));
                            assert(post.owned[oi].token_ids[w] == x);
                            assert(ids_of(post.owned, o).contains(x));
                        } else {
                            assert(post.owned[oi] == pre.owned[oi]);
                            assert(post.owned[oi].token_ids[w] == x);
                        }
                    } else {
                        assert(post.tokens[t] == tv);
                        assert(ids_of(post.owned, depositor)
                            == pre.owned[j].token_ids.push(id));
                        assert(pre.owned[j].token_ids.push(id)[pre.owned[j].token_ids.len() as int]
                            == id);
                    }
                } else {
                    let jn = pre.owned.len() as int;
                    lemma_owner_lookup(post.owned, jn);
                    if t < pre.tokens.len() {
                        let o = post.tokens[t].owner;
                        let oi = owner_index(pre.owned, o);
                        lemma_owner_lookup(pre.owned, oi);
                        lemma_owner_lookup(post.owned, oi);
                        assert(post.owned[oi] == pre.owned[oi]);
                        let x = post.tokens[t].token_id;
                        assert(pre.owned[oi].token_ids.contains(x));
                        let w = choose|w: int|
                            0 <= w < pre.owned[oi].token_ids.len() && pre.owned[oi].token_ids[w]
                                == x;
                        assert(post.owned[oi].token_ids[w] == x);
                    } else {
                        assert(post.tokens[t] == tv);
                        assert(ids_of(post.owned, depositor) =~= seq![id]);
                        assert(ids_of(post.owned, depositor)[0] == id);
                    }
                }
            }
        }
    }
    let out: Vec<TransferMsg> = Vec::new();
    proof {
        assert(msgs_view(out) =~= Seq::<crate::msg::TransferView>::empty());
    }
    Ok(out)
}

/// Unstake: the caller's position leaves the reward denominator and starts
/// its lock-up clock.
pub fn execute_unstake_nft(s: &mut StakingContract, now: u64, sender: String, token_id: String)
    -> (r: TransferResult)
    requires
        old(s)@.wf(),
        unstake_target_staked(old(s)@, sender@, token_id@),
    ensures
        final(s)@.wf(),
        unstake_post(old(s)@, final(s)@, now, sender@, token_id@, r),
{
    let i = match find_token(&s.tokens, &token_id) {
        None => {
            return Err(ContractError::NotStaked);
        },
        Some(i) => i,
    };
    proof {
        lemma_token_lookup(old(s)@.tokens, i as int);
    }
    if s.tokens[i].owner != sender {
        return Err(ContractError::Unauthorized);
    }
    let new_tok = TokenInfo {
        status: Status::Unstaking,
        unstake_time: now,
        token_id: s.tokens[i].token_id.clone(),
        owner: s.tokens[i].owner.clone(),
        source_contract: s.tokens[i].source_contract.clone(),
        stake_time: s.tokens[i].stake_time,
        reward: s.tokens[i].reward,
    };
    s.tokens[i] = new_tok;
    proof {
        let pre = old(s)@;
        assert(s@.tokens =~~= pre.tokens.update(
            i as int,
            (TokenView { status: Status::Unstaking, unstake_time: now, ..pre.tokens[i as int] }),
        ));
        lemma_staked_count_update(
            pre.tokens,
            i as int,
            (TokenView { status: Status::Unstaking, unstake_time: now, ..pre.tokens[i as int] }),
        );
        lemma_staked_count_pos(pre.tokens, i as int);
    }
    s.state.total_staked = s.state.total_staked - 1;
    proof {
        let pre = old(s)@;
        let post = s@;
        assert(forall|m: int|
            0 <= m < post.tokens.len() ==> post.tokens[m].token_id == pre.tokens[m].token_id
                && post.tokens[m].owner == pre.tokens[m].owner);
        assert(crate::state::listed_ids_live(post)) by {
            assert forall|o: int, m: int|
                0 <= o < post.owned.len() && 0 <= m < post.owned[o].token_ids.len() implies {
                &&& has_token(post.tokens, post.owned[o].token_ids[m])
                &&& token_of(post.tokens, post.owned[o].token_ids[m]).owner == post.owned[o].owner
            } by {
                let x = post.owned[o].token_ids[m];
                assert(has_token(pre.tokens, x));
                let t0 = token_index(pre.tokens, x);
                lemma_token_lookup(post.tokens, t0);
            }
        }
        assert(crate::state::tokens_listed(post));
    }
    let out: Vec<TransferMsg> = Vec::new();
    proof {
        assert(msgs_view(out) =~= Seq::<crate::msg::TransferView>::empty());
    }
    Ok(out)
}

/// Withdraw after the lock-up has elapsed: the record leaves the ledger and
/// the owner's index list, the accrued reward (when positive) and the NFT
/// are sent back to the owner.
pub fn execute_withdraw_nft(s: &mut StakingContract, now: u64, sender: String, token_id: String)
    -> (r: TransferResult)
    requires
        old(s)@.wf(),
        withdraw_time_ok(old(s)@, now, token_id@),
    ensures
        final(s)@.wf(),
        withdraw_post(old(s)@, final(s)@, now, sender@, token_id@, r),
{
    let i = match find_token(&s.tokens, &token_id) {
        None => {
            return Err(ContractError::NotStaked);
        },
        Some(i) => i,
    };
    proof {
        lemma_token_lookup(old(s)@.tokens, i as int);
    }
    if s.tokens[i].owner != sender {
        return Err(ContractError::Unauthorized);
    }
    if s.tokens[i].status == Status::Staked {
        return Err(ContractError::StatusError);
    }
    if now - s.tokens[i].unstake_time < s.state.staking_period {
        return Err(ContractError::TimeRemaining);
    }
    let mut out: Vec<TransferMsg> = Vec::new();
    if s.tokens[i].reward > 0 {
        out.push(
            TransferMsg::Token {
                contract_addr: s.state.token_address.clone(),
                recipient: s.tokens[i].owner.clone(),
                amount: s.tokens[i].reward,
            },
        );
    }
    out.push(
        TransferMsg::Nft {
            contract_addr: s.tokens[i].source_contract.clone(),
            recipient: s.tokens[i].owner.clone(),
            token_id: s.tokens[i].token_id.clone(),
        },
    );
    proof {
        assert(msgs_view(out) =~= withdraw_msgs(old(s)@.state, old(s)@.tokens[i as int]));
    }
    s.tokens.remove(i);
    proof {
        lemma_staked_count_remove(old(s)@.tokens, i as int);
        assert(s@.tokens =~~= old(s)@.tokens.remove(i as int));
        assert(crate::state::tokens_unique(s@.tokens)) by {
            assert(forall|a: int|
                0 <= a < s@.tokens.len() ==> s@.tokens[a] == (if a < i as int {
                    old(s)@.tokens[a]
                } else {
                    old(s)@.tokens[a + 1]
                }));
        }
    }
    let j = match find_owner(&s.owned, &sender) {
        Some(j) => j,
        None => {
            proof {
                assert(false);
            }
            return Err(ContractError::NotStaked);
        },
    };
    let list = clone_string_vec(&s.owned[j].token_ids);
    let m = list.len();
    let ghost idsv = ids_view(list@);
    let mut new_ids: Vec<String> = Vec::new();
    let mut k: usize = 0;
    while k < m
        invariant
            m == list@.len(),
            k <= m,
            ids_view(new_ids@) == remove_id(idsv.take(k as int), token_id@),
            idsv == ids_view(list@),
        decreases m - k,
    {
        proof {
            reveal(Seq::filter);
            assert(idsv.take(k as int + 1).drop_last() =~= idsv.take(k as int));
            assert(idsv.take(k as int + 1).last() == idsv[k as int]);
            assert(ids_view(list@)[k as int] == list@[k as int]@);
        }
        if list[k] != *(&token_id) {
            new_ids.push(list[k].clone());
            proof {
                assert(ids_view(new_ids@) =~= remove_id(idsv.take(k as int + 1), token_id@));
            }
        } else {
            proof {
                assert(ids_view(new_ids@) =~= remove_id(idsv.take(k as int + 1), token_id@));
            }
        }
        k = k + 1;
    }
    proof {
        assert(idsv.take(m as int) =~= idsv);
    }
    let owner_name = s.owned[j].owner.clone();
    s.owned[j] = OwnerTokens { owner: owner_name, token_ids: new_ids };
    proof {
        let pre = old(s)@;
        let post = s@;
        let id = token_id@;
        let ii = i as int;
        let jj = j as int;
        lemma_owner_lookup(pre.owned, jj);
        assert(idsv == pre.owned[jj].token_ids);
        assert(ids_of(pre.owned, sender@) == pre.owned[jj].token_ids);
        assert(post.owned =~~= pre.owned.update(
            jj,
            OwnerView { owner: sender@, token_ids: remove_id(ids_of(pre.owned, sender@), id) },
        ));
        let newlist = remove_id(pre.owned[jj].token_ids, id);
        // What survives the strike-out: exactly the other listed identifiers.
        pre.owned[jj].token_ids.filter_lemma(|x: Seq<char>| x != id);
        // The filtered list carries no duplicate and no removed identifier.
        assert(forall|a: int|
            0 <= a < post.tokens.len() ==> post.tokens[a] == (if a < ii {
                pre.tokens[a]
            } else {
                pre.tokens[a + 1]
            }));
        assert(crate::state::lists_unique(post.owned)) by {
            assert forall|o: int, a: int, b: int|
                0 <= o < post.owned.len() && 0 <= a < post.owned[o].token_ids.len() && 0 <= b
                    < post.owned[o].token_ids.len() && a != b implies post.owned[o].token_ids[a]
                != post.owned[o].token_ids[b] by {
                if o == jj {
                    lemma_remove_id_unique(pre.owned[jj].token_ids, id);
                }
            }
        }
        assert(crate::state::listed_ids_live(post)) by {
            assert forall|o: int, a: int|
                0 <= o < post.owned.len() && 0 <= a < post.owned[o].token_ids.len() implies {
                &&& has_token(post.tokens, post.owned[o].token_ids[a])
                &&& token_of(post.tokens, post.owned[o].token_ids[a]).owner == post.owned[o].owner
            } by {
                let x = post.owned[o].token_ids[a];
                if o == jj {
                    lemma_remove_id_unique(pre.owned[jj].token_ids, id);
                    assert(newlist[a] == x);
                    assert(pre.owned[jj].token_ids.contains(x) && x != id);
                } else {
                    assert(pre.owned[o].token_ids[a] == x);
                }
                assert(has_token(pre.tokens, x) && token_of(pre.tokens, x).owner == pre.owned[
                    o].owner);
                let t0 = token_index(pre.tokens, x);
                // The struck-out record is the only one with the withdrawn
                // identifier, so every listed identifier still resolves.
                if o == jj {
                    assert(t0 != ii);
                } else {
                    assert(pre.owned[o].owner != pre.owned[jj].owner);
                    assert(pre.tokens[t0].owner != sender@);
                    assert(t0 != ii);
                }
                let t1 = if t0 < ii {
                    t0
                } else {
                    t0 - 1
                };
                assert(post.tokens[t1] == pre.tokens[t0]);
                lemma_token_lookup(post.tokens, t1);
            }
        }
        assert(crate::state::tokens_listed(post)) by {
            assert forall|a: int| 0 <= a < post.tokens.len() implies {
                &&& has_owner(post.owned, post.tokens[a].owner)
                &&& ids_of(post.owned, post.tokens[a].owner).contains(post.tokens[a].token_id)
            } by {
                let pa = if a < ii {
                    a
                } else {
                    a + 1
                };
                assert(post.tokens[a] == pre.tokens[pa]);
                let o = pre.tokens[pa].owner;
                let x = pre.tokens[pa].token_id;
                let oi = owner_index(pre.owned, o);
                lemma_owner_lookup(pre.owned, oi);
                lemma_owner_lookup(post.owned, oi);
                assert(ids_of(pre.owned, o).contains(x));
                if oi == jj {
                    // A record of the withdrawing owner, other than the one
                    // withdrawn: its identifier survives the strike-out.
                    assert(pre.tokens[pa].token_id != pre.tokens[ii].token_id);
                    assert(x != id);
                    assert(post.owned[oi].token_ids == newlist);
                    assert(pre.owned[jj].token_ids.filter(|y: Seq<char>| y != id).contains(x));
                    assert(ids_of(post.owned, o).contains(x));
                } else {
                    assert(post.owned[oi] == pre.owned[oi]);
                    assert(ids_of(post.owned, o) == pre.owned[oi].token_ids);
                }
            }
        }
    }
    Ok(out)
}

/// No surviving duplicate: striking one identifier out of a duplicate-free
/// list leaves a duplicate-free list of the other identifiers.
proof fn lemma_remove_id_unique(ids: Seq<Seq<char>>, id: Seq<char>)
    requires
        forall|a: int, b: int|
            0 <= a < ids.len() && 0 <= b < ids.len() && a != b ==> ids[a] != ids[b],
    ensures
        forall|a: int, b: int|
            0 <= a < remove_id(ids, id).len() && 0 <= b < remove_id(ids, id).len() && a != b
                ==> remove_id(ids, id)[a] != remove_id(ids, id)[b],
        forall|a: int|
            0 <= a < remove_id(ids, id).len() ==> ids.contains(#[trigger] remove_id(ids, id)[a])
                && remove_id(ids, id)[a] != id,
    decreases ids.len(),
{
    reveal(Seq::filter);
    if ids.len() > 0 {
        assert(ids.drop_last().len() == ids.len() - 1);
        lemma_remove_id_unique(ids.drop_last(), id);
        let rest = remove_id(ids.drop_last(), id);
        let full = remove_id(ids, id);
        assert(forall|a: int| 0 <= a < ids.len() - 1 ==> ids.drop_last()[a] == ids[a]);
        if ids.last() != id {
            assert(full == rest.push(ids.last()));
            assert forall|a: int| 0 <= a < full.len() implies ids.contains(#[trigger] full[a])
                && full[a] != id by {
                if a < rest.len() {
                    assert(full[a] == rest[a]);
                    let w = choose|w: int|
                        0 <= w < ids.drop_last().len() && ids.drop_last()[w] == rest[a];
                    assert(ids[w] == rest[a]);
                } else {
                    assert(full[a] == ids.last());
                    assert(ids[ids.len() - 1] == ids.last());
                }
            }
            assert forall|a: int, b: int|
                0 <= a < full.len() && 0 <= b < full.len() && a != b implies full[a]
                != full[b] by {
                if a < rest.len() && b < rest.len() {
                } else {
                    let small = if a < rest.len() {
                        a
                    } else {
                        b
                    };
                    assert(full[small] == rest[small]);
                    let w = choose|w: int|
                        0 <= w < ids.drop_last().len() && ids.drop_last()[w] == rest[small];
                    assert(ids[w] == rest[small] && w < ids.len() - 1);
                    assert(ids.last() == ids[ids.len() - 1]);
                }
            }
        } else {
            assert(full == rest);
            assert forall|a: int| 0 <= a < full.len() implies ids.contains(#[trigger] full[a])
                && full[a] != id by {
                let w = choose|w: int|
                    0 <= w < ids.drop_last().len() && ids.drop_last()[w] == full[a];
                assert(ids[w] == full[a]);
            }
        }
    }
}

/// Claim accrued rewards for a batch of identifiers, all-or-nothing: every
/// entry must exist and belong to the caller, positive rewards are paid out
/// in batch order and reset to zero, and a repeated identifier or a repeated
/// claim finds nothing left to pay.
pub fn execute_get_reward(s: &mut StakingContract, sender: String, token_ids: Vec<String>) -> (r:
    TransferResult)
    requires
        old(s)@.wf(),
    ensures
        final(s)@.wf(),
        get_reward_post(old(s)@, final(s)@, sender@, ids_view(token_ids@), r),
{
    let n = token_ids.len();
    let ghost idsv = ids_view(token_ids@);
    let ghost toks0 = old(s)@.tokens;
    let mut k: usize = 0;
    while k < n
        invariant
            old(s)@.wf(),
            n == token_ids@.len(),
            k <= n,
            idsv == ids_view(token_ids@),
            toks0 == old(s)@.tokens,
            s == old(s),
            forall|q: int|
                0 <= q < k ==> has_token(toks0, #[trigger] idsv[q]) && token_of(
                    toks0,
                    idsv[q],
                ).owner == sender@,
        decreases n - k,
    {
        proof {
            assert(idsv[k as int] == token_ids@[k as int]@);
        }
        let found = find_token(&s.tokens, &token_ids[k]);
        match found {
            None => {
                proof {
                    lemma_claim_error_skip(toks0, sender@, idsv, k as int);
                    assert(idsv.skip(k as int)[0] == idsv[k as int]);
                }
                return Err(ContractError::NotStaked);
            },
            Some(i) => {
                proof {
                    lemma_token_lookup(toks0, i as int);
                }
                if s.tokens[i].owner != sender {
                    proof {
                        lemma_claim_error_skip(toks0, sender@, idsv, k as int);
                        assert(idsv.skip(k as int)[0] == idsv[k as int]);
                    }
                    return Err(ContractError::Unauthorized);
                }
            },
        }
        k = k + 1;
    }
    proof {
        lemma_claim_error_none(toks0, sender@, idsv);
    }
    let ghost ta = old(s)@.state.token_address;
    let mut out: Vec<TransferMsg> = Vec::new();
    let mut k: usize = 0;
    while k < n
        invariant
            old(s)@.wf(),
            n == token_ids@.len(),
            k <= n,
            idsv == ids_view(token_ids@),
            toks0 == old(s)@.tokens,
            ta == old(s)@.state.token_address,
            s@.state == old(s)@.state,
            s@.owned == old(s)@.owned,
            s@.tokens == claim_tokens(toks0, idsv.take(k as int)),
            msgs_view(out) == claim_msgs(toks0, ta, idsv.take(k as int)),
            forall|q: int|
                0 <= q < n ==> has_token(toks0, #[trigger] idsv[q]) && token_of(
                    toks0,
                    idsv[q],
                ).owner == sender@,
        decreases n - k,
    {
        proof {
            assert(idsv[k as int] == token_ids@[k as int]@);
            // The claim pass rewrites rewards only: identifiers, owners and
            // statuses stay, so the lookup index matches the pre-claim ledger.
            assert(forall|m: int|
                0 <= m < toks0.len() ==> #[trigger] s@.tokens[m].token_id == toks0[m].token_id
                    && s@.tokens[m].owner == toks0[m].owner && s@.tokens[m].status
                    == toks0[m].status);
            let t0 = token_index(toks0, idsv[k as int]);
            assert(0 <= t0 < toks0.len() && toks0[t0].token_id == idsv[k as int]);
            assert(s@.tokens[t0].token_id == idsv[k as int]);
            assert(has_token(s@.tokens, idsv[k as int]));
        }
        let found = find_token(&s.tokens, &token_ids[k]);
        match found {
            None => {
                proof {
                    assert(false);
                }
                return Err(ContractError::NotStaked);
            },
            Some(i) => {
                let ghost cur = s@.tokens;
                proof {
                    lemma_token_lookup(cur, i as int);
                    lemma_token_lookup(toks0, i as int);
                    assert(token_of(toks0, idsv[k as int]) == toks0[i as int]);
                    assert(idsv.take(k as int + 1).drop_last() =~= idsv.take(k as int));
                    assert(idsv.take(k as int + 1).last() == idsv[k as int]);
                    assert(cur[i as int].reward == (if idsv.take(k as int).contains(
                        toks0[i as int].token_id,
                    ) {
                        0u128
                    } else {
                        toks0[i as int].reward
                    }));
                    if idsv.take(k as int).contains(idsv[k as int]) {
                        assert(claim_msgs(toks0, ta, idsv.take(k as int + 1)) == claim_msgs(
                            toks0,
                            ta,
                            idsv.take(k as int),
                        ));
                    }
                }
                if s.tokens[i].reward > 0 {
                    out.push(
                        TransferMsg::Token {
                            contract_addr: s.state.token_address.clone(),
                            recipient: s.tokens[i].owner.clone(),
                            amount: s.tokens[i].reward,
                        },
                    );
                    proof {
                        assert(msgs_view(out) =~= claim_msgs(toks0, ta, idsv.take(k as int + 1)));
                    }
                } else {
                    proof {
                        assert(msgs_view(out) =~= claim_msgs(toks0, ta, idsv.take(k as int + 1)));
                    }
                }
                let nt = TokenInfo {
                    reward: 0,
                    token_id: s.tokens[i].token_id.clone(),
                    owner: s.tokens[i].owner.clone(),
                    source_contract: s.tokens[i].source_contract.clone(),
                    status: s.tokens[i].status,
                    stake_time: s.tokens[i].stake_time,
                    unstake_time: s.tokens[i].unstake_time,
                };
                let ghost ntv = nt@;
                s.tokens[i] = nt;
                proof {
                    assert(cur[i as int].token_id == idsv[k as int]);
                    assert(toks0[i as int].token_id == idsv[k as int]);
                    assert(ntv == (TokenView { reward: 0u128, ..toks0[i as int] }));
                    assert(s@.tokens =~~= cur.update(i as int, ntv));
                    assert forall|m: int| 0 <= m < toks0.len() implies s@.tokens[m]
                        == claim_tokens(toks0, idsv.take(k as int + 1))[m] by {
                        let y = toks0[m].token_id;
                        if m == i as int {
                            assert(idsv.take(k as int + 1).contains(y)) by {
                                assert(idsv.take(k as int + 1)[k as int] == y);
                            }
                        } else {
                            assert(y != idsv[k as int]);
                            if idsv.take(k as int).contains(y) {
                                let w = choose|w: int|
                                    0 <= w < k as int && #[trigger] idsv.take(k as int)[w] == y;
                                assert(idsv.take(k as int + 1)[w] == y);
                            } else {
                                if idsv.take(k as int + 1).contains(y) {
                                    let w = choose|w: int|
                                        0 <= w < k as int + 1 && #[trigger] idsv.take(
                                            k as int + 1,
                                        )[w] == y;
                                    assert(w < k as int);
                                    assert(idsv.take(k as int)[w] == y);
                                }
                            }
                        }
                    }
                    assert(s@.tokens =~~= claim_tokens(toks0, idsv.take(k as int + 1)));
                }
            },
        }
        k = k + 1;
    }
    proof {
        assert(idsv.take(n as int) =~= idsv);
        lemma_wf_same_structure(old(s)@, s@);
    }
    Ok(out)
}

/// Distribution round, reserved to the reward wallet and rate-limited:
/// every `Staked` entry gains `token_amount / total_staked` (integer floor;
/// the remainder is forfeited), `Unstaking` entries gain nothing, and the
/// distribution clock is reset.
pub fn execute_distribute_reward(
    s: &mut StakingContract,
    now: u64,
    sender: String,
    token_amount: u128,
) -> (r: TransferResult)
    requires
        old(s)@.wf(),
        now >= old(s)@.state.last_distribute,
        old(s)@.state.total_staked > 0 ==> distribute_fits(
            old(s)@.tokens,
            (token_amount / old(s)@.state.total_staked) as u128,
        ),
    ensures
        final(s)@.wf(),
        distribute_post(old(s)@, final(s)@, now, sender@, token_amount, r),
{
    if sender != s.state.reward_wallet {
        return Err(ContractError::Unauthorized);
    }
    if now - s.state.last_distribute < s.state.distribute_period {
        return Err(ContractError::CanNotDistribute);
    }
    if s.tokens.len() == 0 {
        return Err(ContractError::NotStaked);
    }
    if s.state.total_staked == 0 {
        return Err(ContractError::NotStaked);
    }
    let share = token_amount / s.state.total_staked;
    let n = s.tokens.len();
    let ghost toks0 = old(s)@.tokens;
    let mut k: usize = 0;
    while k < n
        invariant
            old(s)@.wf(),
            toks0 == old(s)@.tokens,
            n == toks0.len(),
            k <= n,
            s@.state == old(s)@.state,
            s@.owned == old(s)@.owned,
            s@.tokens.len() == n,
            share == (token_amount / old(s)@.state.total_staked) as u128,
            old(s)@.state.total_staked > 0,
            distribute_fits(toks0, share),
            forall|m: int| k <= m < n ==> s@.tokens[m] == toks0[m],
            forall|m: int|
                0 <= m < k ==> s@.tokens[m] == (if toks0[m].status is Staked {
                    TokenView { reward: (toks0[m].reward + share) as u128, ..toks0[m] }
                } else {
                    toks0[m]
                }),
        decreases n - k,
    {
        let staked_now = s.tokens[k].status == Status::Staked;
        if staked_now {
            let ghost cur = s@.tokens;
            proof {
                assert(cur[k as int] == toks0[k as int]);
                assert(toks0[k as int].status is Staked);
                assert(toks0[k as int].reward + share <= u128::MAX);
            }
            let nt = TokenInfo {
                reward: s.tokens[k].reward + share,
                token_id: s.tokens[k].token_id.clone(),
                owner: s.tokens[k].owner.clone(),
                source_contract: s.tokens[k].source_contract.clone(),
                status: s.tokens[k].status,
                stake_time: s.tokens[k].stake_time,
                unstake_time: s.tokens[k].unstake_time,
            };
            let ghost ntv = nt@;
            s.tokens[k] = nt;
            proof {
                assert(ntv == (TokenView {
                    reward: (toks0[k as int].reward + share) as u128,
                    ..toks0[k as int]
                }));
                assert(s@.tokens =~~= cur.update(k as int, ntv));
            }
        }
        k = k + 1;
    }
    proof {
        assert(s@.tokens =~~= distribute_tokens(toks0, share));
        lemma_wf_same_structure(old(s)@, s@);
    }
    s.state.last_distribute = now;
    let out: Vec<TransferMsg> = Vec::new();
    proof {
        assert(msgs_view(out) =~= Seq::<crate::msg::TransferView>::empty());
    }
    Ok(out)
}

/// Evacuation, owner-gated: transfer the fungible amount to the destination
/// first, then every listed NFT that has a ledger entry, each from the
/// custody contract it came from. The ledger itself is left untouched, its
/// entries for the moved tokens included.
pub fn execute_migrate_token(
    s: &mut StakingContract,
    sender: String,
    amount: u128,
    address: String,
    id: Vec<String>,
) -> (r: TransferResult)
    requires
        old(s)@.wf(),
    ensures
        final(s)@.wf(),
        migrate_post(old(s)@, final(s)@, sender@, amount, address@, ids_view(id@), r),
{
    if sender != s.state.owner {
        return Err(ContractError::Unauthorized);
    }
    let mut out: Vec<TransferMsg> = Vec::new();
    out.push(
        TransferMsg::Token {
            contract_addr: s.state.token_address.clone(),
            recipient: address.clone(),
            amount,
        },
    );
    let ghost idsv = ids_view(id@);
    let ghost fungible = seq![
        crate::msg::TransferView::Token {
            contract_addr: old(s)@.state.token_address,
            recipient: address@,
            amount: amount,
        },
    ];
    proof {
        assert(msgs_view(out) =~= fungible + migrate_msgs(old(s)@.tokens, idsv.take(0), address@));
    }
    let n = id.len();
    let mut k: usize = 0;
    while k < n
        invariant
            old(s)@.wf(),
            s == old(s),
            n == id@.len(),
            k <= n,
            idsv == ids_view(id@),
            fungible == seq![
                crate::msg::TransferView::Token {
                    contract_addr: old(s)@.state.token_address,
                    recipient: address@,
                    amount: amount,
                },
            ],
            msgs_view(out) == fungible + migrate_msgs(old(s)@.tokens, idsv.take(k as int), address@),
        decreases n - k,
    {
        proof {
            assert(idsv[k as int] == id@[k as int]@);
            assert(idsv.take(k as int + 1).drop_last() =~= idsv.take(k as int));
            assert(idsv.take(k as int + 1).last() == idsv[k as int]);
        }
        match find_token(&s.tokens, &id[k]) {
            Some(i) => {
                proof {
                    lemma_token_lookup(s@.tokens, i as int);
                    assert(s@.tokens == old(s)@.tokens);
                    assert(s@.tokens[i as int].token_id == idsv[k as int]);
                    assert(token_of(old(s)@.tokens, idsv[k as int]) == s@.tokens[i as int]);
                    assert(has_token(old(s)@.tokens, idsv[k as int]));
                }
                let ghost out0v = msgs_view(out);
                out.push(
                    TransferMsg::Nft {
                        contract_addr: s.tokens[i].source_contract.clone(),
                        recipient: address.clone(),
                        token_id: s.tokens[i].token_id.clone(),
                    },
                );
                proof {
                    assert(msgs_view(out) =~= out0v.push(
                        crate::msg::TransferView::Nft {
                            contract_addr: s@.tokens[i as int].source_contract,
                            recipient: address@,
                            token_id: idsv[k as int],
                        },
                    ));
                    assert(migrate_msgs(old(s)@.tokens, idsv.take(k as int + 1), address@)
                        =~= migrate_msgs(old(s)@.tokens, idsv.take(k as int), address@) + seq![
                        crate::msg::TransferView::Nft {
                            contract_addr: token_of(
                                old(s)@.tokens,
                                idsv[k as int],
                            ).source_contract,
                            recipient: address@,
                            token_id: idsv[k as int],
                        },
                    ]);
                    assert(msgs_view(out) =~= fungible + migrate_msgs(
                        old(s)@.tokens,
                        idsv.take(k as int + 1),
                        address@,
                    ));
                }
            },
            None => {
                proof {
                    assert(msgs_view(out) =~= fungible + migrate_msgs(
                        old(s)@.tokens,
                        idsv.take(k as int + 1),
                        address@,
                    ));
                }
            },
        }
        k = k + 1;
    }
    proof {
        assert(idsv.take(n as int) =~= idsv);
    }
    Ok(out)
}

/// Owner-gated: point reward payouts at a new wallet address.
pub fn execute_reward_wallet(s: &mut StakingContract, sender: String, address: String) -> (r:
    TransferResult)
    requires
        old(s)@.wf(),
    ensures
        final(s)@.wf(),
        admin_post(
            old(s)@,
            final(s)@,
            sender@,
            (StateView { reward_wallet: address@, ..old(s)@.state }),
            r,
        ),
{
    if sender != s.state.owner {
        return Err(ContractError::Unauthorized);
    }
    s.state.reward_wallet = address;
    Ok(Vec::new())
}

/// Owner-gated: append one more custody address to the deposit allow-list.
pub fn execute_nft_address(s: &mut StakingContract, sender: String, address: String) -> (r:
    TransferResult)
    requires
        old(s)@.wf(),
    ensures
        final(s)@.wf(),
        admin_post(
            old(s)@,
            final(s)@,
            sender@,
            (StateView { nft_address: old(s)@.state.nft_address.push(address@), ..old(s)@.state }),
            r,
        ),
{
    if sender != s.state.owner {
        return Err(ContractError::Unauthorized);
    }
    let ghost pre = s.state.nft_address@;
    s.state.nft_address.push(address);
    proof {
        assert(ids_view(pre.push(address)) =~= ids_view(pre).push(address@));
    }
    Ok(Vec::new())
}

/// Owner-gated: set the address of the fungible reward-token ledger.
pub fn execute_token_address(s: &mut StakingContract, sender: String, address: String) -> (r:
    TransferResult)
    requires
        old(s)@.wf(),
    ensures
        final(s)@.wf(),
        admin_post(
            old(s)@,
            final(s)@,
            sender@,
            (StateView { token_address: address@, ..old(s)@.state }),
            r,
        ),
{
    if sender != s.state.owner {
        return Err(ContractError::Unauthorized);
    }
    s.state.token_address = address;
    Ok(Vec::new())
}

/// Owner-gated: hand administrative privilege to a new owner. The caller is
/// checked against the owner recorded before the mutation.
pub fn execute_set_owner(s: &mut StakingContract, sender: String, address: String) -> (r:
    TransferResult)
    requires
        old(s)@.wf(),
    ensures
        final(s)@.wf(),
        admin_post(old(s)@, final(s)@, sender@, (StateView { owner: address@, ..old(s)@.state }), r),
{
    if sender != s.state.owner {
        return Err(ContractError::Unauthorized);
    }
    s.state.owner = address;
    Ok(Vec::new())
}

/// Owner-gated: set the lock-up duration between unstake and withdraw.
pub fn execute_staking_period(s: &mut StakingContract, sender: String, time: u64) -> (r:
    TransferResult)
    requires
        old(s)@.wf(),
    ensures
        final(s)@.wf(),
        admin_post(
            old(s)@,
            final(s)@,
            sender@,
            (StateView { staking_period: time, ..old(s)@.state }),
            r,
        ),
{
    if sender != s.state.owner {
        return Err(ContractError::Unauthorized);
    }
    s.state.staking_period = time;
    Ok(Vec::new())
}

/// Owner-gated: set the stored claim threshold (configuration surface only;
/// no handler consumes it).
pub fn execute_claim_amount(s: &mut StakingContract, sender: String, amount: u128) -> (r:
    TransferResult)
    requires
        old(s)@.wf(),
    ensures
        final(s)@.wf(),
        admin_post(
            old(s)@,
            final(s)@,
            sender@,
            (StateView { claim_reward: amount, ..old(s)@.state }),
            r,
        ),
{
    if sender != s.state.owner {
        return Err(ContractError::Unauthorized);
    }
    s.state.claim_reward = amount;
    Ok(Vec::new())
}

/// Owner-gated: set the minimum interval between distribution rounds.
pub fn execute_distribute_period(s: &mut StakingContract, sender: String, time: u64) -> (r:
    TransferResult)
    requires
        old(s)@.wf(),
    ensures
        final(s)@.wf(),
        admin_post(
            old(s)@,
            final(s)@,
            sender@,
            (StateView { distribute_period: time, ..old(s)@.state }),
            r,
        ),
{
    if sender != s.state.owner {
        return Err(ContractError::Unauthorized);
    }
    s.state.distribute_period = time;
    Ok(Vec::new())
}

/// Owner-gated: enable or disable new deposits.
pub fn execute_set_stake(s: &mut StakingContract, sender: String, flag: bool) -> (r:
    TransferResult)
    requires
        old(s)@.wf(),
    ensures
        final(s)@.wf(),
        admin_post(old(s)@, final(s)@, sender@, (StateView { can_stake: flag, ..old(s)@.state }), r),
{
    if sender != s.state.owner {
        return Err(ContractError::Unauthorized);
    }
    s.state.can_stake = flag;
    Ok(Vec::new())
}

/// Route one inbound command to its handler.
pub fn execute(s: &mut StakingContract, now: u64, sender: String, msg: ExecuteMsg) -> (r:
    TransferResult)
    requires
        execute_pre(old(s)@, now, sender@, msg),
    ensures
        final(s)@.wf(),
        execute_post(old(s)@, final(s)@, now, sender@, msg, r),
{
    match msg {
        ExecuteMsg::ReceiveNft { sender: rcv_sender, token_id } => execute_stake_nft(
            s,
            now,
            sender,
            rcv_sender,
            token_id,
        ),
        ExecuteMsg::UnstakeNft { token_id } => execute_unstake_nft(s, now, sender, token_id),
        ExecuteMsg::WithdrawNft { token_id } => execute_withdraw_nft(s, now, sender, token_id),
        ExecuteMsg::GetReward { token_ids } => execute_get_reward(s, sender, token_ids),
        ExecuteMsg::DistributeReward { token_amount } => execute_distribute_reward(
            s,
            now,
            sender,
            token_amount,
        ),
        ExecuteMsg::SetRewardWallet { address } => execute_reward_wallet(s, sender, address),
        ExecuteMsg::SetTokenAddress { address } => execute_token_address(s, sender, address),
        ExecuteMsg::SetOwner { address } => execute_set_owner(s, sender, address),
        ExecuteMsg::SetStakingPeriod { time } => execute_staking_period(s, sender, time),
        ExecuteMsg::SetStake { flag } => execute_set_stake(s, sender, flag),
        ExecuteMsg::SetDistributePeriod { time } => execute_distribute_period(s, sender, time),
        ExecuteMsg::Migrate { amount, address, id } => execute_migrate_token(
            s,
            sender,
            amount,
            address,
            id,
        ),
        ExecuteMsg::SetClaimAmount { amount } => execute_claim_amount(s, sender, amount),
        ExecuteMsg::AddNftAddress { address } => execute_nft_address(s, sender, address),
    }
}

/// Snapshot of the current configuration.
pub fn query_state_info(s: &StakingContract) -> (r: State)
    ensures
        r@ == s@.state,
{
    State {
        owner: s.state.owner.clone(),
        denom: s.state.denom.clone(),
        staking_period: s.state.staking_period,
        distribute_period: s.state.distribute_period,
        reward_wallet: s.state.reward_wallet.clone(),
        total_staked: s.state.total_staked,
        nft_address: clone_string_vec(&s.state.nft_address),
        token_address: s.state.token_address.clone(),
        can_stake: s.state.can_stake,
        last_distribute: s.state.last_distribute,
        claim_reward: s.state.claim_reward,
    }
}

/// The host's current block time, handed back unchanged.
pub fn query_get_current_time(now: u64) -> (r: u64)
    ensures
        r == now,
{
    now
}

/// Every token identifier in the ledger, in ascending identifier order;
/// each ledger entry contributes its identifier exactly once (the result's
/// identifiers form the same multiset as the ledger's).
pub fn query_get_members(s: &StakingContract) -> (r: Vec<String>)
    ensures
        r@.len() == s@.tokens.len(),
        ids_view(r@).to_multiset() == ledger_ids(s@.tokens).to_multiset(),
        ids_sorted(ids_view(r@)),
        s@.wf() ==> forall|i: int, j: int|
            0 <= i < r@.len() && 0 <= j < r@.len() && i != j ==> ids_view(r@)[i] != ids_view(
                r@,
            )[j],
{
    let n = s.tokens.len();
    let mut r: Vec<String> = Vec::new();
    let mut k: usize = 0;
    proof {
        assert(ids_view(r@) =~= ledger_ids(s@.tokens).take(0));
    }
    while k < n
        invariant
            n == s.tokens@.len(),
            k <= n,
            r@.len() == k,
            ids_view(r@).to_multiset() == ledger_ids(s@.tokens).take(k as int).to_multiset(),
            ids_sorted(ids_view(r@)),
        decreases n - k,
    {
        let idc = s.tokens[k].token_id.clone();
        let ghost idv = idc@;
        proof {
            assert(idv == ledger_ids(s@.tokens)[k as int]);
        }
        let m = r.len();
        let mut p: usize = 0;
        let mut scanning = true;
        while scanning
            invariant
                m == r@.len(),
                p <= m,
                ids_sorted(ids_view(r@)),
                idv == idc@,
                forall|j: int| 0 <= j < p ==> id_le(#[trigger] ids_view(r@)[j], idv),
                !scanning ==> p == m || id_le(idv, ids_view(r@)[p as int]),
            decreases m - p + (if scanning {
                1int
            } else {
                0int
            }),
        {
            if p >= m {
                scanning = false;
            } else {
                proof {
                    assert(ids_view(r@)[p as int] == r@[p as int]@);
                }
                let le = id_le_exec(&r[p], &idc);
                if le {
                    p = p + 1;
                } else {
                    proof {
                        lemma_id_le_total(ids_view(r@)[p as int], idv);
                    }
                    scanning = false;
                }
            }
        }
        let ghost r0 = ids_view(r@);
        r.insert(p, idc);
        proof {
            broadcast use vstd::seq_lib::group_to_multiset_ensures;

            assert(ids_view(r@) =~= r0.insert(p as int, idv));
            lemma_to_multiset_insert::<Seq<char>>(r0, p as int, idv);
            assert(ledger_ids(s@.tokens).take(k as int + 1) =~= ledger_ids(s@.tokens).take(
                k as int,
            ).push(idv));
            assert(ids_view(r@).to_multiset() =~= ledger_ids(s@.tokens).take(
                k as int + 1,
            ).to_multiset());
            assert forall|i: int, j: int| 0 <= i < j < ids_view(r@).len() implies id_le(
                ids_view(r@)[i],
                ids_view(r@)[j],
            ) by {
                let pp = p as int;
                if i < pp && j > pp {
                    assert(ids_view(r@)[j] == r0[j - 1]);
                    assert(id_le(r0[i], r0[j - 1]));
                } else if i == pp && j > pp {
                    assert(ids_view(r@)[j] == r0[j - 1]);
                    assert(id_le(idv, r0[pp]));
                    if j - 1 > pp {
                        assert(id_le(r0[pp], r0[j - 1]));
                        lemma_id_le_trans(idv, r0[pp], r0[j - 1]);
                    }
                } else if i > pp {
                    assert(ids_view(r@)[i] == r0[i - 1]);
                    assert(ids_view(r@)[j] == r0[j - 1]);
                    assert(id_le(r0[i - 1], r0[j - 1]));
                }
            }
        }
        k = k + 1;
    }
    proof {
        assert(ledger_ids(s@.tokens).take(n as int) =~= ledger_ids(s@.tokens));
        if s@.wf() {
            assert(forall|a: int, b: int|
                0 <= a < s@.tokens.len() && 0 <= b < s@.tokens.len() && a != b
                    ==> ledger_ids(s@.tokens)[a] != ledger_ids(s@.tokens)[b]);
            lemma_multiset_keeps_distinct::<Seq<char>>(ids_view(r@), ledger_ids(s@.tokens));
        }
    }
    r
}

/// Every ledger record, in ascending token-identifier order; each record
/// appears exactly once (the result is the same multiset as the ledger).
pub fn query_token_info(s: &StakingContract) -> (r: Vec<TokenInfo>)
    ensures
        r@.len() == s@.tokens.len(),
        views_of(r@).to_multiset() == s@.tokens.to_multiset(),
        tokens_sorted(views_of(r@)),
        s@.wf() ==> crate::state::tokens_unique(views_of(r@)),
{
    let n = s.tokens.len();
    let mut r: Vec<TokenInfo> = Vec::new();
    let mut k: usize = 0;
    proof {
        assert(views_of(r@) =~= s@.tokens.take(0));
    }
    while k < n
        invariant
            n == s.tokens@.len(),
            k <= n,
            r@.len() == k,
            views_of(r@).to_multiset() == s@.tokens.take(k as int).to_multiset(),
            tokens_sorted(views_of(r@)),
        decreases n - k,
    {
        let t = clone_token_info(&s.tokens[k]);
        let ghost tv = t@;
        proof {
            assert(tv == s@.tokens[k as int]);
        }
        let m = r.len();
        let mut p: usize = 0;
        let mut scanning = true;
        while scanning
            invariant
                m == r@.len(),
                p <= m,
                tokens_sorted(views_of(r@)),
                tv == t@,
                forall|j: int|
                    0 <= j < p ==> id_le(#[trigger] views_of(r@)[j].token_id, tv.token_id),
                !scanning ==> p == m || id_le(tv.token_id, views_of(r@)[p as int].token_id),
            decreases m - p + (if scanning {
                1int
            } else {
                0int
            }),
        {
            if p >= m {
                scanning = false;
            } else {
                proof {
                    assert(views_of(r@)[p as int].token_id == r@[p as int]@.token_id);
                }
                let le = id_le_exec(&r[p].token_id, &t.token_id);
                if le {
                    p = p + 1;
                } else {
                    proof {
                        lemma_id_le_total(views_of(r@)[p as int].token_id, tv.token_id);
                    }
                    scanning = false;
                }
            }
        }
        let ghost r0 = views_of(r@);
        r.insert(p, t);
        proof {
            broadcast use vstd::seq_lib::group_to_multiset_ensures;

            assert(views_of(r@) =~= r0.insert(p as int, tv));
            lemma_to_multiset_insert::<TokenView>(r0, p as int, tv);
            assert(s@.tokens.take(k as int + 1) =~= s@.tokens.take(k as int).push(
                s@.tokens[k as int],
            ));
            assert(views_of(r@).to_multiset() =~= s@.tokens.take(k as int + 1).to_multiset());
            assert forall|i: int, j: int| 0 <= i < j < views_of(r@).len() implies id_le(
                views_of(r@)[i].token_id,
                views_of(r@)[j].token_id,
            ) by {
                let pp = p as int;
                if i < pp && j > pp {
                    assert(views_of(r@)[j] == r0[j - 1]);
                    assert(id_le(r0[i].token_id, r0[j - 1].token_id));
                } else if i == pp && j > pp {
                    assert(views_of(r@)[j] == r0[j - 1]);
                    assert(id_le(tv.token_id, r0[pp].token_id));
                    if j - 1 > pp {
                        assert(id_le(r0[pp].token_id, r0[j - 1].token_id));
                        lemma_id_le_trans(tv.token_id, r0[pp].token_id, r0[j - 1].token_id);
                    }
                } else if i > pp {
                    assert(views_of(r@)[i] == r0[i - 1]);
                    assert(views_of(r@)[j] == r0[j - 1]);
                    assert(id_le(r0[i - 1].token_id, r0[j - 1].token_id));
                }
            }
        }
        k = k + 1;
    }
    proof {
        assert(s@.tokens.take(n as int) =~= s@.tokens);
        if s@.wf() {
            lemma_multiset_keeps_ids_unique(views_of(r@), s@.tokens);
        }
    }
    r
}

/// The ledger record of one identifier, if present.
pub fn query_get_token(s: &StakingContract, token_id: String) -> (r: Option<TokenInfo>)
    requires
        s@.wf(),
    ensures
        match r {
            Some(t) => has_token(s@.tokens, token_id@) && t@ == token_of(s@.tokens, token_id@),
            None => !has_token(s@.tokens, token_id@),
        },
{
    match find_token(&s.tokens, &token_id) {
        Some(i) => {
            proof {
                lemma_token_lookup(s@.tokens, i as int);
            }
            Some(clone_token_info(&s.tokens[i]))
        },
        None => None,
    }
}

/// The identifiers the owner index lists for an address, in insertion
/// order; empty when the address never deposited.
pub fn query_my_ids(s: &StakingContract, address: String) -> (r: Vec<String>)
    requires
        s@.wf(),
    ensures
        ids_view(r@) == ids_of(s@.owned, address@),
{
    match find_owner(&s.owned, &address) {
        Some(j) => {
            proof {
                lemma_owner_lookup(s@.owned, j as int);
            }
            clone_string_vec(&s.owned[j].token_ids)
        },
        None => {
            let r: Vec<String> = Vec::new();
            proof {
                assert(ids_view(r@) =~= ids_of(s@.owned, address@));
            }
            r
        },
    }
}

/// The full records behind an address's owner-index entry, resolved in list
/// order; empty when the address never deposited.
pub fn query_my_info(s: &StakingContract, address: String) -> (r: Vec<TokenInfo>)
    requires
        s@.wf(),
    ensures
        views_of(r@).len() == ids_of(s@.owned, address@).len(),
        forall|q: int|
            0 <= q < r@.len() ==> views_of(r@)[q] == token_of(
                s@.tokens,
                ids_of(s@.owned, address@)[q],
            ),
{
    match find_owner(&s.owned, &address) {
        None => {
            let r: Vec<TokenInfo> = Vec::new();
            r
        },
        Some(j) => {
            proof {
                lemma_owner_lookup(s@.owned, j as int);
            }
            let m = s.owned[j].token_ids.len();
            let mut r: Vec<TokenInfo> = Vec::new();
            let mut k: usize = 0;
            while k < m
                invariant
                    s@.wf(),
                    j < s@.owned.len(),
                    s@.owned[j as int].owner == address@,
                    ids_of(s@.owned, address@) == s@.owned[j as int].token_ids,
                    m == s.owned@[j as int].token_ids@.len(),
                    k <= m,
                    r@.len() == k,
                    forall|q: int|
                        0 <= q < k ==> views_of(r@)[q] == token_of(
                            s@.tokens,
                            s@.owned[j as int].token_ids[q],
                        ),
                decreases m - k,
            {
                proof {
                    assert(s@.owned[j as int].token_ids[k as int] == s.owned@[j as
                        int].token_ids@[k as int]@);
                }
                match find_token(&s.tokens, &s.owned[j].token_ids[k]) {
                    Some(i) => {
                        proof {
                            lemma_token_lookup(s@.tokens, i as int);
                        }
                        let ghost r0 = r@;
                        r.push(clone_token_info(&s.tokens[i]));
                        proof {
                            assert(r@[k as int] == s.tokens@[i as int]);
                            assert(views_of(r@)[k as int] == r@[k as int]@);
                            assert(views_of(r@)[k as int] == s@.tokens[i as int]);
                            assert(views_of(r@)[k as int] == token_of(
                                s@.tokens,
                                s@.owned[j as int].token_ids[k as int],
                            ));
                            assert forall|q: int| 0 <= q < k implies #[trigger] views_of(r@)[q]
                                == token_of(s@.tokens, s@.owned[j as int].token_ids[q]) by {
                                assert(r@[q] == r0[q]);
                                assert(views_of(r0)[q] == token_of(
                                    s@.tokens,
                                    s@.owned[j as int].token_ids[q],
                                ));
                            }
                        }
                    },
                    None => {
                        proof {
                            assert(false);
                        }
                        return r;
                    },
                }
                k = k + 1;
            }
            r
        },
    }
}

/// Route one read-only query to its projection.
pub fn query(s: &StakingContract, now: u64, msg: QueryMsg) -> (r: QueryAnswer)
    requires
        s@.wf(),
    ensures
        match msg {
            QueryMsg::GetStateInfo => r matches QueryAnswer::StateInfo(st) && st@ == s@.state,
            QueryMsg::GetCurrentTime => r matches QueryAnswer::CurrentTime(t) && t == now,
            QueryMsg::GetToken { token_id } => r matches QueryAnswer::Token(t) && (match t {
                Some(info) => has_token(s@.tokens, token_id@) && info@ == token_of(
                    s@.tokens,
                    token_id@,
                ),
                None => !has_token(s@.tokens, token_id@),
            }),
            QueryMsg::GetMyIds { address } => r matches QueryAnswer::MyIds(v) && ids_view(v@)
                == ids_of(s@.owned, address@),
            QueryMsg::GetMyInfo { address } => r matches QueryAnswer::MyInfo(v) && views_of(
                v@,
            ).len() == ids_of(s@.owned, address@).len() && forall|q: int|
                0 <= q < v@.len() ==> views_of(v@)[q] == token_of(
                    s@.tokens,
                    ids_of(s@.owned, address@)[q],
                ),
        },
{
    match msg {
        QueryMsg::GetStateInfo => QueryAnswer::StateInfo(query_state_info(s)),
        QueryMsg::GetCurrentTime => QueryAnswer::CurrentTime(query_get_current_time(now)),
        QueryMsg::GetToken { token_id } => QueryAnswer::Token(query_get_token(s, token_id)),
        QueryMsg::GetMyIds { address } => QueryAnswer::MyIds(query_my_ids(s, address)),
        QueryMsg::GetMyInfo { address } => QueryAnswer::MyInfo(query_my_info(s, address)),
    }
}

} // verus!
