//! Persistent data model of the staking ledger: global configuration,
//! per-token staking records, and the owner index, together with the
//! well-formedness invariant that ties them together.
use vstd::prelude::*;

verus! {

/// Lifecycle of a position: earning rewards while `Staked`, waiting out the
/// lock-up while `Unstaking`.
#[derive(Clone, Copy, Debug, PartialEq, Eq, Structural)]
pub enum Status {
    Staked,
    Unstaking,
}

/// Global configuration and counters, a singleton record.
#[derive(Clone, Debug, PartialEq)]
pub struct State {
    pub owner: String,
    pub denom: String,
    pub staking_period: u64,
    pub distribute_period: u64,
    pub reward_wallet: String,
    pub total_staked: u128,
    pub nft_address: Vec<String>,
    pub token_address: String,
    pub can_stake: bool,
    pub last_distribute: u64,
    pub claim_reward: u128,
}

/// One staked position: the ledger record for a single token identifier.
#[derive(Clone, Debug, PartialEq)]
pub struct TokenInfo {
    pub token_id: String,
    pub owner: String,
    pub source_contract: String,
    pub status: Status,
    pub stake_time: u64,
    pub unstake_time: u64,
    pub reward: u128,
}

/// One owner-index entry: the token identifiers a holder currently has in
/// the ledger, in insertion order.
#[derive(Clone, Debug, PartialEq)]
pub struct OwnerTokens {
    pub owner: String,
    pub token_ids: Vec<String>,
}

/// The whole persistent state: configuration, token ledger, owner index.
#[derive(Clone, Debug, PartialEq)]
pub struct StakingContract {
    pub state: State,
    pub tokens: Vec<TokenInfo>,
    pub owned: Vec<OwnerTokens>,
}

#[verifier::ext_equal]
pub ghost struct StateView {
    pub owner: Seq<char>,
    pub denom: Seq<char>,
    pub staking_period: u64,
    pub distribute_period: u64,
    pub reward_wallet: Seq<char>,
    pub total_staked: u128,
    pub nft_address: Seq<Seq<char>>,
    pub token_address: Seq<char>,
    pub can_stake: bool,
    pub last_distribute: u64,
    pub claim_reward: u128,
}

#[verifier::ext_equal]
pub ghost struct TokenView {
    pub token_id: Seq<char>,
    pub owner: Seq<char>,
    pub source_contract: Seq<char>,
    pub status: Status,
    pub stake_time: u64,
    pub unstake_time: u64,
    pub reward: u128,
}

#[verifier::ext_equal]
pub ghost struct OwnerView {
    pub owner: Seq<char>,
    pub token_ids: Seq<Seq<char>>,
}

#[verifier::ext_equal]
pub ghost struct ContractView {
    pub state: StateView,
    pub tokens: Seq<TokenView>,
    pub owned: Seq<OwnerView>,
}

/// The identifiers of a list of strings, as sequences of characters.
pub open spec fn ids_view(ids: Seq<String>) -> Seq<Seq<char>> {
    ids.map_values(|s: String| s@)
}

/// The ledger records as mathematical values.
pub open spec fn views_of(tokens: Seq<TokenInfo>) -> Seq<TokenView> {
    tokens.map_values(|t: TokenInfo| t@)
}

/// The owner-index entries as mathematical values.
pub open spec fn owner_views_of(owned: Seq<OwnerTokens>) -> Seq<OwnerView> {
    owned.map_values(|o: OwnerTokens| o@)
}

impl View for State {
    type V = StateView;

    open spec fn view(&self) -> StateView {
        StateView {
            owner: self.owner@,
            denom: self.denom@,
            staking_period: self.staking_period,
            distribute_period: self.distribute_period,
            reward_wallet: self.reward_wallet@,
            total_staked: self.total_staked,
            nft_address: ids_view(self.nft_address@),
            token_address: self.token_address@,
            can_stake: self.can_stake,
            last_distribute: self.last_distribute,
            claim_reward: self.claim_reward,
        }
    }
}

impl View for TokenInfo {
    type V = TokenView;

    open spec fn view(&self) -> TokenView {
        TokenView {
            token_id: self.token_id@,
            owner: self.owner@,
            source_contract: self.source_contract@,
            status: self.status,
            stake_time: self.stake_time,
            unstake_time: self.unstake_time,
            reward: self.reward,
        }
    }
}

impl View for OwnerTokens {
    type V = OwnerView;

    open spec fn view(&self) -> OwnerView {
        OwnerView { owner: self.owner@, token_ids: ids_view(self.token_ids@) }
    }
}

impl View for StakingContract {
    type V = ContractView;

    open spec fn view(&self) -> ContractView {
        ContractView {
            state: self.state@,
            tokens: views_of(self.tokens@),
            owned: owner_views_of(self.owned@),
        }
    }
}

/// The token identifiers of the ledger entries, in ledger order.
pub open spec fn ledger_ids(toks: Seq<TokenView>) -> Seq<Seq<char>> {
    toks.map_values(|t: TokenView| t.token_id)
}

/// Lexicographic order on identifiers by character code point — on UTF-8
/// encoded strings the same as byte order. The whole-ledger queries list
/// the ledger ascending in this order.
pub open spec fn id_le(a: Seq<char>, b: Seq<char>) -> bool
    decreases a.len(),
{
    if a.len() == 0 {
        true
    } else if b.len() == 0 {
        false
    } else if a[0] == b[0] {
        id_le(a.drop_first(), b.drop_first())
    } else {
        a[0] < b[0]
    }
}

/// The identifier list is ascending in `id_le`.
pub open spec fn ids_sorted(ids: Seq<Seq<char>>) -> bool {
    forall|i: int, j: int| 0 <= i < j < ids.len() ==> id_le(ids[i], ids[j])
}

/// The record list is ascending in token-identifier order.
pub open spec fn tokens_sorted(toks: Seq<TokenView>) -> bool {
    forall|i: int, j: int| 0 <= i < j < toks.len() ==> id_le(toks[i].token_id, toks[j].token_id)
}

/// Some ledger entry carries this token identifier.
pub open spec fn has_token(toks: Seq<TokenView>, id: Seq<char>) -> bool {
    exists|i: int| 0 <= i < toks.len() && toks[i].token_id == id
}

/// The index of the (unique, under `tokens_unique`) ledger entry with this
/// identifier.
pub open spec fn token_index(toks: Seq<TokenView>, id: Seq<char>) -> int {
    choose|i: int| 0 <= i < toks.len() && toks[i].token_id == id
}

/// The ledger entry with this identifier.
pub open spec fn token_of(toks: Seq<TokenView>, id: Seq<char>) -> TokenView {
    toks[token_index(toks, id)]
}

/// No token identifier appears in the ledger twice.
pub open spec fn tokens_unique(toks: Seq<TokenView>) -> bool {
    forall|i: int, j: int|
        0 <= i < toks.len() && 0 <= j < toks.len() && i != j ==> toks[i].token_id != toks[j].token_id
}

/// How many ledger entries are currently in the `Staked` state.
pub open spec fn staked_count(toks: Seq<TokenView>) -> nat
    decreases toks.len(),
{
    if toks.len() == 0 {
        0
    } else {
        staked_count(toks.drop_last()) + (if toks.last().status is Staked {
            1nat
        } else {
            0nat
        })
    }
}

/// Some owner-index entry belongs to this address.
pub open spec fn has_owner(owned: Seq<OwnerView>, addr: Seq<char>) -> bool {
    exists|i: int| 0 <= i < owned.len() && owned[i].owner == addr
}

/// The index of the (unique, under `owners_unique`) entry of this address.
pub open spec fn owner_index(owned: Seq<OwnerView>, addr: Seq<char>) -> int {
    choose|i: int| 0 <= i < owned.len() && owned[i].owner == addr
}

/// The token identifiers the index lists for this address (empty when the
/// address has no entry).
pub open spec fn ids_of(owned: Seq<OwnerView>, addr: Seq<char>) -> Seq<Seq<char>> {
    if has_owner(owned, addr) {
        owned[owner_index(owned, addr)].token_ids
    } else {
        Seq::empty()
    }
}

/// No address has two owner-index entries.
pub open spec fn owners_unique(owned: Seq<OwnerView>) -> bool {
    forall|i: int, j: int|
        0 <= i < owned.len() && 0 <= j < owned.len() && i != j ==> owned[i].owner != owned[j].owner
}

/// No owner-index list carries the same identifier twice.
pub open spec fn lists_unique(owned: Seq<OwnerView>) -> bool {
    forall|o: int, i: int, j: int|
        0 <= o < owned.len() && 0 <= i < owned[o].token_ids.len() && 0 <= j
            < owned[o].token_ids.len() && i != j ==> owned[o].token_ids[i] != owned[o].token_ids[j]
}

/// Every identifier listed in the owner index is a live ledger entry whose
/// recorded owner is the address it is listed under.
pub open spec fn listed_ids_live(cv: ContractView) -> bool {
    forall|o: int, i: int|
        0 <= o < cv.owned.len() && 0 <= i < cv.owned[o].token_ids.len() ==> {
            &&& has_token(cv.tokens, cv.owned[o].token_ids[i])
            &&& token_of(cv.tokens, cv.owned[o].token_ids[i]).owner == cv.owned[o].owner
        }
}

/// Every ledger entry is listed in its owner's index entry.
pub open spec fn tokens_listed(cv: ContractView) -> bool {
    forall|t: int|
        0 <= t < cv.tokens.len() ==> {
            &&& has_owner(cv.owned, cv.tokens[t].owner)
            &&& ids_of(cv.owned, cv.tokens[t].owner).contains(cv.tokens[t].token_id)
        }
}

impl ContractView {
    /// Well-formedness of the whole state: token identifiers are unique keys,
    /// `total_staked` counts exactly the `Staked` entries, and the owner
    /// index and the token ledger describe each other in lock-step.
    pub open spec fn wf(self) -> bool {
        &&& tokens_unique(self.tokens)
        &&& self.state.total_staked == staked_count(self.tokens)
        &&& owners_unique(self.owned)
        &&& lists_unique(self.owned)
        &&& listed_ids_live(self)
        &&& tokens_listed(self)
    }
}

} // verus!
