//! Error kinds a command handler can return. Every error aborts the whole
//! command; the host commits no partial mutation.
use vstd::prelude::*;

verus! {

#[derive(Clone, Copy, Debug, PartialEq, Eq, Structural)]
pub enum ContractError {
    /// The caller lacks the privilege the command demands.
    Unauthorized,
    /// A deposit named a token identifier already present in the ledger.
    AlreadyStaked,
    /// The token identifier has no ledger entry, or nothing is staked.
    NotStaked,
    /// New deposits are currently disabled.
    CanNotStake,
    /// The position is still `Staked`; it must be unstaked first.
    StatusError,
    /// The lock-up period since unstaking has not yet elapsed.
    TimeRemaining,
    /// The minimum interval since the last distribution has not yet elapsed.
    CanNotDistribute,
    /// The deposit notification came from an address outside the allow-list.
    WrongNftContract,
    /// A serialization failure surfaced from the host message encoding.
    Std,
}

} // verus!
