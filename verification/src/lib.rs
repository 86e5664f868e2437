//! State-transition core of an NFT escrow/staking ledger: holders deposit
//! non-fungible tokens into custody, accrue a proportional share of
//! periodically distributed fungible rewards, and withdraw token and reward
//! after a lock-up. Every handler is specified by a transition relation in
//! `transitions` and verified against it; `laws` proves the ledger-wide
//! properties once over those relations. The host environment, storage and
//! message dispatch live outside this crate; the `encode` module turns the
//! emitted instructions into host messages.
use vstd::prelude::*;

pub mod contract;
pub mod encode;
pub mod error;
pub mod laws;
pub mod lemmas;
pub mod msg;
pub mod state;
pub mod transitions;

verus! {

} // verus!
