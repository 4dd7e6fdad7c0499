//! A fund-carrying voting contract.
//!
//! A single admin seeds a registry of options; each voter casts at most one
//! vote, and every accepted vote asks the external ledger to move the voted
//! amount to the chosen option's recipient. The hosting environment runs
//! each operation all-or-nothing and verifies caller identities; the
//! operations here take pre-authenticated identities and injected
//! timestamps as plain values.

pub mod contract;
pub mod model;

pub use contract::VotingContract;
pub use model::TransferIntent;
pub use model::VoteRecord;
pub use model::VotingError;
pub use model::VotingOption;
