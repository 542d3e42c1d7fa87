//! A prediction-call registry with surge fees, payouts and dividend sharing, and the
//! governance rules (roles, a fee timelock, soulbound marks) that sit beside it.
//!
//! The registry is a state machine: each operation takes the current time and the
//! addresses that authorised it, and either refuses, changing nothing, or updates the
//! state and returns the token movements, vault calls and events for the host to carry
//! out. `model` states what each operation does; `laws` proves what they keep.
pub mod fees;
pub mod governance;
pub mod laws;
pub mod ledger;
pub mod model;
pub mod registry;
pub mod types;

pub use fees::compute_fee_basis_points;
pub use governance::{Governance, GovernanceError, DELAY};
pub use ledger::{StakeEntry, StakeKey};
pub use registry::CallRegistry;
pub use types::{Addr, Call, CreateCallMetadata, Effect, Event, RegistryError};
