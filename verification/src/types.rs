//! The values that the registry stores, takes and hands back.
use vstd::prelude::*;

verus! {

/// An account or contract, by the number the host gave it.
#[derive(Clone, Copy, Debug, PartialEq, Eq, Hash, Structural)]
pub struct Addr(pub u64);

/// A prediction call: a yes/no question on a token pair, with the stakes placed on it.
#[derive(Clone, Debug)]
pub struct Call {
    pub creator: Addr,
    pub stake_token: Addr,
    pub total_stake_yes: i128,
    pub total_stake_no: i128,
    pub start_ts: u64,
    pub end_ts: u64,
    pub token_address: Addr,
    pub pair_id: [u8; 32],
    pub ipfs_cid: String,
    pub settled: bool,
    pub outcome: bool,
    pub final_price: i128,
    /// Total funds currently deposited in the vault for this call.
    pub vault_balance: i128,
    /// Number of unique participants (used for surge-fee calculation).
    pub participant_count: u32,
}

/// What a creator says about the call beyond its stake.
#[derive(Clone, Debug)]
pub struct CreateCallMetadata {
    pub token_address: Addr,
    pub pair_id: [u8; 32],
    pub ipfs_cid: String,
}

/// An event the registry publishes.
#[derive(Clone, Debug)]
pub enum Event {
    CallCreated {
        call_id: u64,
        creator: Addr,
        stake_token: Addr,
        stake_amount: i128,
        start_ts: u64,
        end_ts: u64,
        token_address: Addr,
        pair_id: [u8; 32],
        ipfs_cid: String,
    },
    StakeAdded {
        call_id: u64,
        staker: Addr,
        position: bool,
        net_amount: i128,
        fee: i128,
        fee_bps: i128,
    },
    PayoutWithdrawn { call_id: u64, user: Addr, payout: i128 },
    DividendsDistributed { total_fees: i128, total_weight: i128 },
    CallFinalized { call_id: u64, caller: Addr, outcome: bool, final_price: i128, gas_fee: i128 },
}

/// Work that an accepted operation hands to the host, in the order it is to be done.
#[derive(Clone, Debug)]
pub enum Effect {
    /// Move `amount` of `token` from `from` into the registry's own account.
    Collect { token: Addr, from: Addr, amount: i128 },
    /// Move `amount` of `token` from the registry's own account to `to`.
    Pay { token: Addr, to: Addr, amount: i128 },
    /// Let `vault` draw `amount` of `token` from the registry, then deposit it there.
    VaultDeposit { vault: Addr, token: Addr, amount: i128 },
    /// Withdraw `amount` from `vault` back into the registry's own account.
    VaultWithdraw { vault: Addr, amount: i128 },
    /// Publish an event.
    Emit(Event),
}

/// Why the registry refused an operation; nothing changes when it does.
#[derive(Clone, Copy, Debug, PartialEq, Eq, Structural)]
pub enum RegistryError {
    /// "Contract already initialized"
    AlreadyInitialized,
    /// "Admin not set"
    AdminNotSet,
    /// An address whose authorisation the operation needs did not give it.
    Unauthorized,
    /// "Contract is paused"
    Paused,
    /// "End time must be in future"
    EndTimeNotInFuture,
    /// "Stake amount must be > 0"
    StakeNotPositive,
    /// "Call does not exist"
    CallNotFound,
    /// "Call ended"
    CallEnded,
    /// "Call settled"
    CallSettled,
    /// "Amount must be > 0"
    AmountNotPositive,
    /// "Call not settled"
    CallNotSettled,
    /// "Not on winning side"
    NotOnWinningSide,
    /// "No stake found"
    NoStakeFound,
    /// "Nothing to withdraw"
    NothingToWithdraw,
    /// "No fees to distribute"
    NoFeesToDistribute,
    /// "Total weight is zero"
    TotalWeightZero,
    /// "Call already settled"
    CallAlreadySettled,
    /// "Call has not ended yet"
    CallNotEnded,
    /// An amount left the range of its integer type, or a division had a zero divisor.
    ArithmeticOverflow,
}

} // verus!
