//! The registry's state as a mathematical value, what each operation does to it, and
//! the consistency that every operation keeps.
use vstd::prelude::*;

use crate::fees::{div_toward_zero, fee_bps, fits_i128};
use crate::ledger::{participants, side_total, entry_sum, stake_lookup, stake_set, keys_unique, StakeEntry, StakeKey};
use crate::types::{Addr, Call, CreateCallMetadata, Effect, Event, RegistryError};

verus! {

/// Everything the registry keeps. Call `i` is the call with id `i`; the next call
/// created gets the id `calls.len()`.
#[verifier::ext_equal]
pub struct RegistryView {
    pub admin: Option<Addr>,
    pub paused: bool,
    pub vault: Option<Addr>,
    pub calls: Seq<Call>,
    pub stakes: Seq<StakeEntry>,
    /// Accumulated platform fees available for dividend distribution.
    pub platform_fees: i128,
}

/// The ledger of a freshly deployed registry.
pub open spec fn empty_registry() -> RegistryView {
    RegistryView {
        admin: None,
        paused: false,
        vault: None,
        calls: Seq::empty(),
        stakes: Seq::empty(),
        platform_fees: 0,
    }
}

/// Surge fee charged on a stake of `amount` at `bps` basis points, rounded down.
pub open spec fn surge_fee(amount: int, bps: int) -> int {
    (amount * bps) / 10_000
}

/// What a winner with `stake` on a side holding `winners` receives when the other
/// side holds `losers`: the stake back plus a proportional share of the losers' pool.
pub open spec fn payout_amount(stake: int, winners: int, losers: int) -> int {
    stake + div_toward_zero(stake * losers, winners)
}

/// The gas fee paid to whoever finalizes a call: 0.5 % of the losers' pool.
pub open spec fn gas_fee(losers: int) -> int {
    div_toward_zero(losers * 5, 1000)
}

/// One holder's share of `total_fees` by `weight` out of `total_weight`.
pub open spec fn dividend_share(total_fees: int, weight: int, total_weight: int) -> int {
    div_toward_zero(total_fees * weight, total_weight)
}

/// Sum of the weights in `holders`.
pub open spec fn weight_sum(holders: Seq<(Addr, i128)>) -> int
    decreases holders.len(),
{
    if holders.len() == 0 {
        0
    } else {
        weight_sum(holders.drop_last()) + holders.last().1
    }
}

/// Every running total of the weights, taken in order, is an `i128`.
pub open spec fn weight_sums_fit(holders: Seq<(Addr, i128)>) -> bool
    decreases holders.len(),
{
    holders.len() == 0 || (weight_sums_fit(holders.drop_last()) && fits_i128(
        weight_sum(holders),
    ))
}

/// The share of holder `i`, and the product it is computed from, are `i128`s.
pub open spec fn share_fits(holders: Seq<(Addr, i128)>, i: int, total_fees: int, total_weight: int) -> bool {
    fits_i128(total_fees * holders[i].1) && fits_i128(
        dividend_share(total_fees, holders[i].1 as int, total_weight),
    )
}

/// Every holder's share, and the product it is computed from, is an `i128`.
pub open spec fn shares_fit(holders: Seq<(Addr, i128)>, total_fees: int, total_weight: int) -> bool {
    forall|i: int| 0 <= i < holders.len() ==> #[trigger] share_fits(holders, i, total_fees, total_weight)
}

/// A prefix of holders whose running weight totals all fit has the same property,
/// and its total fits.
pub proof fn lemma_weight_sums_fit_prefix(holders: Seq<(Addr, i128)>, k: int)
    requires
        0 < k <= holders.len(),
        weight_sums_fit(holders),
    ensures
        weight_sums_fit(holders.take(k)),
        fits_i128(weight_sum(holders.take(k))),
    decreases holders.len(),
{
    if k == holders.len() {
        assert(holders.take(k) =~= holders);
    } else {
        lemma_weight_sums_fit_prefix(holders.drop_last(), k);
        assert(holders.drop_last().take(k) =~= holders.take(k));
    }
}

/// The dividend payments, in holder order: one for every holder whose share is positive.
pub open spec fn dividend_payments(
    holders: Seq<(Addr, i128)>,
    token: Addr,
    total_fees: int,
    total_weight: int,
) -> Seq<Effect>
    decreases holders.len(),
{
    if holders.len() == 0 {
        Seq::empty()
    } else {
        let earlier = dividend_payments(holders.drop_last(), token, total_fees, total_weight);
        let share = dividend_share(total_fees, holders.last().1 as int, total_weight);
        if share > 0 {
            earlier.push(Effect::Pay { token, to: holders.last().0, amount: share as i128 })
        } else {
            earlier
        }
    }
}

/// Total of the dividend payments.
pub open spec fn paid_total(effects: Seq<Effect>) -> int
    decreases effects.len(),
{
    if effects.len() == 0 {
        0
    } else {
        paid_total(effects.drop_last()) + match effects.last() {
            Effect::Pay { amount, .. } => amount as int,
            _ => 0,
        }
    }
}

/// The pool on side `position` of a call.
pub open spec fn pool(call: Call, position: bool) -> int {
    if position {
        call.total_stake_yes as int
    } else {
        call.total_stake_no as int
    }
}

/// What a winning entry is owed once the call is settled.
pub open spec fn owed(e: StakeEntry, call_id: int, outcome: bool, winners: int, losers: int) -> int {
    if e.key.call_id == call_id && e.key.position == outcome {
        if winners > 0 {
            payout_amount(e.amount as int, winners, losers)
        } else {
            e.amount as int
        }
    } else {
        0
    }
}

/// `owed` for one settled call, as a function of the entry.
pub open spec fn owed_fn(call_id: int, outcome: bool, winners: int, losers: int) -> spec_fn(StakeEntry) -> int {
    |e: StakeEntry| owed(e, call_id, outcome, winners, losers)
}

/// Everything still owed to the winners of call `call_id`.
pub open spec fn total_owed(s: Seq<StakeEntry>, call_id: int, outcome: bool, winners: int, losers: int) -> int {
    entry_sum(s, owed_fn(call_id, outcome, winners, losers))
}

/// A call agrees with the ledger: its participant count is the number of distinct
/// users with an entry on it; while it is open, its pools are the sums of the stakes
/// on each side and its vault balance holds both; once it is settled, its vault
/// balance covers every payout still owed to its winners.
pub open spec fn call_consistent(call: Call, s: Seq<StakeEntry>, call_id: int) -> bool {
    &&& call.participant_count == participants(s, call_id).len()
    &&& call.total_stake_yes >= 0
    &&& call.total_stake_no >= 0
    &&& if !call.settled {
        &&& side_total(s, call_id, true) == call.total_stake_yes
        &&& side_total(s, call_id, false) == call.total_stake_no
        &&& call.vault_balance == call.total_stake_yes + call.total_stake_no
    } else {
        &&& side_total(s, call_id, call.outcome) <= pool(call, call.outcome)
        &&& total_owed(s, call_id, call.outcome, pool(call, call.outcome), pool(call, !call.outcome))
            <= call.vault_balance
    }
}

impl RegistryView {
    /// The state a registry reaches through its own operations: every stake belongs to
    /// an existing call, is not negative and is recorded once, the platform fees are
    /// not negative, and every call is consistent with the ledger.
    pub open spec fn valid(self) -> bool {
        &&& self.platform_fees >= 0
        &&& keys_unique(self.stakes)
        &&& forall|i: int|
            0 <= i < self.stakes.len() ==> (#[trigger] self.stakes[i]).key.call_id < self.calls.len()
                && self.stakes[i].amount >= 0
        &&& forall|c: int|
            0 <= c < self.calls.len() ==> call_consistent(#[trigger] self.calls[c], self.stakes, c)
    }

    /// The stake recorded for `user` on side `position` of call `call_id`, 0 where none is.
    pub open spec fn user_stake(self, call_id: u64, user: Addr, position: bool) -> i128 {
        match stake_lookup(self.stakes, StakeKey { call_id, user, position }) {
            Some(a) => a,
            None => 0,
        }
    }

    /// The admin, provided it authorised the operation.
    pub open spec fn authorised_admin(self, signers: Seq<Addr>) -> Result<Addr, RegistryError> {
        match self.admin {
            None => Err(RegistryError::AdminNotSet),
            Some(a) => if signers.contains(a) {
                Ok(a)
            } else {
                Err(RegistryError::Unauthorized)
            },
        }
    }

    /// Depositing `amount` of `token` in the vault, where one is configured.
    pub open spec fn vault_deposit(self, token: Addr, amount: i128) -> Seq<Effect> {
        match self.vault {
            Some(vault) => seq![Effect::VaultDeposit { vault, token, amount }],
            None => Seq::empty(),
        }
    }

    /// Withdrawing `amount` from the vault, where one is configured.
    pub open spec fn vault_withdraw(self, amount: i128) -> Seq<Effect> {
        match self.vault {
            Some(vault) => seq![Effect::VaultWithdraw { vault, amount }],
            None => Seq::empty(),
        }
    }

    /// Initialize: set the admin, which must authorise it, and unpause; only once.
    pub open spec fn initialize(self, admin: Addr, signers: Seq<Addr>) -> Result<RegistryView, RegistryError> {
        if self.admin is Some {
            Err(RegistryError::AlreadyInitialized)
        } else if !signers.contains(admin) {
            Err(RegistryError::Unauthorized)
        } else {
            Ok(RegistryView { admin: Some(admin), paused: false, ..self })
        }
    }

    /// Set the vault (admin only).
    pub open spec fn set_vault(self, vault: Addr, signers: Seq<Addr>) -> Result<RegistryView, RegistryError> {
        match self.authorised_admin(signers) {
            Err(e) => Err(e),
            Ok(_) => Ok(RegistryView { vault: Some(vault), ..self }),
        }
    }

    /// Clear the vault (admin only): stakes then stay with the registry.
    pub open spec fn clear_vault(self, signers: Seq<Addr>) -> Result<RegistryView, RegistryError> {
        match self.authorised_admin(signers) {
            Err(e) => Err(e),
            Ok(_) => Ok(RegistryView { vault: None, ..self }),
        }
    }

    /// Pause (`paused == true`) or unpause (admin only).
    pub open spec fn set_paused(self, paused: bool, signers: Seq<Addr>) -> Result<RegistryView, RegistryError> {
        match self.authorised_admin(signers) {
            Err(e) => Err(e),
            Ok(_) => Ok(RegistryView { paused, ..self }),
        }
    }

    /// Create a call: the creator stakes `stake_amount` on "yes" and becomes its
    /// first participant; the new call's id is returned.
    pub open spec fn create_call(
        self,
        creator: Addr,
        stake_token: Addr,
        stake_amount: i128,
        end_ts: u64,
        metadata: CreateCallMetadata,
        now: u64,
        signers: Seq<Addr>,
    ) -> Result<(RegistryView, u64, Seq<Effect>), RegistryError> {
        if self.paused {
            Err(RegistryError::Paused)
        } else if !signers.contains(creator) {
            Err(RegistryError::Unauthorized)
        } else if end_ts <= now {
            Err(RegistryError::EndTimeNotInFuture)
        } else if stake_amount <= 0 {
            Err(RegistryError::StakeNotPositive)
        } else if self.calls.len() >= u64::MAX {
            Err(RegistryError::ArithmeticOverflow)
        } else {
            let call_id = self.calls.len() as u64;
            let call = Call {
                creator,
                stake_token,
                total_stake_yes: stake_amount,
                total_stake_no: 0,
                start_ts: now,
                end_ts,
                token_address: metadata.token_address,
                pair_id: metadata.pair_id,
                ipfs_cid: metadata.ipfs_cid,
                settled: false,
                outcome: false,
                final_price: 0,
                vault_balance: stake_amount,
                participant_count: 1,
            };
            let event = Event::CallCreated {
                call_id,
                creator,
                stake_token,
                stake_amount,
                start_ts: now,
                end_ts,
                token_address: metadata.token_address,
                pair_id: metadata.pair_id,
                ipfs_cid: metadata.ipfs_cid,
            };
            let effects = seq![Effect::Collect { token: stake_token, from: creator, amount: stake_amount }]
                + self.vault_deposit(stake_token, stake_amount) + seq![Effect::Emit(event)];
            let key = StakeKey { call_id, user: creator, position: true };
            Ok(
                (
                    RegistryView {
                        calls: self.calls.push(call),
                        stakes: stake_set(self.stakes, key, stake_amount),
                        ..self
                    },
                    call_id,
                    effects,
                ),
            )
        }
    }

    /// Stake `amount` on side `position` of a call. The surge fee for the call's current
    /// participant count goes to the platform fees; the rest is added to the side's pool,
    /// the call's vault balance and the staker's stake. A staker new to the call counts
    /// as one more participant.
    pub open spec fn stake_on_call(
        self,
        call_id: u64,
        staker: Addr,
        amount: i128,
        position: bool,
        now: u64,
        signers: Seq<Addr>,
    ) -> Result<(RegistryView, Seq<Effect>), RegistryError> {
        if self.paused {
            Err(RegistryError::Paused)
        } else if !signers.contains(staker) {
            Err(RegistryError::Unauthorized)
        } else if call_id >= self.calls.len() {
            Err(RegistryError::CallNotFound)
        } else {
            let call = self.calls[call_id as int];
            if now >= call.end_ts {
                Err(RegistryError::CallEnded)
            } else if call.settled {
                Err(RegistryError::CallSettled)
            } else if amount <= 0 {
                Err(RegistryError::AmountNotPositive)
            } else {
                let bps = fee_bps(call.participant_count as int);
                let fee = surge_fee(amount as int, bps);
                let net = amount - fee;
                let key = StakeKey { call_id, user: staker, position };
                let current = self.user_stake(call_id, staker, position);
                let joins = stake_lookup(
                    self.stakes,
                    StakeKey { call_id, user: staker, position: true },
                ) is None && stake_lookup(
                    self.stakes,
                    StakeKey { call_id, user: staker, position: false },
                ) is None;
                let fees = if fee > 0 {
                    self.platform_fees + fee
                } else {
                    self.platform_fees as int
                };
                let yes = if position {
                    call.total_stake_yes + net
                } else {
                    call.total_stake_yes as int
                };
                let no = if position {
                    call.total_stake_no as int
                } else {
                    call.total_stake_no + net
                };
                let vault_balance = call.vault_balance + net;
                let count = if joins {
                    call.participant_count + 1
                } else {
                    call.participant_count as int
                };
                if !(fits_i128(amount * bps) && fits_i128(fees) && fits_i128(yes) && fits_i128(no)
                    && fits_i128(vault_balance) && count <= u32::MAX && fits_i128(current + net)) {
                    Err(RegistryError::ArithmeticOverflow)
                } else {
                    let updated = Call {
                        total_stake_yes: yes as i128,
                        total_stake_no: no as i128,
                        vault_balance: vault_balance as i128,
                        participant_count: count as u32,
                        ..call
                    };
                    let event = Event::StakeAdded {
                        call_id,
                        staker,
                        position,
                        net_amount: net as i128,
                        fee: fee as i128,
                        fee_bps: bps as i128,
                    };
                    let effects = seq![Effect::Collect { token: call.stake_token, from: staker, amount }]
                        + self.vault_deposit(call.stake_token, net as i128) + seq![Effect::Emit(event)];
                    Ok(
                        (
                            RegistryView {
                                platform_fees: fees as i128,
                                calls: self.calls.update(call_id as int, updated),
                                stakes: stake_set(self.stakes, key, (current + net) as i128),
                                ..self
                            },
                            effects,
                        ),
                    )
                }
            }
        }
    }

    /// Withdraw the payout of a winning stake on a settled call: the stake plus its
    /// proportional share of the losers' pool. The stake is then cleared.
    pub open spec fn withdraw_payout(
        self,
        call_id: u64,
        user: Addr,
        position: bool,
        signers: Seq<Addr>,
    ) -> Result<(RegistryView, Seq<Effect>), RegistryError> {
        if !signers.contains(user) {
            Err(RegistryError::Unauthorized)
        } else if call_id >= self.calls.len() {
            Err(RegistryError::CallNotFound)
        } else {
            let call = self.calls[call_id as int];
            let key = StakeKey { call_id, user, position };
            if !call.settled {
                Err(RegistryError::CallNotSettled)
            } else if call.outcome != position {
                Err(RegistryError::NotOnWinningSide)
            } else {
                match stake_lookup(self.stakes, key) {
                    None => Err(RegistryError::NoStakeFound),
                    Some(stake) => if stake == 0 {
                        Err(RegistryError::NothingToWithdraw)
                    } else {
                        let winners = pool(call, position);
                        let losers = pool(call, !position);
                        let payout = payout_amount(stake as int, winners, losers);
                        let vault_balance = call.vault_balance - payout;
                        if !(winners != 0 && fits_i128(stake * losers) && fits_i128(
                            div_toward_zero(stake * losers, winners),
                        ) && fits_i128(payout) && fits_i128(vault_balance)) {
                            Err(RegistryError::ArithmeticOverflow)
                        } else {
                            let updated = Call { vault_balance: vault_balance as i128, ..call };
                            let effects = self.vault_withdraw(payout as i128) + seq![
                                Effect::Pay { token: call.stake_token, to: user, amount: payout as i128 },
                                Effect::Emit(
                                    Event::PayoutWithdrawn { call_id, user, payout: payout as i128 },
                                ),
                            ];
                            Ok(
                                (
                                    RegistryView {
                                        calls: self.calls.update(call_id as int, updated),
                                        stakes: stake_set(self.stakes, key, 0),
                                        ..self
                                    },
                                    effects,
                                ),
                            )
                        }
                    },
                }
            }
        }
    }

    /// Settle a call that has ended. The caller earns the gas fee, which is taken out
    /// of the losers' pool and the call's vault balance.
    pub open spec fn finalize_call(
        self,
        call_id: u64,
        outcome: bool,
        final_price: i128,
        caller: Addr,
        now: u64,
        signers: Seq<Addr>,
    ) -> Result<(RegistryView, Seq<Effect>), RegistryError> {
        if !signers.contains(caller) {
            Err(RegistryError::Unauthorized)
        } else if call_id >= self.calls.len() {
            Err(RegistryError::CallNotFound)
        } else {
            let call = self.calls[call_id as int];
            if call.settled {
                Err(RegistryError::CallAlreadySettled)
            } else if now < call.end_ts {
                Err(RegistryError::CallNotEnded)
            } else {
                let losers = pool(call, !outcome);
                let gas = gas_fee(losers);
                let vault_balance = call.vault_balance - gas;
                if !fits_i128(losers * 5) || (gas > 0 && !(fits_i128(vault_balance) && fits_i128(
                    losers - gas,
                ))) {
                    Err(RegistryError::ArithmeticOverflow)
                } else {
                    let event = Event::CallFinalized {
                        call_id,
                        caller,
                        outcome,
                        final_price,
                        gas_fee: gas as i128,
                    };
                    let settled = Call { settled: true, outcome, final_price, ..call };
                    if gas > 0 {
                        let updated = if outcome {
                            Call {
                                vault_balance: vault_balance as i128,
                                total_stake_no: (losers - gas) as i128,
                                ..settled
                            }
                        } else {
                            Call {
                                vault_balance: vault_balance as i128,
                                total_stake_yes: (losers - gas) as i128,
                                ..settled
                            }
                        };
                        Ok(
                            (
                                RegistryView {
                                    calls: self.calls.update(call_id as int, updated),
                                    ..self
                                },
                                self.vault_withdraw(gas as i128) + seq![
                                    Effect::Pay { token: call.stake_token, to: caller, amount: gas as i128 },
                                    Effect::Emit(event),
                                ],
                            ),
                        )
                    } else {
                        Ok(
                            (
                                RegistryView {
                                    calls: self.calls.update(call_id as int, settled),
                                    ..self
                                },
                                seq![Effect::Emit(event)],
                            ),
                        )
                    }
                }
            }
        }
    }

    /// Distribute the platform fees among `holders` by their weights (admin only);
    /// shares round toward zero, only positive shares are paid, and the fees reset to 0.
    pub open spec fn distribute_dividends(
        self,
        stake_token: Addr,
        holders: Seq<(Addr, i128)>,
        signers: Seq<Addr>,
    ) -> Result<(RegistryView, Seq<Effect>), RegistryError> {
        match self.authorised_admin(signers) {
            Err(e) => Err(e),
            Ok(_) => {
                let total_fees = self.platform_fees;
                if total_fees == 0 {
                    Err(RegistryError::NoFeesToDistribute)
                } else if !weight_sums_fit(holders) {
                    Err(RegistryError::ArithmeticOverflow)
                } else if weight_sum(holders) == 0 {
                    Err(RegistryError::TotalWeightZero)
                } else if !shares_fit(holders, total_fees as int, weight_sum(holders)) {
                    Err(RegistryError::ArithmeticOverflow)
                } else {
                    let total_weight = weight_sum(holders);
                    let event = Event::DividendsDistributed {
                        total_fees,
                        total_weight: total_weight as i128,
                    };
                    Ok(
                        (
                            RegistryView { platform_fees: 0, ..self },
                            dividend_payments(holders, stake_token, total_fees as int, total_weight)
                                + seq![Effect::Emit(event)],
                        ),
                    )
                }
            }
        }
    }
}

/// One operation on the registry, with its arguments.
pub enum Operation {
    Initialize { admin: Addr, signers: Seq<Addr> },
    SetVault { vault: Addr, signers: Seq<Addr> },
    ClearVault { signers: Seq<Addr> },
    SetPaused { paused: bool, signers: Seq<Addr> },
    CreateCall {
        creator: Addr,
        stake_token: Addr,
        stake_amount: i128,
        end_ts: u64,
        metadata: CreateCallMetadata,
        now: u64,
        signers: Seq<Addr>,
    },
    StakeOnCall {
        call_id: u64,
        staker: Addr,
        amount: i128,
        position: bool,
        now: u64,
        signers: Seq<Addr>,
    },
    WithdrawPayout { call_id: u64, user: Addr, position: bool, signers: Seq<Addr> },
    FinalizeCall {
        call_id: u64,
        outcome: bool,
        final_price: i128,
        caller: Addr,
        now: u64,
        signers: Seq<Addr>,
    },
    DistributeDividends { stake_token: Addr, holders: Seq<(Addr, i128)>, signers: Seq<Addr> },
}

impl RegistryView {
    /// The registry after `op`: its new state where it is accepted, the same state
    /// where it is refused.
    pub open spec fn step(self, op: Operation) -> RegistryView {
        match op {
            Operation::Initialize { admin, signers } => match self.initialize(admin, signers) {
                Ok(post) => post,
                Err(_) => self,
            },
            Operation::SetVault { vault, signers } => match self.set_vault(vault, signers) {
                Ok(post) => post,
                Err(_) => self,
            },
            Operation::ClearVault { signers } => match self.clear_vault(signers) {
                Ok(post) => post,
                Err(_) => self,
            },
            Operation::SetPaused { paused, signers } => match self.set_paused(paused, signers) {
                Ok(post) => post,
                Err(_) => self,
            },
            Operation::CreateCall {
                creator,
                stake_token,
                stake_amount,
                end_ts,
                metadata,
                now,
                signers,
            } => match self.create_call(
                creator,
                stake_token,
                stake_amount,
                end_ts,
                metadata,
                now,
                signers,
            ) {
                Ok((post, _, _)) => post,
                Err(_) => self,
            },
            Operation::StakeOnCall { call_id, staker, amount, position, now, signers } => match self.stake_on_call(
                call_id,
                staker,
                amount,
                position,
                now,
                signers,
            ) {
                Ok((post, _)) => post,
                Err(_) => self,
            },
            Operation::WithdrawPayout { call_id, user, position, signers } => match self.withdraw_payout(
                call_id,
                user,
                position,
                signers,
            ) {
                Ok((post, _)) => post,
                Err(_) => self,
            },
            Operation::FinalizeCall { call_id, outcome, final_price, caller, now, signers } => match self.finalize_call(
                call_id,
                outcome,
                final_price,
                caller,
                now,
                signers,
            ) {
                Ok((post, _)) => post,
                Err(_) => self,
            },
            Operation::DistributeDividends { stake_token, holders, signers } => match self.distribute_dividends(
                stake_token,
                holders,
                signers,
            ) {
                Ok((post, _)) => post,
                Err(_) => self,
            },
        }
    }

    /// The registry after the operations `ops`, in order.
    pub open spec fn run(self, ops: Seq<Operation>) -> RegistryView
        decreases ops.len(),
    {
        if ops.len() == 0 {
            self
        } else {
            self.run(ops.drop_last()).step(ops.last())
        }
    }
}

/// Number of winning entries of a call that still hold a positive stake.
pub open spec fn unclaimed_winners(s: Seq<StakeEntry>, call_id: int, outcome: bool) -> int {
    entry_sum(
        s,
        |e: StakeEntry|
            if e.key.call_id == call_id && e.key.position == outcome && e.amount > 0 {
                1int
            } else {
                0int
            },
    )
}

} // verus!
