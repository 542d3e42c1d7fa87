//! The call registry: admin controls, the lifecycle of a call, and dividend sharing.
//!
//! Every operation either refuses with a [`RegistryError`] and changes nothing, or
//! updates the registry and returns the [`Effect`]s (token movements, vault calls,
//! events) that the host carries out, in order.
use vstd::prelude::*;

use crate::fees::{compute_fee_basis_points, fee_bps, BPS_DENOMINATOR};
use crate::ledger::{find_stake, set_stake, StakeEntry, StakeKey};
use crate::model::{
    dividend_payments, empty_registry, share_fits, shares_fit, weight_sum, weight_sums_fit,
    RegistryView,
};
use crate::types::{Addr, Call, CreateCallMetadata, Effect, Event, RegistryError};

verus! {

/// The registry's stored state. Call `i` has id `i`.
pub struct CallRegistry {
    pub admin: Option<Addr>,
    pub paused: bool,
    pub vault: Option<Addr>,
    pub calls: Vec<Call>,
    pub stakes: Vec<StakeEntry>,
    pub platform_fees: i128,
}

impl View for CallRegistry {
    type V = RegistryView;

    open spec fn view(&self) -> RegistryView {
        RegistryView {
            admin: self.admin,
            paused: self.paused,
            vault: self.vault,
            calls: self.calls@,
            stakes: self.stakes@,
            platform_fees: self.platform_fees,
        }
    }
}

/// Whether `a` is among the addresses that authorised the operation.
fn is_signer(signers: &Vec<Addr>, a: Addr) -> (r: bool)
    ensures
        r == signers@.contains(a),
{
    let mut i: usize = 0;
    while i < signers.len()
        invariant
            i <= signers.len(),
            forall|j: int| 0 <= j < i ==> signers@[j] != a,
        decreases signers.len() - i,
    {
        if signers[i] == a {
            return true;
        }
        i = i + 1;
    }
    false
}

/// Where a stake exists under `key`, the amount recorded.
fn lookup_stake(stakes: &Vec<StakeEntry>, key: StakeKey) -> (r: Option<i128>)
    ensures
        r == crate::ledger::stake_lookup(stakes@, key),
{
    match find_stake(stakes, key) {
        Some(i) => Some(stakes[i].amount),
        None => None,
    }
}

impl CallRegistry {
    /// A freshly deployed registry: no admin, not paused, no vault, no calls, no fees.
    pub fn new() -> (r: Self)
        ensures
            r@ == empty_registry(),
    {
        CallRegistry {
            admin: None,
            paused: false,
            vault: None,
            calls: Vec::new(),
            stakes: Vec::new(),
            platform_fees: 0,
        }
    }

    fn authorised_admin(&self, signers: &Vec<Addr>) -> (r: Result<Addr, RegistryError>)
        ensures
            r == self@.authorised_admin(signers@),
    {
        match self.admin {
            None => Err(RegistryError::AdminNotSet),
            Some(a) => if is_signer(signers, a) {
                Ok(a)
            } else {
                Err(RegistryError::Unauthorized)
            },
        }
    }

    fn push_vault_deposit(&self, effects: &mut Vec<Effect>, token: Addr, amount: i128)
        ensures
            final(effects)@ == old(effects)@ + self@.vault_deposit(token, amount),
    {
        match self.vault {
            Some(vault) => {
                effects.push(Effect::VaultDeposit { vault, token, amount });
            },
            None => {},
        }
    }

    fn push_vault_withdraw(&self, effects: &mut Vec<Effect>, amount: i128)
        ensures
            final(effects)@ == old(effects)@ + self@.vault_withdraw(amount),
    {
        match self.vault {
            Some(vault) => {
                effects.push(Effect::VaultWithdraw { vault, amount });
            },
            None => {},
        }
    }

    /// Initialize admin and pause state.
    pub fn initialize(&mut self, admin: Addr, signers: &Vec<Addr>) -> (r: Result<(), RegistryError>)
        ensures
            match r {
                Ok(()) => old(self)@.initialize(admin, signers@) == Ok::<RegistryView, RegistryError>(
                    final(self)@,
                ),
                Err(e) => old(self)@.initialize(admin, signers@) == Err::<RegistryView, RegistryError>(
                    e,
                ) && final(self)@ == old(self)@,
            },
    {
        if self.admin.is_some() {
            return Err(RegistryError::AlreadyInitialized);
        }
        if !is_signer(signers, admin) {
            return Err(RegistryError::Unauthorized);
        }
        self.admin = Some(admin);
        self.paused = false;
        Ok(())
    }

    /// Set (or replace) the vault contract address (admin only); `clear_vault` clears it.
    pub fn set_vault(&mut self, vault: Addr, signers: &Vec<Addr>) -> (r: Result<(), RegistryError>)
        ensures
            match r {
                Ok(()) => old(self)@.set_vault(vault, signers@) == Ok::<RegistryView, RegistryError>(
                    final(self)@,
                ),
                Err(e) => old(self)@.set_vault(vault, signers@) == Err::<RegistryView, RegistryError>(
                    e,
                ) && final(self)@ == old(self)@,
            },
    {
        match self.authorised_admin(signers) {
            Err(e) => Err(e),
            Ok(_) => {
                self.vault = Some(vault);
                Ok(())
            },
        }
    }

    /// Clear the vault contract address (admin only).
    pub fn clear_vault(&mut self, signers: &Vec<Addr>) -> (r: Result<(), RegistryError>)
        ensures
            match r {
                Ok(()) => old(self)@.clear_vault(signers@) == Ok::<RegistryView, RegistryError>(
                    final(self)@,
                ),
                Err(e) => old(self)@.clear_vault(signers@) == Err::<RegistryView, RegistryError>(e)
                    && final(self)@ == old(self)@,
            },
    {
        match self.authorised_admin(signers) {
            Err(e) => Err(e),
            Ok(_) => {
                self.vault = None;
                Ok(())
            },
        }
    }

    /// Pause the registry (admin only): no calls can be created or staked on.
    pub fn pause(&mut self, signers: &Vec<Addr>) -> (r: Result<(), RegistryError>)
        ensures
            match r {
                Ok(()) => old(self)@.set_paused(true, signers@) == Ok::<RegistryView, RegistryError>(
                    final(self)@,
                ),
                Err(e) => old(self)@.set_paused(true, signers@) == Err::<RegistryView, RegistryError>(
                    e,
                ) && final(self)@ == old(self)@,
            },
    {
        match self.authorised_admin(signers) {
            Err(e) => Err(e),
            Ok(_) => {
                self.paused = true;
                Ok(())
            },
        }
    }

    /// Unpause the registry (admin only).
    pub fn unpause(&mut self, signers: &Vec<Addr>) -> (r: Result<(), RegistryError>)
        ensures
            match r {
                Ok(()) => old(self)@.set_paused(false, signers@) == Ok::<RegistryView, RegistryError>(
                    final(self)@,
                ),
                Err(e) => old(self)@.set_paused(false, signers@) == Err::<RegistryView, RegistryError>(
                    e,
                ) && final(self)@ == old(self)@,
            },
    {
        match self.authorised_admin(signers) {
            Err(e) => Err(e),
            Ok(_) => {
                self.paused = false;
                Ok(())
            },
        }
    }

    /// Whether the registry is paused.
    pub fn get_is_paused(&self) -> (r: bool)
        ensures
            r == self@.paused,
    {
        self.paused
    }

    /// Create a new prediction call; the creator's stake is collected and deposited in
    /// the vault (if configured). Returns the new call's id.
    pub fn create_call(
        &mut self,
        creator: Addr,
        stake_token: Addr,
        stake_amount: i128,
        end_ts: u64,
        metadata: CreateCallMetadata,
        now: u64,
        signers: &Vec<Addr>,
    ) -> (r: Result<(u64, Vec<Effect>), RegistryError>)
        ensures
            match r {
                Ok((call_id, effects)) => old(self)@.create_call(
                    creator,
                    stake_token,
                    stake_amount,
                    end_ts,
                    metadata,
                    now,
                    signers@,
                ) == Ok::<(RegistryView, u64, Seq<Effect>), RegistryError>(
                    (final(self)@, call_id, effects@),
                ),
                Err(e) => old(self)@.create_call(
                    creator,
                    stake_token,
                    stake_amount,
                    end_ts,
                    metadata,
                    now,
                    signers@,
                ) == Err::<(RegistryView, u64, Seq<Effect>), RegistryError>(e) && final(self)@ == old(
                    self,
                )@,
            },
    {
        let ghost pre = self@;
        let ghost md = metadata;
        if self.paused {
            return Err(RegistryError::Paused);
        }
        if !is_signer(signers, creator) {
            return Err(RegistryError::Unauthorized);
        }
        if end_ts <= now {
            return Err(RegistryError::EndTimeNotInFuture);
        }
        if stake_amount <= 0 {
            return Err(RegistryError::StakeNotPositive);
        }
        let call_id: u64 = self.calls.len() as u64;
        if call_id == u64::MAX {
            return Err(RegistryError::ArithmeticOverflow);
        }
        let mut effects: Vec<Effect> = Vec::new();
        effects.push(Effect::Collect { token: stake_token, from: creator, amount: stake_amount });
        self.push_vault_deposit(&mut effects, stake_token, stake_amount);
        let event = Event::CallCreated {
            call_id,
            creator,
            stake_token,
            stake_amount,
            start_ts: now,
            end_ts,
            token_address: metadata.token_address,
            pair_id: metadata.pair_id,
            ipfs_cid: metadata.ipfs_cid.clone(),
        };
        effects.push(Effect::Emit(event));
        let call = Call {
            creator,
            stake_token,
            total_stake_yes: stake_amount,
            total_stake_no: 0,
            start_ts: now,
            end_ts,
            token_address: metadata.token_address,
            pair_id: metadata.pair_id,
            ipfs_cid: metadata.ipfs_cid,
            settled: false,
            outcome: false,
            final_price: 0,
            vault_balance: stake_amount,
            participant_count: 1,
        };
        self.calls.push(call);
        set_stake(&mut self.stakes, StakeKey { call_id, user: creator, position: true }, stake_amount);
        proof {
            let expected = pre.create_call(
                creator,
                stake_token,
                stake_amount,
                end_ts,
                md,
                now,
                signers@,
            )->Ok_0;
            assert(effects@ =~= expected.2);
            assert(self@ =~= expected.0);
        }
        Ok((call_id, effects))
    }

    /// Stake on an existing call. A surge fee based on the call's participant count
    /// goes to the platform fees; the net stake is deposited in the vault (if configured).
    pub fn stake_on_call(
        &mut self,
        call_id: u64,
        staker: Addr,
        amount: i128,
        position: bool,
        now: u64,
        signers: &Vec<Addr>,
    ) -> (r: Result<Vec<Effect>, RegistryError>)
        ensures
            match r {
                Ok(effects) => old(self)@.stake_on_call(call_id, staker, amount, position, now, signers@)
                    == Ok::<(RegistryView, Seq<Effect>), RegistryError>((final(self)@, effects@)),
                Err(e) => old(self)@.stake_on_call(call_id, staker, amount, position, now, signers@)
                    == Err::<(RegistryView, Seq<Effect>), RegistryError>(e) && final(self)@ == old(
                    self,
                )@,
            },
    {
        let ghost pre = self@;
        if self.paused {
            return Err(RegistryError::Paused);
        }
        if !is_signer(signers, staker) {
            return Err(RegistryError::Unauthorized);
        }
        if call_id >= self.calls.len() as u64 {
            return Err(RegistryError::CallNotFound);
        }
        let idx = call_id as usize;
        let call = &self.calls[idx];
        let stake_token = call.stake_token;
        let end_ts = call.end_ts;
        let settled = call.settled;
        let count = call.participant_count;
        let yes = call.total_stake_yes;
        let no = call.total_stake_no;
        let vault_balance = call.vault_balance;
        if now >= end_ts {
            return Err(RegistryError::CallEnded);
        }
        if settled {
            return Err(RegistryError::CallSettled);
        }
        if amount <= 0 {
            return Err(RegistryError::AmountNotPositive);
        }
        let bps = compute_fee_basis_points(count);
        proof {
            crate::fees::lemma_fee_bps_bounded_and_monotonic(count as int, count as int);
        }
        let product = match amount.checked_mul(bps) {
            Some(p) => p,
            None => return Err(RegistryError::ArithmeticOverflow),
        };
        let fee = product / BPS_DENOMINATOR;
        assert(0 <= fee <= amount) by (nonlinear_arith)
            requires
                product == amount * bps,
                fee == product / 10_000,
                amount > 0,
                50 <= bps <= 200,
        ;
        let net = amount - fee;
        let key = StakeKey { call_id, user: staker, position };
        let current: i128 = match lookup_stake(&self.stakes, key) {
            Some(a) => a,
            None => 0,
        };
        let joins = lookup_stake(&self.stakes, StakeKey { call_id, user: staker, position: true }).is_none()
            && lookup_stake(&self.stakes, StakeKey { call_id, user: staker, position: false }).is_none();
        let fees = if fee > 0 {
            match self.platform_fees.checked_add(fee) {
                Some(f) => f,
                None => return Err(RegistryError::ArithmeticOverflow),
            }
        } else {
            self.platform_fees
        };
        let new_yes = if position {
            match yes.checked_add(net) {
                Some(v) => v,
                None => return Err(RegistryError::ArithmeticOverflow),
            }
        } else {
            yes
        };
        let new_no = if position {
            no
        } else {
            match no.checked_add(net) {
                Some(v) => v,
                None => return Err(RegistryError::ArithmeticOverflow),
            }
        };
        let new_vault = match vault_balance.checked_add(net) {
            Some(v) => v,
            None => return Err(RegistryError::ArithmeticOverflow),
        };
        let new_count = if joins {
            match count.checked_add(1) {
                Some(c) => c,
                None => return Err(RegistryError::ArithmeticOverflow),
            }
        } else {
            count
        };
        let new_stake = match current.checked_add(net) {
            Some(v) => v,
            None => return Err(RegistryError::ArithmeticOverflow),
        };
        let mut effects: Vec<Effect> = Vec::new();
        effects.push(Effect::Collect { token: stake_token, from: staker, amount });
        self.push_vault_deposit(&mut effects, stake_token, net);
        effects.push(
            Effect::Emit(
                Event::StakeAdded { call_id, staker, position, net_amount: net, fee, fee_bps: bps },
            ),
        );
        self.platform_fees = fees;
        self.calls[idx].total_stake_yes = new_yes;
        self.calls[idx].total_stake_no = new_no;
        self.calls[idx].vault_balance = new_vault;
        self.calls[idx].participant_count = new_count;
        set_stake(&mut self.stakes, key, new_stake);
        proof {
            let expected = pre.stake_on_call(call_id, staker, amount, position, now, signers@)->Ok_0;
            assert(effects@ =~= expected.1);
            assert(self@.calls =~= expected.0.calls);
            assert(self@ =~= expected.0);
        }
        Ok(effects)
    }

    /// Withdraw the payout of a winning stake on a settled call: the stake plus its
    /// proportional share of the losers' pool, taken out of the vault (if configured).
    #[verifier::rlimit(40)]
    pub fn withdraw_payout(&mut self, call_id: u64, user: Addr, position: bool, signers: &Vec<Addr>) -> (r:
        Result<Vec<Effect>, RegistryError>)
        ensures
            match r {
                Ok(effects) => old(self)@.withdraw_payout(call_id, user, position, signers@) == Ok::<
                    (RegistryView, Seq<Effect>),
                    RegistryError,
                >((final(self)@, effects@)),
                Err(e) => old(self)@.withdraw_payout(call_id, user, position, signers@) == Err::<
                    (RegistryView, Seq<Effect>),
                    RegistryError,
                >(e) && final(self)@ == old(self)@,
            },
    {
        let ghost pre = self@;
        if !is_signer(signers, user) {
            return Err(RegistryError::Unauthorized);
        }
        if call_id >= self.calls.len() as u64 {
            return Err(RegistryError::CallNotFound);
        }
        let idx = call_id as usize;
        let call = &self.calls[idx];
        let stake_token = call.stake_token;
        let settled = call.settled;
        let outcome = call.outcome;
        let yes = call.total_stake_yes;
        let no = call.total_stake_no;
        let vault_balance = call.vault_balance;
        if !settled {
            return Err(RegistryError::CallNotSettled);
        }
        if outcome != position {
            return Err(RegistryError::NotOnWinningSide);
        }
        let key = StakeKey { call_id, user, position };
        let user_stake = match lookup_stake(&self.stakes, key) {
            Some(a) => a,
            None => return Err(RegistryError::NoStakeFound),
        };
        if user_stake == 0 {
            return Err(RegistryError::NothingToWithdraw);
        }
        let winners_pool = if position {
            yes
        } else {
            no
        };
        let losers_pool = if position {
            no
        } else {
            yes
        };
        let product = match user_stake.checked_mul(losers_pool) {
            Some(p) => p,
            None => return Err(RegistryError::ArithmeticOverflow),
        };
        let share = match product.checked_div(winners_pool) {
            Some(q) => q,
            None => return Err(RegistryError::ArithmeticOverflow),
        };
        let payout = match user_stake.checked_add(share) {
            Some(p) => p,
            None => return Err(RegistryError::ArithmeticOverflow),
        };
        let new_vault = match vault_balance.checked_sub(payout) {
            Some(v) => v,
            None => return Err(RegistryError::ArithmeticOverflow),
        };
        let mut effects: Vec<Effect> = Vec::new();
        self.push_vault_withdraw(&mut effects, payout);
        effects.push(Effect::Pay { token: stake_token, to: user, amount: payout });
        effects.push(Effect::Emit(Event::PayoutWithdrawn { call_id, user, payout }));
        self.calls[idx].vault_balance = new_vault;
        set_stake(&mut self.stakes, key, 0);
        proof {
            let expected = pre.withdraw_payout(call_id, user, position, signers@)->Ok_0;
            assert(effects@ =~= expected.1);
            assert(self@.calls =~= expected.0.calls);
            assert(self@ =~= expected.0);
        }
        Ok(effects)
    }

    /// Settle a call that has ended with `outcome` and `final_price`. A gas fee of
    /// 0.5 % of the losers' pool is deducted from that pool, withdrawn from the vault
    /// (if configured) and paid to the caller.
    pub fn finalize_call(
        &mut self,
        call_id: u64,
        outcome: bool,
        final_price: i128,
        caller: Addr,
        now: u64,
        signers: &Vec<Addr>,
    ) -> (r: Result<Vec<Effect>, RegistryError>)
        ensures
            match r {
                Ok(effects) => old(self)@.finalize_call(call_id, outcome, final_price, caller, now, signers@)
                    == Ok::<(RegistryView, Seq<Effect>), RegistryError>((final(self)@, effects@)),
                Err(e) => old(self)@.finalize_call(call_id, outcome, final_price, caller, now, signers@)
                    == Err::<(RegistryView, Seq<Effect>), RegistryError>(e) && final(self)@ == old(
                    self,
                )@,
            },
    {
        let ghost pre = self@;
        if !is_signer(signers, caller) {
            return Err(RegistryError::Unauthorized);
        }
        if call_id >= self.calls.len() as u64 {
            return Err(RegistryError::CallNotFound);
        }
        let idx = call_id as usize;
        let call = &self.calls[idx];
        let stake_token = call.stake_token;
        let settled = call.settled;
        let end_ts = call.end_ts;
        let yes = call.total_stake_yes;
        let no = call.total_stake_no;
        let vault_balance = call.vault_balance;
        if settled {
            return Err(RegistryError::CallAlreadySettled);
        }
        if now < end_ts {
            return Err(RegistryError::CallNotEnded);
        }
        let losers_pool = if outcome {
            no
        } else {
            yes
        };
        let product = match losers_pool.checked_mul(5) {
            Some(p) => p,
            None => return Err(RegistryError::ArithmeticOverflow),
        };
        let gas_fee = match product.checked_div(1000) {
            Some(g) => g,
            None => return Err(RegistryError::ArithmeticOverflow),
        };
        let mut effects: Vec<Effect> = Vec::new();
        if gas_fee > 0 {
            let new_vault = match vault_balance.checked_sub(gas_fee) {
                Some(v) => v,
                None => return Err(RegistryError::ArithmeticOverflow),
            };
            let new_losers = match losers_pool.checked_sub(gas_fee) {
                Some(v) => v,
                None => return Err(RegistryError::ArithmeticOverflow),
            };
            self.push_vault_withdraw(&mut effects, gas_fee);
            effects.push(Effect::Pay { token: stake_token, to: caller, amount: gas_fee });
            assert(effects@ =~= pre.vault_withdraw(gas_fee) + seq![
                Effect::Pay { token: stake_token, to: caller, amount: gas_fee },
            ]);
            self.calls[idx].vault_balance = new_vault;
            if outcome {
                self.calls[idx].total_stake_no = new_losers;
            } else {
                self.calls[idx].total_stake_yes = new_losers;
            }
        }
        self.calls[idx].settled = true;
        self.calls[idx].outcome = outcome;
        self.calls[idx].final_price = final_price;
        effects.push(
            Effect::Emit(Event::CallFinalized { call_id, caller, outcome, final_price, gas_fee }),
        );
        proof {
            assert(gas_fee as int == crate::model::gas_fee(losers_pool as int));
            let expected = pre.finalize_call(call_id, outcome, final_price, caller, now, signers@)->Ok_0;
            assert(effects@ =~= expected.1);
            assert(self@.calls =~= expected.0.calls);
            assert(self@ =~= expected.0);
        }
        Ok(effects)
    }

    /// Distribute the accumulated platform fees among `stakers`, given as
    /// (address, governance-token weight) pairs, in proportion to their weights
    /// (admin only). Shares round toward zero; only positive shares are paid, in
    /// `stake_token`; the accumulated fees then reset to zero.
    pub fn distribute_dividends(
        &mut self,
        stake_token: Addr,
        stakers: &Vec<(Addr, i128)>,
        signers: &Vec<Addr>,
    ) -> (r: Result<Vec<Effect>, RegistryError>)
        ensures
            match r {
                Ok(effects) => old(self)@.distribute_dividends(stake_token, stakers@, signers@) == Ok::<
                    (RegistryView, Seq<Effect>),
                    RegistryError,
                >((final(self)@, effects@)),
                Err(e) => old(self)@.distribute_dividends(stake_token, stakers@, signers@) == Err::<
                    (RegistryView, Seq<Effect>),
                    RegistryError,
                >(e) && final(self)@ == old(self)@,
            },
    {
        let ghost pre = self@;
        match self.authorised_admin(signers) {
            Err(e) => return Err(e),
            Ok(_) => {},
        }
        let total_fees = self.platform_fees;
        if total_fees == 0 {
            return Err(RegistryError::NoFeesToDistribute);
        }
        let mut total_weight: i128 = 0;
        let mut i: usize = 0;
        while i < stakers.len()
            invariant
                i <= stakers.len(),
                total_weight == weight_sum(stakers@.take(i as int)),
                weight_sums_fit(stakers@.take(i as int)),
                self@ == pre,
                pre.authorised_admin(signers@) is Ok,
                total_fees == pre.platform_fees,
                total_fees != 0,
            decreases stakers.len() - i,
        {
            assert(stakers@.take(i + 1).drop_last() =~= stakers@.take(i as int));
            let (_, weight) = stakers[i];
            match total_weight.checked_add(weight) {
                Some(t) => {
                    total_weight = t;
                },
                None => {
                    proof {
                        let prefix = stakers@.take(i + 1);
                        assert(prefix.last() == stakers@[i as int]);
                        assert(weight_sum(prefix) == total_weight + weight);
                        if weight_sums_fit(stakers@) {
                            crate::model::lemma_weight_sums_fit_prefix(stakers@, i + 1);
                        }
                        assert(!weight_sums_fit(stakers@));
                    }
                    return Err(RegistryError::ArithmeticOverflow);
                },
            }
            i = i + 1;
        }
        assert(stakers@.take(stakers@.len() as int) =~= stakers@);
        if total_weight == 0 {
            return Err(RegistryError::TotalWeightZero);
        }
        let mut effects: Vec<Effect> = Vec::new();
        let mut k: usize = 0;
        while k < stakers.len()
            invariant
                k <= stakers.len(),
                total_weight == weight_sum(stakers@),
                total_weight != 0,
                total_fees == pre.platform_fees,
                total_fees != 0,
                weight_sums_fit(stakers@),
                self@ == pre,
                pre.authorised_admin(signers@) is Ok,
                effects@ == dividend_payments(
                    stakers@.take(k as int),
                    stake_token,
                    total_fees as int,
                    total_weight as int,
                ),
                shares_fit(stakers@.take(k as int), total_fees as int, total_weight as int),
            decreases stakers.len() - k,
        {
            let ghost prefix = stakers@.take(k + 1);
            assert(prefix.drop_last() =~= stakers@.take(k as int));
            assert(prefix.last() == stakers@[k as int]);
            let (holder, weight) = stakers[k];
            let product = match total_fees.checked_mul(weight) {
                Some(p) => p,
                None => {
                    assert(!share_fits(stakers@, k as int, total_fees as int, total_weight as int));
                    return Err(RegistryError::ArithmeticOverflow);
                },
            };
            let share = match product.checked_div(total_weight) {
                Some(q) => q,
                None => {
                    assert(!share_fits(stakers@, k as int, total_fees as int, total_weight as int));
                    return Err(RegistryError::ArithmeticOverflow);
                },
            };
            if share > 0 {
                effects.push(Effect::Pay { token: stake_token, to: holder, amount: share });
            }
            assert(shares_fit(prefix, total_fees as int, total_weight as int)) by {
                assert forall|j: int| 0 <= j < prefix.len() implies share_fits(prefix, j, total_fees as int, total_weight as int) by {
                    if j < k {
                        assert(prefix[j] == stakers@.take(k as int)[j]);
                        assert(share_fits(stakers@.take(k as int), j, total_fees as int, total_weight as int));
                    }
                }
            }
            k = k + 1;
        }
        assert(stakers@.take(stakers@.len() as int) =~= stakers@);
        effects.push(Effect::Emit(Event::DividendsDistributed { total_fees, total_weight }));
        self.platform_fees = 0;
        proof {
            let expected = pre.distribute_dividends(stake_token, stakers@, signers@)->Ok_0;
            assert(effects@ =~= expected.1);
            assert(self@ =~= expected.0);
        }
        Ok(effects)
    }

    /// The call with id `call_id`.
    pub fn get_call(&self, call_id: u64) -> (r: Result<&Call, RegistryError>)
        ensures
            match r {
                Ok(call) => call_id < self@.calls.len() && *call == self@.calls[call_id as int],
                Err(e) => call_id >= self@.calls.len() && e == RegistryError::CallNotFound,
            },
    {
        if call_id >= self.calls.len() as u64 {
            return Err(RegistryError::CallNotFound);
        }
        Ok(&self.calls[call_id as usize])
    }

    /// The stake `user` holds on side `position` of call `call_id`; 0 where none is recorded.
    pub fn get_user_stake(&self, call_id: u64, user: Addr, position: bool) -> (r: i128)
        ensures
            r == self@.user_stake(call_id, user, position),
    {
        match lookup_stake(&self.stakes, StakeKey { call_id, user, position }) {
            Some(a) => a,
            None => 0,
        }
    }

    /// The platform fees accumulated and not yet distributed.
    pub fn get_platform_fees(&self) -> (r: i128)
        ensures
            r == self@.platform_fees,
    {
        self.platform_fees
    }

    /// The surge fee, in basis points, that the next stake on call `call_id` pays.
    pub fn get_fee_basis_points(&self, call_id: u64) -> (r: Result<i128, RegistryError>)
        ensures
            match r {
                Ok(bps) => call_id < self@.calls.len() && bps == fee_bps(
                    self@.calls[call_id as int].participant_count as int,
                ),
                Err(e) => call_id >= self@.calls.len() && e == RegistryError::CallNotFound,
            },
    {
        if call_id >= self.calls.len() as u64 {
            return Err(RegistryError::CallNotFound);
        }
        Ok(compute_fee_basis_points(self.calls[call_id as usize].participant_count))
    }
}

} // verus!
