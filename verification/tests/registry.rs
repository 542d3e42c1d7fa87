use std::collections::HashMap;

use call_registry::{
    compute_fee_basis_points, Addr, CallRegistry, CreateCallMetadata, Effect, Event, RegistryError,
};

/// The registry's own account on the token ledger.
const CONTRACT: Addr = Addr(1_000_000);

/// A small host: token balances, the ledger time and the published events.
struct Host {
    now: u64,
    balances: HashMap<(Addr, Addr), i128>,
    events: Vec<Event>,
    next_addr: u64,
}

impl Host {
    fn new() -> Self {
        Host { now: 0, balances: HashMap::new(), events: Vec::new(), next_addr: 1 }
    }

    fn generate(&mut self) -> Addr {
        let a = Addr(self.next_addr);
        self.next_addr += 1;
        a
    }

    fn mint(&mut self, token: Addr, to: Addr, amount: i128) {
        *self.balances.entry((token, to)).or_insert(0) += amount;
    }

    fn balance(&self, token: Addr, of: Addr) -> i128 {
        *self.balances.get(&(token, of)).unwrap_or(&0)
    }

    fn transfer(&mut self, token: Addr, from: Addr, to: Addr, amount: i128) {
        let have = self.balance(token, from);
        assert!(have >= amount, "insufficient balance");
        self.balances.insert((token, from), have - amount);
        self.mint(token, to, amount);
    }

    fn apply(&mut self, effects: Vec<Effect>) {
        for effect in effects {
            match effect {
                Effect::Collect { token, from, amount } => self.transfer(token, from, CONTRACT, amount),
                Effect::Pay { token, to, amount } => self.transfer(token, CONTRACT, to, amount),
                Effect::VaultDeposit { .. } | Effect::VaultWithdraw { .. } => {},
                Effect::Emit(event) => self.events.push(event),
            }
        }
    }
}

fn setup_env() -> (Host, CallRegistry, Addr, Addr, Addr) {
    let mut host = Host::new();
    let mut registry = CallRegistry::new();
    let admin = host.generate();
    registry.initialize(admin, &vec![admin]).unwrap();

    let stake_token = host.generate();
    let creator = host.generate();
    host.mint(stake_token, creator, 10_000);

    (host, registry, admin, stake_token, creator)
}

fn default_metadata(host: &mut Host) -> CreateCallMetadata {
    CreateCallMetadata {
        token_address: host.generate(),
        pair_id: [0; 32],
        ipfs_cid: String::from("QmHash"),
    }
}

fn create(
    host: &mut Host,
    registry: &mut CallRegistry,
    creator: Addr,
    stake_token: Addr,
    amount: i128,
    end_ts: u64,
) -> u64 {
    let metadata = default_metadata(host);
    let (call_id, effects) = registry
        .create_call(creator, stake_token, amount, end_ts, metadata, host.now, &vec![creator])
        .unwrap();
    host.apply(effects);
    call_id
}

fn stake(host: &mut Host, registry: &mut CallRegistry, call_id: u64, staker: Addr, amount: i128, position: bool) {
    let effects = registry.stake_on_call(call_id, staker, amount, position, host.now, &vec![staker]).unwrap();
    host.apply(effects);
}

#[test]
fn test_create_call() {
    let mut host = Host::new();
    let mut registry = CallRegistry::new();
    let admin = host.generate();
    registry.initialize(admin, &vec![admin]).unwrap();

    let creator = host.generate();
    let stake_token = host.generate();
    host.mint(stake_token, creator, 1000);

    let end_ts = host.now + 1000;
    let call_id = create(&mut host, &mut registry, creator, stake_token, 100, end_ts);

    assert_eq!(call_id, 0);
    let call = registry.get_call(call_id).unwrap();
    assert_eq!(call.creator, creator);
    assert_eq!(call.total_stake_yes, 100);
    assert_eq!(call.total_stake_no, 0);
    assert_eq!(call.participant_count, 1);

    let stake = registry.get_user_stake(call_id, creator, true);
    assert_eq!(stake, 100);

    assert_eq!(host.balance(stake_token, creator), 900);
    assert_eq!(host.balance(stake_token, CONTRACT), 100);

    let last_event = host.events.last().unwrap();
    assert!(matches!(last_event, Event::CallCreated { .. }));
}

#[test]
fn test_stake_on_call() {
    let mut host = Host::new();
    let mut registry = CallRegistry::new();
    let admin = host.generate();
    registry.initialize(admin, &vec![admin]).unwrap();

    let creator = host.generate();
    let staker = host.generate();
    let stake_token = host.generate();
    host.mint(stake_token, creator, 1000);
    host.mint(stake_token, staker, 1000);

    let end_ts = host.now + 1000;
    let call_id = create(&mut host, &mut registry, creator, stake_token, 100, end_ts);

    stake(&mut host, &mut registry, call_id, staker, 1000, false);

    let call = registry.get_call(call_id).unwrap();
    assert_eq!(call.total_stake_yes, 100);
    // 50 bp fee on 1000 = 5; net = 995
    assert_eq!(call.total_stake_no, 995);
    assert_eq!(call.participant_count, 2);
}

#[test]
fn test_create_call_past_end_time() {
    let (mut host, mut registry, _admin, stake_token, creator) = setup_env();
    let metadata = default_metadata(&mut host);
    let r = registry.create_call(creator, stake_token, 100, host.now, metadata, host.now, &vec![creator]);
    assert_eq!(r.unwrap_err(), RegistryError::EndTimeNotInFuture);
}

#[test]
fn test_stake_ended_call() {
    let mut host = Host::new();
    let mut registry = CallRegistry::new();
    let admin = host.generate();
    registry.initialize(admin, &vec![admin]).unwrap();

    let creator = host.generate();
    let staker = host.generate();
    let stake_token = host.generate();
    host.mint(stake_token, creator, 1000);
    host.mint(stake_token, staker, 1000);

    let end_ts = host.now + 100;
    let call_id = create(&mut host, &mut registry, creator, stake_token, 100, end_ts);
    host.now = end_ts + 1;
    let r = registry.stake_on_call(call_id, staker, 50, false, host.now, &vec![staker]);
    assert_eq!(r.unwrap_err(), RegistryError::CallEnded);
}

#[test]
fn test_create_call_paused() {
    let (mut host, mut registry, admin, stake_token, creator) = setup_env();
    registry.pause(&vec![admin]).unwrap();
    let metadata = default_metadata(&mut host);
    let r = registry.create_call(creator, stake_token, 100, host.now + 1000, metadata, host.now, &vec![creator]);
    assert_eq!(r.unwrap_err(), RegistryError::Paused);
}

#[test]
fn test_pause_unpause_flow() {
    let mut host = Host::new();
    let mut registry = CallRegistry::new();
    let admin = host.generate();
    registry.initialize(admin, &vec![admin]).unwrap();
    assert!(!registry.get_is_paused());

    let creator = host.generate();
    let staker = host.generate();
    let stake_token = host.generate();
    host.mint(stake_token, creator, 1000);
    host.mint(stake_token, staker, 1000);

    let end_ts = host.now + 1000;
    let call_id = create(&mut host, &mut registry, creator, stake_token, 100, end_ts);

    registry.pause(&vec![admin]).unwrap();
    assert!(registry.get_is_paused());
    registry.unpause(&vec![admin]).unwrap();
    assert!(!registry.get_is_paused());

    stake(&mut host, &mut registry, call_id, staker, 50, false);
}

#[test]
fn test_pause_requires_admin_auth() {
    let mut host = Host::new();
    let mut registry = CallRegistry::new();
    let admin = host.generate();
    registry.initialize(admin, &vec![admin]).unwrap();

    let attacker = host.generate();
    assert_eq!(registry.pause(&vec![attacker]), Err(RegistryError::Unauthorized));
    assert!(!registry.get_is_paused());
}

#[test]
fn test_unpause_requires_admin_auth() {
    let mut host = Host::new();
    let mut registry = CallRegistry::new();
    let admin = host.generate();
    registry.initialize(admin, &vec![admin]).unwrap();
    registry.pause(&vec![admin]).unwrap();

    let attacker = host.generate();
    assert_eq!(registry.unpause(&vec![attacker]), Err(RegistryError::Unauthorized));
    assert!(registry.get_is_paused());
}

#[test]
fn test_surge_fee_basis_points() {
    // 0 participants → 50 bp
    assert_eq!(compute_fee_basis_points(0), 50);
    // 10 participants → 55 bp
    assert_eq!(compute_fee_basis_points(10), 55);
    // 100 participants → 100 bp
    assert_eq!(compute_fee_basis_points(100), 100);
    // 300 participants → capped at 200 bp
    assert_eq!(compute_fee_basis_points(300), 200);
    // 1000 participants → still capped at 200 bp
    assert_eq!(compute_fee_basis_points(1000), 200);
}

#[test]
fn surge_fee_on_a_large_stake_is_half_a_percent() {
    let mut host = Host::new();
    let mut registry = CallRegistry::new();
    let admin = host.generate();
    registry.initialize(admin, &vec![admin]).unwrap();

    let creator = host.generate();
    let staker = host.generate();
    let stake_token = host.generate();
    host.mint(stake_token, creator, 10_000);
    host.mint(stake_token, staker, 10_000);

    let end_ts = host.now + 1000;
    let call_id = create(&mut host, &mut registry, creator, stake_token, 100, end_ts);

    // participant_count = 1 → fee_bps = 50; stake 10_000 → fee = 50, net = 9_950
    stake(&mut host, &mut registry, call_id, staker, 10_000, false);

    let call = registry.get_call(call_id).unwrap();
    assert_eq!(call.total_stake_no, 9_950);
    assert_eq!(call.participant_count, 2);

    // Platform fees should have accumulated
    let fees = registry.get_platform_fees();
    assert_eq!(fees, 50);
}

#[test]
fn test_get_fee_basis_points() {
    let mut host = Host::new();
    let mut registry = CallRegistry::new();
    let admin = host.generate();
    registry.initialize(admin, &vec![admin]).unwrap();

    let creator = host.generate();
    let stake_token = host.generate();
    host.mint(stake_token, creator, 1000);

    let end_ts = host.now + 1000;
    let call_id = create(&mut host, &mut registry, creator, stake_token, 100, end_ts);

    // 1 participant → 50 bp
    assert_eq!(registry.get_fee_basis_points(call_id), Ok(50));
}

#[test]
fn dividends_split_by_weight() {
    let mut host = Host::new();
    let mut registry = CallRegistry::new();
    let admin = host.generate();
    registry.initialize(admin, &vec![admin]).unwrap();

    let creator = host.generate();
    let staker = host.generate();
    let stake_token = host.generate();
    host.mint(stake_token, creator, 10_000);
    host.mint(stake_token, staker, 10_000);

    let end_ts = host.now + 1000;
    let call_id = create(&mut host, &mut registry, creator, stake_token, 100, end_ts);

    // Stake to generate fees: 10_000 * 50bp / 10_000 = 50 fee
    stake(&mut host, &mut registry, call_id, staker, 10_000, false);
    assert_eq!(registry.get_platform_fees(), 50);

    let holder_a = host.generate();
    let holder_b = host.generate();

    // Distribute: holder_a has weight 3, holder_b has weight 2 → total 5
    // holder_a gets 50 * 3/5 = 30, holder_b gets 50 * 2/5 = 20
    let stakers = vec![(holder_a, 3i128), (holder_b, 2i128)];
    let effects = registry.distribute_dividends(stake_token, &stakers, &vec![admin]).unwrap();
    host.apply(effects);

    assert_eq!(host.balance(stake_token, holder_a), 30);
    assert_eq!(host.balance(stake_token, holder_b), 20);
    assert_eq!(registry.get_platform_fees(), 0);
}

#[test]
fn test_distribute_dividends_no_fees() {
    let (mut host, mut registry, admin, stake_token, _creator) = setup_env();
    let holder = host.generate();
    let stakers = vec![(holder, 1i128)];
    let r = registry.distribute_dividends(stake_token, &stakers, &vec![admin]);
    assert_eq!(r.unwrap_err(), RegistryError::NoFeesToDistribute);
}

// ── Further scenarios ────────────────────────────────────────────────────────

fn two_sided_call(yes: i128, no: i128) -> (Host, CallRegistry, Addr, Addr, Addr, Addr, u64) {
    let (mut host, mut registry, admin, stake_token, creator) = setup_env();
    let staker = host.generate();
    host.mint(stake_token, staker, 10_000);
    let call_id = create(&mut host, &mut registry, creator, stake_token, yes, 100);
    stake(&mut host, &mut registry, call_id, staker, no, false);
    (host, registry, admin, stake_token, creator, staker, call_id)
}

#[test]
fn winner_withdraws_stake_plus_losers_pool() {
    let (mut host, mut registry, _admin, stake_token, creator, staker, call_id) = two_sided_call(100, 1000);
    assert_eq!(registry.get_call(call_id).unwrap().total_stake_no, 995);
    let caller = host.generate();
    host.now = 100;
    // losers' pool 100 → gas fee 100 * 5 / 1000 = 0
    let effects = registry.finalize_call(call_id, false, 42, caller, host.now, &vec![caller]).unwrap();
    host.apply(effects);
    let call = registry.get_call(call_id).unwrap();
    assert!(call.settled);
    assert!(!call.outcome);
    assert_eq!(call.final_price, 42);
    assert_eq!(host.balance(stake_token, caller), 0);

    let before = host.balance(stake_token, staker);
    let effects = registry.withdraw_payout(call_id, staker, false, &vec![staker]).unwrap();
    host.apply(effects);
    // 995 + 995 * 100 / 995 = 1095
    assert_eq!(host.balance(stake_token, staker) - before, 1095);
    assert_eq!(registry.get_call(call_id).unwrap().vault_balance, 0);
    assert_eq!(registry.get_user_stake(call_id, staker, false), 0);
    assert!(matches!(host.events.last(), Some(Event::PayoutWithdrawn { payout: 1095, .. })));

    assert_eq!(
        registry.withdraw_payout(call_id, staker, false, &vec![staker]).unwrap_err(),
        RegistryError::NothingToWithdraw
    );
    assert_eq!(
        registry.withdraw_payout(call_id, creator, true, &vec![creator]).unwrap_err(),
        RegistryError::NotOnWinningSide
    );
    assert_eq!(
        registry.withdraw_payout(call_id, creator, false, &vec![creator]).unwrap_err(),
        RegistryError::NoStakeFound
    );
}

#[test]
fn gas_fee_comes_out_of_the_losers_pool_and_payouts_stay_covered() {
    let (mut host, mut registry, _admin, stake_token, _creator, staker, call_id) = two_sided_call(1000, 100);
    // 100 at 50 bp → fee 0, net 100
    assert_eq!(registry.get_call(call_id).unwrap().total_stake_no, 100);
    assert_eq!(registry.get_call(call_id).unwrap().vault_balance, 1100);
    let caller = host.generate();
    host.now = 100;
    let effects = registry.finalize_call(call_id, false, 7, caller, host.now, &vec![caller]).unwrap();
    host.apply(effects);
    // losers' pool 1000 → gas fee 5, paid to the caller and taken out of that pool
    assert_eq!(host.balance(stake_token, caller), 5);
    let call = registry.get_call(call_id).unwrap();
    assert_eq!(call.total_stake_yes, 995);
    assert_eq!(call.vault_balance, 1095);
    assert!(matches!(host.events.last(), Some(Event::CallFinalized { gas_fee: 5, .. })));

    let effects = registry.withdraw_payout(call_id, staker, false, &vec![staker]).unwrap();
    host.apply(effects);
    // 100 + 100 * 995 / 100 = 1095: exactly what the call holds
    assert_eq!(registry.get_call(call_id).unwrap().vault_balance, 0);
    assert_eq!(host.balance(stake_token, CONTRACT), 0);
}

#[test]
fn finalize_rules() {
    let (mut host, mut registry, _admin, _stake_token, _creator, _staker, call_id) = two_sided_call(100, 1000);
    let caller = host.generate();
    assert_eq!(
        registry.finalize_call(call_id, true, 1, caller, 99, &vec![caller]).unwrap_err(),
        RegistryError::CallNotEnded
    );
    assert_eq!(
        registry.finalize_call(call_id, true, 1, caller, 100, &vec![]).unwrap_err(),
        RegistryError::Unauthorized
    );
    assert_eq!(
        registry.finalize_call(9, true, 1, caller, 100, &vec![caller]).unwrap_err(),
        RegistryError::CallNotFound
    );
    host.now = 100;
    registry.finalize_call(call_id, true, 1, caller, host.now, &vec![caller]).unwrap();
    assert_eq!(
        registry.finalize_call(call_id, false, 2, caller, host.now, &vec![caller]).unwrap_err(),
        RegistryError::CallAlreadySettled
    );
    let staker = host.generate();
    assert_eq!(
        registry.stake_on_call(call_id, staker, 10, true, 50, &vec![staker]).unwrap_err(),
        RegistryError::CallSettled
    );
}

#[test]
fn withdraw_before_settlement_is_refused() {
    let (_host, mut registry, _admin, _stake_token, _creator, staker, call_id) = two_sided_call(100, 1000);
    assert_eq!(
        registry.withdraw_payout(call_id, staker, false, &vec![staker]).unwrap_err(),
        RegistryError::CallNotSettled
    );
    assert_eq!(
        registry.withdraw_payout(call_id, staker, false, &vec![]).unwrap_err(),
        RegistryError::Unauthorized
    );
    assert_eq!(
        registry.withdraw_payout(5, staker, false, &vec![staker]).unwrap_err(),
        RegistryError::CallNotFound
    );
}

#[test]
fn participants_are_counted_once() {
    let (mut host, mut registry, _admin, stake_token, creator, staker, call_id) = two_sided_call(100, 1000);
    assert_eq!(registry.get_call(call_id).unwrap().participant_count, 2);
    host.mint(stake_token, creator, 1000);
    stake(&mut host, &mut registry, call_id, creator, 100, false);
    stake(&mut host, &mut registry, call_id, staker, 100, true);
    assert_eq!(registry.get_call(call_id).unwrap().participant_count, 2);
    let third = host.generate();
    host.mint(stake_token, third, 1000);
    stake(&mut host, &mut registry, call_id, third, 100, true);
    assert_eq!(registry.get_call(call_id).unwrap().participant_count, 3);
    assert_eq!(registry.get_user_stake(call_id, creator, false), 100);
    assert_eq!(registry.get_user_stake(call_id, creator, true), 100);
}

#[test]
fn surge_fee_grows_with_participants() {
    let (mut host, mut registry, _admin, stake_token, creator) = setup_env();
    let call_id = create(&mut host, &mut registry, creator, stake_token, 100, 1000);
    for _ in 0..9 {
        let s = host.generate();
        host.mint(stake_token, s, 10_000);
        stake(&mut host, &mut registry, call_id, s, 1, true);
    }
    assert_eq!(registry.get_call(call_id).unwrap().participant_count, 10);
    assert_eq!(registry.get_fee_basis_points(call_id), Ok(55));
    let s = host.generate();
    host.mint(stake_token, s, 10_000);
    let fees_before = registry.get_platform_fees();
    stake(&mut host, &mut registry, call_id, s, 10_000, false);
    // 10_000 * 55 / 10_000 = 55
    assert_eq!(registry.get_platform_fees() - fees_before, 55);
    assert_eq!(registry.get_user_stake(call_id, s, false), 9_945);
    assert!(matches!(host.events.last(), Some(Event::StakeAdded { fee: 55, fee_bps: 55, net_amount: 9_945, .. })));
}

#[test]
fn create_and_stake_refusals() {
    let (mut host, mut registry, _admin, stake_token, creator) = setup_env();
    let md = default_metadata(&mut host);
    assert_eq!(
        registry.create_call(creator, stake_token, 0, 10, md.clone(), 0, &vec![creator]).unwrap_err(),
        RegistryError::StakeNotPositive
    );
    assert_eq!(
        registry.create_call(creator, stake_token, 10, 10, md.clone(), 0, &vec![]).unwrap_err(),
        RegistryError::Unauthorized
    );
    let call_id = create(&mut host, &mut registry, creator, stake_token, 100, 1000);
    assert_eq!(
        registry.stake_on_call(call_id, creator, 0, true, 0, &vec![creator]).unwrap_err(),
        RegistryError::AmountNotPositive
    );
    assert_eq!(
        registry.stake_on_call(call_id + 1, creator, 5, true, 0, &vec![creator]).unwrap_err(),
        RegistryError::CallNotFound
    );
    assert_eq!(
        registry.stake_on_call(call_id, creator, i128::MAX, true, 0, &vec![creator]).unwrap_err(),
        RegistryError::ArithmeticOverflow
    );
    assert_eq!(registry.get_call(call_id + 1).unwrap_err(), RegistryError::CallNotFound);
    assert_eq!(registry.get_fee_basis_points(call_id + 1), Err(RegistryError::CallNotFound));
    // a refused stake changes nothing
    assert_eq!(registry.get_call(call_id).unwrap().total_stake_yes, 100);
    assert_eq!(registry.get_platform_fees(), 0);
}

#[test]
fn admin_rules() {
    let mut registry = CallRegistry::new();
    let admin = Addr(1);
    let other = Addr(2);
    assert_eq!(registry.pause(&vec![admin]), Err(RegistryError::AdminNotSet));
    assert_eq!(registry.initialize(admin, &vec![other]), Err(RegistryError::Unauthorized));
    registry.initialize(admin, &vec![admin]).unwrap();
    assert_eq!(registry.initialize(other, &vec![other]), Err(RegistryError::AlreadyInitialized));
    assert_eq!(registry.set_vault(Addr(9), &vec![other]), Err(RegistryError::Unauthorized));
    registry.set_vault(Addr(9), &vec![admin]).unwrap();
    assert_eq!(registry.vault, Some(Addr(9)));
}

#[test]
fn vault_receives_net_stakes_and_returns_payouts() {
    let (mut host, mut registry, admin, stake_token, creator) = setup_env();
    let vault = host.generate();
    registry.set_vault(vault, &vec![admin]).unwrap();
    let md = default_metadata(&mut host);
    let (call_id, effects) =
        registry.create_call(creator, stake_token, 100, 50, md, 0, &vec![creator]).unwrap();
    assert!(matches!(effects[0], Effect::Collect { amount: 100, .. }));
    assert!(matches!(effects[1], Effect::VaultDeposit { amount: 100, vault: v, .. } if v == vault));
    let effects = registry.stake_on_call(call_id, creator, 1000, true, 0, &vec![creator]).unwrap();
    assert!(matches!(effects[1], Effect::VaultDeposit { amount: 995, .. }));
    let effects = registry.finalize_call(call_id, true, 0, creator, 50, &vec![creator]).unwrap();
    assert_eq!(effects.len(), 1);
    let effects = registry.withdraw_payout(call_id, creator, true, &vec![creator]).unwrap();
    assert!(matches!(effects[0], Effect::VaultWithdraw { amount: 1095, .. }));
    assert!(matches!(effects[1], Effect::Pay { amount: 1095, .. }));
}

#[test]
fn dividend_refusals_and_rounding() {
    let (mut host, mut registry, admin, stake_token, creator, _staker, _call_id) = two_sided_call(100, 1000);
    assert_eq!(registry.get_platform_fees(), 5);
    let a = host.generate();
    let b = host.generate();
    assert_eq!(
        registry.distribute_dividends(stake_token, &vec![(a, 1)], &vec![creator]).unwrap_err(),
        RegistryError::Unauthorized
    );
    assert_eq!(
        registry.distribute_dividends(stake_token, &vec![(a, 1), (b, -1)], &vec![admin]).unwrap_err(),
        RegistryError::TotalWeightZero
    );
    assert_eq!(
        registry.distribute_dividends(stake_token, &vec![(a, i128::MAX), (b, 1)], &vec![admin]).unwrap_err(),
        RegistryError::ArithmeticOverflow
    );
    // 5 * 1 / 3 = 1 and 5 * 2 / 3 = 3, rounded down; one unit stays undistributed
    let effects = registry.distribute_dividends(stake_token, &vec![(a, 1), (b, 2)], &vec![admin]).unwrap();
    host.apply(effects);
    assert_eq!(host.balance(stake_token, a), 1);
    assert_eq!(host.balance(stake_token, b), 3);
    assert_eq!(registry.get_platform_fees(), 0);
    assert!(matches!(host.events.last(), Some(Event::DividendsDistributed { total_fees: 5, total_weight: 3 })));
}

#[test]
fn every_winner_is_paid_from_what_the_call_holds() {
    let (mut host, mut registry, _admin, stake_token, creator) = setup_env();
    let call_id = create(&mut host, &mut registry, creator, stake_token, 333, 100);
    let mut winners = Vec::new();
    for amount in [1_000i128, 777, 5_001] {
        let w = host.generate();
        host.mint(stake_token, w, 10_000);
        stake(&mut host, &mut registry, call_id, w, amount, false);
        winners.push(w);
    }
    let loser = host.generate();
    host.mint(stake_token, loser, 10_000);
    stake(&mut host, &mut registry, call_id, loser, 9_000, true);
    let caller = host.generate();
    let effects = registry.finalize_call(call_id, false, 0, caller, 100, &vec![caller]).unwrap();
    host.apply(effects);
    for w in winners {
        let effects = registry.withdraw_payout(call_id, w, false, &vec![w]).unwrap();
        host.apply(effects);
        assert!(registry.get_call(call_id).unwrap().vault_balance >= 0);
    }
    // The registry never paid out more than it had collected for the call, less fees.
    assert!(host.balance(stake_token, CONTRACT) >= registry.get_platform_fees());
}

#[test]
fn vault_can_be_cleared_by_the_admin_only() {
    let (mut host, mut registry, admin, stake_token, creator) = setup_env();
    let vault = host.generate();
    registry.set_vault(vault, &vec![admin]).unwrap();
    assert_eq!(registry.clear_vault(&vec![creator]), Err(RegistryError::Unauthorized));
    assert_eq!(registry.vault, Some(vault));
    registry.clear_vault(&vec![admin]).unwrap();
    assert_eq!(registry.vault, None);
    let md = default_metadata(&mut host);
    let (_, effects) = registry.create_call(creator, stake_token, 100, 50, md, 0, &vec![creator]).unwrap();
    // no vault: the stake is collected and the call announced, nothing is deposited
    assert_eq!(effects.len(), 2);
    assert!(matches!(effects[1], Effect::Emit(Event::CallCreated { .. })));
    let mut fresh = CallRegistry::new();
    assert_eq!(fresh.clear_vault(&vec![admin]), Err(RegistryError::AdminNotSet));
}

#[test]
fn settlement_persists_through_later_operations() {
    let (mut host, mut registry, admin, stake_token, creator, staker, call_id) = two_sided_call(1000, 100);
    let caller = host.generate();
    host.now = 100;
    let effects = registry.finalize_call(call_id, false, 9, caller, host.now, &vec![caller]).unwrap();
    host.apply(effects);
    let reserve = registry.get_call(call_id).unwrap().vault_balance;
    // later operations: another call, stakes on it, a refused re-finalization, a payout
    let other = create(&mut host, &mut registry, creator, stake_token, 100, 1_000);
    stake(&mut host, &mut registry, other, staker, 500, true);
    registry.pause(&vec![admin]).unwrap();
    registry.unpause(&vec![admin]).unwrap();
    assert_eq!(
        registry.finalize_call(call_id, true, 1, caller, 200, &vec![caller]).unwrap_err(),
        RegistryError::CallAlreadySettled
    );
    let effects = registry.withdraw_payout(call_id, staker, false, &vec![staker]).unwrap();
    host.apply(effects);
    let call = registry.get_call(call_id).unwrap();
    assert!(call.settled);
    assert!(!call.outcome);
    assert_eq!(call.final_price, 9);
    assert_eq!(call.total_stake_yes, 995);
    assert_eq!(call.total_stake_no, 100);
    // 1095 was owed and paid: the reserve dropped by exactly that
    assert_eq!(reserve - call.vault_balance, 1095);
    assert_eq!(call.vault_balance, 0);
}

#[test]
fn participant_count_is_distinct_stakers() {
    let (mut host, mut registry, _admin, stake_token, creator) = setup_env();
    let call_id = create(&mut host, &mut registry, creator, stake_token, 100, 1_000);
    let a = host.generate();
    let b = host.generate();
    host.mint(stake_token, a, 1_000);
    host.mint(stake_token, b, 1_000);
    for (who, side) in [(a, true), (a, true), (b, false), (a, false), (creator, false), (b, true)] {
        stake(&mut host, &mut registry, call_id, who, 10, side);
    }
    // creator, a and b
    assert_eq!(registry.get_call(call_id).unwrap().participant_count, 3);
}
